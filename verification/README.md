# mquote

A quasi-quoting template language for Rust token streams, verified with Verus.

A template is a token stream with tags:

- `#{expr}` inserts the tokens of an expression's value, `^{iter}` the token trees an iterable yields;
- `#{if c} .. #{elif c} .. #{else} .. #{endif}` chooses a branch;
- `#{for pat in iter} .. #{endfor}` repeats its body;
- `#{match e} #{of pat} .. #{endmatch}` takes an arm;
- `#{{..}}` and `^{{..}}` stand for themselves.

## Layout

- `src/tokens.rs`: the token model (spans, identifiers, punctuation, literals, groups) and its text; a literal holds its source text, or the value of a string or character literal that the library builds.
- `src/language.rs`: parsed templates.
- `src/parse_spec.rs`, `src/parse.rs`: the parser, a stack machine over the events of a token stream, and its specification.
- `src/compile.rs`: the Rust code that builds the stream a template describes.
- `src/expand.rs`: the meaning of a template as an interpreter, given the values of its expressions; the laws are proved of it. That the generated code behaves the same when it runs rests on Rust's semantics and is not proved; `tests/generated.rs` checks the generated code for the templates of the feature tests.
- `src/error.rs`: parse errors and the `compile_error!` call that reports them.
- `src/intermediate.rs`: fresh variable names.
- `src/laws.rs`: properties of templates as a whole, proved.
- `src/__rt.rs`: the crates that generated code refers to as `::mquote::__rt`.
- `app/lib.rs`: the macro bodies over `proc_macro2`: conversion of tokens both ways; string and character literals that the library holds by value become `proc_macro2::Literal::string` / `character`.
