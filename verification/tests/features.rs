use mquote::expand::{expand, Env};
use mquote::parse::parse;
use mquote::tokens::{Delimiter, Group, Ident, Literal, Punct, Spacing, Span, TokenStream, TokenTree};

fn convert(ts: proc_macro2::TokenStream, span: Span) -> TokenStream {
    let mut out = TokenStream::new();
    for tt in ts {
        let t = match tt {
            proc_macro2::TokenTree::Ident(i) => TokenTree::Ident(Ident::new(&i.to_string(), span)),
            proc_macro2::TokenTree::Punct(p) => {
                let spacing = match p.spacing() {
                    proc_macro2::Spacing::Joint => Spacing::Joint,
                    proc_macro2::Spacing::Alone => Spacing::Alone,
                };
                let mut q = Punct::new(p.as_char(), spacing);
                q.set_span(span);
                TokenTree::Punct(q)
            }
            proc_macro2::TokenTree::Literal(l) => TokenTree::Literal(Literal::new(&l.to_string(), span)),
            proc_macro2::TokenTree::Group(g) => {
                let d = match g.delimiter() {
                    proc_macro2::Delimiter::Parenthesis => Delimiter::Parenthesis,
                    proc_macro2::Delimiter::Brace => Delimiter::Brace,
                    proc_macro2::Delimiter::Bracket => Delimiter::Bracket,
                    proc_macro2::Delimiter::None => Delimiter::Invisible,
                };
                let mut group = Group::new(d, convert(g.stream(), span));
                group.set_span(span);
                TokenTree::Group(group)
            }
        };
        out.push(t);
    }
    out
}

fn lex(s: &str) -> TokenStream {
    convert(s.parse().unwrap(), Span::call_site())
}

fn mquote(template: &str, env: &Env) -> TokenStream {
    let q = match parse(lex(template)) {
        Ok(q) => q,
        Err(e) => panic!("parse error: {}", e.message()),
    };
    match expand(&q, env, Span::call_site()) {
        Ok(ts) => ts,
        Err(e) => panic!("unbound: {}", e.expression),
    }
}

#[test]
fn if_branches() {
    let mut env = Env::new();
    env.bind_flag("cond", true);
    env.bind_tokens("a", lex("6i32"));
    let q = mquote("1i32 + #{if cond} #{a} #{else} 2i32 #{endif} + 3i32", &env);
    assert_eq!(q.to_string(), "1i32 + 6i32 + 3i32");

    let mut env = Env::new();
    env.bind_flag("cond", false);
    env.bind_tokens("a", lex("6i32"));
    let q = mquote("1i32 + #{if cond} #{a} #{else} 2i32 #{endif} + 3i32", &env);
    assert_eq!(q.to_string(), "1i32 + 2i32 + 3i32");

    let mut env = Env::new();
    env.bind_tokens("a", lex("1i32"));
    env.bind_tokens("b", lex("2i32"));
    env.bind_tokens("c", lex("3i32"));
    env.bind_flag("n > 6", false);
    env.bind_flag("n > 3", true);
    let q = mquote(
        "
        #{if n > 6}
            #{a}
        #{elif n > 3}
            #{b}
        #{else}
            #{c}
        #{endif}
    ",
        &env,
    );
    assert_eq!(q.to_string(), "2i32");
}

#[test]
fn for_expr() {
    let mut rounds = Vec::new();
    for name in ["ident1", "ident2", "ident3", "ident4"] {
        let mut round = Env::new();
        let mut ts = TokenStream::new();
        ts.push(TokenTree::Ident(Ident::new(name, Span::call_site())));
        round.bind_tokens("ident", ts);
        rounds.push(round);
    }
    let mut env = Env::new();
    env.bind_rounds("ident in idents", rounds);
    let q = mquote(
        "
        #{for ident in idents}
            #{ident}
        #{endfor}
    ",
        &env,
    );
    assert_eq!(q.to_string(), "ident1 ident2 ident3 ident4");
}

#[test]
fn match_expr() {
    let mut binds = Env::new();
    binds.bind_tokens("s", lex("\"abc\""));
    let mut env = Env::new();
    env.bind_arm("& a", 1, binds);
    let q = mquote(
        r#"
        #{match &a}
            #{of Some(s) if s.is_empty()}
                "empty case"
            #{of Some(s)}
                #{s}
            #{of None}
                "default value"
        #{endmatch}
    "#,
        &env,
    );
    assert_eq!(q.to_string(), "\"abc\"");
}

#[test]
fn escaping() {
    let q = mquote("#{{123}}", &Env::new());
    assert_eq!(q.to_string(), "# { 123 }");
}

#[test]
fn insertion_via_expression() {
    let mut env = Env::new();
    env.bind_tokens("pair . 0", lex("1i32"));
    env.bind_tokens("pair . 1", lex("\"abc\""));
    env.bind_tokens("foo (12)", lex("24i64"));
    let q = mquote("#{pair.0} #{pair.1} #{foo(12)}", &env);
    assert_eq!(q.to_string(), "1i32 \"abc\" 24i64");
}

#[test]
fn insertion_via_variable_with_corresponding_name_to_used_in_expanded_macro() {
    let mut env = Env::new();
    for name in ["i", "p", "s", "inner_stream", "insertion", "token_stream"] {
        env.bind_tokens(name, lex("\"test_str\""));
    }
    let q = mquote("#{i} #{p} #{s} #{inner_stream} #{insertion} #{token_stream}", &env);
    assert_eq!(
        q.to_string(),
        "\"test_str\" \"test_str\" \"test_str\" \"test_str\" \"test_str\" \"test_str\""
    );
}

#[test]
fn using_same_variable_twice() {
    let mut env = Env::new();
    env.bind_tokens("str", lex("\"123\""));
    let q = mquote("#{str} #{str}", &env);
    assert_eq!(q.to_string(), "\"123\" \"123\"");
}

#[test]
fn nesting_if() {
    let mut env = Env::new();
    env.bind_flag("2 + 2 == 4", true);
    let q = mquote(
        "{
        #{if 2 + 2 == 4}
            { 123 }
        #{endif}
    }",
        &env,
    );
    assert_eq!(q.to_string(), "{ { 123 } }");
}
