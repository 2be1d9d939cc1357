use mquote::mquote as mquote_code;
use mquote::tokens::{Delimiter, Group, Ident, Literal, LiteralValue, Punct, Spacing, Span, TokenStream, TokenTree};

fn convert(ts: proc_macro2::TokenStream, span: Span) -> TokenStream {
    let mut out = TokenStream::new();
    for tt in ts {
        let t = match tt {
            proc_macro2::TokenTree::Ident(i) => TokenTree::Ident(Ident::new(&i.to_string(), span)),
            proc_macro2::TokenTree::Punct(p) => {
                let spacing = match p.spacing() {
                    proc_macro2::Spacing::Joint => Spacing::Joint,
                    proc_macro2::Spacing::Alone => Spacing::Alone,
                };
                let mut q = Punct::new(p.as_char(), spacing);
                q.set_span(span);
                TokenTree::Punct(q)
            }
            proc_macro2::TokenTree::Literal(l) => TokenTree::Literal(Literal::new(&l.to_string(), span)),
            proc_macro2::TokenTree::Group(g) => {
                let d = match g.delimiter() {
                    proc_macro2::Delimiter::Parenthesis => Delimiter::Parenthesis,
                    proc_macro2::Delimiter::Brace => Delimiter::Brace,
                    proc_macro2::Delimiter::Bracket => Delimiter::Bracket,
                    proc_macro2::Delimiter::None => Delimiter::Invisible,
                };
                let mut group = Group::new(d, convert(g.stream(), span));
                group.set_span(span);
                TokenTree::Group(group)
            }
        };
        out.push(t);
    }
    out
}

fn lex(s: &str) -> TokenStream {
    convert(s.parse().unwrap(), Span::call_site())
}


const OPEN: &str = "{ let mut token_stream = :: mquote :: __rt :: proc_macro2 :: TokenStream :: new () ; ";
const CLOSE: &str = "token_stream }";

fn code(template: &str) -> String {
    mquote_code(lex(template)).to_string()
}

/// The code that appends the tokens of the value of `expr`, borrowing it.
fn ins(expr: &str) -> String {
    format!(
        "{{ let ref insertion = {} ; :: mquote :: __rt :: quote :: ToTokens :: to_tokens (insertion , & mut token_stream) ; }}",
        expr
    )
}

#[test]
fn generated_code_for_if_elif_else_chain() {
    let text = code("#{if n > 6} #{a} #{elif n > 3} #{b} #{else} #{c} #{endif}");
    let expected = format!(
        "{}if n > 6 {{ {} }} else {{ if n > 3 {{ {} }} else {{ {} }} }} {}",
        OPEN,
        ins("a"),
        ins("b"),
        ins("c"),
        CLOSE
    );
    assert_eq!(text, expected);
}

#[test]
fn generated_code_for_if_without_else() {
    let text = code("#{if cond} #{a} #{endif}");
    assert_eq!(text, format!("{}if cond {{ {} }} else {{ }} {}", OPEN, ins("a"), CLOSE));
}

#[test]
fn generated_code_for_for_loop() {
    let text = code("#{for ident in idents} #{ident} #{endfor}");
    assert_eq!(text, format!("{}for ident in idents {{ {} }} {}", OPEN, ins("ident"), CLOSE));
}

#[test]
fn generated_code_for_match_arms() {
    let text = code("#{match &a} #{of Some(s) if s.is_empty()} #{e} #{of Some(s)} #{s} #{of None} #{d} #{endmatch}");
    let expected = format!(
        "{}match & a {{ Some (s) if s . is_empty () => {{ {} }} Some (s) => {{ {} }} None => {{ {} }} }} {}",
        OPEN,
        ins("e"),
        ins("s"),
        ins("d"),
        CLOSE
    );
    assert_eq!(text, expected);
}

#[test]
fn generated_code_for_escaped_group() {
    let text = code("#{{123}}");
    assert!(text.starts_with(OPEN));
    assert!(text.contains(":: mquote :: __rt :: proc_macro2 :: Punct :: new ('#' , :: mquote :: __rt :: proc_macro2 :: Spacing :: Alone)"));
    assert!(text.contains(":: mquote :: __rt :: proc_macro2 :: Delimiter :: Brace"));
    assert!(text.contains("\"123\" . parse ()"));
    assert!(!text.contains("insertion"));
}

#[test]
fn generated_code_for_expression_insertions() {
    let text = code("#{pair.0} #{pair.1} #{foo(12)}");
    let expected = format!("{}{} {} {} {}", OPEN, ins("pair . 0"), ins("pair . 1"), ins("foo (12)"), CLOSE);
    assert_eq!(text, expected);
}

#[test]
fn generated_code_for_names_used_by_the_generated_code() {
    let text = code("#{i} #{insertion} #{token_stream}");
    let expected = format!("{}{} {} {} {}", OPEN, ins("i"), ins("insertion"), ins("token_stream"), CLOSE);
    assert_eq!(text, expected);
}

#[test]
fn generated_code_borrows_a_variable_inserted_twice() {
    let text = code("#{str} #{str}");
    assert_eq!(text, format!("{}{} {} {}", OPEN, ins("str"), ins("str"), CLOSE));
    assert_eq!(text.matches("let ref insertion = str ;").count(), 2);
}

#[test]
fn generated_code_for_if_inside_a_group() {
    let text = code("{ #{if 2 + 2 == 4} { 123 } #{endif} }");
    assert!(text.contains("if 2 + 2 == 4 {"));
    assert!(text.contains(":: mquote :: __rt :: proc_macro2 :: Delimiter :: Brace"));
    assert!(text.contains("\"123\" . parse ()"));
}

#[test]
fn string_literal_holds_its_value() {
    let lit = Literal::string("a\"b\\c\n");
    assert!(matches!(&lit.value, LiteralValue::Str(v) if v == "a\"b\\c\n"));
    assert_eq!(lit.text(), "\"a\\\"b\\\\c\\n\"");
    assert!(lit.span().eq(&Span::call_site()));
    assert_eq!(Literal::string("it's").text(), "\"it's\"");
}

#[test]
fn character_literal_holds_its_value() {
    assert!(matches!(Literal::character('x').value, LiteralValue::Char('x')));
    assert_eq!(Literal::character('x').text(), "'x'");
    assert_eq!(Literal::character('\'').text(), "'\\''");
    assert_eq!(Literal::character('"').text(), "'\"'");
    assert_eq!(Literal::character('\n').text(), "'\\n'");
}

#[test]
fn source_literal_keeps_its_text() {
    let lit = Literal::new("1u8", Span(3));
    assert!(matches!(&lit.value, LiteralValue::Source(t) if t == "1u8"));
    assert_eq!(lit.text(), "1u8");
}
