use mquote::expand::{expand, Env};
use mquote::parse::parse;
use mquote::tokens::{Delimiter, Group, Ident, Literal, Punct, Spacing, Span, TokenStream, TokenTree};

fn convert(ts: proc_macro2::TokenStream, span: Span) -> TokenStream {
    let mut out = TokenStream::new();
    for tt in ts {
        let t = match tt {
            proc_macro2::TokenTree::Ident(i) => TokenTree::Ident(Ident::new(&i.to_string(), span)),
            proc_macro2::TokenTree::Punct(p) => {
                let spacing = match p.spacing() {
                    proc_macro2::Spacing::Joint => Spacing::Joint,
                    proc_macro2::Spacing::Alone => Spacing::Alone,
                };
                let mut q = Punct::new(p.as_char(), spacing);
                q.set_span(span);
                TokenTree::Punct(q)
            }
            proc_macro2::TokenTree::Literal(l) => TokenTree::Literal(Literal::new(&l.to_string(), span)),
            proc_macro2::TokenTree::Group(g) => {
                let d = match g.delimiter() {
                    proc_macro2::Delimiter::Parenthesis => Delimiter::Parenthesis,
                    proc_macro2::Delimiter::Brace => Delimiter::Brace,
                    proc_macro2::Delimiter::Bracket => Delimiter::Bracket,
                    proc_macro2::Delimiter::None => Delimiter::Invisible,
                };
                let mut group = Group::new(d, convert(g.stream(), span));
                group.set_span(span);
                TokenTree::Group(group)
            }
        };
        out.push(t);
    }
    out
}

fn lex(s: &str) -> TokenStream {
    convert(s.parse().unwrap(), Span::call_site())
}

fn mquote_spanned(span: Span, template: &str, env: &Env) -> TokenStream {
    let q = match parse(lex(template)) {
        Ok(q) => q,
        Err(e) => panic!("parse error: {}", e.message()),
    };
    match expand(&q, env, span) {
        Ok(ts) => ts,
        Err(e) => panic!("unbound: {}", e.expression),
    }
}

fn assert_span_of_tokens(token_stream: TokenStream, should_be: Span) {
    for token in token_stream.0 {
        assert_span_of_token(token, should_be)
    }
}

fn assert_span_of_token(token: TokenTree, should_be: Span) {
    match token {
        TokenTree::Group(group) => {
            assert!(group.span().eq(&should_be));
            for token in group.stream().0 {
                assert_span_of_token(token, should_be)
            }
        }
        token => assert!(token.span().eq(&should_be)),
    }
}

#[test]
fn spanned_simplest() {
    let span = Span::call_site();
    let mut env = Env::new();
    env.bind_flag("true", true);
    let q = mquote_spanned(span, "#{if true} \"abc\" #{else} 123 #{endif}", &env);
    assert_eq!(q.to_string(), "\"abc\"");
}

#[test]
fn spanned_term() {
    let call_site = Span::call_site();
    let different_span = Span::different();
    assert!(!call_site.eq(&different_span))
}

#[test]
fn spanned_insertion() {
    let span = Span::different();
    let mut ident = TokenStream::new();
    ident.push(TokenTree::Ident(Ident::new("abc", span)));
    let mut env = Env::new();
    env.bind_tokens("ident", ident);
    let q = mquote_spanned(span, "#{ident}", &env);
    assert_span_of_tokens(q, span);
}

#[test]
fn spanned_if() {
    let span = Span::different();
    let mut env = Env::new();
    env.bind_flag("a > 1", true);
    let q = mquote_spanned(span, "#{if a > 1} 1 #{elif a == 0} 0 #{else} -1 #{endif}", &env);
    assert_eq!(q.to_string(), "1");
    assert_span_of_tokens(q, span);
}

#[test]
fn spanned_escaping() {
    let span = Span::different();
    let q = mquote_spanned(span, "#{{ident}}", &Env::new());
    assert_eq!(q.to_string(), "# { ident }");
    assert_span_of_tokens(q, span);
}

#[test]
fn spanned_nested() {
    let span = Span::different();
    let mut ident = TokenStream::new();
    ident.push(TokenTree::Ident(Ident::new("abc", span)));
    let mut env = Env::new();
    env.bind_flag("2 + 2 == 5", false);
    env.bind_tokens("ident", ident);
    let q = mquote_spanned(
        span,
        "{
        #{if 2 + 2 == 5}
            123
        #{else}
            { let b = #{ident}; b * 2 }
        #{endif}
    }",
        &env,
    );
    assert_eq!(q.to_string(), "{ { let b = abc ; b * 2 } }");
    assert_span_of_tokens(q, span);
}
