use mquote::error::Error;
use mquote::tokens::ToTokens;
use mquote::expand::{expand, Env};
use mquote::intermediate::{BindWith, IdentGenerator};
use mquote::language::{QTokens, TokenTreeQ};
use mquote::parse::{parse, parse_spanned, Context};
use mquote::{mquote as mquote_code, mquote_spanned as mquote_spanned_code};
use mquote::tokens::{Delimiter, Group, Ident, Literal, Punct, Spacing, Span, TokenStream, TokenTree};

fn convert(ts: proc_macro2::TokenStream, span: Span) -> TokenStream {
    let mut out = TokenStream::new();
    for tt in ts {
        let t = match tt {
            proc_macro2::TokenTree::Ident(i) => TokenTree::Ident(Ident::new(&i.to_string(), span)),
            proc_macro2::TokenTree::Punct(p) => {
                let spacing = match p.spacing() {
                    proc_macro2::Spacing::Joint => Spacing::Joint,
                    proc_macro2::Spacing::Alone => Spacing::Alone,
                };
                let mut q = Punct::new(p.as_char(), spacing);
                q.set_span(span);
                TokenTree::Punct(q)
            }
            proc_macro2::TokenTree::Literal(l) => TokenTree::Literal(Literal::new(&l.to_string(), span)),
            proc_macro2::TokenTree::Group(g) => {
                let d = match g.delimiter() {
                    proc_macro2::Delimiter::Parenthesis => Delimiter::Parenthesis,
                    proc_macro2::Delimiter::Brace => Delimiter::Brace,
                    proc_macro2::Delimiter::Bracket => Delimiter::Bracket,
                    proc_macro2::Delimiter::None => Delimiter::Invisible,
                };
                let mut group = Group::new(d, convert(g.stream(), span));
                group.set_span(span);
                TokenTree::Group(group)
            }
        };
        out.push(t);
    }
    out
}

fn lex(s: &str) -> TokenStream {
    convert(s.parse().unwrap(), Span::call_site())
}

fn mquote(template: &str, env: &Env) -> TokenStream {
    let q = match parse(lex(template)) {
        Ok(q) => q,
        Err(e) => panic!("parse error: {}", e.message()),
    };
    match expand(&q, env, Span::call_site()) {
        Ok(ts) => ts,
        Err(e) => panic!("unbound: {}", e.expression),
    }
}


fn parse_err(template: &str) -> Error {
    match parse(lex(template)) {
        Ok(_) => panic!("expected a parse error"),
        Err(e) => e,
    }
}

fn with_span(s: &str, span: Span) -> TokenStream {
    convert(s.parse().unwrap(), span)
}

#[test]
fn escaping_both_markers() {
    let q = mquote("#{{abc}} ^{{abc}}", &Env::new());
    assert_eq!(q.to_string(), "# { abc } ^ { abc }");
}

#[test]
fn extending_inserts_the_yielded_trees() {
    let mut env = Env::new();
    env.bind_tokens("tail", lex("h e l l o"));
    let q = mquote("let _ = [ ^{tail} ]", &env);
    assert_eq!(q.to_string(), "let _ = [h e l l o]");
}

#[test]
fn template_without_tags_is_itself_at_requested_span() {
    let span = Span::different();
    let template = parse(lex("fn f(x: u8) -> u8 { x + 1 }")).ok().unwrap();
    assert_eq!(template.len(), 7);
    let out = expand(&template, &Env::new(), span).ok().unwrap();
    assert_eq!(out.to_string(), "fn f (x : u8) -> u8 { x + 1 }");
    for t in out.0.iter() {
        assert!(t.span().eq(&span));
    }
}

#[test]
fn if_chain_takes_first_true_branch() {
    let mut env = Env::new();
    env.bind_flag("a", false);
    env.bind_flag("b", true);
    env.bind_flag("c", true);
    let q = mquote("#{if a} 1 #{elif b} 2 #{elif c} 3 #{else} 4 #{endif}", &env);
    assert_eq!(q.to_string(), "2");
    let mut env = Env::new();
    env.bind_flag("a", false);
    env.bind_flag("b", false);
    env.bind_flag("c", false);
    let q = mquote("#{if a} 1 #{elif b} 2 #{elif c} 3 #{else} 4 #{endif}", &env);
    assert_eq!(q.to_string(), "4");
    let mut env = Env::new();
    env.bind_flag("a", false);
    let q = mquote("x #{if a} 1 #{endif} y", &env);
    assert_eq!(q.to_string(), "x y");
}

#[test]
fn for_loop_with_nested_groups_and_outer_bindings() {
    let mut rounds = Vec::new();
    for v in ["1", "2"] {
        let mut round = Env::new();
        round.bind_tokens("v", lex(v));
        rounds.push(round);
    }
    let mut env = Env::new();
    env.bind_rounds("v in vs", rounds);
    env.bind_tokens("sep", lex(";"));
    let q = mquote("#{for v in vs} ( #{v} ) #{sep} #{endfor}", &env);
    assert_eq!(q.to_string(), "(1) ; (2) ;");
}

#[test]
fn unbound_expression_is_reported() {
    let template = parse(lex("a #{missing.field} b")).ok().unwrap();
    match expand(&template, &Env::new(), Span::call_site()) {
        Ok(_) => panic!("expected an error"),
        Err(e) => assert_eq!(e.expression, "missing . field"),
    }
    let template = parse(lex("#{if c} a #{endif}")).ok().unwrap();
    let mut env = Env::new();
    env.bind_tokens("c", lex("1"));
    match expand(&template, &env, Span::call_site()) {
        Ok(_) => panic!("expected an error"),
        Err(e) => assert_eq!(e.expression, "c"),
    }
}

#[test]
fn match_arm_out_of_range_is_reported() {
    let template = parse(lex("#{match x} #{of _} 1 #{endmatch}")).ok().unwrap();
    let mut env = Env::new();
    env.bind_arm("x", 3, Env::new());
    match expand(&template, &env, Span::call_site()) {
        Ok(_) => panic!("expected an error"),
        Err(e) => assert_eq!(e.expression, "x"),
    }
}

#[test]
fn error_elif_outside_if() {
    let e = parse_err("1 #{elif x} 2");
    assert_eq!(e.message(), "elif is only acceptable in context of #{if ...} ... #{endif}");
}

#[test]
fn error_else_outside_if() {
    let e = parse_err("#{for x in y} #{else} #{endfor}");
    assert_eq!(e.message(), "else is only acceptable in context of #{if ...} ... #{endif}");
}

#[test]
fn error_duplicated_else() {
    let e = parse_err("#{if a} 1 #{else} 2 #{else} 3 #{endif}");
    assert_eq!(e.message(), "duplicated else branch");
}

#[test]
fn error_of_outside_match() {
    let e = parse_err("#{of Some(x)} 1");
    assert_eq!(e.message(), "of is only acceptable in context of #{match ...} ... #{endmatch}");
}

#[test]
fn error_tokens_between_match_and_of() {
    let span = Span(7);
    let mut input = lex("#{match Some(1)}");
    input.extend(with_span("unexpected stuff", span));
    input.extend(lex("#{of Some(x)} #{x} #{of None} 0 #{endmatch}"));
    match parse(input) {
        Ok(_) => panic!("expected an error"),
        Err(e) => {
            assert_eq!(e.message(), "unexpected tokens between #{match ...} and #{of ...}");
            assert!(e.span_s.eq(&span));
        }
    }
}

#[test]
fn error_endif_on_other_level() {
    let e = parse_err("#{if a} ( #{endif} )");
    assert_eq!(
        e.message(),
        "#{if .. } is on different nesting level from #{endif}, that is not permitted"
    );
}

#[test]
fn error_expected_other_closing_tag() {
    let e = parse_err("#{for x in y} #{endif}");
    assert_eq!(e.message(), "expected endfor, got endif");
    let e = parse_err("#{if a} #{endmatch}");
    assert_eq!(e.message(), "expected endif, got endmatch");
}

#[test]
fn error_unexpected_closing_tag() {
    let e = parse_err("1 #{endif}");
    assert_eq!(e.message(), "unexpected endif");
    let e = parse_err("#{if a} [ #{endfor} ] #{endif}");
    assert_eq!(e.message(), "unexpected endfor");
}

#[test]
fn error_unclosed_tags() {
    let e = parse_err("#{if a} #{for x in y} 1");
    assert_eq!(e.message(), "expected: #{endfor}, #{endif}");
    assert!(e.span_s.eq(&Span::call_site()));
    let span = Span(5);
    let mut input = TokenStream::new();
    let mut group = Group::new(Delimiter::Bracket, lex("#{match x} #{of y} 1"));
    group.set_span(span);
    input.push(TokenTree::Group(group));
    match parse(input) {
        Ok(_) => panic!("expected an error"),
        Err(e) => {
            assert_eq!(e.message(), "expected: #{endmatch}");
            assert!(e.span_s.eq(&span));
        }
    }
}

#[test]
fn error_empty_tag() {
    let e = parse_err("#{}");
    assert_eq!(e.message(), "expected tag or expression, got nothing");
}

#[test]
fn error_invalid_escaping() {
    let mut input = TokenStream::new();
    input.push(TokenTree::Punct(Punct::new('#', Spacing::Alone)));
    let mut inner = lex("{a}");
    inner.extend(with_span("b", Span(3)));
    inner.extend(with_span("c d", Span(4)));
    input.push(TokenTree::Group(Group::new(Delimiter::Brace, inner)));
    match parse(input) {
        Ok(_) => panic!("expected an error"),
        Err(e) => {
            assert_eq!(e.message(), "invalid escaping");
            assert!(e.span_s.eq(&Span(3)));
            assert!(e.span_e == Some(Span(4)));
        }
    }
    let e = parse_err("#{{a} b}");
    assert_eq!(e.message(), "invalid escaping");
    assert!(e.span_e.is_none());
}

#[test]
fn error_not_a_tag() {
    let e = parse_err("#{123}");
    assert_eq!(e.message(), "invalid mquote syntax, expected tag");
    let e = parse_err("#{!!!}");
    assert_eq!(e.message(), "invalid mquote syntax, expected tag");
}

#[test]
fn hash_not_before_brace_group_is_plain() {
    let q = mquote("# [derive(Debug)] #(x)", &Env::new());
    assert_eq!(q.to_string(), "# [derive (Debug)] # (x)");
}

#[test]
fn raised_error_is_compile_error_call() {
    let e = Error::new(Span(2), "bad \"thing\"").end_span(Span(9));
    let ts = e.raise();
    assert_eq!(ts.to_string(), "compile_error ! (\"bad \\\"thing\\\"\") ;");
    assert!(ts.0[0].span().eq(&Span(2)));
    assert!(ts.0[2].span().eq(&Span(2)));
    assert!(ts.0[3].span().eq(&Span(9)));
}

#[test]
fn generated_code_for_an_identifier() {
    let code = mquote_code(lex("a"));
    assert_eq!(
        code.to_string(),
        "{ let mut token_stream = :: mquote :: __rt :: proc_macro2 :: TokenStream :: new () ; \
         { let i = :: mquote :: __rt :: proc_macro2 :: Ident :: new (\"a\" , :: mquote :: __rt :: proc_macro2 :: Span :: call_site ()) ; \
         token_stream . extend (:: std :: iter :: once (:: mquote :: __rt :: proc_macro2 :: TokenTree :: Ident (i))) ; } \
         token_stream }"
    );
}

#[test]
fn generated_code_for_a_condition_and_an_insertion() {
    let code = mquote_spanned_code(lex("sp => #{if c} #{x} #{endif}"));
    assert_eq!(
        code.to_string(),
        "{ let mut token_stream = :: mquote :: __rt :: proc_macro2 :: TokenStream :: new () ; \
         if c { { let ref insertion = x ; :: mquote :: __rt :: quote :: ToTokens :: to_tokens (insertion , & mut token_stream) ; } } else { } \
         token_stream }"
    );
}

#[test]
fn generated_code_for_a_punct_a_literal_and_a_group() {
    let code = mquote_spanned_code(lex("sp => + 1 ()"));
    let text = code.to_string();
    assert!(text.contains(":: mquote :: __rt :: proc_macro2 :: Punct :: new ('+' , :: mquote :: __rt :: proc_macro2 :: Spacing :: Alone)"));
    assert!(text.contains("let s : :: mquote :: __rt :: proc_macro2 :: TokenStream = \"1\" . parse () . expect (\"invalid token stream\") ;"));
    assert!(text.contains("t . set_span (sp)"));
    assert!(text.contains(":: mquote :: __rt :: proc_macro2 :: Group :: new (:: mquote :: __rt :: proc_macro2 :: Delimiter :: Parenthesis , { let mut inner_stream = :: mquote :: __rt :: proc_macro2 :: TokenStream :: new () ; inner_stream })"));
}

#[test]
fn generated_code_reports_parse_errors() {
    let code = mquote_code(lex("#{endif}"));
    assert_eq!(code.to_string(), "compile_error ! (\"unexpected endif\") ;");
    let code = mquote_spanned_code(lex("no arrow here"));
    assert_eq!(
        code.to_string(),
        "compile_error ! (\"expected a span expression followed by `=>`\") ;"
    );
}

#[test]
fn spanned_input_splits_at_first_arrow() {
    match parse_spanned(lex("a.b() => x => y")) {
        Ok((span, q)) => {
            assert_eq!(span.to_string(), "a . b ()");
            assert_eq!(q.len(), 4);
        }
        Err(_) => panic!("expected a split"),
    }
}

#[test]
fn generated_names_are_fresh() {
    let hint = BindWith::Expression(TokenStream::new());
    let mut gen = IdentGenerator::new();
    let mut names = Vec::new();
    for _ in 0..12 {
        names.push(gen.generate(&hint).stringed);
    }
    assert_eq!(names[0], "__mquote0");
    assert_eq!(names[1], "__mquote1");
    assert_eq!(names[10], "__mquote10");
    assert_eq!(names[11], "__mquote11");
}

#[test]
fn context_closes_if_chain_into_nested_ifs() {
    let mut ctx = Context::new();
    assert!(ctx.lookup_end_tag().is_none());
    assert!(ctx.put_if(Span(1), lex("a")).is_ok());
    assert!(ctx.put_qtoken(TokenTreeQ::Plain(TokenTree::Ident(Ident::new("x", Span(0))))).is_ok());
    assert!(ctx.put_elif(Span(2), lex("b")).is_ok());
    assert!(ctx.put_else(Span(3)).is_ok());
    match ctx.lookup_end_tag() {
        Some((k, tag)) => {
            assert_eq!(k, 0);
            assert_eq!(tag, "endif");
        }
        None => panic!("an if is open"),
    }
    assert!(ctx.put_endif(Span(4)).is_ok());
    let q: QTokens = match ctx.pick_result() {
        Ok(q) => q,
        Err(_) => panic!("all closed"),
    };
    assert_eq!(q.len(), 1);
    match &q.tokens[0] {
        TokenTreeQ::If(outer) => {
            assert!(outer.span.eq(&Span(1)));
            assert_eq!(outer.condition.to_string(), "a");
            assert_eq!(outer.then_branch.len(), 1);
            match &outer.else_ {
                Some(e) => match &e.tokens[0] {
                    TokenTreeQ::If(inner) => {
                        assert!(inner.span.eq(&Span(2)));
                        assert_eq!(inner.condition.to_string(), "b");
                        assert!(inner.else_.is_some());
                    }
                    _ => panic!("expected the elif branch"),
                },
                None => panic!("expected an else branch"),
            }
        }
        _ => panic!("expected an if"),
    }
}

#[test]
fn context_holder_round_trip() {
    let mut ctx = Context::new();
    let held = mquote::parse::TokenIterator::new(lex("rest"));
    assert!(ctx.put_holder(held, Span(6), Delimiter::Bracket).is_ok());
    assert!(ctx.put_qtoken(TokenTreeQ::Plain(TokenTree::Ident(Ident::new("x", Span(0))))).is_ok());
    let back = ctx.try_release_holder();
    assert!(back.is_some());
    assert_eq!(back.unwrap().into_stream().to_string(), "rest");
    assert!(ctx.try_release_holder().is_none());
    let q = match ctx.pick_result() {
        Ok(q) => q,
        Err(_) => panic!("all closed"),
    };
    match &q.tokens[0] {
        TokenTreeQ::Group(g) => {
            assert!(g.span.eq(&Span(6)));
            assert_eq!(g.tokens.len(), 1);
        }
        _ => panic!("expected a group"),
    }
}

#[test]
fn literal_texts_are_escaped() {
    assert_eq!(Literal::string("a\"b\\c\n").text(), "\"a\\\"b\\\\c\\n\"");
    assert_eq!(Literal::character('\'').text(), "'\\''");
    assert_eq!(Literal::character('"').text(), "'\"'");
}

#[test]
fn token_stream_from_str_is_one_literal() {
    let ts: TokenStream = "1 + 2".parse().unwrap();
    assert_eq!(ts.len(), 1);
    assert_eq!(ts.to_string(), "1 + 2");
}

#[test]
fn rendering_follows_spacing_and_delimiters() {
    assert_eq!(lex("a::b => c").to_string(), "a :: b => c");
    assert_eq!(lex("f() {} [x] {y}").to_string(), "f () { } [x] { y }");
}

#[test]
fn ident_writes_itself_as_tokens() {
    let ident = Ident::new("abc", Span(4));
    let mut ts = TokenStream::new();
    (&ident).to_tokens(&mut ts);
    ident.to_tokens(&mut ts);
    assert_eq!(ts.to_string(), "abc abc");
    assert!(ts.0[1].span().eq(&Span(4)));
}

#[test]
fn plain_template_from_trees() {
    let q = QTokens::from_trees(lex("a (b) #{c}"));
    assert_eq!(q.len(), 4);
    let out = expand(&q, &Env::new(), Span::call_site()).ok().unwrap();
    assert_eq!(out.to_string(), "a (b) # { c }");
}
