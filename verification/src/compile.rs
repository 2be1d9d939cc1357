//! Code generation: the Rust code that, when it runs, builds the token
//! stream that a template describes. Each template item becomes code at
//! the item's own span; the tokens the code builds get the requested span.
use vstd::prelude::*;

use crate::language::{ArmV, QTokens, TokenTreeQ, QT};
use crate::tokens::{
    call_site_span, literal_text, LitV, Delimiter, Group, Ident, Literal,
    Punct, Spacing, Span, TokenStream, TokenTree, TT,
};

verus! {

/// Where generated code puts its tokens: the variable of the stream being
/// built, the expression of the requested span, and the path of the
/// runtime support module.
pub struct Scope {
    pub token_stream_var: Ident,
    pub requested_span: TokenStream,
    pub runtime: TokenStream,
}

pub struct ScopeV {
    pub var: TT,
    pub req: Seq<TT>,
    pub rt: Seq<TT>,
}

impl View for Scope {
    type V = ScopeV;

    open spec fn view(&self) -> ScopeV {
        ScopeV {
            var: TT::Ident(self.token_stream_var.stringed@, self.token_stream_var.span),
            req: self.requested_span@,
            rt: self.runtime@,
        }
    }
}

pub open spec fn sid(name: Seq<char>, span: Span) -> Seq<TT> {
    seq![TT::Ident(name, span)]
}

pub open spec fn spunct(c: char, span: Span) -> Seq<TT> {
    seq![TT::Punct(c, Spacing::Alone, span)]
}

/// A two-character operator such as `::` or `=>`.
pub open spec fn sop2(c1: char, c2: char, span: Span) -> Seq<TT> {
    seq![TT::Punct(c1, Spacing::Joint, span), TT::Punct(c2, Spacing::Alone, span)]
}

pub open spec fn sgroup(d: Delimiter, inner: Seq<TT>, span: Span) -> Seq<TT> {
    seq![TT::Group(d, inner, span)]
}

pub open spec fn opt_tokens(o: Option<TokenStream>) -> Option<Seq<TT>> {
    match o {
        Some(s) => Some(s@),
        None => None,
    }
}

/// `::name`
pub open spec fn sseg(name: Seq<char>, span: Span) -> Seq<TT> {
    sop2(':', ':', span) + sid(name, span)
}

/// `RT::proc_macro2::a::b`
pub open spec fn pm2_path(rt: Seq<TT>, a: Seq<char>, b: Seq<char>, span: Span) -> Seq<TT> {
    rt + sseg("proc_macro2"@, span) + sseg(a, span) + sseg(b, span)
}

/// `.name`
pub open spec fn smethod(name: Seq<char>, span: Span) -> Seq<TT> {
    spunct('.', span) + sid(name, span)
}

/// `VAR.extend(::std::iter::once(RT::proc_macro2::TokenTree::KIND(x)))`
pub open spec fn extend_once(var: TT, rt: Seq<TT>, kind: Seq<char>, x: Seq<char>, span: Span) -> Seq<
    TT,
> {
    seq![var] + smethod("extend"@, span) + sgroup(
        Delimiter::Parenthesis,
        sseg("std"@, span) + sseg("iter"@, span) + sseg("once"@, span) + sgroup(
            Delimiter::Parenthesis,
            pm2_path(rt, "TokenTree"@, kind, span) + sgroup(
                Delimiter::Parenthesis,
                sid(x, call_site_span()),
                span,
            ),
            span,
        ),
        span,
    )
}

/// `t.set_span(REQ); t`
pub open spec fn literal_set(span: Span, s: ScopeV) -> Seq<TT> {
    sid("t"@, span) + smethod("set_span"@, span) + sgroup(Delimiter::Parenthesis, s.req, span)
        + spunct(';', span) + sid("t"@, span)
}

/// `|mut t| { t.set_span(REQ); t }`
pub open spec fn literal_closure(span: Span, s: ScopeV) -> Seq<TT> {
    spunct('|', span) + sid("mut"@, span) + sid("t"@, span) + spunct('|', span) + sgroup(
        Delimiter::Brace,
        literal_set(span, s),
        span,
    )
}

/// `s.into_iter().map(|mut t| { t.set_span(REQ); t })`
pub open spec fn literal_ext(span: Span, s: ScopeV) -> Seq<TT> {
    sid("s"@, call_site_span()) + smethod("into_iter"@, span) + sgroup(
        Delimiter::Parenthesis,
        Seq::empty(),
        span,
    ) + smethod("map"@, span) + sgroup(Delimiter::Parenthesis, literal_closure(span, s), span)
}

/// `let s: RT::proc_macro2::TokenStream = "TEXT".parse().expect("invalid token stream");
///  VAR.extend(s.into_iter().map(|mut t| { t.set_span(REQ); t }))`
pub open spec fn literal_body(text: Seq<char>, span: Span, s: ScopeV) -> Seq<TT> {
    let cs = call_site_span();
    sid("let"@, span) + sid("s"@, cs) + spunct(':', span) + s.rt + sseg("proc_macro2"@, span)
        + sseg("TokenStream"@, span) + spunct('=', span) + seq![
        TT::Literal(LitV::Str(text), cs),
    ] + smethod("parse"@, span) + sgroup(Delimiter::Parenthesis, Seq::empty(), span) + smethod(
        "expect"@,
        span,
    ) + sgroup(
        Delimiter::Parenthesis,
        seq![TT::Literal(LitV::Source("\"invalid token stream\""@), span)],
        span,
    ) + spunct(';', span) + seq![s.var] + smethod("extend"@, span) + sgroup(
        Delimiter::Parenthesis,
        literal_ext(span, s),
        span,
    )
}

/// Code that appends the literal with source text `text`.
pub open spec fn literal_code(text: Seq<char>, span: Span, s: ScopeV) -> Seq<TT> {
    sgroup(Delimiter::Brace, literal_body(text, span, s), span)
}

pub open spec fn spacing_name(sp: Spacing) -> Seq<char> {
    match sp {
        Spacing::Alone => "Alone"@,
        Spacing::Joint => "Joint"@,
    }
}

/// `'OP', RT::proc_macro2::Spacing::SPACING`
pub open spec fn punct_args(op: char, spacing: Spacing, span: Span, s: ScopeV) -> Seq<TT> {
    seq![TT::Literal(LitV::Char(op), call_site_span())] + spunct(',', span) + pm2_path(
        s.rt,
        "Spacing"@,
        spacing_name(spacing),
        span,
    )
}

/// `let mut p = RT::proc_macro2::Punct::new('OP', ..); p.set_span(REQ); VAR.extend(..);`
pub open spec fn punct_body(op: char, spacing: Spacing, span: Span, s: ScopeV) -> Seq<TT> {
    let cs = call_site_span();
    sid("let"@, span) + sid("mut"@, span) + sid("p"@, cs) + spunct('=', span) + pm2_path(
        s.rt,
        "Punct"@,
        "new"@,
        span,
    ) + sgroup(Delimiter::Parenthesis, punct_args(op, spacing, span, s), span) + spunct(';', span)
        + sid("p"@, cs) + smethod("set_span"@, span) + sgroup(Delimiter::Parenthesis, s.req, span)
        + spunct(';', span) + extend_once(s.var, s.rt, "Punct"@, "p"@, span) + spunct(';', span)
}

/// Code that appends the punctuation character `op`.
pub open spec fn punct_code(op: char, spacing: Spacing, span: Span, s: ScopeV) -> Seq<TT> {
    sgroup(Delimiter::Brace, punct_body(op, spacing, span, s), span)
}

/// `"NAME", REQ`
pub open spec fn ident_args(name: Seq<char>, span: Span, s: ScopeV) -> Seq<TT> {
    seq![TT::Literal(LitV::Str(name), call_site_span())] + spunct(',', span) + s.req
}

/// `let i = RT::proc_macro2::Ident::new("NAME", REQ); VAR.extend(..);`
pub open spec fn ident_body(name: Seq<char>, span: Span, s: ScopeV) -> Seq<TT> {
    sid("let"@, span) + sid("i"@, call_site_span()) + spunct('=', span) + pm2_path(
        s.rt,
        "Ident"@,
        "new"@,
        span,
    ) + sgroup(Delimiter::Parenthesis, ident_args(name, span, s), span) + spunct(';', span)
        + extend_once(s.var, s.rt, "Ident"@, "i"@, span) + spunct(';', span)
}

/// Code that appends the identifier `name`.
pub open spec fn ident_code(name: Seq<char>, span: Span, s: ScopeV) -> Seq<TT> {
    sgroup(Delimiter::Brace, ident_body(name, span, s), span)
}

pub open spec fn delimiter_name(d: Delimiter) -> Seq<char> {
    match d {
        Delimiter::Parenthesis => "Parenthesis"@,
        Delimiter::Brace => "Brace"@,
        Delimiter::Bracket => "Bracket"@,
        Delimiter::Invisible => "None"@,
    }
}

/// The scope of the code inside a group: the stream variable is `inner_stream`.
pub open spec fn inner_scope(s: ScopeV) -> ScopeV {
    ScopeV { var: TT::Ident("inner_stream"@, call_site_span()), ..s }
}

/// `let mut inner_stream = RT::proc_macro2::TokenStream::new(); INNER inner_stream`
pub open spec fn group_block(span: Span, inner: Seq<TT>, s: ScopeV) -> Seq<TT> {
    let cs = call_site_span();
    sid("let"@, span) + sid("mut"@, span) + sid("inner_stream"@, cs) + spunct('=', span) + pm2_path(
        s.rt,
        "TokenStream"@,
        "new"@,
        span,
    ) + sgroup(Delimiter::Parenthesis, Seq::empty(), span) + spunct(';', span) + inner + sid(
        "inner_stream"@,
        cs,
    )
}

/// `RT::proc_macro2::Delimiter::D, { .. }`
pub open spec fn group_args(d: Delimiter, span: Span, inner: Seq<TT>, s: ScopeV) -> Seq<TT> {
    pm2_path(s.rt, "Delimiter"@, delimiter_name(d), span) + spunct(',', span) + sgroup(
        Delimiter::Brace,
        group_block(span, inner, s),
        span,
    )
}

/// `let mut constructing_group = RT::proc_macro2::Group::new(..);
///  constructing_group.set_span(REQ); VAR.extend(..)`
pub open spec fn group_body(d: Delimiter, span: Span, inner: Seq<TT>, s: ScopeV) -> Seq<TT> {
    let g = sid("constructing_group"@, call_site_span());
    sid("let"@, span) + sid("mut"@, span) + g + spunct('=', span) + pm2_path(
        s.rt,
        "Group"@,
        "new"@,
        span,
    ) + sgroup(Delimiter::Parenthesis, group_args(d, span, inner, s), span) + spunct(';', span) + g
        + smethod("set_span"@, span) + sgroup(Delimiter::Parenthesis, s.req, span) + spunct(
        ';',
        span,
    ) + extend_once(s.var, s.rt, "Group"@, "constructing_group"@, span)
}

/// Code that builds a group whose contents the code `inner` builds.
pub open spec fn group_code(d: Delimiter, span: Span, inner: Seq<TT>, s: ScopeV) -> Seq<TT> {
    sgroup(Delimiter::Brace, group_body(d, span, inner, s), span)
}

/// `insertion, &mut VAR`
pub open spec fn insertion_args(span: Span, s: ScopeV) -> Seq<TT> {
    sid("insertion"@, call_site_span()) + spunct(',', span) + spunct('&', span) + sid("mut"@, span)
        + seq![s.var]
}

/// `let ref insertion = E; RT::quote::ToTokens::to_tokens(insertion, &mut VAR);`
pub open spec fn insertion_body(e: Seq<TT>, span: Span, s: ScopeV) -> Seq<TT> {
    sid("let"@, span) + sid("ref"@, span) + sid("insertion"@, call_site_span()) + spunct('=', span)
        + e + spunct(';', span) + s.rt + sseg("quote"@, span) + sseg("ToTokens"@, span) + sseg(
        "to_tokens"@,
        span,
    ) + sgroup(Delimiter::Parenthesis, insertion_args(span, s), span) + spunct(';', span)
}

/// Code that appends the tokens of the value of the expression `e`.
pub open spec fn insertion_code(e: Seq<TT>, span: Span, s: ScopeV) -> Seq<TT> {
    sgroup(Delimiter::Brace, insertion_body(e, span, s), span)
}

/// `VAR.extend(E);`
pub open spec fn extend_body(e: Seq<TT>, span: Span, s: ScopeV) -> Seq<TT> {
    seq![s.var] + smethod("extend"@, span) + sgroup(Delimiter::Parenthesis, e, span) + spunct(
        ';',
        span,
    )
}

/// Code that appends the token trees that the iterable `e` yields.
pub open spec fn extend_code(e: Seq<TT>, span: Span, s: ScopeV) -> Seq<TT> {
    sgroup(Delimiter::Brace, extend_body(e, span, s), span)
}

/// Code for a token that stands for itself.
pub open spec fn plain_code(t: TT, s: ScopeV) -> Seq<TT>
    decreases t, 0nat,
{
    match t {
        TT::Literal(v, span) => literal_code(literal_text(v), span, s),
        TT::Punct(op, spacing, span) => punct_code(op, spacing, span, s),
        TT::Ident(name, span) => ident_code(name, span, s),
        TT::Group(d, inner, span) => group_code(d, span, plain_seq_code(inner, inner_scope(s)), s),
    }
}

pub open spec fn plain_seq_code(ts: Seq<TT>, s: ScopeV) -> Seq<TT>
    decreases ts, 0nat,
{
    if ts.len() == 0 {
        Seq::empty()
    } else {
        plain_seq_code(ts.subrange(0, ts.len() - 1), s) + plain_code(ts[ts.len() - 1], s)
    }
}

/// Code for a template item.
pub open spec fn item_code(t: QT, s: ScopeV) -> Seq<TT>
    decreases t, 1nat,
{
    match t {
        QT::Plain(tt) => plain_code(tt, s),
        QT::Insertion(span, e) => insertion_code(e, span, s),
        QT::Extend(span, e) => extend_code(e, span, s),
        QT::Group(d, inner, span) => group_code(d, span, seq_code(inner, inner_scope(s)), s),
        QT::If(span, cond, then_branch, else_branch) => sid("if"@, span) + cond + sgroup(
            Delimiter::Brace,
            seq_code(then_branch, s),
            span,
        ) + sid("else"@, span) + sgroup(
            Delimiter::Brace,
            match else_branch {
                Some(e) => seq_code(e, s),
                None => Seq::empty(),
            },
            span,
        ),
        QT::For(span, over, body) => sid("for"@, span) + over + sgroup(
            Delimiter::Brace,
            seq_code(body, s),
            span,
        ),
        QT::Match(span, of, arms) => sid("match"@, span) + of + sgroup(
            Delimiter::Brace,
            arms_code(arms, s),
            span,
        ),
    }
}

/// The arms of a match: `PATTERN => { BODY }` each, at the span of its `of` tag.
pub open spec fn arms_code(arms: Seq<ArmV>, s: ScopeV) -> Seq<TT>
    decreases arms, 1nat,
{
    if arms.len() == 0 {
        Seq::empty()
    } else {
        let a = arms[arms.len() - 1];
        arms_code(arms.subrange(0, arms.len() - 1), s) + a.1 + sop2('=', '>', a.0) + sgroup(
            Delimiter::Brace,
            seq_code(a.2, s),
            a.0,
        )
    }
}

pub open spec fn seq_code(q: Seq<QT>, s: ScopeV) -> Seq<TT>
    decreases q, 1nat,
{
    if q.len() == 0 {
        Seq::empty()
    } else {
        seq_code(q.subrange(0, q.len() - 1), s) + item_code(q[q.len() - 1], s)
    }
}

/// `::mquote::__rt`, at the call site.
pub open spec fn runtime_path() -> Seq<TT> {
    sseg("mquote"@, call_site_span()) + sseg("__rt"@, call_site_span())
}

/// The span that the generated code gives to the tokens it builds, when
/// none is requested: the call site.
pub open spec fn default_requested_span() -> Seq<TT> {
    pm2_path(runtime_path(), "Span"@, "call_site"@, call_site_span()) + sgroup(
        Delimiter::Parenthesis,
        Seq::empty(),
        call_site_span(),
    )
}

/// The whole generated code: a block that creates the stream, runs the
/// code of the template on it, and evaluates to it.
pub open spec fn compiled(q: Seq<QT>, requested_span: Option<Seq<TT>>) -> Seq<TT> {
    let cs = call_site_span();
    let s = ScopeV {
        var: TT::Ident("token_stream"@, cs),
        req: match requested_span {
            Some(r) => r,
            None => default_requested_span(),
        },
        rt: runtime_path(),
    };
    sgroup(
        Delimiter::Brace,
        sid("let"@, cs) + sid("mut"@, cs) + sid("token_stream"@, cs) + spunct('=', cs) + pm2_path(
            runtime_path(),
            "TokenStream"@,
            "new"@,
            cs,
        ) + sgroup(Delimiter::Parenthesis, Seq::empty(), cs) + spunct(';', cs) + seq_code(q, s)
            + sid("token_stream"@, cs),
        cs,
    )
}

fn push_ident(out: &mut TokenStream, name: &str, span: Span)
    ensures
        final(out)@ == old(out)@ + sid(name@, span),
{
    out.push(TokenTree::Ident(Ident::new(name, span)));
    assert(out@ =~= old(out)@ + sid(name@, span));
}

fn push_punct(out: &mut TokenStream, c: char, span: Span)
    ensures
        final(out)@ == old(out)@ + spunct(c, span),
{
    out.push(TokenTree::Punct(Punct { op: c, spacing: Spacing::Alone, span }));
    assert(out@ =~= old(out)@ + spunct(c, span));
}

fn push_op2(out: &mut TokenStream, c1: char, c2: char, span: Span)
    ensures
        final(out)@ == old(out)@ + sop2(c1, c2, span),
{
    out.push(TokenTree::Punct(Punct { op: c1, spacing: Spacing::Joint, span }));
    out.push(TokenTree::Punct(Punct { op: c2, spacing: Spacing::Alone, span }));
    assert(out@ =~= old(out)@ + sop2(c1, c2, span));
}

fn push_seg(out: &mut TokenStream, name: &str, span: Span)
    ensures
        final(out)@ == old(out)@ + sseg(name@, span),
{
    push_op2(out, ':', ':', span);
    push_ident(out, name, span);
    assert(out@ =~= old(out)@ + sseg(name@, span));
}

fn push_method(out: &mut TokenStream, name: &str, span: Span)
    ensures
        final(out)@ == old(out)@ + smethod(name@, span),
{
    push_punct(out, '.', span);
    push_ident(out, name, span);
    assert(out@ =~= old(out)@ + smethod(name@, span));
}

fn push_group(out: &mut TokenStream, d: Delimiter, inner: TokenStream, span: Span)
    ensures
        final(out)@ == old(out)@ + sgroup(d, inner@, span),
{
    let ghost iv = inner@;
    out.push(TokenTree::Group(Group { delimiter: d, stream: inner, span }));
    assert(out@ =~= old(out)@ + sgroup(d, iv, span));
}

/// Appends a copy of `ts`.
fn push_all(out: &mut TokenStream, ts: &TokenStream)
    ensures
        final(out)@ == old(out)@ + ts@,
{
    out.extend(ts.duplicate());
}

fn push_tree(out: &mut TokenStream, t: &TokenTree)
    ensures
        final(out)@ == old(out)@ + seq![t@],
{
    out.push(t.duplicate());
    assert(out@ =~= old(out)@ + seq![t@]);
}

fn push_pm2_path(out: &mut TokenStream, rt: &TokenStream, a: &str, b: &str, span: Span)
    ensures
        final(out)@ == old(out)@ + pm2_path(rt@, a@, b@, span),
{
    push_all(out, rt);
    push_seg(out, "proc_macro2", span);
    push_seg(out, a, span);
    push_seg(out, b, span);
    assert(out@ =~= old(out)@ + pm2_path(rt@, a@, b@, span));
}

fn empty_parens(out: &mut TokenStream, span: Span)
    ensures
        final(out)@ == old(out)@ + sgroup(Delimiter::Parenthesis, Seq::empty(), span),
{
    push_group(out, Delimiter::Parenthesis, TokenStream::new(), span);
}

fn var_tree(var: &Ident) -> (r: TokenTree)
    ensures
        r@ == TT::Ident(var.stringed@, var.span),
{
    TokenTree::Ident(Ident { stringed: var.stringed.clone(), span: var.span })
}

fn push_extend_once(
    out: &mut TokenStream,
    var: &Ident,
    rt: &TokenStream,
    kind: &str,
    x: &str,
    span: Span,
)
    ensures
        final(out)@ == old(out)@ + extend_once(
            TT::Ident(var.stringed@, var.span),
            rt@,
            kind@,
            x@,
            span,
        ),
{
    let mut inner3 = TokenStream::new();
    push_ident(&mut inner3, x, Span::call_site());
    let mut inner2 = TokenStream::new();
    push_pm2_path(&mut inner2, rt, "TokenTree", kind, span);
    push_group(&mut inner2, Delimiter::Parenthesis, inner3, span);
    let mut inner1 = TokenStream::new();
    push_seg(&mut inner1, "std", span);
    push_seg(&mut inner1, "iter", span);
    push_seg(&mut inner1, "once", span);
    push_group(&mut inner1, Delimiter::Parenthesis, inner2, span);
    let v = var_tree(var);
    push_tree(out, &v);
    push_method(out, "extend", span);
    push_group(out, Delimiter::Parenthesis, inner1, span);
    assert(out@ =~= old(out)@ + extend_once(
        TT::Ident(var.stringed@, var.span),
        rt@,
        kind@,
        x@,
        span,
    ));
}

fn push_var(out: &mut TokenStream, var: &Ident)
    ensures
        final(out)@ == old(out)@ + seq![TT::Ident(var.stringed@, var.span)],
{
    let v = var_tree(var);
    push_tree(out, &v);
}

fn literal_code_exec(text: &str, span: Span, s: &Scope) -> (r: TokenStream)
    ensures
        r@ == literal_code(text@, span, s@),
{
    let cs = Span::call_site();
    let mut set = TokenStream::new();
    push_ident(&mut set, "t", span);
    push_method(&mut set, "set_span", span);
    push_group(&mut set, Delimiter::Parenthesis, s.requested_span.duplicate(), span);
    push_punct(&mut set, ';', span);
    push_ident(&mut set, "t", span);
    assert(set@ =~= literal_set(span, s@));
    let mut closure = TokenStream::new();
    push_punct(&mut closure, '|', span);
    push_ident(&mut closure, "mut", span);
    push_ident(&mut closure, "t", span);
    push_punct(&mut closure, '|', span);
    push_group(&mut closure, Delimiter::Brace, set, span);
    assert(closure@ =~= literal_closure(span, s@));
    let mut ext = TokenStream::new();
    push_ident(&mut ext, "s", cs);
    push_method(&mut ext, "into_iter", span);
    empty_parens(&mut ext, span);
    push_method(&mut ext, "map", span);
    push_group(&mut ext, Delimiter::Parenthesis, closure, span);
    assert(ext@ =~= literal_ext(span, s@));
    let mut msg = TokenStream::new();
    msg.push(TokenTree::Literal(Literal::new("\"invalid token stream\"", span)));
    let mut body = TokenStream::new();
    push_ident(&mut body, "let", span);
    push_ident(&mut body, "s", cs);
    push_punct(&mut body, ':', span);
    push_all(&mut body, &s.runtime);
    push_seg(&mut body, "proc_macro2", span);
    push_seg(&mut body, "TokenStream", span);
    push_punct(&mut body, '=', span);
    body.push(TokenTree::Literal(Literal::string(text)));
    push_method(&mut body, "parse", span);
    empty_parens(&mut body, span);
    push_method(&mut body, "expect", span);
    push_group(&mut body, Delimiter::Parenthesis, msg, span);
    push_punct(&mut body, ';', span);
    push_var(&mut body, &s.token_stream_var);
    push_method(&mut body, "extend", span);
    push_group(&mut body, Delimiter::Parenthesis, ext, span);
    assert(msg@ =~= seq![TT::Literal(LitV::Source("\"invalid token stream\""@), span)]);
    assert(body@ =~= literal_body(text@, span, s@));
    let mut out = TokenStream::new();
    push_group(&mut out, Delimiter::Brace, body, span);
    assert(out@ =~= literal_code(text@, span, s@));
    out
}

fn spacing_str(sp: Spacing) -> (r: &'static str)
    ensures
        r@ == spacing_name(sp),
{
    match sp {
        Spacing::Alone => "Alone",
        Spacing::Joint => "Joint",
    }
}

fn delimiter_str(d: Delimiter) -> (r: &'static str)
    ensures
        r@ == delimiter_name(d),
{
    match d {
        Delimiter::Parenthesis => "Parenthesis",
        Delimiter::Brace => "Brace",
        Delimiter::Bracket => "Bracket",
        Delimiter::Invisible => "None",
    }
}

fn punct_code_exec(op: char, spacing: Spacing, span: Span, s: &Scope) -> (r: TokenStream)
    ensures
        r@ == punct_code(op, spacing, span, s@),
{
    let cs = Span::call_site();
    let mut args = TokenStream::new();
    args.push(TokenTree::Literal(Literal::character(op)));
    push_punct(&mut args, ',', span);
    push_pm2_path(&mut args, &s.runtime, "Spacing", spacing_str(spacing), span);
    assert(args@ =~= punct_args(op, spacing, span, s@));
    let mut body = TokenStream::new();
    push_ident(&mut body, "let", span);
    push_ident(&mut body, "mut", span);
    push_ident(&mut body, "p", cs);
    push_punct(&mut body, '=', span);
    push_pm2_path(&mut body, &s.runtime, "Punct", "new", span);
    push_group(&mut body, Delimiter::Parenthesis, args, span);
    push_punct(&mut body, ';', span);
    push_ident(&mut body, "p", cs);
    push_method(&mut body, "set_span", span);
    push_group(&mut body, Delimiter::Parenthesis, s.requested_span.duplicate(), span);
    push_punct(&mut body, ';', span);
    push_extend_once(&mut body, &s.token_stream_var, &s.runtime, "Punct", "p", span);
    push_punct(&mut body, ';', span);
    assert(body@ =~= punct_body(op, spacing, span, s@));
    let mut out = TokenStream::new();
    push_group(&mut out, Delimiter::Brace, body, span);
    assert(out@ =~= punct_code(op, spacing, span, s@));
    out
}

fn ident_code_exec(name: &str, span: Span, s: &Scope) -> (r: TokenStream)
    ensures
        r@ == ident_code(name@, span, s@),
{
    let cs = Span::call_site();
    let mut args = TokenStream::new();
    args.push(TokenTree::Literal(Literal::string(name)));
    push_punct(&mut args, ',', span);
    push_all(&mut args, &s.requested_span);
    assert(args@ =~= ident_args(name@, span, s@));
    let mut body = TokenStream::new();
    push_ident(&mut body, "let", span);
    push_ident(&mut body, "i", cs);
    push_punct(&mut body, '=', span);
    push_pm2_path(&mut body, &s.runtime, "Ident", "new", span);
    push_group(&mut body, Delimiter::Parenthesis, args, span);
    push_punct(&mut body, ';', span);
    push_extend_once(&mut body, &s.token_stream_var, &s.runtime, "Ident", "i", span);
    push_punct(&mut body, ';', span);
    assert(body@ =~= ident_body(name@, span, s@));
    let mut out = TokenStream::new();
    push_group(&mut out, Delimiter::Brace, body, span);
    assert(out@ =~= ident_code(name@, span, s@));
    out
}

/// The code for a group, given the code that builds its contents.
fn group_code_exec(d: Delimiter, span: Span, inner: TokenStream, s: &Scope) -> (r: TokenStream)
    ensures
        r@ == group_code(d, span, inner@, s@),
{
    let cs = Span::call_site();
    let ghost iv = inner@;
    let mut block = TokenStream::new();
    push_ident(&mut block, "let", span);
    push_ident(&mut block, "mut", span);
    push_ident(&mut block, "inner_stream", cs);
    push_punct(&mut block, '=', span);
    push_pm2_path(&mut block, &s.runtime, "TokenStream", "new", span);
    empty_parens(&mut block, span);
    push_punct(&mut block, ';', span);
    block.extend(inner);
    push_ident(&mut block, "inner_stream", cs);
    assert(block@ =~= group_block(span, iv, s@));
    let mut args = TokenStream::new();
    push_pm2_path(&mut args, &s.runtime, "Delimiter", delimiter_str(d), span);
    push_punct(&mut args, ',', span);
    push_group(&mut args, Delimiter::Brace, block, span);
    assert(args@ =~= group_args(d, span, iv, s@));
    let mut body = TokenStream::new();
    push_ident(&mut body, "let", span);
    push_ident(&mut body, "mut", span);
    push_ident(&mut body, "constructing_group", cs);
    push_punct(&mut body, '=', span);
    push_pm2_path(&mut body, &s.runtime, "Group", "new", span);
    push_group(&mut body, Delimiter::Parenthesis, args, span);
    push_punct(&mut body, ';', span);
    push_ident(&mut body, "constructing_group", cs);
    push_method(&mut body, "set_span", span);
    push_group(&mut body, Delimiter::Parenthesis, s.requested_span.duplicate(), span);
    push_punct(&mut body, ';', span);
    push_extend_once(
        &mut body,
        &s.token_stream_var,
        &s.runtime,
        "Group",
        "constructing_group",
        span,
    );
    assert(body@ =~= group_body(d, span, iv, s@));
    let mut out = TokenStream::new();
    push_group(&mut out, Delimiter::Brace, body, span);
    assert(out@ =~= group_code(d, span, iv, s@));
    out
}

fn insertion_code_exec(e: &TokenStream, span: Span, s: &Scope) -> (r: TokenStream)
    ensures
        r@ == insertion_code(e@, span, s@),
{
    let cs = Span::call_site();
    let mut args = TokenStream::new();
    push_ident(&mut args, "insertion", cs);
    push_punct(&mut args, ',', span);
    push_punct(&mut args, '&', span);
    push_ident(&mut args, "mut", span);
    push_var(&mut args, &s.token_stream_var);
    assert(args@ =~= insertion_args(span, s@));
    let mut body = TokenStream::new();
    push_ident(&mut body, "let", span);
    push_ident(&mut body, "ref", span);
    push_ident(&mut body, "insertion", cs);
    push_punct(&mut body, '=', span);
    push_all(&mut body, e);
    push_punct(&mut body, ';', span);
    push_all(&mut body, &s.runtime);
    push_seg(&mut body, "quote", span);
    push_seg(&mut body, "ToTokens", span);
    push_seg(&mut body, "to_tokens", span);
    push_group(&mut body, Delimiter::Parenthesis, args, span);
    push_punct(&mut body, ';', span);
    assert(body@ =~= insertion_body(e@, span, s@));
    let mut out = TokenStream::new();
    push_group(&mut out, Delimiter::Brace, body, span);
    assert(out@ =~= insertion_code(e@, span, s@));
    out
}

fn extend_code_exec(e: &TokenStream, span: Span, s: &Scope) -> (r: TokenStream)
    ensures
        r@ == extend_code(e@, span, s@),
{
    let mut body = TokenStream::new();
    push_var(&mut body, &s.token_stream_var);
    push_method(&mut body, "extend", span);
    push_group(&mut body, Delimiter::Parenthesis, e.duplicate(), span);
    push_punct(&mut body, ';', span);
    assert(body@ =~= extend_body(e@, span, s@));
    let mut out = TokenStream::new();
    push_group(&mut out, Delimiter::Brace, body, span);
    assert(out@ =~= extend_code(e@, span, s@));
    out
}

fn inner_scope_exec(scope: &Scope) -> (r: Scope)
    ensures
        r@ == inner_scope(scope@),
{
    Scope {
        token_stream_var: Ident::new("inner_stream", Span::call_site()),
        requested_span: scope.requested_span.duplicate(),
        runtime: scope.runtime.duplicate(),
    }
}

/// Appends the code for a token that stands for itself.
fn put_token(token: &TokenTree, stream: &mut TokenStream, scope: &Scope)
    ensures
        final(stream)@ == old(stream)@ + plain_code(token@, scope@),
    decreases token, 0nat,
{
    match token {
        TokenTree::Literal(lit) => {
            let text = lit.text();
            stream.extend(literal_code_exec(text.as_str(), lit.span, scope));
        },
        TokenTree::Punct(punct) => {
            stream.extend(punct_code_exec(punct.op, punct.spacing, punct.span, scope));
        },
        TokenTree::Ident(ident) => {
            stream.extend(ident_code_exec(ident.stringed.as_str(), ident.span, scope));
        },
        TokenTree::Group(group) => {
            let nested = inner_scope_exec(scope);
            let mut inner = TokenStream::new();
            put_tokens(&group.stream, &mut inner, &nested);
            assert(inner@ =~= plain_seq_code(group.stream@, inner_scope(scope@)));
            stream.extend(group_code_exec(group.delimiter, group.span, inner, scope));
        },
    }
}

/// Appends the code for each token of `ts`, in order.
fn put_tokens(ts: &TokenStream, stream: &mut TokenStream, scope: &Scope)
    ensures
        final(stream)@ == old(stream)@ + plain_seq_code(ts@, scope@),
    decreases ts, 1nat,
{
    let ghost start = stream@;
    let mut i: usize = 0;
    assert(ts@.subrange(0, 0) =~= Seq::<TT>::empty());
    assert(start =~= start + Seq::<TT>::empty());
    while i < ts.0.len()
        invariant
            i <= ts@.len(),
            stream@ == start + plain_seq_code(ts@.subrange(0, i as int), scope@),
        decreases ts@.len() - i,
    {
        proof {
            assert(decreases_to!(ts => ts.0));
            vstd::std_specs::vec::axiom_vec_index_decreases(ts.0, i as int);
            let p = ts@.subrange(0, i + 1);
            assert(p.subrange(0, p.len() - 1) =~= ts@.subrange(0, i as int));
            assert(p[p.len() - 1] == ts@[i as int]);
        }
        put_token(&ts.0[i], stream, scope);
        i = i + 1;
        assert(stream@ =~= start + plain_seq_code(ts@.subrange(0, i as int), scope@));
    }
    assert(ts@.subrange(0, i as int) =~= ts@);
}

/// Appends the code for a template item.
fn put_qtoken(token: &TokenTreeQ, stream: &mut TokenStream, scope: &Scope)
    ensures
        final(stream)@ == old(stream)@ + item_code(token@, scope@),
    decreases token, 1nat,
{
    match token {
        TokenTreeQ::Plain(t) => put_token(t, stream, scope),
        TokenTreeQ::Insertion(span, e) => stream.extend(insertion_code_exec(e, *span, scope)),
        TokenTreeQ::Extend(span, e) => stream.extend(extend_code_exec(e, *span, scope)),
        TokenTreeQ::Group(g) => {
            let nested = inner_scope_exec(scope);
            let mut inner = TokenStream::new();
            compile_with(&g.tokens.tokens, &mut inner, &nested);
            assert(inner@ =~= seq_code(g.tokens@, inner_scope(scope@)));
            stream.extend(group_code_exec(g.delimiter, g.span, inner, scope));
        },
        TokenTreeQ::If(i) => {
            let mut then_stream = TokenStream::new();
            compile_with(&i.then_branch.tokens, &mut then_stream, scope);
            assert(then_stream@ =~= seq_code(i.then_branch@, scope@));
            let mut else_stream = TokenStream::new();
            match &i.else_ {
                Some(e) => {
                    compile_with(&e.tokens, &mut else_stream, scope);
                    assert(else_stream@ =~= seq_code(e@, scope@));
                },
                None => {},
            }
            let mut out = TokenStream::new();
            push_ident(&mut out, "if", i.span);
            push_all(&mut out, &i.condition);
            push_group(&mut out, Delimiter::Brace, then_stream, i.span);
            push_ident(&mut out, "else", i.span);
            push_group(&mut out, Delimiter::Brace, else_stream, i.span);
            assert(out@ =~= item_code(token@, scope@));
            stream.extend(out);
        },
        TokenTreeQ::For(f) => {
            let mut body = TokenStream::new();
            compile_with(&f.body.tokens, &mut body, scope);
            assert(body@ =~= seq_code(f.body@, scope@));
            let mut out = TokenStream::new();
            push_ident(&mut out, "for", f.span);
            push_all(&mut out, &f.over);
            push_group(&mut out, Delimiter::Brace, body, f.span);
            assert(out@ =~= item_code(token@, scope@));
            stream.extend(out);
        },
        TokenTreeQ::Match(m) => {
            let mut arms = TokenStream::new();
            put_arms(&m.patterns, &mut arms, scope);
            assert(arms@ =~= arms_code(crate::language::arms_view(m.patterns@), scope@));
            let mut out = TokenStream::new();
            push_ident(&mut out, "match", m.span);
            push_all(&mut out, &m.of);
            push_group(&mut out, Delimiter::Brace, arms, m.span);
            assert(out@ =~= item_code(token@, scope@));
            stream.extend(out);
        },
    }
}

/// Appends the code for the arms of a match.
fn put_arms(arms: &Vec<(Span, TokenStream, QTokens)>, stream: &mut TokenStream, scope: &Scope)
    ensures
        final(stream)@ == old(stream)@ + arms_code(crate::language::arms_view(arms@), scope@),
    decreases arms, 1nat,
{
    let ghost start = stream@;
    let ghost av = crate::language::arms_view(arms@);
    let mut i: usize = 0;
    assert(av.subrange(0, 0) =~= Seq::<ArmV>::empty());
    assert(start =~= start + Seq::<TT>::empty());
    while i < arms.len()
        invariant
            i <= arms@.len(),
            av == crate::language::arms_view(arms@),
            stream@ == start + arms_code(av.subrange(0, i as int), scope@),
        decreases arms@.len() - i,
    {
        proof {
            vstd::std_specs::vec::axiom_vec_index_decreases(*arms, i as int);
            let p = av.subrange(0, i + 1);
            assert(p.subrange(0, p.len() - 1) =~= av.subrange(0, i as int));
            assert(p[p.len() - 1] == av[i as int]);
        }
        let arm = &arms[i];
        let mut body = TokenStream::new();
        compile_with(&arm.2.tokens, &mut body, scope);
        assert(body@ =~= seq_code(arm.2@, scope@));
        push_all(stream, &arm.1);
        push_op2(stream, '=', '>', arm.0);
        push_group(stream, Delimiter::Brace, body, arm.0);
        i = i + 1;
        assert(stream@ =~= start + arms_code(av.subrange(0, i as int), scope@));
    }
    assert(av.subrange(0, i as int) =~= av);
}

/// Appends the code for each template item, in order.
fn compile_with(items: &Vec<TokenTreeQ>, stream: &mut TokenStream, scope: &Scope)
    ensures
        final(stream)@ == old(stream)@ + seq_code(crate::language::qtrees_view(items@), scope@),
    decreases items, 2nat,
{
    let ghost start = stream@;
    let ghost qv = crate::language::qtrees_view(items@);
    let mut i: usize = 0;
    assert(qv.subrange(0, 0) =~= Seq::<QT>::empty());
    assert(start =~= start + Seq::<TT>::empty());
    while i < items.len()
        invariant
            i <= items@.len(),
            qv == crate::language::qtrees_view(items@),
            stream@ == start + seq_code(qv.subrange(0, i as int), scope@),
        decreases items@.len() - i,
    {
        proof {
            vstd::std_specs::vec::axiom_vec_index_decreases(*items, i as int);
            let p = qv.subrange(0, i + 1);
            assert(p.subrange(0, p.len() - 1) =~= qv.subrange(0, i as int));
            assert(p[p.len() - 1] == qv[i as int]);
        }
        put_qtoken(&items[i], stream, scope);
        i = i + 1;
        assert(stream@ =~= start + seq_code(qv.subrange(0, i as int), scope@));
    }
    assert(qv.subrange(0, i as int) =~= qv);
}

/// The code that builds the stream described by `mquote`: the tokens it
/// builds get `requested_span` when that is given, the call site otherwise.
pub fn compile(mquote: QTokens, requested_span: Option<TokenStream>) -> (r: TokenStream)
    ensures
        r@ == compiled(mquote@, opt_tokens(requested_span)),
{
    let cs = Span::call_site();
    let mut runtime = TokenStream::new();
    push_seg(&mut runtime, "mquote", cs);
    push_seg(&mut runtime, "__rt", cs);
    assert(runtime@ =~= runtime_path());
    let ghost rs = opt_tokens(requested_span);
    let requested = match requested_span {
        Some(r) => r,
        None => {
            let mut d = TokenStream::new();
            push_pm2_path(&mut d, &runtime, "Span", "call_site", cs);
            empty_parens(&mut d, cs);
            assert(d@ =~= default_requested_span());
            d
        },
    };
    let scope = Scope {
        token_stream_var: Ident::new("token_stream", cs),
        requested_span: requested,
        runtime,
    };
    let mut stream = TokenStream::new();
    compile_with(&mquote.tokens, &mut stream, &scope);
    assert(stream@ =~= seq_code(mquote@, scope@));
    let mut body = TokenStream::new();
    push_ident(&mut body, "let", cs);
    push_ident(&mut body, "mut", cs);
    push_ident(&mut body, "token_stream", cs);
    push_punct(&mut body, '=', cs);
    push_pm2_path(&mut body, &scope.runtime, "TokenStream", "new", cs);
    empty_parens(&mut body, cs);
    push_punct(&mut body, ';', cs);
    body.extend(stream);
    push_ident(&mut body, "token_stream", cs);
    let mut out = TokenStream::new();
    push_group(&mut out, Delimiter::Brace, body, cs);
    proof {
        assert(body@ =~= sid("let"@, cs) + sid("mut"@, cs) + sid("token_stream"@, cs) + spunct(
            '=',
            cs,
        ) + pm2_path(runtime_path(), "TokenStream"@, "new"@, cs) + sgroup(
            Delimiter::Parenthesis,
            Seq::empty(),
            cs,
        ) + spunct(';', cs) + seq_code(mquote@, scope@) + sid("token_stream"@, cs));
        assert(out@ =~= compiled(mquote@, rs));
    }
    out
}

} // verus!
