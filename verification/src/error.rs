//! Errors of the template parser, and the `compile_error!` call that
//! reports one at the place it belongs to.
use vstd::prelude::*;

use crate::tokens::{
    call_site_span, LitV, Delimiter, Group, Ident, Literal, Punct, Spacing, Span,
    TokenStream, TokenTree, TT,
};

verus! {

pub struct Error {
    pub span_s: Span,
    pub span_e: Option<Span>,
    pub msg: String,
}

/// The mathematical value of an error: where it starts, where it ends
/// (if that was given) and its message.
pub struct ErrV {
    pub span_s: Span,
    pub span_e: Option<Span>,
    pub msg: Seq<char>,
}

pub open spec fn err_at(span: Span, msg: Seq<char>) -> ErrV {
    ErrV { span_s: span, span_e: None, msg }
}

impl View for Error {
    type V = ErrV;

    open spec fn view(&self) -> ErrV {
        ErrV { span_s: self.span_s, span_e: self.span_e, msg: self.msg@ }
    }
}

/// The tokens `compile_error!("msg");` that report an error: everything
/// but the message literal (at the call site) and the semicolon (at the
/// end span when there is one) carries the start span.
pub open spec fn raised(e: ErrV) -> Seq<TT> {
    let end = match e.span_e {
        Some(s) => s,
        None => e.span_s,
    };
    seq![
        TT::Ident("compile_error"@, e.span_s),
        TT::Punct('!', Spacing::Alone, e.span_s),
        TT::Group(
            Delimiter::Parenthesis,
            seq![TT::Literal(LitV::Str(e.msg), call_site_span())],
            e.span_s,
        ),
        TT::Punct(';', Spacing::Alone, end),
    ]
}

impl Error {
    /// Creates a new Error at the given span with the given message.
    pub fn new(span: Span, msg: &str) -> (r: Error)
        ensures
            r@ == err_at(span, msg@),
    {
        Error { span_s: span, span_e: None, msg: String::from_str(msg) }
    }

    /// An error whose message is an owned string.
    pub fn with_message(span: Span, msg: String) -> (r: Error)
        ensures
            r@ == err_at(span, msg@),
    {
        Error { span_s: span, span_e: None, msg }
    }

    /// Sets the end of the span of this error. The start of the span is
    /// set in `Error::new`.
    pub fn end_span(self, span: Span) -> (r: Error)
        ensures
            r@ == (ErrV { span_e: Some(span), ..self@ }),
    {
        let mut e = self;
        e.span_e = Some(span);
        e
    }

    pub fn message(&self) -> (r: &str)
        ensures
            r@ == self.msg@,
    {
        self.msg.as_str()
    }

    /// Raises into a `TokenStream` that calls `compile_error!` with the
    /// given message, at the given span.
    pub fn raise(self) -> (r: TokenStream)
        ensures
            r@ == raised(self@),
    {
        let Error { span_s, span_e, msg } = self;
        let end = match span_e {
            Some(s) => s,
            None => span_s,
        };
        let mut inner = TokenStream::new();
        inner.push(TokenTree::Literal(Literal::string(msg.as_str())));
        let mut group = Group::new(Delimiter::Parenthesis, inner);
        group.set_span(span_s);
        let mut bang = Punct::new('!', Spacing::Alone);
        bang.set_span(span_s);
        let mut semi = Punct::new(';', Spacing::Alone);
        semi.set_span(end);
        let mut out = TokenStream::new();
        out.push(TokenTree::Ident(Ident::new("compile_error", span_s)));
        out.push(TokenTree::Punct(bang));
        out.push(TokenTree::Group(group));
        out.push(TokenTree::Punct(semi));
        proof {
            let e = ErrV { span_s, span_e, msg: msg@ };
            assert(out@ =~= raised(e));
        }
        out
    }
}

} // verus!
