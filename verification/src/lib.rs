//! A quasi-quoting template language for token streams: plain tokens,
//! `#{expr}` insertions, `^{iterable}` extensions, `#{if}`/`#{elif}`/
//! `#{else}`/`#{endif}`, `#{for}`/`#{endfor}` and `#{match}`/`#{of}`/
//! `#{endmatch}` blocks, and `#{{..}}` / `^{{..}}` escapes.
use vstd::prelude::*;

pub mod tokens;
pub mod language;
pub mod error;
pub mod parse_spec;
pub mod parse;
pub mod expand;
pub mod compile;
pub mod laws;
pub mod code_laws;
pub mod intermediate;
pub mod __rt;

use crate::compile::{compile, compiled};
use crate::error::raised;
use crate::parse::{parse, parse_spanned};
use crate::parse_spec::{spec_parse, spec_parse_spanned};
use crate::tokens::TokenStream;

verus! {

/// The code that builds the token stream the template `input` describes,
/// or the `compile_error!` call that reports why `input` is no template.
pub fn mquote(input: TokenStream) -> (r: TokenStream)
    ensures
        r@ == match spec_parse(input@) {
            Ok(q) => compiled(q, None),
            Err(e) => raised(e),
        },
{
    match parse(input) {
        Ok(qtokens) => compile(qtokens, None),
        Err(error) => error.raise(),
    }
}

/// As `mquote`, for `SPAN => TEMPLATE`: the tokens built get the span
/// that the expression `SPAN` gives.
pub fn mquote_spanned(input: TokenStream) -> (r: TokenStream)
    ensures
        r@ == match spec_parse_spanned(input@) {
            Ok((span, q)) => compiled(q, Some(span)),
            Err(e) => raised(e),
        },
{
    match parse_spanned(input) {
        Ok((requested_span, qtokens)) => compile(qtokens, Some(requested_span)),
        Err(error) => error.raise(),
    }
}

} // verus!
