//! Bindings of expressions to fresh variables: the variables are named
//! `__mquote0`, `__mquote1`, ..., one new name per binding.
use vstd::prelude::*;

use crate::tokens::{call_site_span, push_char, Ident, Span, TokenStream};

verus! {

pub enum MQuote {
    Binding(MQuoteBinding),
}

pub struct MQuoteBinding {
    pub parts: Vec<(TokenStream, BindWith)>,
}

pub enum BindWith {
    MQuote(Box<MQuote>),
    Expression(TokenStream),
}

/// Hands out variable names that are all different.
pub struct IdentGenerator {
    i: usize,
}

pub open spec fn digit_char(d: nat) -> char {
    (48 + d) as char
}

/// The decimal digits of `n`, most significant first.
pub open spec fn decimal(n: nat) -> Seq<char>
    decreases n,
{
    if n < 10 {
        seq![digit_char(n)]
    } else {
        decimal(n / 10) + seq![digit_char(n % 10)]
    }
}

/// The name of the `i`-th generated variable.
pub open spec fn generated_name(i: nat) -> Seq<char> {
    "__mquote"@ + decimal(i)
}

fn digit(d: usize) -> (r: char)
    requires
        d < 10,
    ensures
        r == digit_char(d as nat),
{
    match d {
        0 => '0',
        1 => '1',
        2 => '2',
        3 => '3',
        4 => '4',
        5 => '5',
        6 => '6',
        7 => '7',
        8 => '8',
        _ => '9',
    }
}

fn push_decimal(out: &mut String, n: usize)
    ensures
        final(out)@ == old(out)@ + decimal(n as nat),
    decreases n,
{
    if n < 10 {
        push_char(out, digit(n));
        assert(out@ =~= old(out)@ + decimal(n as nat));
    } else {
        push_decimal(out, n / 10);
        push_char(out, digit(n % 10));
        assert(out@ =~= old(out)@ + decimal(n as nat));
    }
}

impl IdentGenerator {
    /// How many names were handed out.
    pub closed spec fn count(self) -> nat {
        self.i as nat
    }

    pub fn new() -> (r: IdentGenerator)
        ensures
            r.count() == 0,
    {
        IdentGenerator { i: 0 }
    }

    /// The next name, at the call site.
    pub fn generate(&mut self, _hint: &BindWith) -> (r: Ident)
        requires
            old(self).count() < usize::MAX,
        ensures
            r.stringed@ == generated_name(old(self).count()),
            r.span == call_site_span(),
            final(self).count() == old(self).count() + 1,
    {
        let i = self.i;
        self.i = self.i + 1;
        let mut name = String::from_str("__mquote");
        push_decimal(&mut name, i);
        Ident { stringed: name, span: Span::call_site() }
    }
}

proof fn lemma_decimal_len(n: nat)
    ensures
        decimal(n).len() >= 1,
        n >= 10 ==> decimal(n).len() >= 2,
    decreases n,
{
    if n >= 10 {
        lemma_decimal_len(n / 10);
    }
}

proof fn lemma_decimal_injective(a: nat, b: nat)
    requires
        decimal(a) == decimal(b),
    ensures
        a == b,
    decreases a,
{
    lemma_decimal_len(a);
    lemma_decimal_len(b);
    if a < 10 && b < 10 {
        assert(decimal(a)[0] == digit_char(a));
        assert(decimal(b)[0] == digit_char(b));
    } else if a >= 10 && b >= 10 {
        let da = decimal(a);
        let db = decimal(b);
        lemma_decimal_len(a / 10);
        lemma_decimal_len(b / 10);
        assert(da.last() == digit_char(a % 10));
        assert(db.last() == digit_char(b % 10));
        assert(da.drop_last() =~= decimal(a / 10));
        assert(db.drop_last() =~= decimal(b / 10));
        lemma_decimal_injective(a / 10, b / 10);
    }
}

/// Different generations give different names.
pub proof fn law_generated_names_distinct(i: nat, j: nat)
    requires
        i != j,
    ensures
        generated_name(i) != generated_name(j),
{
    if generated_name(i) == generated_name(j) {
        let p = "__mquote"@;
        assert(generated_name(i).subrange(p.len() as int, generated_name(i).len() as int)
            =~= decimal(i));
        assert(generated_name(j).subrange(p.len() as int, generated_name(j).len() as int)
            =~= decimal(j));
        lemma_decimal_injective(i, j);
    }
}

} // verus!
