//! The parsed template: plain tokens, insertions, extensions, conditional,
//! loop and match blocks, and groups whose contents are templates again.
use vstd::prelude::*;

use crate::tokens::{trees_view, Delimiter, Span, TokenStream, TokenTree, TT};

verus! {

pub enum TokenTreeQ {
    /// `#{expr}`: the tokens of the expression's value.
    Insertion(Span, TokenStream),
    /// `^{iterable}`: the token trees that the iterable yields.
    Extend(Span, TokenStream),
    If(MQuoteIf),
    For(MQuoteFor),
    Match(MQuoteMatch),
    Group(MQuoteGroup),
    Plain(TokenTree),
}

pub struct MQuoteGroup {
    pub delimiter: Delimiter,
    pub tokens: QTokens,
    pub span: Span,
}

pub struct MQuoteIf {
    pub span: Span,
    pub condition: TokenStream,
    pub then_branch: QTokens,
    pub else_: Option<QTokens>,
}

pub struct MQuoteFor {
    pub span: Span,
    pub over: TokenStream,
    pub body: QTokens,
}

pub struct MQuoteMatch {
    pub span: Span,
    pub of: TokenStream,
    pub patterns: Vec<(Span, TokenStream, QTokens)>,
}

pub struct QTokens {
    pub tokens: Vec<TokenTreeQ>,
}

/// One arm of a match block: the span of its `of` tag, its pattern and its body.
pub type ArmV = (Span, Seq<TT>, Seq<QT>);

/// The mathematical value of a template item.
pub enum QT {
    Insertion(Span, Seq<TT>),
    Extend(Span, Seq<TT>),
    /// span, condition, then-branch, else-branch
    If(Span, Seq<TT>, Seq<QT>, Option<Seq<QT>>),
    /// span, what is iterated over, body
    For(Span, Seq<TT>, Seq<QT>),
    /// span, scrutinee, arms
    Match(Span, Seq<TT>, Seq<(Span, Seq<TT>, Seq<QT>)>),
    Group(Delimiter, Seq<QT>, Span),
    Plain(TT),
}

pub open spec fn qtree_view(t: TokenTreeQ) -> QT
    decreases t,
{
    match t {
        TokenTreeQ::Insertion(s, ts) => QT::Insertion(s, ts@),
        TokenTreeQ::Extend(s, ts) => QT::Extend(s, ts@),
        TokenTreeQ::If(i) => QT::If(
            i.span,
            i.condition@,
            qtrees_view(i.then_branch.tokens@),
            match i.else_ {
                Some(e) => Some(qtrees_view(e.tokens@)),
                None => None,
            },
        ),
        TokenTreeQ::For(f) => QT::For(f.span, f.over@, qtrees_view(f.body.tokens@)),
        TokenTreeQ::Match(m) => QT::Match(m.span, m.of@, arms_view(m.patterns@)),
        TokenTreeQ::Group(g) => QT::Group(g.delimiter, qtrees_view(g.tokens.tokens@), g.span),
        TokenTreeQ::Plain(t) => QT::Plain(t@),
    }
}

pub open spec fn qtrees_view(s: Seq<TokenTreeQ>) -> Seq<QT>
    decreases s,
{
    Seq::new(
        s.len(),
        |i: int|
            if 0 <= i < s.len() {
                qtree_view(s[i])
            } else {
                QT::Insertion(Span(0), Seq::empty())
            },
    )
}

pub open spec fn arms_view(s: Seq<(Span, TokenStream, QTokens)>) -> Seq<ArmV>
    decreases s,
{
    Seq::new(
        s.len(),
        |i: int|
            if 0 <= i < s.len() {
                (s[i].0, s[i].1@, qtrees_view(s[i].2.tokens@))
            } else {
                (Span(0), Seq::empty(), Seq::empty())
            },
    )
}

pub open spec fn opt_view(o: Option<QTokens>) -> Option<Seq<QT>> {
    match o {
        Some(e) => Some(e@),
        None => None,
    }
}

impl View for TokenTreeQ {
    type V = QT;

    open spec fn view(&self) -> QT {
        qtree_view(*self)
    }
}

impl View for QTokens {
    type V = Seq<QT>;

    open spec fn view(&self) -> Seq<QT> {
        qtrees_view(self.tokens@)
    }
}

impl QT {
    pub open spec fn span(self) -> Span {
        match self {
            QT::Insertion(s, _) => s,
            QT::Extend(s, _) => s,
            QT::If(s, _, _, _) => s,
            QT::For(s, _, _) => s,
            QT::Match(s, _, _) => s,
            QT::Group(_, _, s) => s,
            QT::Plain(t) => t.span(),
        }
    }
}

impl TokenTreeQ {
    pub fn span(&self) -> (r: Span)
        ensures
            r == self@.span(),
    {
        match self {
            TokenTreeQ::Insertion(span, _) => *span,
            TokenTreeQ::Extend(span, _) => *span,
            TokenTreeQ::If(i) => i.span,
            TokenTreeQ::For(f) => f.span,
            TokenTreeQ::Match(m) => m.span,
            TokenTreeQ::Group(group) => group.span,
            TokenTreeQ::Plain(token) => token.span(),
        }
    }
}

impl QTokens {
    pub fn new() -> (r: QTokens)
        ensures
            r@ == Seq::<QT>::empty(),
    {
        let r = QTokens { tokens: Vec::new() };
        assert(r@ =~= Seq::<QT>::empty());
        r
    }

    pub fn push(&mut self, token: TokenTreeQ)
        ensures
            final(self)@ == old(self)@.push(token@),
    {
        self.tokens.push(token);
        assert(self@ =~= old(self)@.push(token@));
    }

    /// The template made of the given items, in order.
    pub fn from_vec(tokens: Vec<TokenTreeQ>) -> (r: QTokens)
        ensures
            r@ == qtrees_view(tokens@),
    {
        QTokens { tokens }
    }

    /// The template in which every tree of `stream` stands for itself.
    pub fn from_trees(stream: TokenStream) -> (r: QTokens)
        ensures
            r@ == Seq::new(stream@.len(), |i: int| QT::Plain(stream@[i])),
    {
        let ghost sv = stream@;
        let mut trees = stream.0;
        let mut rev: Vec<TokenTreeQ> = Vec::new();
        while trees.len() > 0
            invariant
                trees_view(trees@) == sv.subrange(0, trees@.len() as int),
                trees@.len() + rev@.len() == sv.len(),
                forall|j: int|
                    0 <= j < rev@.len() ==> qtree_view(#[trigger] rev@[j]) == QT::Plain(
                        sv[sv.len() - 1 - j],
                    ),
            decreases trees@.len(),
        {
            let ghost before = trees@;
            let t = trees.pop().unwrap();
            proof {
                assert(trees_view(before)[before.len() - 1] == t@);
                assert(trees_view(trees@) =~= sv.subrange(0, trees@.len() as int));
            }
            rev.push(TokenTreeQ::Plain(t));
        }
        let mut tokens: Vec<TokenTreeQ> = Vec::new();
        while rev.len() > 0
            invariant
                tokens@.len() + rev@.len() == sv.len(),
                forall|j: int|
                    0 <= j < rev@.len() ==> qtree_view(#[trigger] rev@[j]) == QT::Plain(
                        sv[sv.len() - 1 - j],
                    ),
                forall|j: int|
                    0 <= j < tokens@.len() ==> qtree_view(#[trigger] tokens@[j]) == QT::Plain(
                        sv[j],
                    ),
            decreases rev@.len(),
        {
            let q = rev.pop().unwrap();
            tokens.push(q);
        }
        let r = QTokens { tokens };
        assert(r@ =~= Seq::new(sv.len(), |i: int| QT::Plain(sv[i])));
        r
    }

    pub fn len(&self) -> (r: usize)
        ensures
            r == self@.len(),
    {
        self.tokens.len()
    }
}

} // verus!
