//! The template parser: a stack of open blocks (`Context`) that the
//! token stream is fed into, one token or tag at a time.
use std::collections::VecDeque;
use vstd::prelude::*;

use crate::error::{ErrV, Error};
use crate::language::{
    arms_view, opt_view, MQuoteFor, MQuoteGroup, MQuoteIf, MQuoteMatch, QTokens, TokenTreeQ, QT,
};
use crate::parse_spec::{
    arm_push, arrow_from, awaiting_of, block_of, chain, closed_block, closing_name, end_tag,
    end_tag_from, events, initial_context, is_brace_group, join, lemma_events_empty,
    lemma_events_group, lemma_events_plain, lemma_events_tag, lemma_run_close, lemma_run_end,
    lemma_run_step, msg_expected_got, msg_nesting, msg_unexpected, opening_name, pending,
    pick_tags, push_into, put, run, spec_close, spec_keyword, spec_open, spec_parse,
    spec_parse_spanned, spec_pick, spec_put_else, spec_put_elif, spec_put_for, spec_put_holder,
    spec_put_if, spec_put_match, spec_put_of, spec_put_qtoken, spec_release, spec_tag, step,
    top_is_holder, wf, Block, Ev, CI,
};
use crate::tokens::{trees_view, Delimiter, Group, Punct, Spacing, Span, TokenStream, TokenTree, TT};

verus! {

/// The tokens of a stream that are still to be read, in order.
pub struct TokenIterator {
    pub rest: VecDeque<TokenTree>,
}

impl View for TokenIterator {
    type V = Seq<TT>;

    open spec fn view(&self) -> Seq<TT> {
        trees_view(self.rest@)
    }
}

impl TokenIterator {
    pub fn new(stream: TokenStream) -> (r: TokenIterator)
        ensures
            r@ == stream@,
    {
        let ghost orig = stream.0@;
        let mut v = stream.0;
        let mut rest: VecDeque<TokenTree> = VecDeque::new();
        while v.len() > 0
            invariant
                v@ + rest@ == orig,
            decreases v@.len(),
        {
            let ghost before = v@;
            let t = v.pop().unwrap();
            assert(v@ + (seq![t] + rest@) =~= before + rest@);
            rest.push_front(t);
        }
        assert(rest@ =~= orig);
        TokenIterator { rest }
    }

    pub fn next(&mut self) -> (r: Option<TokenTree>)
        ensures
            old(self)@.len() == 0 ==> r is None && final(self)@ == old(self)@,
            old(self)@.len() > 0 ==> r is Some && r->0@ == old(self)@[0] && final(self)@
                == old(self)@.subrange(1, old(self)@.len() as int),
    {
        let r = self.rest.pop_front();
        proof {
            if r is Some {
                assert(self@ =~= old(self)@.subrange(1, old(self)@.len() as int));
            }
        }
        r
    }

    /// Whether the next token is a brace group.
    pub fn peek_is_brace_group(&self) -> (r: bool)
        ensures
            r == (self@.len() > 0 && is_brace_group(self@[0])),
    {
        if self.rest.len() == 0 {
            false
        } else {
            match &self.rest[0] {
                TokenTree::Group(g) => g.delimiter == Delimiter::Brace,
                _ => false,
            }
        }
    }

    /// The span of the last token still to be read.
    pub fn last_span(&self) -> (r: Option<Span>)
        ensures
            r == (if self@.len() > 0 {
                Some(self@.last().span())
            } else {
                None::<Span>
            }),
    {
        let n = self.rest.len();
        if n == 0 {
            None
        } else {
            Some(self.rest[n - 1].span())
        }
    }

    /// The tokens still to be read, as a stream.
    pub fn into_stream(self) -> (r: TokenStream)
        ensures
            r@ == self@,
    {
        let ghost orig = self.rest@;
        let mut rest = self.rest;
        let mut v: Vec<TokenTree> = Vec::new();
        while rest.len() > 0
            invariant
                v@ + rest@ == orig,
            decreases rest@.len(),
        {
            let ghost before = rest@;
            let t = rest.pop_front().unwrap();
            assert(v@.push(t) + rest@ =~= v@ + before);
            v.push(t);
        }
        assert(v@ =~= orig);
        TokenStream(v)
    }
}

pub enum ContextItem {
    ZeroPoint { tokens: QTokens },
    If { branches: Vec<(Span, TokenStream, QTokens)>, else_: Option<QTokens> },
    For { span: Span, over: TokenStream, body: QTokens },
    Match { span: Span, of: TokenStream, arms: Vec<(Span, TokenStream, QTokens)> },
    LevelHolder { hold: TokenIterator, span: Span, delimiter: Delimiter, tokens: QTokens },
}

pub open spec fn item_view(i: ContextItem) -> CI {
    match i {
        ContextItem::ZeroPoint { tokens } => CI::Zero(tokens@),
        ContextItem::If { branches, else_ } => CI::If(arms_view(branches@), opt_view(else_)),
        ContextItem::For { span, over, body } => CI::For(span, over@, body@),
        ContextItem::Match { span, of, arms } => CI::Match(span, of@, arms_view(arms@)),
        ContextItem::LevelHolder { hold, span, delimiter, tokens } => CI::Holder(
            hold@,
            span,
            delimiter,
            tokens@,
        ),
    }
}

pub open spec fn ctx_view(s: Seq<ContextItem>) -> Seq<CI> {
    Seq::new(s.len(), |i: int| item_view(s[i]))
}

/// The state of the parser: the blocks and groups that are open, the
/// innermost last.
pub struct Context {
    pub stack: Vec<ContextItem>,
}

impl View for Context {
    type V = Seq<CI>;

    open spec fn view(&self) -> Seq<CI> {
        ctx_view(self.stack@)
    }
}

proof fn lemma_ctx_push(s: Seq<ContextItem>, x: ContextItem)
    ensures
        ctx_view(s.push(x)) == ctx_view(s).push(item_view(x)),
{
    assert(ctx_view(s.push(x)) =~= ctx_view(s).push(item_view(x)));
}

proof fn lemma_ctx_drop_last(s: Seq<ContextItem>)
    requires
        s.len() > 0,
    ensures
        ctx_view(s.drop_last()) == ctx_view(s).drop_last(),
        ctx_view(s).last() == item_view(s.last()),
{
    assert(ctx_view(s.drop_last()) =~= ctx_view(s).drop_last());
}

proof fn lemma_arms_push(s: Seq<(Span, TokenStream, QTokens)>, x: (Span, TokenStream, QTokens))
    ensures
        arms_view(s.push(x)) == arms_view(s).push((x.0, x.1@, x.2@)),
{
    assert(arms_view(s.push(x)) =~= arms_view(s).push((x.0, x.1@, x.2@)));
}

proof fn lemma_arms_drop_last(s: Seq<(Span, TokenStream, QTokens)>)
    requires
        s.len() > 0,
    ensures
        arms_view(s.drop_last()) == arms_view(s).drop_last(),
        arms_view(s).last() == (s.last().0, s.last().1@, s.last().2@),
{
    assert(arms_view(s.drop_last()) =~= arms_view(s).drop_last());
}

/// Replacing the last element is dropping it and pushing the new one.
proof fn lemma_update_last<A>(s: Seq<A>, x: A)
    requires
        s.len() > 0,
    ensures
        s.update(s.len() - 1, x) == s.drop_last().push(x),
{
    assert(s.update(s.len() - 1, x) =~= s.drop_last().push(x));
}

/// Putting an item keeps the state well-formed.
proof fn lemma_put_wf(c: Seq<CI>, q: QT)
    requires
        wf(c),
    ensures
        wf(put(c, q)),
{
    let c2 = put(c, q);
    assert forall|i: int| 0 < i < c2.len() implies !(#[trigger] c2[i] is Zero) by {
        if i == c.len() - 1 {
            assert(!(c[i] is Zero));
        }
    }
    assert forall|i: int| 0 <= i < c2.len() implies match #[trigger] c2[i] {
        CI::If(br, _) => br.len() > 0,
        _ => true,
    } by {
        if i == c.len() - 1 {
            assert(match c[i] {
                CI::If(br, _) => br.len() > 0,
                _ => true,
            });
        }
    }
    assert forall|i: int| 0 <= i < c2.len() - 1 implies match #[trigger] c2[i] {
        CI::Match(_, _, arms) => arms.len() > 0,
        _ => true,
    } by {
        assert(c2[i] == c[i]);
    }
}

/// Opening a block on a state that does not wait for `#{of}` keeps it
/// well-formed.
pub proof fn lemma_open_wf(c: Seq<CI>, item: CI)
    requires
        wf(c),
        !awaiting_of(c),
        !(item is Zero),
        match item {
            CI::If(br, _) => br.len() > 0,
            _ => true,
        },
    ensures
        wf(c.push(item)),
{
    let c2 = c.push(item);
    assert forall|i: int| 0 <= i < c2.len() - 1 implies match #[trigger] c2[i] {
        CI::Match(_, _, arms) => arms.len() > 0,
        _ => true,
    } by {
        assert(c2[i] == c[i]);
        if i == c.len() - 1 {
            assert(!awaiting_of(c));
        }
    }
    assert forall|i: int| 0 <= i < c2.len() implies match #[trigger] c2[i] {
        CI::If(br, _) => br.len() > 0,
        _ => true,
    } by {
        if i < c.len() {
            assert(c2[i] == c[i]);
        }
    }
    assert forall|i: int| 0 < i < c2.len() implies !(#[trigger] c2[i] is Zero) by {
        if i < c.len() {
            assert(c2[i] == c[i]);
        }
    }
}

/// Changing the top block into another of the same kind, with at least as
/// many branches or arms, keeps the state well-formed.
proof fn lemma_update_top_wf(c: Seq<CI>, item: CI)
    requires
        wf(c),
        c.len() > 1,
        !(item is Zero),
        match item {
            CI::If(br, _) => br.len() > 0,
            _ => true,
        },
    ensures
        wf(c.update(c.len() - 1, item)),
{
    let c2 = c.update(c.len() - 1, item);
    assert forall|i: int| 0 <= i < c2.len() - 1 implies match #[trigger] c2[i] {
        CI::Match(_, _, arms) => arms.len() > 0,
        _ => true,
    } by {
        assert(c2[i] == c[i]);
    }
    assert forall|i: int| 0 <= i < c2.len() implies match #[trigger] c2[i] {
        CI::If(br, _) => br.len() > 0,
        _ => true,
    } by {
        if i < c.len() - 1 {
            assert(c2[i] == c[i]);
        }
    }
    assert forall|i: int| 0 < i < c2.len() implies !(#[trigger] c2[i] is Zero) by {
        if i < c.len() - 1 {
            assert(c2[i] == c[i]);
        }
    }
}

/// Dropping the top block (not the bottom) keeps the state well-formed,
/// and the state below does not wait for `#{of}`.
proof fn lemma_drop_wf(c: Seq<CI>)
    requires
        wf(c),
        c.len() > 1,
    ensures
        wf(c.drop_last()),
        !awaiting_of(c.drop_last()),
{
    let c2 = c.drop_last();
    assert(c2[c2.len() - 1] == c[c.len() - 2]);
    assert(match c[c.len() - 2] {
        CI::Match(_, _, arms) => arms.len() > 0,
        _ => true,
    });
    assert forall|i: int| 0 <= i < c2.len() - 1 implies match #[trigger] c2[i] {
        CI::Match(_, _, arms) => arms.len() > 0,
        _ => true,
    } by {
        assert(c2[i] == c[i]);
    }
    assert forall|i: int| 0 <= i < c2.len() implies match #[trigger] c2[i] {
        CI::If(br, _) => br.len() > 0,
        _ => true,
    } by {
        assert(c2[i] == c[i]);
    }
    assert forall|i: int| 0 < i < c2.len() implies !(#[trigger] c2[i] is Zero) by {
        assert(c2[i] == c[i]);
    }
}

/// `r` is what the step `expected` of the machine gives: the new state
/// `after`, or the same error.
pub open spec fn outcome(r: Result<(), Error>, expected: Result<Seq<CI>, ErrV>, after: Seq<CI>) -> bool {
    match r {
        Ok(_) => expected == Ok::<Seq<CI>, ErrV>(after),
        Err(e) => expected == Err::<Seq<CI>, ErrV>(e@),
    }
}

proof fn lemma_pending_put(c: Seq<CI>, q: QT)
    requires
        c.len() > 0,
    ensures
        pending(put(c, q)) == pending(c),
{
    let c2 = put(c, q);
    assert(c2.drop_last() =~= c.drop_last());
}

proof fn lemma_pending_update_top(c: Seq<CI>, item: CI)
    requires
        c.len() > 0,
        !(c.last() is Holder),
        !(item is Holder),
    ensures
        pending(c.update(c.len() - 1, item)) == pending(c),
{
    let c2 = c.update(c.len() - 1, item);
    assert(c2.drop_last() =~= c.drop_last());
}

proof fn lemma_pending_push(c: Seq<CI>, item: CI)
    ensures
        !(item is Holder) ==> pending(c.push(item)) == pending(c),
        item is Holder ==> pending(c.push(item)) == seq![Ev::Close] + events(item->Holder_0)
            + pending(c),
{
    assert(c.push(item).drop_last() =~= c);
}

/// What is still pending is empty or starts at the end of a group.
proof fn lemma_pending_starts_with_close(c: Seq<CI>)
    ensures
        pending(c).len() == 0 || pending(c)[0] == Ev::Close,
    decreases c.len(),
{
    if c.len() > 0 {
        lemma_pending_starts_with_close(c.drop_last());
    }
}

fn closing_str(b: Block) -> (r: &'static str)
    ensures
        r@ == closing_name(b),
{
    match b {
        Block::If => "endif",
        Block::For => "endfor",
        Block::Match => "endmatch",
    }
}

fn opening_str(b: Block) -> (r: &'static str)
    ensures
        r@ == opening_name(b),
{
    match b {
        Block::If => "if",
        Block::For => "for",
        Block::Match => "match",
    }
}

fn nesting_message(b: Block) -> (r: String)
    ensures
        r@ == msg_nesting(b),
{
    let mut s = String::from_str("#{");
    s.append(opening_str(b));
    s.append(" .. } is on different nesting level from #{");
    s.append(closing_str(b));
    s.append("}, that is not permitted");
    s
}

fn expected_got_message(expected: Block, got: Block) -> (r: String)
    ensures
        r@ == msg_expected_got(expected, got),
{
    let mut s = String::from_str("expected ");
    s.append(closing_str(expected));
    s.append(", got ");
    s.append(closing_str(got));
    s
}

fn unexpected_message(got: Block) -> (r: String)
    ensures
        r@ == msg_unexpected(got),
{
    let mut s = String::from_str("unexpected ");
    s.append(closing_str(got));
    s
}

pub open spec fn strs_view(s: Seq<&str>) -> Seq<Seq<char>> {
    Seq::new(s.len(), |i: int| s[i]@)
}

fn join_tags(tags: &Vec<&'static str>, sep: &str) -> (r: String)
    ensures
        r@ == join(strs_view(tags@), sep@),
{
    let mut out = String::new();
    let mut i: usize = 0;
    while i < tags.len()
        invariant
            i <= tags@.len(),
            out@ == join(strs_view(tags@.subrange(0, i as int)), sep@),
        decreases tags@.len() - i,
    {
        let ghost prev = strs_view(tags@.subrange(0, i as int));
        let ghost next = strs_view(tags@.subrange(0, i + 1));
        assert(next.drop_last() =~= prev);
        if i > 0 {
            out.append(sep);
        }
        out.append(tags[i]);
        i = i + 1;
    }
    assert(tags@.subrange(0, i as int) =~= tags@);
    out
}

/// The chained `if` of the given branches (see `chain`).
fn build_chain(branches: Vec<(Span, TokenStream, QTokens)>, else_: Option<QTokens>) -> (r:
    TokenTreeQ)
    requires
        branches@.len() > 0,
    ensures
        r@ == chain(arms_view(branches@), opt_view(else_)),
{
    let ghost full = arms_view(branches@);
    let ghost ev = opt_view(else_);
    let ghost n = branches@.len();
    let mut branches = branches;
    let ghost before = branches@;
    let (span, condition, then_branch) = branches.pop().unwrap();
    proof {
        lemma_arms_drop_last(before);
        assert(full.subrange(n - 1, n as int) =~= seq![full[n - 1]]);
    }
    let mut current = TokenTreeQ::If(MQuoteIf { span, condition, then_branch, else_ });
    while branches.len() > 0
        invariant
            0 <= branches@.len() < n,
            n == full.len(),
            arms_view(branches@) == full.subrange(0, branches@.len() as int),
            current@ == chain(full.subrange(branches@.len() as int, n as int), ev),
        decreases branches@.len(),
    {
        let ghost before = branches@;
        let ghost k = branches@.len();
        let (span, condition, then_branch) = branches.pop().unwrap();
        proof {
            lemma_arms_drop_last(before);
            assert(arms_view(branches@) =~= full.subrange(0, k - 1));
            let sub = full.subrange(k - 1, n as int);
            assert(sub.drop_first() =~= full.subrange(k as int, n as int));
            assert(sub[0] == full[k - 1]);
        }
        let mut inner: Vec<TokenTreeQ> = Vec::new();
        inner.push(current);
        let inner_q = QTokens::from_vec(inner);
        current = TokenTreeQ::If(
            MQuoteIf { span, condition, then_branch, else_: Some(inner_q) },
        );
        proof {
            assert(inner_q@ =~= seq![chain(full.subrange(k as int, n as int), ev)]);
        }
    }
    assert(full.subrange(0, n as int) =~= full);
    current
}

impl ContextItem {
    /// The item with `token` appended where tokens currently go.
    fn push_token(self, token: TokenTreeQ) -> (r: ContextItem)
        requires
            match item_view(self) {
                CI::If(br, _) => br.len() > 0,
                CI::Match(_, _, arms) => arms.len() > 0,
                _ => true,
            },
        ensures
            item_view(r) == push_into(item_view(self), token@),
    {
        match self {
            ContextItem::ZeroPoint { tokens } => {
                let mut tokens = tokens;
                tokens.push(token);
                ContextItem::ZeroPoint { tokens }
            },
            ContextItem::If { branches, else_ } => match else_ {
                Some(e) => {
                    let mut e = e;
                    e.push(token);
                    ContextItem::If { branches, else_: Some(e) }
                },
                None => {
                    let ghost before = branches@;
                    let mut branches = branches;
                    let (s, c, b) = branches.pop().unwrap();
                    let mut b = b;
                    b.push(token);
                    proof {
                        lemma_arms_drop_last(before);
                    }
                    let ghost mid = branches@;
                    branches.push((s, c, b));
                    proof {
                        lemma_arms_push(mid, (s, c, b));
                        lemma_update_last(arms_view(before), arm_push(arms_view(before).last(), token@));
                    }
                    ContextItem::If { branches, else_: None }
                },
            },
            ContextItem::For { span, over, body } => {
                let mut body = body;
                body.push(token);
                ContextItem::For { span, over, body }
            },
            ContextItem::Match { span, of, arms } => {
                let ghost before = arms@;
                let mut arms = arms;
                let (s, c, b) = arms.pop().unwrap();
                let mut b = b;
                b.push(token);
                proof {
                    lemma_arms_drop_last(before);
                }
                let ghost mid = arms@;
                arms.push((s, c, b));
                proof {
                    lemma_arms_push(mid, (s, c, b));
                    lemma_update_last(arms_view(before), arm_push(arms_view(before).last(), token@));
                }
                ContextItem::Match { span, of, arms }
            },
            ContextItem::LevelHolder { hold, span, delimiter, tokens } => {
                let mut tokens = tokens;
                tokens.push(token);
                ContextItem::LevelHolder { hold, span, delimiter, tokens }
            },
        }
    }

    /// The template item that a closed block or group becomes.
    fn close(self) -> (r: TokenTreeQ)
        requires
            !(item_view(self) is Zero),
            match item_view(self) {
                CI::If(br, _) => br.len() > 0,
                _ => true,
            },
        ensures
            r@ == closed_block(item_view(self)),
    {
        match self {
            ContextItem::If { branches, else_ } => build_chain(branches, else_),
            ContextItem::For { span, over, body } => TokenTreeQ::For(MQuoteFor { span, over, body }),
            ContextItem::Match { span, of, arms } => TokenTreeQ::Match(
                MQuoteMatch { span, of, patterns: arms },
            ),
            ContextItem::LevelHolder { hold, span, delimiter, tokens } => TokenTreeQ::Group(
                MQuoteGroup { delimiter, tokens, span },
            ),
            ContextItem::ZeroPoint { tokens } => TokenTreeQ::Plain(
                TokenTree::Punct(Punct { op: ' ', spacing: Spacing::Alone, span: Span(0) }),
            ),
        }
    }
}

impl Context {
    pub fn new() -> (r: Context)
        ensures
            r@ == initial_context(),
            wf(r@),
    {
        let mut stack: Vec<ContextItem> = Vec::new();
        stack.push(ContextItem::ZeroPoint { tokens: QTokens::new() });
        let r = Context { stack };
        assert(r@ =~= initial_context());
        r
    }

    /// Whether a `#{match}` without any `#{of}` yet is on top.
    pub fn awaiting_of(&self) -> (r: bool)
        requires
            wf(self@),
        ensures
            r == awaiting_of(self@),
    {
        let n = self.stack.len();
        match &self.stack[n - 1] {
            ContextItem::Match { arms, .. } => arms.len() == 0,
            _ => false,
        }
    }

    /// Appends a template item where tokens currently go; refused right
    /// after `#{match}`.
    pub fn put_qtoken(&mut self, token: TokenTreeQ) -> (r: Result<(), Error>)
        requires
            wf(old(self)@),
        ensures
            outcome(r, spec_put_qtoken(old(self)@, token@), final(self)@),
            wf(final(self)@),
            r is Err ==> final(self)@ == old(self)@,
            r is Ok ==> pending(final(self)@) == pending(old(self)@),
    {
        if self.awaiting_of() {
            return Err(
                Error::new(token.span(), "unexpected tokens between #{match ...} and #{of ...}"),
            );
        }
        let ghost q = token@;
        let ghost c = self@;
        let ghost old_stack = self.stack@;
        let top = self.stack.pop().unwrap();
        proof {
            lemma_ctx_drop_last(old_stack);
            assert(match c.last() {
                CI::If(br, _) => br.len() > 0,
                _ => true,
            });
        }
        let new_top = top.push_token(token);
        self.stack.push(new_top);
        proof {
            lemma_ctx_push(old_stack.drop_last(), new_top);
            lemma_update_last(c, push_into(c.last(), q));
            lemma_put_wf(c, q);
            lemma_pending_put(c, q);
        }
        Ok(())
    }

    /// Pushes a new block or group; refused right after `#{match}`.
    fn open_item(&mut self, span: Span, item: ContextItem) -> (r: Result<(), Error>)
        requires
            wf(old(self)@),
            !(item_view(item) is Zero),
            match item_view(item) {
                CI::If(br, _) => br.len() > 0,
                _ => true,
            },
        ensures
            outcome(r, spec_open(old(self)@, span, item_view(item)), final(self)@),
            wf(final(self)@),
            r is Err ==> final(self)@ == old(self)@,
    {
        if self.awaiting_of() {
            return Err(Error::new(span, "unexpected tokens between #{match ...} and #{of ...}"));
        }
        let ghost old_stack = self.stack@;
        self.stack.push(item);
        proof {
            lemma_ctx_push(old_stack, item);
            lemma_open_wf(ctx_view(old_stack), item_view(item));
        }
        Ok(())
    }

    pub fn put_if(&mut self, span: Span, condition: TokenStream) -> (r: Result<(), Error>)
        requires
            wf(old(self)@),
        ensures
            outcome(r, spec_put_if(old(self)@, span, condition@), final(self)@),
            wf(final(self)@),
            r is Err ==> final(self)@ == old(self)@,
            r is Ok ==> pending(final(self)@) == pending(old(self)@),
    {
        let ghost cond = condition@;
        let mut branches: Vec<(Span, TokenStream, QTokens)> = Vec::new();
        let b = (span, condition, QTokens::new());
        branches.push(b);
        proof {
            assert(arms_view(branches@) =~= seq![(span, cond, Seq::<QT>::empty())]);
        }
        let item = ContextItem::If { branches, else_: None };
        let r = self.open_item(span, item);
        proof {
            lemma_pending_push(old(self)@, item_view(item));
        }
        r
    }

    pub fn put_for(&mut self, span: Span, over: TokenStream) -> (r: Result<(), Error>)
        requires
            wf(old(self)@),
        ensures
            outcome(r, spec_put_for(old(self)@, span, over@), final(self)@),
            wf(final(self)@),
            r is Err ==> final(self)@ == old(self)@,
            r is Ok ==> pending(final(self)@) == pending(old(self)@),
    {
        let item = ContextItem::For { span, over, body: QTokens::new() };
        let r = self.open_item(span, item);
        proof {
            lemma_pending_push(old(self)@, item_view(item));
        }
        r
    }

    pub fn put_match(&mut self, span: Span, of: TokenStream) -> (r: Result<(), Error>)
        requires
            wf(old(self)@),
        ensures
            outcome(r, spec_put_match(old(self)@, span, of@), final(self)@),
            wf(final(self)@),
            r is Err ==> final(self)@ == old(self)@,
            r is Ok ==> pending(final(self)@) == pending(old(self)@),
    {
        let arms: Vec<(Span, TokenStream, QTokens)> = Vec::new();
        proof {
            assert(arms_view(arms@) =~= Seq::<(Span, Seq<TT>, Seq<QT>)>::empty());
        }
        let item = ContextItem::Match { span, of, arms };
        let r = self.open_item(span, item);
        proof {
            lemma_pending_push(old(self)@, item_view(item));
        }
        r
    }

    /// Enters a group: `held_tokens` are the tokens after the group.
    pub fn put_holder(&mut self, held_tokens: TokenIterator, span: Span, delimiter: Delimiter) -> (r:
        Result<(), Error>)
        requires
            wf(old(self)@),
        ensures
            outcome(r, spec_put_holder(old(self)@, held_tokens@, span, delimiter), final(self)@),
            wf(final(self)@),
            r is Err ==> final(self)@ == old(self)@,
            r is Ok ==> pending(final(self)@) == seq![Ev::Close] + events(
                held_tokens@,
            ) + pending(old(self)@),
    {
        let item = ContextItem::LevelHolder {
            hold: held_tokens,
            span,
            delimiter,
            tokens: QTokens::new(),
        };
        let r = self.open_item(span, item);
        proof {
            lemma_pending_push(old(self)@, item_view(item));
        }
        r
    }

    fn top_is_if(&self) -> (r: bool)
        requires
            wf(self@),
        ensures
            r == (self@.last() is If),
    {
        let n = self.stack.len();
        match &self.stack[n - 1] {
            ContextItem::If { .. } => true,
            _ => false,
        }
    }

    fn top_is_match(&self) -> (r: bool)
        requires
            wf(self@),
        ensures
            r == (self@.last() is Match),
    {
        let n = self.stack.len();
        match &self.stack[n - 1] {
            ContextItem::Match { .. } => true,
            _ => false,
        }
    }

    /// Replaces the top item by `item` of the same kind.
    pub fn put_elif(&mut self, span: Span, condition: TokenStream) -> (r: Result<(), Error>)
        requires
            wf(old(self)@),
        ensures
            outcome(r, spec_put_elif(old(self)@, span, condition@), final(self)@),
            wf(final(self)@),
            r is Err ==> final(self)@ == old(self)@,
            r is Ok ==> pending(final(self)@) == pending(old(self)@),
    {
        if !self.top_is_if() {
            return Err(
                Error::new(span, "elif is only acceptable in context of #{if ...} ... #{endif}"),
            );
        }
        let ghost c = self@;
        let ghost old_stack = self.stack@;
        let top = self.stack.pop().unwrap();
        proof {
            lemma_ctx_drop_last(old_stack);
        }
        let new_top = match top {
            ContextItem::If { branches, else_ } => {
                let ghost before = branches@;
                let mut branches = branches;
                let b = (span, condition, QTokens::new());
                branches.push(b);
                proof {
                    lemma_arms_push(before, b);
                }
                ContextItem::If { branches, else_ }
            },
            other => other,
        };
        self.stack.push(new_top);
        proof {
            lemma_repush(old_stack, new_top);
            lemma_update_top_wf(c, item_view(new_top));
            lemma_pending_update_top(c, item_view(new_top));
        }
        Ok(())
    }

    pub fn put_else(&mut self, span: Span) -> (r: Result<(), Error>)
        requires
            wf(old(self)@),
        ensures
            outcome(r, spec_put_else(old(self)@, span), final(self)@),
            wf(final(self)@),
            r is Err ==> final(self)@ == old(self)@,
            r is Ok ==> pending(final(self)@) == pending(old(self)@),
    {
        if !self.top_is_if() {
            return Err(
                Error::new(span, "else is only acceptable in context of #{if ...} ... #{endif}"),
            );
        }
        let n = self.stack.len();
        let has_else = match &self.stack[n - 1] {
            ContextItem::If { else_, .. } => else_.is_some(),
            _ => false,
        };
        if has_else {
            return Err(Error::new(span, "duplicated else branch"));
        }
        let ghost c = self@;
        let ghost old_stack = self.stack@;
        let top = self.stack.pop().unwrap();
        proof {
            lemma_ctx_drop_last(old_stack);
        }
        let new_top = match top {
            ContextItem::If { branches, else_ } => ContextItem::If {
                branches,
                else_: Some(QTokens::new()),
            },
            other => other,
        };
        self.stack.push(new_top);
        proof {
            lemma_repush(old_stack, new_top);
            lemma_update_top_wf(c, item_view(new_top));
            lemma_pending_update_top(c, item_view(new_top));
        }
        Ok(())
    }

    pub fn put_of(&mut self, span: Span, pattern: TokenStream) -> (r: Result<(), Error>)
        requires
            wf(old(self)@),
        ensures
            outcome(r, spec_put_of(old(self)@, span, pattern@), final(self)@),
            wf(final(self)@),
            r is Err ==> final(self)@ == old(self)@,
            r is Ok ==> pending(final(self)@) == pending(old(self)@),
    {
        if !self.top_is_match() {
            return Err(
                Error::new(
                    span,
                    "of is only acceptable in context of #{match ...} ... #{endmatch}",
                ),
            );
        }
        let ghost c = self@;
        let ghost old_stack = self.stack@;
        let top = self.stack.pop().unwrap();
        proof {
            lemma_ctx_drop_last(old_stack);
        }
        let new_top = match top {
            ContextItem::Match { span: s, of, arms } => {
                let ghost before = arms@;
                let mut arms = arms;
                let b = (span, pattern, QTokens::new());
                arms.push(b);
                proof {
                    lemma_arms_push(before, b);
                }
                ContextItem::Match { span: s, of, arms }
            },
            other => other,
        };
        self.stack.push(new_top);
        proof {
            lemma_repush(old_stack, new_top);
            lemma_update_top_wf(c, item_view(new_top));
            lemma_pending_update_top(c, item_view(new_top));
        }
        Ok(())
    }
}

impl Context {
    /// The nearest open block (not a group) from the top, and how far
    /// below the top it is.
    fn lookup_end_block(&self) -> (r: Option<(usize, Block)>)
        ensures
            match r {
                Some((k, b)) => end_tag(self@) == Some((k as nat, b)),
                None => end_tag(self@) is None,
            },
    {
        let n = self.stack.len();
        let mut k: usize = 0;
        while k < n
            invariant
                n == self@.len(),
                k <= n,
                end_tag(self@) == end_tag_from(self@, k as nat),
            decreases n - k,
        {
            let b = match &self.stack[n - 1 - k] {
                ContextItem::If { .. } => Some(Block::If),
                ContextItem::For { .. } => Some(Block::For),
                ContextItem::Match { .. } => Some(Block::Match),
                _ => None,
            };
            match b {
                Some(b) => {
                    return Some((k, b));
                },
                None => {},
            }
            k = k + 1;
        }
        None
    }

    /// The closing tag that the nearest open block expects, and how far
    /// below the top that block is.
    pub fn lookup_end_tag(&self) -> (r: Option<(usize, &'static str)>)
        ensures
            match r {
                Some((k, tag)) => exists|b: Block|
                    end_tag(self@) == Some((k as nat, b)) && tag@ == closing_name(b),
                None => end_tag(self@) is None,
            },
    {
        match self.lookup_end_block() {
            Some((k, b)) => Some((k, closing_str(b))),
            None => None,
        }
    }

    /// A closing tag of kind `b`.
    fn close_block(&mut self, span: Span, b: Block) -> (r: Result<(), Error>)
        requires
            wf(old(self)@),
        ensures
            outcome(r, spec_close(old(self)@, span, b), final(self)@),
            wf(final(self)@),
            r is Err ==> final(self)@ == old(self)@,
            r is Ok ==> pending(final(self)@) == pending(old(self)@),
    {
        match self.lookup_end_block() {
            Some((k, found)) => {
                if found == b {
                    if k != 0 {
                        return Err(Error::with_message(span, nesting_message(b)));
                    }
                } else if k == 0 {
                    return Err(Error::with_message(span, expected_got_message(found, b)));
                } else {
                    return Err(Error::with_message(span, unexpected_message(b)));
                }
            },
            None => {
                return Err(Error::with_message(span, unexpected_message(b)));
            },
        }
        let ghost c = self@;
        let ghost old_stack = self.stack@;
        proof {
            lemma_end_tag_from(c, 0);
            assert(block_of(c[c.len() - 1]) is Some);
            assert(c.len() > 1);
            assert(match c[c.len() - 1] {
                CI::If(br, _) => br.len() > 0,
                _ => true,
            });
        }
        let top = self.stack.pop().unwrap();
        proof {
            lemma_ctx_drop_last(old_stack);
            lemma_drop_wf(c);
        }
        let q = top.close();
        let r = self.put_qtoken(q);
        proof {
            lemma_pending_put(c.drop_last(), q@);
        }
        r
    }

    pub fn put_endif(&mut self, span: Span) -> (r: Result<(), Error>)
        requires
            wf(old(self)@),
        ensures
            outcome(r, spec_close(old(self)@, span, Block::If), final(self)@),
            wf(final(self)@),
            r is Err ==> final(self)@ == old(self)@,
            r is Ok ==> pending(final(self)@) == pending(old(self)@),
    {
        self.close_block(span, Block::If)
    }

    pub fn put_endfor(&mut self, span: Span) -> (r: Result<(), Error>)
        requires
            wf(old(self)@),
        ensures
            outcome(r, spec_close(old(self)@, span, Block::For), final(self)@),
            wf(final(self)@),
            r is Err ==> final(self)@ == old(self)@,
            r is Ok ==> pending(final(self)@) == pending(old(self)@),
    {
        self.close_block(span, Block::For)
    }

    pub fn put_endmatch(&mut self, span: Span) -> (r: Result<(), Error>)
        requires
            wf(old(self)@),
        ensures
            outcome(r, spec_close(old(self)@, span, Block::Match), final(self)@),
            wf(final(self)@),
            r is Err ==> final(self)@ == old(self)@,
            r is Ok ==> pending(final(self)@) == pending(old(self)@),
    {
        self.close_block(span, Block::Match)
    }

    /// Leaves the group on top of the stack, if a group is on top: the
    /// group becomes an item of the block below, and the tokens that follow
    /// it are handed back.
    pub fn try_release_holder(&mut self) -> (r: Option<TokenIterator>)
        requires
            wf(old(self)@),
        ensures
            match r {
                Some(h) => {
                    &&& top_is_holder(old(self)@)
                    &&& old(self)@.last()->Holder_0 == h@
                    &&& final(self)@ == spec_release(old(self)@)
                    &&& wf(final(self)@)
                    &&& pending(old(self)@) == seq![Ev::Close] + events(h@) + pending(final(self)@)
                },
                None => !top_is_holder(old(self)@) && final(self)@ == old(self)@,
            },
    {
        let n = self.stack.len();
        let is_holder = match &self.stack[n - 1] {
            ContextItem::LevelHolder { .. } => true,
            _ => false,
        };
        if !is_holder {
            return None;
        }
        let ghost c = self@;
        let ghost old_stack = self.stack@;
        proof {
            assert(c.len() > 1);
        }
        let top = self.stack.pop().unwrap();
        proof {
            lemma_ctx_drop_last(old_stack);
            lemma_drop_wf(c);
        }
        match top {
            ContextItem::LevelHolder { hold, span, delimiter, tokens } => {
                let g = TokenTreeQ::Group(MQuoteGroup { delimiter, tokens, span });
                let _ = self.put_qtoken(g);
                proof {
                    lemma_pending_put(c.drop_last(), g@);
                }
                Some(hold)
            },
            _ => {
                proof {
                    assert(false);
                }
                None
            },
        }
    }

    /// The template read, once the input is used up; an error naming the
    /// closing tags still missing otherwise.
    pub fn pick_result(self) -> (r: Result<QTokens, Error>)
        requires
            wf(self@),
        ensures
            match r {
                Ok(q) => spec_pick(self@) == Ok::<Seq<QT>, ErrV>(q@),
                Err(e) => spec_pick(self@) == Err::<Seq<QT>, ErrV>(e@),
            },
    {
        let ghost c = self@;
        let mut stack = self.stack;
        let n = stack.len();
        if n == 1 {
            match stack.pop().unwrap() {
                ContextItem::ZeroPoint { tokens } => {
                    return Ok(tokens);
                },
                _ => {
                    proof {
                        assert(false);
                    }
                    return Ok(QTokens::new());
                },
            }
        }
        let mut unclosed_tags: Vec<&'static str> = Vec::new();
        let mut eof: Option<Span> = None;
        let mut done = false;
        let mut i: usize = n;
        proof {
            assert(c.subrange(0, n as int) =~= c);
            assert(strs_view(unclosed_tags@) + pick_tags(c).0 =~= pick_tags(c).0);
        }
        while i > 0 && !done
            invariant
                n == c.len(),
                n == stack@.len(),
                c == ctx_view(stack@),
                i <= n,
                !done ==> pick_tags(c) == (
                    strs_view(unclosed_tags@) + pick_tags(c.subrange(0, i as int)).0,
                    pick_tags(c.subrange(0, i as int)).1,
                ) && eof is None,
                done ==> pick_tags(c) == (strs_view(unclosed_tags@), eof),
            decreases i,
        {
            let ghost sub = c.subrange(0, i as int);
            let ghost before = unclosed_tags@;
            proof {
                assert(sub.drop_last() =~= c.subrange(0, i - 1));
                assert(sub.last() == c[i - 1]);
            }
            i = i - 1;
            match &stack[i] {
                ContextItem::If { .. } => {
                    unclosed_tags.push("endif");
                },
                ContextItem::For { .. } => {
                    unclosed_tags.push("endfor");
                },
                ContextItem::Match { .. } => {
                    unclosed_tags.push("endmatch");
                },
                ContextItem::LevelHolder { span, .. } => {
                    eof = Some(*span);
                    done = true;
                },
                ContextItem::ZeroPoint { .. } => {
                    done = true;
                },
            }
            proof {
                assert(strs_view(unclosed_tags@) =~= strs_view(before) + (if unclosed_tags@.len()
                    > before.len() {
                    seq![unclosed_tags@.last()@]
                } else {
                    Seq::empty()
                }));
            }
        }
        let msg = join_tags(&unclosed_tags, "}, #{");
        let mut text = String::from_str("expected: #{");
        text.append(msg.as_str());
        text.append("}");
        let span = match eof {
            Some(s) => s,
            None => Span::call_site(),
        };
        proof {
            if !done {
                assert(c.subrange(0, i as int) =~= Seq::<CI>::empty());
                assert(strs_view(unclosed_tags@) + Seq::empty() =~= strs_view(unclosed_tags@));
            }
        }
        Err(Error::with_message(span, text))
    }
}

fn text_is(s: &String, lit: &str) -> (r: bool)
    ensures
        r == (s@ == lit@),
{
    *s == String::from_str(lit)
}

pub open spec fn punct_view(p: Punct) -> TT {
    TT::Punct(p.op, p.spacing, p.span)
}

/// The step for the tag `#{ident ...}`: `inner` holds the tokens after
/// the identifier.
fn dispatch_keyword(context: &mut Context, ident: crate::tokens::Ident, inner: TokenIterator) -> (r:
    Result<(), Error>)
    requires
        wf(old(context)@),
    ensures
        outcome(
            r,
            spec_keyword(
                old(context)@,
                ident.stringed@,
                ident.span,
                seq![TT::Ident(ident.stringed@, ident.span)] + inner@,
            ),
            final(context)@,
        ),
        r is Ok ==> wf(final(context)@) && pending(final(context)@) == pending(old(context)@),
{
    let ghost whole = seq![TT::Ident(ident.stringed@, ident.span)] + inner@;
    proof {
        assert(whole.subrange(1, whole.len() as int) =~= inner@);
    }
    let span = ident.span;
    if text_is(&ident.stringed, "if") {
        context.put_if(span, inner.into_stream())
    } else if text_is(&ident.stringed, "elif") {
        context.put_elif(span, inner.into_stream())
    } else if text_is(&ident.stringed, "else") {
        context.put_else(span)
    } else if text_is(&ident.stringed, "endif") {
        context.put_endif(span)
    } else if text_is(&ident.stringed, "for") {
        context.put_for(span, inner.into_stream())
    } else if text_is(&ident.stringed, "endfor") {
        context.put_endfor(span)
    } else if text_is(&ident.stringed, "match") {
        context.put_match(span, inner.into_stream())
    } else if text_is(&ident.stringed, "of") {
        context.put_of(span, inner.into_stream())
    } else if text_is(&ident.stringed, "endmatch") {
        context.put_endmatch(span)
    } else {
        let mut tokens = TokenStream::new();
        tokens.push(TokenTree::Ident(ident));
        tokens.extend(inner.into_stream());
        proof {
            assert(tokens@ =~= whole);
        }
        context.put_qtoken(TokenTreeQ::Insertion(span, tokens))
    }
}

/// The step for a marker `punct` followed by the brace group `group`.
fn process_tag(context: &mut Context, punct: Punct, group: Group) -> (r: Result<(), Error>)
    requires
        wf(old(context)@),
    ensures
        outcome(
            r,
            spec_tag(old(context)@, punct_view(punct), group.stream@, group.span),
            final(context)@,
        ),
        r is Ok ==> wf(final(context)@) && pending(final(context)@) == pending(old(context)@),
{
    let gspan = group.span;
    let ghost iv = group.stream@;
    let mut inner = TokenIterator::new(group.stream);
    let first = match inner.next() {
        Some(t) => t,
        None => {
            return Err(Error::new(gspan, "expected tag or expression, got nothing"));
        },
    };
    proof {
        assert(first@ == iv[0]);
    }
    match first {
        TokenTree::Group(escaping) => {
            match inner.next() {
                Some(token) => {
                    let err = Error::new(token.span(), "invalid escaping");
                    proof {
                        assert(token@ == iv[1]);
                        if iv.len() > 2 {
                            assert(inner@.last() == iv.last());
                        }
                    }
                    match inner.last_span() {
                        Some(span) => Err(err.end_span(span)),
                        None => Err(err),
                    }
                },
                None => {
                    let ghost c0 = context@;
                    let ghost pv = punct_view(punct);
                    match context.put_qtoken(TokenTreeQ::Plain(TokenTree::Punct(punct))) {
                        Ok(()) => {},
                        Err(e) => {
                            return Err(e);
                        },
                    }
                    proof {
                        assert(spec_put_qtoken(c0, QT::Plain(pv)) == Ok::<Seq<CI>, ErrV>(context@));
                    }
                    context.put_qtoken(TokenTreeQ::Plain(TokenTree::Group(escaping)))
                },
            }
        },
        TokenTree::Ident(ident) => {
            if punct.op == '#' {
                proof {
                    assert(seq![TT::Ident(ident.stringed@, ident.span)] + inner@ =~= iv);
                }
                dispatch_keyword(context, ident, inner)
            } else {
                let span = ident.span;
                let mut tokens = TokenStream::new();
                tokens.push(TokenTree::Ident(ident));
                tokens.extend(inner.into_stream());
                proof {
                    assert(tokens@ =~= iv);
                }
                context.put_qtoken(TokenTreeQ::Extend(span, tokens))
            }
        },
        other => {
            let span = other.span();
            if punct.op == '#' {
                Err(Error::new(span, "invalid mquote syntax, expected tag"))
            } else {
                let mut tokens = TokenStream::new();
                tokens.push(other);
                tokens.extend(inner.into_stream());
                proof {
                    assert(tokens@ =~= iv);
                }
                context.put_qtoken(TokenTreeQ::Extend(span, tokens))
            }
        },
    }
}

/// Parses a token stream into a template.
pub fn parse(token_stream: TokenStream) -> (r: Result<QTokens, Error>)
    ensures
        match r {
            Ok(q) => spec_parse(token_stream@) == Ok::<Seq<QT>, ErrV>(q@),
            Err(e) => spec_parse(token_stream@) == Err::<Seq<QT>, ErrV>(e@),
        },
{
    let ghost input = token_stream@;
    let mut it = TokenIterator::new(token_stream);
    let mut context = Context::new();
    proof {
        assert(initial_context().drop_last() =~= Seq::<CI>::empty());
        reveal_with_fuel(pending, 2);
        assert(pending(context@) =~= Seq::<Ev>::empty());
        assert(events(it@) + pending(context@) =~= events(input));
    }
    loop
        invariant
            input == token_stream@,
            wf(context@),
            run(context@, events(it@) + pending(context@)) == spec_parse(input),
        ensures
            wf(context@),
            spec_pick(context@) == spec_parse(input),
        decreases events(it@).len() + pending(context@).len(),
    {
        let ghost c = context@;
        let ghost itv = it@;
        match it.next() {
            Some(token) => {
                let ghost rest1 = it@;
                match token {
                    TokenTree::Punct(punct) => {
                        let marker = (punct.op == '#' || punct.op == '^') && punct.spacing
                            == Spacing::Alone;
                        if marker && it.peek_is_brace_group() {
                            match it.next() {
                                Some(TokenTree::Group(group)) => {
                                    let ghost ev = Ev::Tag(
                                        punct_view(punct),
                                        group.stream@,
                                        group.span,
                                    );
                                    proof {
                                        assert(itv.subrange(2, itv.len() as int) =~= it@);
                                        lemma_events_tag(itv);
                                        assert(events(itv) + pending(c) =~= seq![ev] + (events(it@)
                                            + pending(c)));
                                        lemma_run_step(c, ev, events(it@) + pending(c));
                                    }
                                    match process_tag(&mut context, punct, group) {
                                        Ok(()) => {},
                                        Err(e) => {
                                            return Err(e);
                                        },
                                    }
                                },
                                _ => {
                                    proof {
                                        assert(false);
                                    }
                                },
                            }
                        } else {
                            let ghost ev = Ev::Plain(punct_view(punct));
                            proof {
                                lemma_events_plain(itv);
                                assert(events(itv) + pending(c) =~= seq![ev] + (events(rest1)
                                    + pending(c)));
                                lemma_run_step(c, ev, events(rest1) + pending(c));
                            }
                            match context.put_qtoken(TokenTreeQ::Plain(TokenTree::Punct(punct))) {
                                Ok(()) => {},
                                Err(e) => {
                                    return Err(e);
                                },
                            }
                        }
                    },
                    TokenTree::Group(group) => {
                        let span = group.span;
                        let delimiter = group.delimiter;
                        let ghost gv = group.stream@;
                        let inner = TokenIterator::new(group.stream);
                        let ghost ev = Ev::Open(span, delimiter, rest1);
                        proof {
                            lemma_events_group(itv);
                            assert(events(itv) + pending(c) =~= seq![ev] + (events(gv) + (seq![
                                Ev::Close,
                            ] + events(rest1) + pending(c))));
                            lemma_run_step(
                                c,
                                ev,
                                events(gv) + (seq![Ev::Close] + events(rest1) + pending(c)),
                            );
                        }
                        match context.put_holder(it, span, delimiter) {
                            Ok(()) => {},
                            Err(e) => {
                                return Err(e);
                            },
                        }
                        it = inner;
                    },
                    other => {
                        let ghost ev = Ev::Plain(other@);
                        proof {
                            lemma_events_plain(itv);
                            assert(events(itv) + pending(c) =~= seq![ev] + (events(rest1) + pending(
                                c,
                            )));
                            lemma_run_step(c, ev, events(rest1) + pending(c));
                        }
                        match context.put_qtoken(TokenTreeQ::Plain(other)) {
                            Ok(()) => {},
                            Err(e) => {
                                return Err(e);
                            },
                        }
                    },
                }
            },
            None => {
                proof {
                    lemma_events_empty();
                    assert(itv =~= Seq::<TT>::empty());
                    assert(events(itv) + pending(c) =~= pending(c));
                }
                match context.try_release_holder() {
                    Some(held) => {
                        proof {
                            lemma_run_close(c, events(held@) + pending(context@));
                            assert(pending(c) =~= seq![Ev::Close] + (events(held@) + pending(
                                context@,
                            )));
                        }
                        it = held;
                    },
                    None => {
                        proof {
                            lemma_pending_starts_with_close(c);
                            if pending(c).len() == 0 {
                                lemma_run_end(c);
                            } else {
                                let p = pending(c);
                                assert(p =~= seq![Ev::Close] + p.subrange(1, p.len() as int));
                                lemma_run_close(c, p.subrange(1, p.len() as int));
                            }
                        }
                        break ;
                    },
                }
            },
        }
    }
    context.pick_result()
}

/// The position of the first `=>` in the stream.
fn find_arrow(stream: &TokenStream) -> (r: Option<usize>)
    ensures
        match r {
            Some(k) => arrow_from(stream@, 0) == Some(k as nat) && k + 1 < stream@.len(),
            None => arrow_from(stream@, 0) is None,
        },
{
    let n = stream.0.len();
    if n < 2 {
        return None;
    }
    let mut k: usize = 0;
    while k < n - 1
        invariant
            n == stream@.len(),
            n >= 2,
            arrow_from(stream@, 0) == arrow_from(stream@, k as nat),
        decreases n - k,
    {
        let first = match &stream.0[k] {
            TokenTree::Punct(p) => p.op == '=' && p.spacing == Spacing::Joint,
            _ => false,
        };
        let second = match &stream.0[k + 1] {
            TokenTree::Punct(p) => p.op == '>',
            _ => false,
        };
        if first && second {
            return Some(k);
        }
        k = k + 1;
    }
    None
}

/// Parses `SPAN => TEMPLATE` into the span expression and the template.
pub fn parse_spanned(token_stream: TokenStream) -> (r: Result<(TokenStream, QTokens), Error>)
    ensures
        match r {
            Ok((span, q)) => spec_parse_spanned(token_stream@) == Ok::<(Seq<TT>, Seq<QT>), ErrV>(
                (span@, q@),
            ),
            Err(e) => spec_parse_spanned(token_stream@) == Err::<(Seq<TT>, Seq<QT>), ErrV>(e@),
        },
{
    let ghost input = token_stream@;
    let k = match find_arrow(&token_stream) {
        Some(k) => k,
        None => {
            return Err(Error::new(Span::call_site(), "expected a span expression followed by `=>`"));
        },
    };
    let n = token_stream.0.len();
    assert(k + 1 < n);
    let mut head = token_stream.0;
    let rest = head.split_off(k + 2);
    head.truncate(k);
    let span = TokenStream(head);
    let template = TokenStream(rest);
    proof {
        assert(span@ =~= input.subrange(0, k as int));
        assert(template@ =~= input.subrange(k + 2, input.len() as int));
    }
    match parse(template) {
        Ok(q) => Ok((span, q)),
        Err(e) => Err(e),
    }
}

/// The block that `end_tag_from` finds is at or below position `k`.
proof fn lemma_end_tag_from(c: Seq<CI>, k: nat)
    ensures
        match end_tag_from(c, k) {
            Some((j, b)) => j >= k && j < c.len() && block_of(c[c.len() - 1 - j]) == Some(b),
            None => true,
        },
    decreases c.len() - k,
{
    if k < c.len() {
        if block_of(c[c.len() - 1 - k]) is None {
            lemma_end_tag_from(c, k + 1);
        }
    }
}

proof fn lemma_repush(s: Seq<ContextItem>, item: ContextItem)
    requires
        s.len() > 0,
    ensures
        ctx_view(s.drop_last().push(item)) == ctx_view(s).update(s.len() - 1, item_view(item)),
{
    assert(ctx_view(s.drop_last().push(item)) =~= ctx_view(s).update(s.len() - 1, item_view(item)));
}

} // verus!
