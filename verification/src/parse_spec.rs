//! What parsing a template means: the parser is a stack machine whose
//! states are sequences of open blocks (`CI`), and whose input is the
//! token stream read as a sequence of events (`Ev`). Each event moves
//! the machine one step (or fails with an error); the template is what is
//! left at the bottom of the stack once the input is used up.
use vstd::prelude::*;

use crate::error::{err_at, ErrV};
use crate::language::{ArmV, QT};
use crate::tokens::{call_site_span, Delimiter, Spacing, Span, TT};

verus! {

/// The mathematical value of one open block of the parser.
pub enum CI {
    /// The bottom of the stack: the template read so far at the top level.
    Zero(Seq<QT>),
    /// An open `#{if}`: its branches (span, condition, body) and its else-branch.
    If(Seq<ArmV>, Option<Seq<QT>>),
    /// An open `#{for}`: span, what it iterates over, body.
    For(Span, Seq<TT>, Seq<QT>),
    /// An open `#{match}`: span, scrutinee, arms (span, pattern, body).
    Match(Span, Seq<TT>, Seq<ArmV>),
    /// An open group: the tokens that follow the group, its span, its
    /// delimiter and the template read inside it so far.
    Holder(Seq<TT>, Span, Delimiter, Seq<QT>),
}

/// The kinds of block that a closing tag ends.
#[derive(Clone, Copy, PartialEq, Eq, Structural, Debug)]
pub enum Block {
    If,
    For,
    Match,
}

pub open spec fn block_of(i: CI) -> Option<Block> {
    match i {
        CI::If(..) => Some(Block::If),
        CI::For(..) => Some(Block::For),
        CI::Match(..) => Some(Block::Match),
        _ => None,
    }
}

pub open spec fn opening_name(b: Block) -> Seq<char> {
    match b {
        Block::If => "if"@,
        Block::For => "for"@,
        Block::Match => "match"@,
    }
}

pub open spec fn closing_name(b: Block) -> Seq<char> {
    match b {
        Block::If => "endif"@,
        Block::For => "endfor"@,
        Block::Match => "endmatch"@,
    }
}

pub open spec fn msg_before_of() -> Seq<char> {
    "unexpected tokens between #{match ...} and #{of ...}"@
}

pub open spec fn msg_elif() -> Seq<char> {
    "elif is only acceptable in context of #{if ...} ... #{endif}"@
}

pub open spec fn msg_else() -> Seq<char> {
    "else is only acceptable in context of #{if ...} ... #{endif}"@
}

pub open spec fn msg_dup_else() -> Seq<char> {
    "duplicated else branch"@
}

pub open spec fn msg_of() -> Seq<char> {
    "of is only acceptable in context of #{match ...} ... #{endmatch}"@
}

pub open spec fn msg_nothing() -> Seq<char> {
    "expected tag or expression, got nothing"@
}

pub open spec fn msg_escaping() -> Seq<char> {
    "invalid escaping"@
}

pub open spec fn msg_no_tag() -> Seq<char> {
    "invalid mquote syntax, expected tag"@
}

pub open spec fn msg_nesting(b: Block) -> Seq<char> {
    "#{"@ + opening_name(b) + " .. } is on different nesting level from #{"@ + closing_name(b)
        + "}, that is not permitted"@
}

pub open spec fn msg_expected_got(expected: Block, got: Block) -> Seq<char> {
    "expected "@ + closing_name(expected) + ", got "@ + closing_name(got)
}

pub open spec fn msg_unexpected(got: Block) -> Seq<char> {
    "unexpected "@ + closing_name(got)
}

/// Appends `q` to a body that ends in `b`.
pub open spec fn arm_push(a: ArmV, q: QT) -> ArmV {
    (a.0, a.1, a.2.push(q))
}

/// The block with `q` appended to the place where tokens currently go:
/// the else-branch of an `if` once there is one, else its last branch;
/// the last arm of a `match`; the body of anything else.
pub open spec fn push_into(item: CI, q: QT) -> CI {
    match item {
        CI::Zero(ts) => CI::Zero(ts.push(q)),
        CI::If(br, e) => match e {
            Some(ts) => CI::If(br, Some(ts.push(q))),
            None => if br.len() > 0 {
                CI::If(br.update(br.len() - 1, arm_push(br.last(), q)), None)
            } else {
                item
            },
        },
        CI::For(s, o, b) => CI::For(s, o, b.push(q)),
        CI::Match(s, o, arms) => if arms.len() > 0 {
            CI::Match(s, o, arms.update(arms.len() - 1, arm_push(arms.last(), q)))
        } else {
            item
        },
        CI::Holder(h, s, d, ts) => CI::Holder(h, s, d, ts.push(q)),
    }
}

pub open spec fn put(c: Seq<CI>, q: QT) -> Seq<CI> {
    c.update(c.len() - 1, push_into(c.last(), q))
}

/// A `#{match}` whose first `#{of}` has not come yet is on top.
pub open spec fn awaiting_of(c: Seq<CI>) -> bool {
    c.len() > 0 && match c.last() {
        CI::Match(_, _, arms) => arms.len() == 0,
        _ => false,
    }
}

/// Well-formed parser states: the bottom and only the bottom is `Zero`,
/// every `if` has a branch, and every `match` below the top has an arm.
pub open spec fn wf(c: Seq<CI>) -> bool {
    &&& c.len() >= 1
    &&& c[0] is Zero
    &&& forall|i: int| 0 < i < c.len() ==> !(#[trigger] c[i] is Zero)
    &&& forall|i: int|
        0 <= i < c.len() ==> match #[trigger] c[i] {
            CI::If(br, _) => br.len() > 0,
            _ => true,
        }
    &&& forall|i: int|
        0 <= i < c.len() - 1 ==> match #[trigger] c[i] {
            CI::Match(_, _, arms) => arms.len() > 0,
            _ => true,
        }
}

pub open spec fn spec_put_qtoken(c: Seq<CI>, q: QT) -> Result<Seq<CI>, ErrV> {
    if awaiting_of(c) {
        Err(err_at(q.span(), msg_before_of()))
    } else {
        Ok(put(c, q))
    }
}

/// Opening a block, or entering a group: refused right after `#{match}`.
pub open spec fn spec_open(c: Seq<CI>, span: Span, item: CI) -> Result<Seq<CI>, ErrV> {
    if awaiting_of(c) {
        Err(err_at(span, msg_before_of()))
    } else {
        Ok(c.push(item))
    }
}

pub open spec fn spec_put_if(c: Seq<CI>, span: Span, cond: Seq<TT>) -> Result<Seq<CI>, ErrV> {
    spec_open(c, span, CI::If(seq![(span, cond, Seq::<QT>::empty())], None))
}

pub open spec fn spec_put_for(c: Seq<CI>, span: Span, over: Seq<TT>) -> Result<Seq<CI>, ErrV> {
    spec_open(c, span, CI::For(span, over, Seq::empty()))
}

pub open spec fn spec_put_match(c: Seq<CI>, span: Span, of: Seq<TT>) -> Result<Seq<CI>, ErrV> {
    spec_open(c, span, CI::Match(span, of, Seq::empty()))
}

pub open spec fn spec_put_holder(c: Seq<CI>, hold: Seq<TT>, span: Span, d: Delimiter) -> Result<
    Seq<CI>,
    ErrV,
> {
    spec_open(c, span, CI::Holder(hold, span, d, Seq::empty()))
}

pub open spec fn spec_put_elif(c: Seq<CI>, span: Span, cond: Seq<TT>) -> Result<Seq<CI>, ErrV> {
    match c.last() {
        CI::If(br, e) => Ok(
            c.update(c.len() - 1, CI::If(br.push((span, cond, Seq::<QT>::empty())), e)),
        ),
        _ => Err(err_at(span, msg_elif())),
    }
}

pub open spec fn spec_put_else(c: Seq<CI>, span: Span) -> Result<Seq<CI>, ErrV> {
    match c.last() {
        CI::If(br, e) => match e {
            Some(_) => Err(err_at(span, msg_dup_else())),
            None => Ok(c.update(c.len() - 1, CI::If(br, Some(Seq::empty())))),
        },
        _ => Err(err_at(span, msg_else())),
    }
}

pub open spec fn spec_put_of(c: Seq<CI>, span: Span, pattern: Seq<TT>) -> Result<Seq<CI>, ErrV> {
    match c.last() {
        CI::Match(s, o, arms) => Ok(
            c.update(c.len() - 1, CI::Match(s, o, arms.push((span, pattern, Seq::<QT>::empty())))),
        ),
        _ => Err(err_at(span, msg_of())),
    }
}

/// The nearest block (not a group) from the top: how far below the top
/// it is, and its kind.
pub open spec fn end_tag_from(c: Seq<CI>, k: nat) -> Option<(nat, Block)>
    decreases c.len() - k,
{
    if k >= c.len() {
        None
    } else {
        match block_of(c[c.len() - 1 - k]) {
            Some(b) => Some((k, b)),
            None => end_tag_from(c, k + 1),
        }
    }
}

pub open spec fn end_tag(c: Seq<CI>) -> Option<(nat, Block)> {
    end_tag_from(c, 0)
}

/// An `if` with several branches is a chain: each branch's else-branch is
/// the `if` of the following branches; the last one has the else-branch.
pub open spec fn chain(br: Seq<ArmV>, else_: Option<Seq<QT>>) -> QT
    decreases br.len(),
{
    if br.len() <= 1 {
        QT::If(br[0].0, br[0].1, br[0].2, else_)
    } else {
        QT::If(br[0].0, br[0].1, br[0].2, Some(seq![chain(br.drop_first(), else_)]))
    }
}

/// The template item that a closed block becomes.
pub open spec fn closed_block(i: CI) -> QT {
    match i {
        CI::If(br, e) => chain(br, e),
        CI::For(s, o, b) => QT::For(s, o, b),
        CI::Match(s, o, arms) => QT::Match(s, o, arms),
        CI::Zero(_) => QT::Plain(TT::Punct(' ', Spacing::Alone, Span(0))),
        CI::Holder(_, s, d, ts) => QT::Group(d, ts, s),
    }
}

/// A closing tag: it must end the block on top of the stack, which must
/// be of its kind.
pub open spec fn spec_close(c: Seq<CI>, span: Span, b: Block) -> Result<Seq<CI>, ErrV> {
    match end_tag(c) {
        Some((k, found)) => if found == b {
            if k == 0 {
                Ok(put(c.drop_last(), closed_block(c.last())))
            } else {
                Err(err_at(span, msg_nesting(b)))
            }
        } else if k == 0 {
            Err(err_at(span, msg_expected_got(found, b)))
        } else {
            Err(err_at(span, msg_unexpected(b)))
        },
        None => Err(err_at(span, msg_unexpected(b))),
    }
}

/// Leaving a group: the group becomes an item of the block below it.
pub open spec fn spec_release(c: Seq<CI>) -> Seq<CI> {
    put(c.drop_last(), closed_block(c.last()))
}

pub open spec fn top_is_holder(c: Seq<CI>) -> bool {
    c.len() > 0 && c.last() is Holder
}

/// The closing tags still missing, from the top down to the nearest
/// group or the bottom, and the span of that group if there is one.
pub open spec fn pick_tags(c: Seq<CI>) -> (Seq<Seq<char>>, Option<Span>)
    decreases c.len(),
{
    if c.len() == 0 {
        (Seq::empty(), None)
    } else {
        match c.last() {
            CI::Holder(_, s, _, _) => (Seq::empty(), Some(s)),
            CI::Zero(_) => (Seq::empty(), None),
            CI::If(..) => {
                let r = pick_tags(c.drop_last());
                (seq!["endif"@] + r.0, r.1)
            },
            CI::For(..) => {
                let r = pick_tags(c.drop_last());
                (seq!["endfor"@] + r.0, r.1)
            },
            CI::Match(..) => {
                let r = pick_tags(c.drop_last());
                (seq!["endmatch"@] + r.0, r.1)
            },
        }
    }
}

pub open spec fn join(s: Seq<Seq<char>>, sep: Seq<char>) -> Seq<char>
    decreases s.len(),
{
    if s.len() == 0 {
        Seq::empty()
    } else if s.len() == 1 {
        s[0]
    } else {
        join(s.drop_last(), sep) + sep + s.last()
    }
}

/// The end of the input: the template at the bottom if nothing is open,
/// else an error that names the missing closing tags.
pub open spec fn spec_pick(c: Seq<CI>) -> Result<Seq<QT>, ErrV> {
    if c.len() == 1 && c[0] is Zero {
        Ok(c[0]->Zero_0)
    } else {
        let (tags, eof) = pick_tags(c);
        Err(
            err_at(
                match eof {
                    Some(s) => s,
                    None => call_site_span(),
                },
                "expected: #{"@ + join(tags, "}, #{"@) + "}"@,
            ),
        )
    }
}

/// `#` or `^` standing alone: before a brace group it starts a tag.
pub open spec fn is_marker(t: TT) -> bool {
    match t {
        TT::Punct(c, sp, _) => sp == Spacing::Alone && (c == '#' || c == '^'),
        _ => false,
    }
}

pub open spec fn is_brace_group(t: TT) -> bool {
    match t {
        TT::Group(d, _, _) => d == Delimiter::Brace,
        _ => false,
    }
}

pub open spec fn group_inner(t: TT) -> Seq<TT> {
    match t {
        TT::Group(_, s, _) => s,
        _ => Seq::empty(),
    }
}

/// What the parser meets while it reads a token stream.
pub enum Ev {
    /// A token that stands for itself.
    Plain(TT),
    /// A marker and the contents and span of the brace group after it.
    Tag(TT, Seq<TT>, Span),
    /// The start of a group: its span, its delimiter, and the tokens that
    /// follow it on its own level.
    Open(Span, Delimiter, Seq<TT>),
    /// The end of a group.
    Close,
}

/// A token stream as the sequence of events it is read as: groups are
/// entered and left, a marker before a brace group is a tag, and every
/// other token is plain.
#[verifier::opaque]
pub open spec fn events(s: Seq<TT>) -> Seq<Ev>
    decreases s,
{
    if s.len() == 0 {
        Seq::empty()
    } else if is_marker(s[0]) && s.len() > 1 && is_brace_group(s[1]) {
        seq![Ev::Tag(s[0], group_inner(s[1]), s[1].span())] + events(s.subrange(2, s.len() as int))
    } else {
        match s[0] {
            TT::Group(d, inner, sp) => seq![Ev::Open(sp, d, s.subrange(1, s.len() as int))]
                + events(inner) + seq![Ev::Close] + events(s.subrange(1, s.len() as int)),
            _ => seq![Ev::Plain(s[0])] + events(s.subrange(1, s.len() as int)),
        }
    }
}

pub open spec fn and_then_put(r: Result<Seq<CI>, ErrV>, q: QT) -> Result<Seq<CI>, ErrV> {
    match r {
        Ok(c) => spec_put_qtoken(c, q),
        Err(e) => Err(e),
    }
}

/// The step for a `#{...}` tag whose first token is the identifier `name`.
pub open spec fn spec_keyword(c: Seq<CI>, name: Seq<char>, span: Span, inner: Seq<TT>) -> Result<
    Seq<CI>,
    ErrV,
> {
    let rest = inner.subrange(1, inner.len() as int);
    if name == "if"@ {
        spec_put_if(c, span, rest)
    } else if name == "elif"@ {
        spec_put_elif(c, span, rest)
    } else if name == "else"@ {
        spec_put_else(c, span)
    } else if name == "endif"@ {
        spec_close(c, span, Block::If)
    } else if name == "for"@ {
        spec_put_for(c, span, rest)
    } else if name == "endfor"@ {
        spec_close(c, span, Block::For)
    } else if name == "match"@ {
        spec_put_match(c, span, rest)
    } else if name == "of"@ {
        spec_put_of(c, span, rest)
    } else if name == "endmatch"@ {
        spec_close(c, span, Block::Match)
    } else {
        spec_put_qtoken(c, QT::Insertion(span, inner))
    }
}

pub open spec fn is_hash(t: TT) -> bool {
    match t {
        TT::Punct(c, _, _) => c == '#',
        _ => false,
    }
}

/// The step for a marker `p` before a brace group with contents `inner`
/// and span `gspan`: an escape (a group alone inside), a keyword or an
/// insertion after `#`, an extension after `^`.
pub open spec fn spec_tag(c: Seq<CI>, p: TT, inner: Seq<TT>, gspan: Span) -> Result<Seq<CI>, ErrV> {
    if inner.len() == 0 {
        Err(err_at(gspan, msg_nothing()))
    } else {
        match inner[0] {
            TT::Group(..) => if inner.len() > 1 {
                Err(
                    ErrV {
                        span_s: inner[1].span(),
                        span_e: if inner.len() > 2 {
                            Some(inner.last().span())
                        } else {
                            None
                        },
                        msg: msg_escaping(),
                    },
                )
            } else {
                and_then_put(spec_put_qtoken(c, QT::Plain(p)), QT::Plain(inner[0]))
            },
            TT::Ident(name, sp) => if is_hash(p) {
                spec_keyword(c, name, sp, inner)
            } else {
                spec_put_qtoken(c, QT::Extend(sp, inner))
            },
            t => if is_hash(p) {
                Err(err_at(t.span(), msg_no_tag()))
            } else {
                spec_put_qtoken(c, QT::Extend(t.span(), inner))
            },
        }
    }
}

pub open spec fn step(c: Seq<CI>, e: Ev) -> Result<Seq<CI>, ErrV> {
    match e {
        Ev::Plain(t) => spec_put_qtoken(c, QT::Plain(t)),
        Ev::Tag(p, inner, gspan) => spec_tag(c, p, inner, gspan),
        Ev::Open(sp, d, hold) => spec_put_holder(c, hold, sp, d),
        Ev::Close => Ok(c),
    }
}

/// Running the machine from state `c` on the events `evs`. The end of a
/// group releases it when it is on top; otherwise the run ends there.
#[verifier::opaque]
pub open spec fn run(c: Seq<CI>, evs: Seq<Ev>) -> Result<Seq<QT>, ErrV>
    decreases evs.len(),
{
    if evs.len() == 0 {
        spec_pick(c)
    } else {
        let rest = evs.subrange(1, evs.len() as int);
        match evs[0] {
            Ev::Close => if top_is_holder(c) {
                run(spec_release(c), rest)
            } else {
                spec_pick(c)
            },
            e => match step(c, e) {
                Ok(c2) => run(c2, rest),
                Err(x) => Err(x),
            },
        }
    }
}

pub open spec fn initial_context() -> Seq<CI> {
    seq![CI::Zero(Seq::empty())]
}

/// The template that a token stream parses into, or the first error.
pub open spec fn spec_parse(s: Seq<TT>) -> Result<Seq<QT>, ErrV> {
    run(initial_context(), events(s))
}

/// The events still to come from the groups that are open, innermost
/// first: the end of each group, then the tokens that follow it.
pub open spec fn pending(c: Seq<CI>) -> Seq<Ev>
    decreases c.len(),
{
    if c.len() == 0 {
        Seq::empty()
    } else {
        match c.last() {
            CI::Holder(h, _, _, _) => seq![Ev::Close] + events(h) + pending(c.drop_last()),
            _ => pending(c.drop_last()),
        }
    }
}

/// One event that is not the end of a group: the step it makes, then the rest.
pub proof fn lemma_run_step(c: Seq<CI>, e: Ev, rest: Seq<Ev>)
    requires
        !(e is Close),
    ensures
        run(c, seq![e] + rest) == match step(c, e) {
            Ok(c2) => run(c2, rest),
            Err(x) => Err(x),
        },
{
    reveal(run);
    let all = seq![e] + rest;
    assert(all[0] == e);
    assert(all.subrange(1, all.len() as int) =~= rest);
}

/// The end of a group: released when it is on top, else the run ends.
pub proof fn lemma_run_close(c: Seq<CI>, rest: Seq<Ev>)
    ensures
        run(c, seq![Ev::Close] + rest) == if top_is_holder(c) {
            run(spec_release(c), rest)
        } else {
            spec_pick(c)
        },
{
    reveal(run);
    let all = seq![Ev::Close] + rest;
    assert(all[0] == Ev::Close);
    assert(all.subrange(1, all.len() as int) =~= rest);
}

pub proof fn lemma_run_end(c: Seq<CI>)
    ensures
        run(c, Seq::empty()) == spec_pick(c),
{
    reveal(run);
}

pub proof fn lemma_events_empty()
    ensures
        events(Seq::empty()) == Seq::<Ev>::empty(),
{
    reveal(events);
}

/// A marker before a brace group is one tag event.
pub proof fn lemma_events_tag(s: Seq<TT>)
    requires
        s.len() > 1,
        is_marker(s[0]),
        is_brace_group(s[1]),
    ensures
        events(s) == seq![Ev::Tag(s[0], group_inner(s[1]), s[1].span())] + events(
            s.subrange(2, s.len() as int),
        ),
{
    reveal(events);
}

/// A group is entered, read, and left.
pub proof fn lemma_events_group(s: Seq<TT>)
    requires
        s.len() > 0,
        s[0] is Group,
    ensures
        events(s) == seq![Ev::Open(s[0].span(), s[0]->Group_0, s.subrange(1, s.len() as int))]
            + events(group_inner(s[0])) + seq![Ev::Close] + events(s.subrange(1, s.len() as int)),
{
    reveal(events);
}

/// Any other token stands for itself.
pub proof fn lemma_events_plain(s: Seq<TT>)
    requires
        s.len() > 0,
        !(s[0] is Group),
        !(is_marker(s[0]) && s.len() > 1 && is_brace_group(s[1])),
    ensures
        events(s) == seq![Ev::Plain(s[0])] + events(s.subrange(1, s.len() as int)),
{
    reveal(events);
}

/// `=>` starts at position `k`.
pub open spec fn is_arrow_at(s: Seq<TT>, k: int) -> bool {
    &&& 0 <= k
    &&& k + 1 < s.len()
    &&& match s[k] {
        TT::Punct(c, sp, _) => c == '=' && sp == Spacing::Joint,
        _ => false,
    }
    &&& match s[k + 1] {
        TT::Punct(c, _, _) => c == '>',
        _ => false,
    }
}

/// The first `=>` at or after position `k`.
pub open spec fn arrow_from(s: Seq<TT>, k: nat) -> Option<nat>
    decreases s.len() - k,
{
    if k + 1 >= s.len() {
        None
    } else if is_arrow_at(s, k as int) {
        Some(k)
    } else {
        arrow_from(s, k + 1)
    }
}

pub open spec fn msg_no_arrow() -> Seq<char> {
    "expected a span expression followed by `=>`"@
}

/// `SPAN => TEMPLATE`: the expression before the first `=>` and the
/// template after it.
pub open spec fn spec_parse_spanned(s: Seq<TT>) -> Result<(Seq<TT>, Seq<QT>), ErrV> {
    match arrow_from(s, 0) {
        Some(k) => match spec_parse(s.subrange(k as int + 2, s.len() as int)) {
            Ok(q) => Ok((s.subrange(0, k as int), q)),
            Err(e) => Err(e),
        },
        None => Err(err_at(call_site_span(), msg_no_arrow())),
    }
}

} // verus!
