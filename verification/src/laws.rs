//! What holds of templates as a whole: tokens without tags parse to
//! themselves and produce themselves at the requested span; escapes give
//! the marker and the group as they are; a chain of `if`/`elif`/`else`
//! produces the first branch whose condition holds.
use vstd::prelude::*;

use crate::error::ErrV;
use crate::expand::{expand_item, expand_seq, lookup, respan, respan_seq, EnvV, ValueV};
use crate::language::{ArmV, QT};
use crate::parse_spec::{
    awaiting_of, chain, closed_block, events, initial_context, is_brace_group,
    is_marker, lemma_events_empty, lemma_events_group, lemma_events_plain, lemma_events_tag,
    lemma_run_close, lemma_run_end, lemma_run_step, put, run, spec_parse, spec_release, step,
    top_is_holder, wf, Ev, CI,
};
use crate::tokens::{render_trees, Delimiter, Span, TT};

verus! {

/// No `#` or `^` standing alone before a brace group, at any depth.
pub open spec fn tag_free(s: Seq<TT>) -> bool
    decreases s,
{
    if s.len() == 0 {
        true
    } else {
        &&& !(is_marker(s[0]) && s.len() > 1 && is_brace_group(s[1]))
        &&& match s[0] {
            TT::Group(_, inner, _) => tag_free(inner),
            _ => true,
        }
        &&& tag_free(s.subrange(1, s.len() as int))
    }
}

/// A token as a template item: groups become template groups, every
/// other token stands for itself.
pub open spec fn lift(t: TT) -> QT
    decreases t,
{
    match t {
        TT::Group(d, inner, span) => QT::Group(d, lift_seq(inner), span),
        _ => QT::Plain(t),
    }
}

pub open spec fn lift_seq(s: Seq<TT>) -> Seq<QT>
    decreases s,
{
    Seq::new(
        s.len(),
        |i: int|
            if 0 <= i < s.len() {
                lift(s[i])
            } else {
                QT::Plain(TT::Punct(' ', crate::tokens::Spacing::Alone, Span(0)))
            },
    )
}

/// Putting items one after the other.
pub open spec fn put_all(c: Seq<CI>, qs: Seq<QT>) -> Seq<CI>
    decreases qs.len(),
{
    if qs.len() == 0 {
        c
    } else {
        put_all(put(c, qs[0]), qs.subrange(1, qs.len() as int))
    }
}

proof fn lemma_put_keeps(c: Seq<CI>, q: QT)
    requires
        wf(c),
        !awaiting_of(c),
    ensures
        wf(put(c, q)),
        !awaiting_of(put(c, q)),
        put(c, q).len() == c.len(),
{
    let c2 = put(c, q);
    assert forall|i: int| 0 < i < c2.len() implies !(#[trigger] c2[i] is Zero) by {
        if i == c.len() - 1 {
            assert(!(c[i] is Zero));
        }
    }
    assert forall|i: int| 0 <= i < c2.len() implies match #[trigger] c2[i] {
        CI::If(br, _) => br.len() > 0,
        _ => true,
    } by {
        if i == c.len() - 1 {
            assert(match c[i] {
                CI::If(br, _) => br.len() > 0,
                _ => true,
            });
        }
    }
    assert forall|i: int| 0 <= i < c2.len() - 1 implies match #[trigger] c2[i] {
        CI::Match(_, _, arms) => arms.len() > 0,
        _ => true,
    } by {
        assert(c2[i] == c[i]);
    }
}

proof fn lemma_put_all_keeps(c: Seq<CI>, qs: Seq<QT>)
    requires
        wf(c),
        !awaiting_of(c),
    ensures
        wf(put_all(c, qs)),
        !awaiting_of(put_all(c, qs)),
    decreases qs.len(),
{
    if qs.len() > 0 {
        lemma_put_keeps(c, qs[0]);
        lemma_put_all_keeps(put(c, qs[0]), qs.subrange(1, qs.len() as int));
    }
}

/// Putting items into an open group appends them to its contents.
proof fn lemma_put_all_holder(
    c: Seq<CI>,
    h: Seq<TT>,
    sp: Span,
    d: Delimiter,
    ts: Seq<QT>,
    qs: Seq<QT>,
)
    ensures
        put_all(c.push(CI::Holder(h, sp, d, ts)), qs) == c.push(CI::Holder(h, sp, d, ts + qs)),
    decreases qs.len(),
{
    if qs.len() == 0 {
        assert(ts + qs =~= ts);
    } else {
        let c1 = c.push(CI::Holder(h, sp, d, ts));
        assert(put(c1, qs[0]) =~= c.push(CI::Holder(h, sp, d, ts.push(qs[0]))));
        lemma_put_all_holder(c, h, sp, d, ts.push(qs[0]), qs.subrange(1, qs.len() as int));
        assert(ts.push(qs[0]) + qs.subrange(1, qs.len() as int) =~= ts + qs);
    }
}

/// Putting items at the top level appends them to the template.
proof fn lemma_put_all_zero(ts: Seq<QT>, qs: Seq<QT>)
    ensures
        put_all(seq![CI::Zero(ts)], qs) == seq![CI::Zero(ts + qs)],
    decreases qs.len(),
{
    if qs.len() == 0 {
        assert(ts + qs =~= ts);
    } else {
        assert(put(seq![CI::Zero(ts)], qs[0]) =~= seq![CI::Zero(ts.push(qs[0]))]);
        lemma_put_all_zero(ts.push(qs[0]), qs.subrange(1, qs.len() as int));
        assert(ts.push(qs[0]) + qs.subrange(1, qs.len() as int) =~= ts + qs);
    }
}

/// Reading tokens without tags puts them, as template items, where tokens
/// currently go.
proof fn lemma_run_tag_free(c: Seq<CI>, s: Seq<TT>, rest: Seq<Ev>)
    requires
        wf(c),
        !awaiting_of(c),
        tag_free(s),
    ensures
        run(c, events(s) + rest) == run(put_all(c, lift_seq(s)), rest),
    decreases s,
{
    if s.len() == 0 {
        lemma_events_empty();
        assert(s =~= Seq::<TT>::empty());
        assert(events(s) + rest =~= rest);
        assert(lift_seq(s) =~= Seq::<QT>::empty());
    } else {
        let s1 = s.subrange(1, s.len() as int);
        let ls = lift_seq(s);
        assert(ls[0] == lift(s[0]));
        assert(ls.subrange(1, ls.len() as int) =~= lift_seq(s1));
        match s[0] {
            TT::Group(d, inner, sp) => {
                lemma_events_group(s);
                let hold = CI::Holder(s1, sp, d, Seq::<QT>::empty());
                let c1 = c.push(hold);
                let tail = seq![Ev::Close] + events(s1) + rest;
                let ev = Ev::Open(sp, d, s1);
                assert(events(s) + rest =~= seq![ev] + (events(inner) + tail));
                lemma_run_step(c, ev, events(inner) + tail);
                assert(step(c, ev) == Ok::<Seq<CI>, ErrV>(c1));
                crate::parse::lemma_open_wf(c, hold);
                assert(!awaiting_of(c1));
                lemma_run_tag_free(c1, inner, tail);
                lemma_put_all_holder(c, s1, sp, d, Seq::empty(), lift_seq(inner));
                let c2 = c.push(CI::Holder(s1, sp, d, Seq::<QT>::empty() + lift_seq(inner)));
                assert(Seq::<QT>::empty() + lift_seq(inner) =~= lift_seq(inner));
                lemma_run_close(c2, events(s1) + rest);
                assert(top_is_holder(c2));
                assert(c2.drop_last() =~= c);
                assert(spec_release(c2) == put(c, lift(s[0])));
                lemma_put_keeps(c, lift(s[0]));
                lemma_run_tag_free(put(c, lift(s[0])), s1, rest);
                assert(run(c, events(s) + rest) == run(c1, events(inner) + tail));
                assert(tail =~= seq![Ev::Close] + (events(s1) + rest));
                assert(put_all(c1, lift_seq(inner)) == c2);
                assert(run(c1, events(inner) + tail) == run(c2, seq![Ev::Close] + (events(s1) + rest)));
                assert(run(c2, seq![Ev::Close] + (events(s1) + rest)) == run(put(c, lift(s[0])), events(s1) + rest));
                assert(put_all(c, ls) == put_all(put(c, lift(s[0])), lift_seq(s1)));
            },
            _ => {
                lemma_events_plain(s);
                let ev = Ev::Plain(s[0]);
                assert(events(s) + rest =~= seq![ev] + (events(s1) + rest));
                lemma_run_step(c, ev, events(s1) + rest);
                lemma_put_keeps(c, lift(s[0]));
                lemma_run_tag_free(put(c, lift(s[0])), s1, rest);
                assert(lift(s[0]) == QT::Plain(s[0]));
                assert(step(c, ev) == Ok::<Seq<CI>, ErrV>(put(c, lift(s[0]))));
                assert(put_all(c, ls) == put_all(put(c, lift(s[0])), lift_seq(s1)));
            },
        }
    }
}

/// Tokens without tags parse to themselves, groups as template groups.
pub proof fn law_tag_free_parses_to_itself(s: Seq<TT>)
    requires
        tag_free(s),
    ensures
        spec_parse(s) == Ok::<Seq<QT>, ErrV>(lift_seq(s)),
{
    let c = initial_context();
    assert(wf(c));
    assert(!awaiting_of(c));
    assert(events(s) + Seq::<Ev>::empty() =~= events(s));
    lemma_run_tag_free(c, s, Seq::empty());
    lemma_put_all_zero(Seq::empty(), lift_seq(s));
    assert(Seq::<QT>::empty() + lift_seq(s) =~= lift_seq(s));
    lemma_run_end(put_all(c, lift_seq(s)));
}

/// Tokens taken as template items produce themselves at the requested span.
pub proof fn law_lifted_expands_to_respanned(s: Seq<TT>, scope: Seq<EnvV>, span: Span)
    ensures
        expand_seq(lift_seq(s), scope, span) == Ok::<Seq<TT>, Seq<char>>(respan_seq(s, span)),
    decreases s,
{
    let ls = lift_seq(s);
    if s.len() == 0 {
        assert(respan_seq(s, span) =~= Seq::<TT>::empty());
    } else {
        let n = s.len();
        let init = s.subrange(0, n - 1);
        assert(ls.subrange(0, n - 1) =~= lift_seq(init));
        law_lifted_expands_to_respanned(init, scope, span);
        let t = s[n - 1];
        assert(ls[n - 1] == lift(t));
        match t {
            TT::Group(d, inner, sp) => {
                law_lifted_expands_to_respanned(inner, scope, span);
                assert(expand_item(lift(t), scope, span) == Ok::<Seq<TT>, Seq<char>>(
                    seq![respan(t, span)],
                ));
            },
            _ => {
                assert(expand_item(lift(t), scope, span) == Ok::<Seq<TT>, Seq<char>>(
                    seq![respan(t, span)],
                ));
            },
        }
        assert(respan_seq(init, span) + seq![respan(t, span)] =~= respan_seq(s, span));
    }
}

/// A template without tags produces its own tokens, every one of them at
/// the requested span.
pub proof fn law_template_without_tags(s: Seq<TT>, scope: Seq<EnvV>, span: Span)
    requires
        tag_free(s),
    ensures
        spec_parse(s) == Ok::<Seq<QT>, ErrV>(lift_seq(s)),
        expand_seq(lift_seq(s), scope, span) == Ok::<Seq<TT>, Seq<char>>(respan_seq(s, span)),
{
    law_tag_free_parses_to_itself(s);
    law_lifted_expands_to_respanned(s, scope, span);
}

/// Escaping: a marker before a brace group that holds only a group
/// stands for the marker and that group, which produce themselves.
pub proof fn law_escape(p: TT, g: TT, gspan: Span, scope: Seq<EnvV>, span: Span)
    requires
        is_marker(p),
        g is Group,
    ensures
        spec_parse(seq![p, TT::Group(Delimiter::Brace, seq![g], gspan)]) == Ok::<Seq<QT>, ErrV>(
            seq![QT::Plain(p), QT::Plain(g)],
        ),
        expand_seq(seq![QT::Plain(p), QT::Plain(g)], scope, span) == Ok::<Seq<TT>, Seq<char>>(
            seq![respan(p, span), respan(g, span)],
        ),
{
    let s = seq![p, TT::Group(Delimiter::Brace, seq![g], gspan)];
    lemma_events_tag(s);
    let ev = Ev::Tag(p, seq![g], gspan);
    assert(s.subrange(2, 2) =~= Seq::<TT>::empty());
    lemma_events_empty();
    assert(events(s) =~= seq![ev] + Seq::<Ev>::empty());
    let c = initial_context();
    lemma_run_step(c, ev, Seq::empty());
    let c1 = put(c, QT::Plain(p));
    assert(c1 =~= seq![CI::Zero(seq![QT::Plain(p)])]);
    let c2 = put(c1, QT::Plain(g));
    assert(seq![QT::Plain(p)].push(QT::Plain(g)) =~= seq![QT::Plain(p), QT::Plain(g)]);
    assert(c2 =~= seq![CI::Zero(seq![QT::Plain(p), QT::Plain(g)])]);
    lemma_run_end(c2);
    let q = seq![QT::Plain(p), QT::Plain(g)];
    assert(q.subrange(0, 1) =~= seq![QT::Plain(p)]);
    lemma_expand_single(QT::Plain(p), scope, span);
    assert(q[1] == QT::Plain(g));
    assert(expand_seq(q.subrange(0, 1), scope, span) == Ok::<Seq<TT>, Seq<char>>(
        seq![respan(p, span)],
    ));
    assert(expand_item(q[1], scope, span) == Ok::<Seq<TT>, Seq<char>>(seq![respan(g, span)]));
    assert(q.subrange(0, q.len() - 1) == q.subrange(0, 1));
    assert(seq![respan(p, span)] + seq![respan(g, span)] =~= seq![respan(p, span), respan(g, span)]);
    assert(Seq::<TT>::empty() + seq![respan(p, span)] =~= seq![respan(p, span)]);
}

/// The text of a branch's condition.
pub open spec fn cond_text(a: ArmV) -> Seq<char> {
    render_trees(a.1)
}

pub proof fn lemma_expand_single(t: QT, scope: Seq<EnvV>, span: Span)
    ensures
        expand_seq(seq![t], scope, span) == expand_item(t, scope, span),
{
    let q = seq![t];
    assert(q.subrange(0, 0) =~= Seq::<QT>::empty());
    assert(expand_seq(Seq::<QT>::empty(), scope, span) == Ok::<Seq<TT>, Seq<char>>(Seq::empty()));
    assert(q[0] == t);
    match expand_item(t, scope, span) {
        Ok(a) => {
            assert(Seq::<TT>::empty() + a =~= a);
        },
        Err(_) => {},
    }
}

/// An `if` chain produces the first branch whose condition holds, when
/// the conditions before it are false.
pub proof fn law_if_chain_first_true(
    br: Seq<ArmV>,
    else_: Option<Seq<QT>>,
    scope: Seq<EnvV>,
    span: Span,
    k: int,
)
    requires
        0 <= k < br.len(),
        forall|j: int|
            0 <= j < k ==> lookup(scope, cond_text(#[trigger] br[j])) == Some(ValueV::Flag(false)),
        lookup(scope, cond_text(br[k])) == Some(ValueV::Flag(true)),
    ensures
        expand_item(chain(br, else_), scope, span) == expand_seq(br[k].2, scope, span),
    decreases br.len(),
{
    if k > 0 {
        let rest = br.drop_first();
        assert forall|j: int| 0 <= j < k - 1 implies lookup(
            scope,
            cond_text(#[trigger] rest[j]),
        ) == Some(ValueV::Flag(false)) by {
            assert(rest[j] == br[j + 1]);
        }
        assert(lookup(scope, cond_text(br[0])) == Some(ValueV::Flag(false)));
        law_if_chain_first_true(rest, else_, scope, span, k - 1);
        lemma_expand_single(chain(rest, else_), scope, span);
    }
}

/// An `if` chain whose conditions are all false produces its else-branch,
/// or nothing.
pub proof fn law_if_chain_all_false(
    br: Seq<ArmV>,
    else_: Option<Seq<QT>>,
    scope: Seq<EnvV>,
    span: Span,
)
    requires
        br.len() > 0,
        forall|j: int|
            0 <= j < br.len() ==> lookup(scope, cond_text(#[trigger] br[j])) == Some(
                ValueV::Flag(false),
            ),
    ensures
        expand_item(chain(br, else_), scope, span) == match else_ {
            Some(e) => expand_seq(e, scope, span),
            None => Ok(Seq::empty()),
        },
    decreases br.len(),
{
    assert(lookup(scope, cond_text(br[0])) == Some(ValueV::Flag(false)));
    if br.len() > 1 {
        let rest = br.drop_first();
        assert forall|j: int| 0 <= j < rest.len() implies lookup(
            scope,
            cond_text(#[trigger] rest[j]),
        ) == Some(ValueV::Flag(false)) by {
            assert(rest[j] == br[j + 1]);
        }
        law_if_chain_all_false(rest, else_, scope, span);
        lemma_expand_single(chain(rest, else_), scope, span);
    }
}

/// Every token in `ts`, at any depth, is at `span`.
pub open spec fn all_at(ts: Seq<TT>, span: Span) -> bool {
    respan_seq(ts, span) == ts
}

pub open spec fn value_at(v: ValueV, span: Span) -> bool
    decreases v,
{
    match v {
        ValueV::Tokens(ts) => all_at(ts, span),
        ValueV::Flag(_) => true,
        ValueV::Each(rounds) => envs_at(rounds, span),
        ValueV::Arm(_, binds) => env_at(binds, span),
    }
}

/// Every token that an environment holds, at any depth, is at `span`.
pub open spec fn env_at(e: EnvV, span: Span) -> bool
    decreases e,
{
    if e.len() == 0 {
        true
    } else {
        value_at(e[0].1, span) && env_at(e.subrange(1, e.len() as int), span)
    }
}

pub open spec fn envs_at(rs: Seq<EnvV>, span: Span) -> bool
    decreases rs,
{
    if rs.len() == 0 {
        true
    } else {
        env_at(rs[0], span) && envs_at(rs.subrange(1, rs.len() as int), span)
    }
}

pub open spec fn scope_at(scope: Seq<EnvV>, span: Span) -> bool {
    forall|i: int| 0 <= i < scope.len() ==> env_at(#[trigger] scope[i], span)
}

proof fn lemma_respan_idem(t: TT, span: Span)
    ensures
        respan(respan(t, span), span) == respan(t, span),
    decreases t,
{
    match t {
        TT::Group(d, inner, sp) => {
            assert forall|i: int| 0 <= i < inner.len() implies #[trigger] respan_seq(
                respan_seq(inner, span),
                span,
            )[i] == respan_seq(inner, span)[i] by {
                lemma_respan_idem(inner[i], span);
            }
            assert(respan_seq(respan_seq(inner, span), span) =~= respan_seq(inner, span));
        },
        _ => {},
    }
}

proof fn lemma_all_at_concat(a: Seq<TT>, b: Seq<TT>, span: Span)
    requires
        all_at(a, span),
        all_at(b, span),
    ensures
        all_at(a + b, span),
{
    assert forall|i: int| 0 <= i < (a + b).len() implies #[trigger] respan_seq(a + b, span)[i] == (a
        + b)[i] by {
        if i < a.len() {
            assert(respan_seq(a, span)[i] == a[i]);
        } else {
            assert(respan_seq(b, span)[i - a.len()] == b[i - a.len()]);
        }
    }
    assert(respan_seq(a + b, span) =~= a + b);
}

proof fn lemma_lookup_in_at(e: EnvV, key: Seq<char>, span: Span)
    requires
        env_at(e, span),
    ensures
        crate::expand::lookup_in(e, key) matches Some(v) ==> value_at(v, span),
    decreases e.len(),
{
    if e.len() > 0 && e[0].0 != key {
        assert(e.drop_first() == e.subrange(1, e.len() as int));
        lemma_lookup_in_at(e.drop_first(), key, span);
    }
}

proof fn lemma_lookup_at(scope: Seq<EnvV>, key: Seq<char>, span: Span)
    requires
        scope_at(scope, span),
    ensures
        lookup(scope, key) matches Some(v) ==> value_at(v, span),
    decreases scope.len(),
{
    if scope.len() > 0 {
        assert(env_at(scope[scope.len() - 1], span));
        lemma_lookup_in_at(scope.last(), key, span);
        let below = scope.drop_last();
        assert forall|i: int| 0 <= i < below.len() implies env_at(#[trigger] below[i], span) by {
            assert(below[i] == scope[i]);
        }
        lemma_lookup_at(below, key, span);
    }
}

proof fn lemma_envs_at_index(rs: Seq<EnvV>, i: int, span: Span)
    requires
        envs_at(rs, span),
        0 <= i < rs.len(),
    ensures
        env_at(rs[i], span),
    decreases rs.len(),
{
    if i > 0 {
        let rest = rs.subrange(1, rs.len() as int);
        lemma_envs_at_index(rest, i - 1, span);
        assert(rest[i - 1] == rs[i]);
    }
}

proof fn lemma_scope_push(scope: Seq<EnvV>, e: EnvV, span: Span)
    requires
        scope_at(scope, span),
        env_at(e, span),
    ensures
        scope_at(scope.push(e), span),
{
    assert forall|i: int| 0 <= i < scope.push(e).len() implies env_at(
        #[trigger] scope.push(e)[i],
        span,
    ) by {
        if i < scope.len() {
            assert(scope.push(e)[i] == scope[i]);
        }
    }
}

proof fn lemma_item_at(t: QT, scope: Seq<EnvV>, span: Span)
    requires
        scope_at(scope, span),
    ensures
        expand_item(t, scope, span) matches Ok(ts) ==> all_at(ts, span),
    decreases t, 0nat,
{
    match t {
        QT::Plain(tt) => {
            lemma_respan_idem(tt, span);
            assert(respan_seq(seq![respan(tt, span)], span) =~= seq![respan(tt, span)]);
        },
        QT::Insertion(_, e) => {
            lemma_lookup_at(scope, render_trees(e), span);
        },
        QT::Extend(_, e) => {
            lemma_lookup_at(scope, render_trees(e), span);
        },
        QT::Group(d, inner, _) => {
            lemma_seq_at(inner, scope, span);
            if let Ok(ts) = expand_seq(inner, scope, span) {
                let g = TT::Group(d, ts, span);
                assert(respan(g, span) == TT::Group(d, respan_seq(ts, span), span));
                assert(respan_seq(seq![g], span) =~= seq![g]);
            }
        },
        QT::If(_, cond, then_branch, else_branch) => {
            lemma_seq_at(then_branch, scope, span);
            match else_branch {
                Some(e) => {
                    lemma_seq_at(e, scope, span);
                },
                None => {
                    assert(respan_seq(Seq::<TT>::empty(), span) =~= Seq::<TT>::empty());
                },
            }
        },
        QT::For(_, over, body) => {
            lemma_lookup_at(scope, render_trees(over), span);
            if let Some(ValueV::Each(rounds)) = lookup(scope, render_trees(over)) {
                lemma_rounds_at(body, rounds, scope, span);
            }
        },
        QT::Match(_, of, arms) => {
            lemma_lookup_at(scope, render_trees(of), span);
            if let Some(ValueV::Arm(i, binds)) = lookup(scope, render_trees(of)) {
                if i < arms.len() {
                    lemma_arm_at(arms, i as int, binds, scope, span);
                }
            }
        },
    }
}

proof fn lemma_arm_at(arms: Seq<ArmV>, i: int, binds: EnvV, scope: Seq<EnvV>, span: Span)
    requires
        scope_at(scope, span),
        env_at(binds, span),
    ensures
        crate::expand::expand_arm(arms, i, binds, scope, span) matches Ok(ts) ==> all_at(ts, span),
    decreases arms, 1nat,
{
    if 0 <= i < arms.len() {
        lemma_scope_push(scope, binds, span);
        lemma_seq_at(arms[i].2, scope.push(binds), span);
    } else {
        assert(respan_seq(Seq::<TT>::empty(), span) =~= Seq::<TT>::empty());
    }
}

proof fn lemma_seq_at(q: Seq<QT>, scope: Seq<EnvV>, span: Span)
    requires
        scope_at(scope, span),
    ensures
        expand_seq(q, scope, span) matches Ok(ts) ==> all_at(ts, span),
    decreases q, 0nat,
{
    if q.len() == 0 {
        assert(respan_seq(Seq::<TT>::empty(), span) =~= Seq::<TT>::empty());
    } else {
        lemma_seq_at(q.subrange(0, q.len() - 1), scope, span);
        lemma_item_at(q[q.len() - 1], scope, span);
        if let Ok(a) = expand_seq(q.subrange(0, q.len() - 1), scope, span) {
            if let Ok(b) = expand_item(q[q.len() - 1], scope, span) {
                lemma_all_at_concat(a, b, span);
            }
        }
    }
}

proof fn lemma_rounds_at(body: Seq<QT>, rounds: Seq<EnvV>, scope: Seq<EnvV>, span: Span)
    requires
        scope_at(scope, span),
        envs_at(rounds, span),
    ensures
        crate::expand::expand_rounds(body, rounds, scope, span) matches Ok(ts) ==> all_at(ts, span),
    decreases body, rounds.len() + 1,
{
    if rounds.len() == 0 {
        assert(respan_seq(Seq::<TT>::empty(), span) =~= Seq::<TT>::empty());
    } else {
        let init = rounds.drop_last();
        assert forall|i: int| 0 <= i < init.len() implies env_at(#[trigger] init[i], span) by {
            lemma_envs_at_index(rounds, i, span);
        }
        lemma_envs_prefix(rounds, span);
        lemma_rounds_at(body, init, scope, span);
        lemma_envs_at_index(rounds, rounds.len() - 1, span);
        lemma_scope_push(scope, rounds.last(), span);
        lemma_seq_at(body, scope.push(rounds.last()), span);
        if let Ok(a) = crate::expand::expand_rounds(body, init, scope, span) {
            if let Ok(b) = expand_seq(body, scope.push(rounds.last()), span) {
                lemma_all_at_concat(a, b, span);
            }
        }
    }
}

/// Dropping the last round keeps every round at the span.
proof fn lemma_envs_prefix(rs: Seq<EnvV>, span: Span)
    requires
        envs_at(rs, span),
        rs.len() > 0,
    ensures
        envs_at(rs.drop_last(), span),
    decreases rs.len(),
{
    if rs.len() > 1 {
        let rest = rs.subrange(1, rs.len() as int);
        lemma_envs_prefix(rest, span);
        assert(rest.drop_last() =~= rs.drop_last().subrange(1, rs.drop_last().len() as int));
        assert(rs.drop_last()[0] == rs[0]);
    } else {
        assert(rs.drop_last() =~= Seq::<EnvV>::empty());
    }
}

/// Expanding at a span where every value's tokens are already at that
/// span gives tokens that are all, at any depth, at that span.
pub proof fn law_expansion_at_requested_span(q: Seq<QT>, env: EnvV, span: Span)
    requires
        env_at(env, span),
    ensures
        expand_seq(q, seq![env], span) matches Ok(ts) ==> all_at(ts, span),
{
    assert(scope_at(seq![env], span)) by {
        assert forall|i: int| 0 <= i < seq![env].len() implies env_at(#[trigger] seq![env][i], span) by {
            assert(seq![env][i] == env);
        }
    }
    lemma_seq_at(q, seq![env], span);
}

/// Reading tokens without tags, then anything that does not start with a
/// brace group right after a trailing marker, puts the tokens where tokens
/// currently go and goes on with the rest.
proof fn lemma_run_tag_free_then(c: Seq<CI>, s: Seq<TT>, y: Seq<TT>)
    requires
        wf(c),
        !awaiting_of(c),
        tag_free(s),
        !(s.len() > 0 && y.len() > 0 && is_marker(s.last()) && is_brace_group(y[0])),
    ensures
        run(c, events(s + y)) == run(put_all(c, lift_seq(s)), events(y)),
    decreases s,
{
    if s.len() == 0 {
        assert(s + y =~= y);
        assert(lift_seq(s) =~= Seq::<QT>::empty());
    } else {
        let sy = s + y;
        let s1 = s.subrange(1, s.len() as int);
        let ls = lift_seq(s);
        assert(ls[0] == lift(s[0]));
        assert(ls.subrange(1, ls.len() as int) =~= lift_seq(s1));
        assert(sy.subrange(1, sy.len() as int) =~= s1 + y);
        assert(sy[0] == s[0]);
        if s.len() == 1 {
            assert(!(is_marker(sy[0]) && sy.len() > 1 && is_brace_group(sy[1])));
        } else {
            assert(sy[1] == s[1]);
            assert(s1.last() == s.last());
        }
        lemma_put_keeps(c, lift(s[0]));
        match s[0] {
            TT::Group(d, inner, sp) => {
                lemma_events_group(sy);
                let hold = CI::Holder(s1 + y, sp, d, Seq::<QT>::empty());
                let c1 = c.push(hold);
                let ev = Ev::Open(sp, d, s1 + y);
                let tail = seq![Ev::Close] + events(s1 + y);
                assert(events(sy) =~= seq![ev] + (events(inner) + tail));
                lemma_run_step(c, ev, events(inner) + tail);
                crate::parse::lemma_open_wf(c, hold);
                lemma_run_tag_free(c1, inner, tail);
                lemma_put_all_holder(c, s1 + y, sp, d, Seq::empty(), lift_seq(inner));
                let c2 = c.push(CI::Holder(s1 + y, sp, d, Seq::<QT>::empty() + lift_seq(inner)));
                assert(Seq::<QT>::empty() + lift_seq(inner) =~= lift_seq(inner));
                lemma_run_close(c2, events(s1 + y));
                assert(c2.drop_last() =~= c);
                assert(spec_release(c2) == put(c, lift(s[0])));
                lemma_run_tag_free_then(put(c, lift(s[0])), s1, y);
            },
            _ => {
                lemma_events_plain(sy);
                let ev = Ev::Plain(s[0]);
                assert(events(sy) =~= seq![ev] + events(s1 + y));
                lemma_run_step(c, ev, events(s1 + y));
                assert(lift(s[0]) == QT::Plain(s[0]));
                lemma_run_tag_free_then(put(c, lift(s[0])), s1, y);
            },
        }
        assert(put_all(c, ls) == put_all(put(c, lift(s[0])), lift_seq(s1)));
    }
}

/// A tag at the front: its event, then the events of the rest.
proof fn lemma_events_tag_then(words: Seq<TT>, span: Span, y: Seq<TT>)
    ensures
        events(hash_tag(words, span) + y) == seq![
            Ev::Tag(TT::Punct('#', crate::tokens::Spacing::Alone, span), words, span),
        ] + events(y),
{
    let t = hash_tag(words, span) + y;
    lemma_events_tag(t);
    assert(t.subrange(2, t.len() as int) =~= y);
}

/// `#{WORDS}` with everything at `span`.
pub open spec fn hash_tag(words: Seq<TT>, span: Span) -> Seq<TT> {
    seq![
        TT::Punct('#', crate::tokens::Spacing::Alone, span),
        TT::Group(Delimiter::Brace, words, span),
    ]
}

proof fn lemma_events_hash_tag(words: Seq<TT>, span: Span)
    ensures
        events(hash_tag(words, span)) == seq![
            Ev::Tag(TT::Punct('#', crate::tokens::Spacing::Alone, span), words, span),
        ],
{
    let t = hash_tag(words, span);
    lemma_events_tag(t);
    assert(t.subrange(2, 2) =~= Seq::<TT>::empty());
    lemma_events_empty();
    assert(events(t) =~= seq![
        Ev::Tag(TT::Punct('#', crate::tokens::Spacing::Alone, span), words, span),
    ]);
}

/// Putting items into the last branch of an open `if`.
proof fn lemma_put_all_branch(c: Seq<CI>, br: Seq<ArmV>, qs: Seq<QT>)
    requires
        br.len() > 0,
    ensures
        put_all(c.push(CI::If(br, None)), qs) == c.push(
            CI::If(br.update(br.len() - 1, (br.last().0, br.last().1, br.last().2 + qs)), None),
        ),
    decreases qs.len(),
{
    let n = br.len();
    if qs.len() == 0 {
        assert(br.last().2 + qs =~= br.last().2);
        assert(br.update(n - 1, (br.last().0, br.last().1, br.last().2 + qs)) =~= br);
    } else {
        let br1 = br.update(n - 1, (br.last().0, br.last().1, br.last().2.push(qs[0])));
        assert(put(c.push(CI::If(br, None)), qs[0]) =~= c.push(CI::If(br1, None)));
        lemma_put_all_branch(c, br1, qs.subrange(1, qs.len() as int));
        assert(br1.last().2 + qs.subrange(1, qs.len() as int) =~= br.last().2 + qs);
        assert(br1.update(n - 1, (br1.last().0, br1.last().1, br1.last().2 + qs.subrange(
            1,
            qs.len() as int,
        ))) =~= br.update(n - 1, (br.last().0, br.last().1, br.last().2 + qs)));
    }
}

/// Putting items into the else-branch of an open `if`.
proof fn lemma_put_all_else(c: Seq<CI>, br: Seq<ArmV>, e: Seq<QT>, qs: Seq<QT>)
    ensures
        put_all(c.push(CI::If(br, Some(e))), qs) == c.push(CI::If(br, Some(e + qs))),
    decreases qs.len(),
{
    if qs.len() == 0 {
        assert(e + qs =~= e);
    } else {
        assert(put(c.push(CI::If(br, Some(e))), qs[0]) =~= c.push(CI::If(br, Some(e.push(qs[0])))));
        lemma_put_all_else(c, br, e.push(qs[0]), qs.subrange(1, qs.len() as int));
        assert(e.push(qs[0]) + qs.subrange(1, qs.len() as int) =~= e + qs);
    }
}

/// The tokens of `#{if C1} A #{elif C2} B #{else} C #{endif}`, every tag at `sp`.
pub open spec fn if_elif_else_template(
    c1: Seq<TT>,
    a: Seq<TT>,
    c2: Seq<TT>,
    b: Seq<TT>,
    c: Seq<TT>,
    sp: Span,
) -> Seq<TT> {
    hash_tag(seq![TT::Ident("if"@, sp)] + c1, sp) + a + hash_tag(
        seq![TT::Ident("elif"@, sp)] + c2,
        sp,
    ) + b + hash_tag(seq![TT::Ident("else"@, sp)], sp) + c + hash_tag(
        seq![TT::Ident("endif"@, sp)],
        sp,
    )
}

/// `#{if C1} A #{elif C2} B #{else} C #{endif}`, with A, B and C without
/// tags, parses to one `if` whose else-branch is the `if` of the `elif`.
pub proof fn law_if_elif_else_parses_to_chain(
    c1: Seq<TT>,
    a: Seq<TT>,
    c2: Seq<TT>,
    b: Seq<TT>,
    c: Seq<TT>,
    sp: Span,
)
    requires
        tag_free(a),
        tag_free(b),
        tag_free(c),
    ensures
        spec_parse(if_elif_else_template(c1, a, c2, b, c, sp)) == Ok::<Seq<QT>, ErrV>(
            seq![
                chain(
                    seq![(sp, c1, lift_seq(a)), (sp, c2, lift_seq(b))],
                    Some(lift_seq(c)),
                ),
            ],
        ),
{
    reveal_strlit("if");
    reveal_strlit("elif");
    reveal_strlit("else");
    reveal_strlit("endif");
    reveal_strlit("for");
    reveal_strlit("endfor");
    reveal_strlit("match");
    reveal_strlit("of");
    reveal_strlit("endmatch");
    let p = TT::Punct('#', crate::tokens::Spacing::Alone, sp);
    let w1 = seq![TT::Ident("if"@, sp)] + c1;
    let w2 = seq![TT::Ident("elif"@, sp)] + c2;
    let w3 = seq![TT::Ident("else"@, sp)];
    let w4 = seq![TT::Ident("endif"@, sp)];
    let t1 = hash_tag(w1, sp);
    let t2 = hash_tag(w2, sp);
    let t3 = hash_tag(w3, sp);
    let t4 = hash_tag(w4, sp);
    // the events of the template
    lemma_events_hash_tag(w4, sp);
    let e1 = Ev::Tag(p, w1, sp);
    let e2 = Ev::Tag(p, w2, sp);
    let e3 = Ev::Tag(p, w3, sp);
    let e4 = Ev::Tag(p, w4, sp);
    let s7 = c + t4;
    let s6 = t3 + s7;
    let s5 = b + s6;
    let s4 = t2 + s5;
    let s3 = a + s4;
    let s2 = t1 + s3;
    assert(if_elif_else_template(c1, a, c2, b, c, sp) =~= s2);
    lemma_events_tag_then(w1, sp, s3);
    lemma_events_tag_then(w2, sp, s5);
    lemma_events_tag_then(w3, sp, s7);
    let tail0 = seq![e2] + events(s5);
    let tail1 = events(s5);
    let tail2 = seq![e3] + events(s7);
    let tail3 = events(s7);
    let tail4 = seq![e4];
    // `#{if C1}`
    let k0 = initial_context();
    let br1 = seq![(sp, c1, Seq::<QT>::empty())];
    let k1 = k0.push(CI::If(br1, None));
    assert(w1[0] == TT::Ident("if"@, sp));
    assert(w1.subrange(1, w1.len() as int) =~= c1);
    lemma_run_step(k0, e1, events(s3));
    assert(step(k0, e1) == Ok::<Seq<CI>, ErrV>(k1));
    // A
    crate::parse::lemma_open_wf(k0, CI::If(br1, None));
    lemma_run_tag_free_then(k1, a, s4);
    lemma_put_all_branch(k0, br1, lift_seq(a));
    let br1a = seq![(sp, c1, lift_seq(a))];
    assert(br1.update(0, (sp, c1, Seq::<QT>::empty() + lift_seq(a))) =~= br1a);
    let k2 = k0.push(CI::If(br1a, None));
    assert(put_all(k1, lift_seq(a)) == k2);
    // `#{elif C2}`
    let br2 = br1a.push((sp, c2, Seq::<QT>::empty()));
    let k3 = k0.push(CI::If(br2, None));
    assert(w2[0] == TT::Ident("elif"@, sp));
    assert(w2.subrange(1, w2.len() as int) =~= c2);
    lemma_run_step(k2, e2, tail1);
    assert(k2.update(1, CI::If(br2, None)) =~= k3);
    assert(step(k2, e2) == Ok::<Seq<CI>, ErrV>(k3));
    // B
    crate::parse::lemma_open_wf(k0, CI::If(br2, None));
    lemma_run_tag_free_then(k3, b, s6);
    lemma_put_all_branch(k0, br2, lift_seq(b));
    let br2b = seq![(sp, c1, lift_seq(a)), (sp, c2, lift_seq(b))];
    assert(br2.update(1, (sp, c2, Seq::<QT>::empty() + lift_seq(b))) =~= br2b);
    let k4 = k0.push(CI::If(br2b, None));
    assert(put_all(k3, lift_seq(b)) == k4);
    // `#{else}`
    let k5 = k0.push(CI::If(br2b, Some(Seq::<QT>::empty())));
    assert(w3[0] == TT::Ident("else"@, sp));
    lemma_run_step(k4, e3, tail3);
    assert(k4.update(1, CI::If(br2b, Some(Seq::<QT>::empty()))) =~= k5);
    assert(k4.last() == CI::If(br2b, None));
    assert("else"@[2] != "elif"@[2]);
    assert("else"@ != "elif"@);
    assert(crate::parse_spec::spec_put_else(k4, sp) == Ok::<Seq<CI>, ErrV>(k5));
    assert(crate::parse_spec::spec_keyword(k4, "else"@, sp, w3) == Ok::<Seq<CI>, ErrV>(k5));
    assert(step(k4, e3) == Ok::<Seq<CI>, ErrV>(k5));
    // C
    crate::parse::lemma_open_wf(k0, CI::If(br2b, Some(Seq::<QT>::empty())));
    lemma_run_tag_free_then(k5, c, t4);
    lemma_put_all_else(k0, br2b, Seq::empty(), lift_seq(c));
    assert(Seq::<QT>::empty() + lift_seq(c) =~= lift_seq(c));
    let k6 = k0.push(CI::If(br2b, Some(lift_seq(c))));
    assert(put_all(k5, lift_seq(c)) == k6);
    // `#{endif}`
    assert(w4[0] == TT::Ident("endif"@, sp));
    let q = chain(br2b, Some(lift_seq(c)));
    let k7 = seq![CI::Zero(seq![q])];
    assert(crate::parse_spec::end_tag(k6) == Some((0nat, crate::parse_spec::Block::If)));
    assert(k6.drop_last() =~= k0);
    assert(closed_block(k6.last()) == q);
    assert(put(k0, q) =~= k7);
    lemma_run_step(k6, e4, Seq::empty());
    assert(tail4 =~= seq![e4] + Seq::<Ev>::empty());
    assert(events(t4) == tail4);
    assert(step(k6, e4) == Ok::<Seq<CI>, ErrV>(k7));
    lemma_run_end(k7);
}

proof fn lemma_put_all_for(c: Seq<CI>, sp: Span, over: Seq<TT>, body: Seq<QT>, qs: Seq<QT>)
    ensures
        put_all(c.push(CI::For(sp, over, body)), qs) == c.push(CI::For(sp, over, body + qs)),
    decreases qs.len(),
{
    if qs.len() == 0 {
        assert(body + qs =~= body);
    } else {
        assert(put(c.push(CI::For(sp, over, body)), qs[0]) =~= c.push(
            CI::For(sp, over, body.push(qs[0])),
        ));
        lemma_put_all_for(c, sp, over, body.push(qs[0]), qs.subrange(1, qs.len() as int));
        assert(body.push(qs[0]) + qs.subrange(1, qs.len() as int) =~= body + qs);
    }
}

proof fn lemma_put_all_arm(c: Seq<CI>, sp: Span, of: Seq<TT>, arms: Seq<ArmV>, qs: Seq<QT>)
    requires
        arms.len() > 0,
    ensures
        put_all(c.push(CI::Match(sp, of, arms)), qs) == c.push(
            CI::Match(
                sp,
                of,
                arms.update(arms.len() - 1, (arms.last().0, arms.last().1, arms.last().2 + qs)),
            ),
        ),
    decreases qs.len(),
{
    let n = arms.len();
    if qs.len() == 0 {
        assert(arms.last().2 + qs =~= arms.last().2);
        assert(arms.update(n - 1, (arms.last().0, arms.last().1, arms.last().2 + qs)) =~= arms);
    } else {
        let arms1 = arms.update(n - 1, (arms.last().0, arms.last().1, arms.last().2.push(qs[0])));
        assert(put(c.push(CI::Match(sp, of, arms)), qs[0]) =~= c.push(CI::Match(sp, of, arms1)));
        lemma_put_all_arm(c, sp, of, arms1, qs.subrange(1, qs.len() as int));
        assert(arms1.last().2 + qs.subrange(1, qs.len() as int) =~= arms.last().2 + qs);
        assert(arms1.update(n - 1, (arms1.last().0, arms1.last().1, arms1.last().2 + qs.subrange(
            1,
            qs.len() as int,
        ))) =~= arms.update(n - 1, (arms.last().0, arms.last().1, arms.last().2 + qs)));
    }
}

/// The tokens of `#{for OVER} A #{endfor}`, every tag at `sp`.
pub open spec fn for_template(over: Seq<TT>, a: Seq<TT>, sp: Span) -> Seq<TT> {
    hash_tag(seq![TT::Ident("for"@, sp)] + over, sp) + a + hash_tag(
        seq![TT::Ident("endfor"@, sp)],
        sp,
    )
}

/// `#{for OVER} A #{endfor}`, with A without tags, parses to one loop
/// over OVER whose body is A.
pub proof fn law_for_parses_to_loop(over: Seq<TT>, a: Seq<TT>, sp: Span)
    requires
        tag_free(a),
    ensures
        spec_parse(for_template(over, a, sp)) == Ok::<Seq<QT>, ErrV>(
            seq![QT::For(sp, over, lift_seq(a))],
        ),
{
    reveal_strlit("if");
    reveal_strlit("elif");
    reveal_strlit("else");
    reveal_strlit("endif");
    reveal_strlit("for");
    reveal_strlit("endfor");
    let p = TT::Punct('#', crate::tokens::Spacing::Alone, sp);
    let w1 = seq![TT::Ident("for"@, sp)] + over;
    let w2 = seq![TT::Ident("endfor"@, sp)];
    let t2 = hash_tag(w2, sp);
    let s1 = a + t2;
    assert(for_template(over, a, sp) =~= hash_tag(w1, sp) + s1);
    lemma_events_tag_then(w1, sp, s1);
    lemma_events_hash_tag(w2, sp);
    let e1 = Ev::Tag(p, w1, sp);
    let e2 = Ev::Tag(p, w2, sp);
    let k0 = initial_context();
    let k1 = k0.push(CI::For(sp, over, Seq::empty()));
    assert(w1[0] == TT::Ident("for"@, sp));
    assert(w1.subrange(1, w1.len() as int) =~= over);
    assert("for"@[0] != "if"@[0]);
    lemma_run_step(k0, e1, events(s1));
    assert(step(k0, e1) == Ok::<Seq<CI>, ErrV>(k1));
    crate::parse::lemma_open_wf(k0, CI::For(sp, over, Seq::empty()));
    lemma_run_tag_free_then(k1, a, t2);
    lemma_put_all_for(k0, sp, over, Seq::empty(), lift_seq(a));
    assert(Seq::<QT>::empty() + lift_seq(a) =~= lift_seq(a));
    let k2 = k0.push(CI::For(sp, over, lift_seq(a)));
    assert(put_all(k1, lift_seq(a)) == k2);
    let q = QT::For(sp, over, lift_seq(a));
    let k3 = seq![CI::Zero(seq![q])];
    assert(w2[0] == TT::Ident("endfor"@, sp));
    assert("endfor"@[1] != "elif"@[1]);
    assert(crate::parse_spec::end_tag(k2) == Some((0nat, crate::parse_spec::Block::For)));
    assert(k2.drop_last() =~= k0);
    assert(put(k0, q) =~= k3);
    lemma_run_step(k2, e2, Seq::empty());
    assert(seq![e2] =~= seq![e2] + Seq::<Ev>::empty());
    assert(step(k2, e2) == Ok::<Seq<CI>, ErrV>(k3));
    lemma_run_end(k3);
}

/// The tokens of `#{match OF} #{of P1} A #{of P2} B #{endmatch}`, every tag at `sp`.
pub open spec fn match_template(
    of: Seq<TT>,
    p1: Seq<TT>,
    a: Seq<TT>,
    p2: Seq<TT>,
    b: Seq<TT>,
    sp: Span,
) -> Seq<TT> {
    hash_tag(seq![TT::Ident("match"@, sp)] + of, sp) + hash_tag(
        seq![TT::Ident("of"@, sp)] + p1,
        sp,
    ) + a + hash_tag(seq![TT::Ident("of"@, sp)] + p2, sp) + b + hash_tag(
        seq![TT::Ident("endmatch"@, sp)],
        sp,
    )
}

/// `#{match OF} #{of P1} A #{of P2} B #{endmatch}`, with A and B without
/// tags, parses to one match with the two arms in order.
pub proof fn law_match_parses_to_arms(
    of: Seq<TT>,
    p1: Seq<TT>,
    a: Seq<TT>,
    p2: Seq<TT>,
    b: Seq<TT>,
    sp: Span,
)
    requires
        tag_free(a),
        tag_free(b),
    ensures
        spec_parse(match_template(of, p1, a, p2, b, sp)) == Ok::<Seq<QT>, ErrV>(
            seq![QT::Match(sp, of, seq![(sp, p1, lift_seq(a)), (sp, p2, lift_seq(b))])],
        ),
{
    reveal_strlit("if");
    reveal_strlit("elif");
    reveal_strlit("else");
    reveal_strlit("endif");
    reveal_strlit("for");
    reveal_strlit("endfor");
    reveal_strlit("match");
    reveal_strlit("of");
    reveal_strlit("endmatch");
    let p = TT::Punct('#', crate::tokens::Spacing::Alone, sp);
    let w0 = seq![TT::Ident("match"@, sp)] + of;
    let w1 = seq![TT::Ident("of"@, sp)] + p1;
    let w2 = seq![TT::Ident("of"@, sp)] + p2;
    let w3 = seq![TT::Ident("endmatch"@, sp)];
    let t3 = hash_tag(w3, sp);
    let s4 = b + t3;
    let s3 = hash_tag(w2, sp) + s4;
    let s2 = a + s3;
    let s1 = hash_tag(w1, sp) + s2;
    assert(match_template(of, p1, a, p2, b, sp) =~= hash_tag(w0, sp) + s1);
    lemma_events_tag_then(w0, sp, s1);
    lemma_events_tag_then(w1, sp, s2);
    lemma_events_tag_then(w2, sp, s4);
    lemma_events_hash_tag(w3, sp);
    let e0 = Ev::Tag(p, w0, sp);
    let e1 = Ev::Tag(p, w1, sp);
    let e2 = Ev::Tag(p, w2, sp);
    let e3 = Ev::Tag(p, w3, sp);
    let k0 = initial_context();
    // `#{match OF}`
    let k1 = k0.push(CI::Match(sp, of, Seq::empty()));
    assert(w0[0] == TT::Ident("match"@, sp));
    assert(w0.subrange(1, w0.len() as int) =~= of);
    assert("match"@[0] != "endif"@[0]);
    lemma_run_step(k0, e0, events(s1));
    assert(step(k0, e0) == Ok::<Seq<CI>, ErrV>(k1));
    // `#{of P1}`
    let arms1 = seq![(sp, p1, Seq::<QT>::empty())];
    let k2 = k0.push(CI::Match(sp, of, arms1));
    assert(w1[0] == TT::Ident("of"@, sp));
    assert(w1.subrange(1, w1.len() as int) =~= p1);
    assert("of"@[0] != "if"@[0]);
    lemma_run_step(k1, e1, events(s2));
    assert(Seq::<ArmV>::empty().push((sp, p1, Seq::<QT>::empty())) =~= arms1);
    assert(k1.update(1, CI::Match(sp, of, arms1)) =~= k2);
    assert(step(k1, e1) == Ok::<Seq<CI>, ErrV>(k2));
    // A
    crate::parse::lemma_open_wf(k0, CI::Match(sp, of, arms1));
    lemma_run_tag_free_then(k2, a, s3);
    lemma_put_all_arm(k0, sp, of, arms1, lift_seq(a));
    let arms1a = seq![(sp, p1, lift_seq(a))];
    assert(arms1.update(0, (sp, p1, Seq::<QT>::empty() + lift_seq(a))) =~= arms1a);
    let k3 = k0.push(CI::Match(sp, of, arms1a));
    assert(put_all(k2, lift_seq(a)) == k3);
    // `#{of P2}`
    let arms2 = arms1a.push((sp, p2, Seq::<QT>::empty()));
    let k4 = k0.push(CI::Match(sp, of, arms2));
    assert(w2[0] == TT::Ident("of"@, sp));
    assert(w2.subrange(1, w2.len() as int) =~= p2);
    lemma_run_step(k3, e2, events(s4));
    assert(k3.update(1, CI::Match(sp, of, arms2)) =~= k4);
    assert(step(k3, e2) == Ok::<Seq<CI>, ErrV>(k4));
    // B
    crate::parse::lemma_open_wf(k0, CI::Match(sp, of, arms2));
    lemma_run_tag_free_then(k4, b, t3);
    lemma_put_all_arm(k0, sp, of, arms2, lift_seq(b));
    let arms2b = seq![(sp, p1, lift_seq(a)), (sp, p2, lift_seq(b))];
    assert(arms2.update(1, (sp, p2, Seq::<QT>::empty() + lift_seq(b))) =~= arms2b);
    let k5 = k0.push(CI::Match(sp, of, arms2b));
    assert(put_all(k4, lift_seq(b)) == k5);
    // `#{endmatch}`
    let q = QT::Match(sp, of, arms2b);
    let k6 = seq![CI::Zero(seq![q])];
    assert(w3[0] == TT::Ident("endmatch"@, sp));
    assert("endmatch"@[1] != "elif"@[1]);
    assert("endmatch"@[1] != "else"@[1]);
    assert("endmatch"@[3] != "endif"@[3]);
    assert("endmatch"@[3] != "endfor"@[3]);
    assert(crate::parse_spec::end_tag(k5) == Some((0nat, crate::parse_spec::Block::Match)));
    assert(k5.drop_last() =~= k0);
    assert(put(k0, q) =~= k6);
    lemma_run_step(k5, e3, Seq::empty());
    assert(seq![e3] =~= seq![e3] + Seq::<Ev>::empty());
    assert(step(k5, e3) == Ok::<Seq<CI>, ErrV>(k6));
    lemma_run_end(k6);
}

/// Entering a group and leaving it at once puts one empty group where
/// tokens go, and hands back the tokens that follow it.
pub proof fn law_enter_leave_group(c: Seq<CI>, hold: Seq<TT>, span: Span, d: Delimiter)
    requires
        wf(c),
        !awaiting_of(c),
    ensures
        crate::parse_spec::spec_put_holder(c, hold, span, d) matches Ok(c1) && top_is_holder(c1)
            && c1.last()->Holder_0 == hold && spec_release(c1) == put(
            c,
            QT::Group(d, Seq::empty(), span),
        ),
{
    let c1 = c.push(CI::Holder(hold, span, d, Seq::empty()));
    assert(c1.drop_last() =~= c);
}

/// `#{if C1} A #{elif C2} B #{else} C #{endif}`, with A, B and C without
/// tags, produces A when C1 holds, else B when C2 holds, else C, each at
/// the requested span.
pub proof fn law_if_elif_else_produces_first_true_branch(
    c1: Seq<TT>,
    a: Seq<TT>,
    c2: Seq<TT>,
    b: Seq<TT>,
    c: Seq<TT>,
    sp: Span,
    env: EnvV,
    span: Span,
    f1: bool,
    f2: bool,
)
    requires
        tag_free(a),
        tag_free(b),
        tag_free(c),
        lookup(seq![env], render_trees(c1)) == Some(ValueV::Flag(f1)),
        !f1 ==> lookup(seq![env], render_trees(c2)) == Some(ValueV::Flag(f2)),
    ensures
        spec_parse(if_elif_else_template(c1, a, c2, b, c, sp)) matches Ok(q) && expand_seq(
            q,
            seq![env],
            span,
        ) == Ok::<Seq<TT>, Seq<char>>(
            if f1 {
                respan_seq(a, span)
            } else if f2 {
                respan_seq(b, span)
            } else {
                respan_seq(c, span)
            },
        ),
{
    law_if_elif_else_parses_to_chain(c1, a, c2, b, c, sp);
    let br = seq![(sp, c1, lift_seq(a)), (sp, c2, lift_seq(b))];
    let scope = seq![env];
    let q = chain(br, Some(lift_seq(c)));
    lemma_expand_single(q, scope, span);
    assert(cond_text(br[0]) == render_trees(c1));
    assert(cond_text(br[1]) == render_trees(c2));
    if f1 {
        law_if_chain_first_true(br, Some(lift_seq(c)), scope, span, 0);
        law_lifted_expands_to_respanned(a, scope, span);
    } else if f2 {
        law_if_chain_first_true(br, Some(lift_seq(c)), scope, span, 1);
        law_lifted_expands_to_respanned(b, scope, span);
    } else {
        law_if_chain_all_false(br, Some(lift_seq(c)), scope, span);
        law_lifted_expands_to_respanned(c, scope, span);
    }
}

/// `s`, `n` times over.
pub open spec fn repeated(s: Seq<TT>, n: nat) -> Seq<TT>
    decreases n,
{
    if n == 0 {
        Seq::empty()
    } else {
        repeated(s, (n - 1) as nat) + s
    }
}

proof fn lemma_rounds_of_lifted(a: Seq<TT>, rounds: Seq<EnvV>, scope: Seq<EnvV>, span: Span)
    ensures
        crate::expand::expand_rounds(lift_seq(a), rounds, scope, span) == Ok::<
            Seq<TT>,
            Seq<char>,
        >(repeated(respan_seq(a, span), rounds.len())),
    decreases rounds.len(),
{
    if rounds.len() > 0 {
        lemma_rounds_of_lifted(a, rounds.drop_last(), scope, span);
        law_lifted_expands_to_respanned(a, scope.push(rounds.last()), span);
    }
}

/// `#{for OVER} A #{endfor}`, with A without tags, produces A once per
/// round of the loop, at the requested span.
pub proof fn law_for_repeats_body(
    over: Seq<TT>,
    a: Seq<TT>,
    sp: Span,
    env: EnvV,
    rounds: Seq<EnvV>,
    span: Span,
)
    requires
        tag_free(a),
        lookup(seq![env], render_trees(over)) == Some(ValueV::Each(rounds)),
    ensures
        spec_parse(for_template(over, a, sp)) matches Ok(q) && expand_seq(q, seq![env], span)
            == Ok::<Seq<TT>, Seq<char>>(repeated(respan_seq(a, span), rounds.len())),
{
    law_for_parses_to_loop(over, a, sp);
    let q = QT::For(sp, over, lift_seq(a));
    lemma_expand_single(q, seq![env], span);
    lemma_rounds_of_lifted(a, rounds, seq![env], span);
}

/// `#{match OF} #{of P1} A #{of P2} B #{endmatch}`, with A and B without
/// tags, produces the body of the arm that the match takes.
pub proof fn law_match_produces_taken_arm(
    of: Seq<TT>,
    p1: Seq<TT>,
    a: Seq<TT>,
    p2: Seq<TT>,
    b: Seq<TT>,
    sp: Span,
    env: EnvV,
    arm: nat,
    binds: EnvV,
    span: Span,
)
    requires
        tag_free(a),
        tag_free(b),
        arm < 2,
        lookup(seq![env], render_trees(of)) == Some(ValueV::Arm(arm, binds)),
    ensures
        spec_parse(match_template(of, p1, a, p2, b, sp)) matches Ok(q) && expand_seq(
            q,
            seq![env],
            span,
        ) == Ok::<Seq<TT>, Seq<char>>(
            if arm == 0 {
                respan_seq(a, span)
            } else {
                respan_seq(b, span)
            },
        ),
{
    law_match_parses_to_arms(of, p1, a, p2, b, sp);
    let arms = seq![(sp, p1, lift_seq(a)), (sp, p2, lift_seq(b))];
    let q = QT::Match(sp, of, arms);
    lemma_expand_single(q, seq![env], span);
    law_lifted_expands_to_respanned(a, seq![env].push(binds), span);
    law_lifted_expands_to_respanned(b, seq![env].push(binds), span);
}

/// The names of the tags.
pub open spec fn is_keyword(name: Seq<char>) -> bool {
    ||| name == "if"@
    ||| name == "elif"@
    ||| name == "else"@
    ||| name == "endif"@
    ||| name == "for"@
    ||| name == "endfor"@
    ||| name == "match"@
    ||| name == "of"@
    ||| name == "endmatch"@
}

/// `#{EXPR}`, where EXPR starts with an identifier that names no tag,
/// produces the tokens of the value of EXPR, as they are.
pub proof fn law_insertion_produces_value(
    words: Seq<TT>,
    sp: Span,
    env: EnvV,
    value: Seq<TT>,
    span: Span,
)
    requires
        words.len() > 0,
        words[0] is Ident,
        !is_keyword(words[0]->Ident_0),
        lookup(seq![env], render_trees(words)) == Some(ValueV::Tokens(value)),
    ensures
        spec_parse(hash_tag(words, sp)) == Ok::<Seq<QT>, ErrV>(
            seq![QT::Insertion(words[0].span(), words)],
        ),
        expand_seq(seq![QT::Insertion(words[0].span(), words)], seq![env], span) == Ok::<
            Seq<TT>,
            Seq<char>,
        >(value),
{
    let p = TT::Punct('#', crate::tokens::Spacing::Alone, sp);
    let e = Ev::Tag(p, words, sp);
    lemma_events_hash_tag(words, sp);
    let k0 = initial_context();
    let q = QT::Insertion(words[0].span(), words);
    let k1 = seq![CI::Zero(seq![q])];
    lemma_run_step(k0, e, Seq::empty());
    assert(seq![e] =~= seq![e] + Seq::<Ev>::empty());
    assert(put(k0, q) =~= k1);
    assert(step(k0, e) == Ok::<Seq<CI>, ErrV>(k1));
    lemma_run_end(k1);
    lemma_expand_single(q, seq![env], span);
}

} // verus!
