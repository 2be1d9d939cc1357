//! The meaning of a template, as an interpreter: plain tokens are
//! re-created at the requested span, insertions and extensions give the
//! tokens of their values, and blocks choose or repeat their bodies. The
//! values of the template's expressions come from an environment that maps
//! each expression, by its text, to its value. This is the behaviour the
//! code from `compile` is written to have when it runs; that the generated
//! Rust code behaves so rests on Rust's own semantics and is not proved here.
use vstd::prelude::*;

use crate::language::{qtrees_view, ArmV, QTokens, TokenTreeQ, QT};
use crate::tokens::{
    render_trees, Group, Ident, Literal, Punct, Span, TokenStream,
    TokenTree, TT,
};

verus! {

/// The value of an expression of the template.
pub enum Value {
    /// The tokens that an inserted expression (or an extended iterable) gives.
    Tokens(TokenStream),
    /// The value of a condition.
    Flag(bool),
    /// The rounds of a loop: what the loop's pattern binds in each round.
    Each(Vec<Env>),
    /// The arm that a match takes, and what the arm's pattern binds.
    Arm(usize, Env),
}

/// Expressions, by their text, and their values.
pub struct Env {
    pub entries: Vec<(String, Value)>,
}

/// The mathematical value of an environment: its entries in order.
pub type EnvV = Seq<(Seq<char>, ValueV)>;

pub enum ValueV {
    Tokens(Seq<TT>),
    Flag(bool),
    Each(Seq<Seq<(Seq<char>, ValueV)>>),
    Arm(nat, Seq<(Seq<char>, ValueV)>),
}

pub open spec fn value_view(v: Value) -> ValueV
    decreases v,
{
    match v {
        Value::Tokens(t) => ValueV::Tokens(t@),
        Value::Flag(b) => ValueV::Flag(b),
        Value::Each(rounds) => ValueV::Each(envs_view(rounds@)),
        Value::Arm(i, e) => ValueV::Arm(i as nat, env_view(e)),
    }
}

pub open spec fn env_view(e: Env) -> EnvV
    decreases e,
{
    Seq::new(
        e.entries@.len(),
        |i: int|
            if 0 <= i < e.entries@.len() {
                (e.entries@[i].0@, value_view(e.entries@[i].1))
            } else {
                (Seq::empty(), ValueV::Flag(false))
            },
    )
}

pub open spec fn envs_view(s: Seq<Env>) -> Seq<EnvV>
    decreases s,
{
    Seq::new(
        s.len(),
        |i: int|
            if 0 <= i < s.len() {
                env_view(s[i])
            } else {
                Seq::empty()
            },
    )
}

impl View for Value {
    type V = ValueV;

    open spec fn view(&self) -> ValueV {
        value_view(*self)
    }
}

impl View for Env {
    type V = EnvV;

    open spec fn view(&self) -> EnvV {
        env_view(*self)
    }
}

/// The value of `key` in one environment: its first entry.
pub open spec fn lookup_in(env: EnvV, key: Seq<char>) -> Option<ValueV>
    decreases env.len(),
{
    if env.len() == 0 {
        None
    } else if env[0].0 == key {
        Some(env[0].1)
    } else {
        lookup_in(env.drop_first(), key)
    }
}

/// The value of `key` in a chain of environments, innermost last: the
/// innermost environment that has it decides.
pub open spec fn lookup(scope: Seq<EnvV>, key: Seq<char>) -> Option<ValueV>
    decreases scope.len(),
{
    if scope.len() == 0 {
        None
    } else {
        match lookup_in(scope.last(), key) {
            Some(v) => Some(v),
            None => lookup(scope.drop_last(), key),
        }
    }
}

/// A tree with its span, and the spans of all trees inside it, replaced.
pub open spec fn respan(t: TT, span: Span) -> TT
    decreases t,
{
    match t {
        TT::Group(d, s, _) => TT::Group(d, respan_seq(s, span), span),
        _ => t.with_span(span),
    }
}

pub open spec fn respan_seq(s: Seq<TT>, span: Span) -> Seq<TT>
    decreases s,
{
    Seq::new(
        s.len(),
        |i: int|
            if 0 <= i < s.len() {
                respan(s[i], span)
            } else {
                TT::Punct(' ', crate::tokens::Spacing::Alone, span)
            },
    )
}

pub open spec fn tokens_of(v: Option<ValueV>) -> Option<Seq<TT>> {
    match v {
        Some(ValueV::Tokens(t)) => Some(t),
        _ => None,
    }
}

/// The tokens that a template item produces in `scope`, or the text of
/// the first expression that has no value of the kind it needs.
pub open spec fn expand_item(t: QT, scope: Seq<EnvV>, span: Span) -> Result<Seq<TT>, Seq<char>>
    decreases t, 0nat,
{
    match t {
        QT::Plain(tt) => Ok(seq![respan(tt, span)]),
        QT::Insertion(_, e) => match tokens_of(lookup(scope, render_trees(e))) {
            Some(ts) => Ok(ts),
            None => Err(render_trees(e)),
        },
        QT::Extend(_, e) => match tokens_of(lookup(scope, render_trees(e))) {
            Some(ts) => Ok(ts),
            None => Err(render_trees(e)),
        },
        QT::Group(d, inner, _) => match expand_seq(inner, scope, span) {
            Ok(ts) => Ok(seq![TT::Group(d, ts, span)]),
            Err(x) => Err(x),
        },
        QT::If(_, cond, then_branch, else_branch) => match lookup(scope, render_trees(cond)) {
            Some(ValueV::Flag(b)) => if b {
                expand_seq(then_branch, scope, span)
            } else {
                match else_branch {
                    Some(e) => expand_seq(e, scope, span),
                    None => Ok(Seq::empty()),
                }
            },
            _ => Err(render_trees(cond)),
        },
        QT::For(_, over, body) => match lookup(scope, render_trees(over)) {
            Some(ValueV::Each(rounds)) => expand_rounds(body, rounds, scope, span),
            _ => Err(render_trees(over)),
        },
        QT::Match(_, of, arms) => match lookup(scope, render_trees(of)) {
            Some(ValueV::Arm(i, binds)) => if i < arms.len() {
                expand_arm(arms, i as int, binds, scope, span)
            } else {
                Err(render_trees(of))
            },
            _ => Err(render_trees(of)),
        },
    }
}

pub open spec fn expand_arm(arms: Seq<ArmV>, i: int, binds: EnvV, scope: Seq<EnvV>, span: Span) -> Result<
    Seq<TT>,
    Seq<char>,
>
    decreases arms, 1nat,
{
    if 0 <= i < arms.len() {
        expand_seq(arms[i].2, scope.push(binds), span)
    } else {
        Ok(Seq::empty())
    }
}

/// A sequence of items: their tokens one after the other; the first
/// item that fails decides the error.
pub open spec fn expand_seq(q: Seq<QT>, scope: Seq<EnvV>, span: Span) -> Result<Seq<TT>, Seq<char>>
    decreases q, 0nat,
{
    if q.len() == 0 {
        Ok(Seq::empty())
    } else {
        match expand_seq(q.subrange(0, q.len() - 1), scope, span) {
            Ok(a) => match expand_item(q[q.len() - 1], scope, span) {
                Ok(b) => Ok(a + b),
                Err(x) => Err(x),
            },
            Err(x) => Err(x),
        }
    }
}

/// The body of a loop, once per round, each round's bindings innermost.
pub open spec fn expand_rounds(body: Seq<QT>, rounds: Seq<EnvV>, scope: Seq<EnvV>, span: Span) -> Result<
    Seq<TT>,
    Seq<char>,
>
    decreases body, rounds.len() + 1,
{
    if rounds.len() == 0 {
        Ok(Seq::empty())
    } else {
        match expand_rounds(body, rounds.drop_last(), scope, span) {
            Ok(a) => match expand_seq(body, scope.push(rounds.last()), span) {
                Ok(b) => Ok(a + b),
                Err(x) => Err(x),
            },
            Err(x) => Err(x),
        }
    }
}

/// The text of an expression whose value is missing or of the wrong kind.
pub struct ExpandError {
    pub expression: String,
}

pub open spec fn scope_view(s: Seq<&Env>) -> Seq<EnvV> {
    Seq::new(s.len(), |i: int| s[i]@)
}

impl Env {
    pub fn new() -> (r: Env)
        ensures
            r@ == Seq::<(Seq<char>, ValueV)>::empty(),
    {
        let r = Env { entries: Vec::new() };
        assert(r@ =~= Seq::<(Seq<char>, ValueV)>::empty());
        r
    }

    /// Adds an entry at the end (earlier entries for the same text win).
    pub fn bind(&mut self, expression: &str, value: Value)
        ensures
            final(self)@ == old(self)@.push((expression@, value@)),
    {
        self.entries.push((String::from_str(expression), value));
        assert(self@ =~= old(self)@.push((expression@, value@)));
    }

    /// The expression gives these tokens.
    pub fn bind_tokens(&mut self, expression: &str, tokens: TokenStream)
        ensures
            final(self)@ == old(self)@.push((expression@, ValueV::Tokens(tokens@))),
    {
        self.bind(expression, Value::Tokens(tokens))
    }

    /// The condition has this value.
    pub fn bind_flag(&mut self, expression: &str, flag: bool)
        ensures
            final(self)@ == old(self)@.push((expression@, ValueV::Flag(flag))),
    {
        self.bind(expression, Value::Flag(flag))
    }

    /// The loop runs once per environment, which holds that round's bindings.
    pub fn bind_rounds(&mut self, expression: &str, rounds: Vec<Env>)
        ensures
            final(self)@ == old(self)@.push((expression@, ValueV::Each(envs_view(rounds@)))),
    {
        self.bind(expression, Value::Each(rounds))
    }

    /// The match takes the arm with this index, whose pattern binds `binds`.
    pub fn bind_arm(&mut self, expression: &str, arm: usize, binds: Env)
        ensures
            final(self)@ == old(self)@.push((expression@, ValueV::Arm(arm as nat, binds@))),
    {
        self.bind(expression, Value::Arm(arm, binds))
    }
}

fn lookup_value<'a>(scope: &Vec<&'a Env>, key: &String) -> (r: Option<&'a Value>)
    ensures
        match r {
            Some(v) => lookup(scope_view(scope@), key@) == Some(v@),
            None => lookup(scope_view(scope@), key@) is None,
        },
{
    let ghost sv = scope_view(scope@);
    let mut i = scope.len();
    assert(sv.subrange(0, i as int) =~= sv);
    while i > 0
        invariant
            i <= scope@.len(),
            sv == scope_view(scope@),
            lookup(sv, key@) == lookup(sv.subrange(0, i as int), key@),
        decreases i,
    {
        let env: &'a Env = scope[i - 1];
        let ghost ev = env@;
        let ghost sub = sv.subrange(0, i as int);
        proof {
            assert(sub.last() == ev);
            assert(sub.drop_last() =~= sv.subrange(0, i - 1));
        }
        let mut j: usize = 0;
        assert(ev.subrange(0, ev.len() as int) =~= ev);
        while j < env.entries.len()
            invariant
                j <= env.entries@.len(),
                ev == env@,
                0 < i <= scope@.len(),
                sv == scope_view(scope@),
                lookup(sv, key@) == lookup(sv.subrange(0, i as int), key@),
                sv.subrange(0, i as int).last() == ev,
                sv.subrange(0, i as int).drop_last() == sv.subrange(0, i - 1),
                lookup_in(ev, key@) == lookup_in(ev.subrange(j as int, ev.len() as int), key@),
            decreases env.entries@.len() - j,
        {
            let ghost rest = ev.subrange(j as int, ev.len() as int);
            proof {
                assert(rest[0] == ev[j as int]);
                assert(rest.drop_first() =~= ev.subrange(j + 1, ev.len() as int));
            }
            if env.entries[j].0 == *key {
                proof {
                    assert(ev[j as int].0 == key@);
                    assert(lookup_in(ev, key@) == Some(ev[j as int].1));
                }
                return Some(&env.entries[j].1);
            }
            j = j + 1;
        }
        proof {
            assert(ev.subrange(j as int, ev.len() as int) =~= Seq::<(Seq<char>, ValueV)>::empty());
        }
        i = i - 1;
    }
    None
}

/// A copy of the tree with every span in it replaced.
pub fn respanned(t: &TokenTree, span: Span) -> (r: TokenTree)
    ensures
        r@ == respan(t@, span),
    decreases t, 0nat,
{
    match t {
        TokenTree::Ident(i) => TokenTree::Ident(Ident { stringed: i.stringed.clone(), span }),
        TokenTree::Punct(p) => TokenTree::Punct(Punct { op: p.op, spacing: p.spacing, span }),
        TokenTree::Literal(l) => TokenTree::Literal(Literal { value: l.duplicate_value(), span }),
        TokenTree::Group(g) => {
            let stream = respanned_stream(&g.stream, span);
            TokenTree::Group(Group { delimiter: g.delimiter, stream, span })
        },
    }
}

/// A copy of the stream with every span in it replaced.
pub fn respanned_stream(s: &TokenStream, span: Span) -> (r: TokenStream)
    ensures
        r@ == respan_seq(s@, span),
    decreases s, 1nat,
{
    let mut v: Vec<TokenTree> = Vec::new();
    let mut i: usize = 0;
    while i < s.0.len()
        invariant
            i <= s.0@.len(),
            v@.len() == i,
            forall|j: int| 0 <= j < i ==> (#[trigger] v@[j])@ == respan(s@[j], span),
        decreases s.0@.len() - i,
    {
        proof {
            assert(decreases_to!(s => s.0));
            vstd::std_specs::vec::axiom_vec_index_decreases(s.0, i as int);
        }
        let t = respanned(&s.0[i], span);
        v.push(t);
        i = i + 1;
    }
    let r = TokenStream(v);
    assert(r@ =~= respan_seq(s@, span));
    r
}

/// A prefix that fails makes the whole sequence fail the same way.
proof fn lemma_seq_prefix_err(q: Seq<QT>, k: int, scope: Seq<EnvV>, span: Span, x: Seq<char>)
    requires
        0 <= k <= q.len(),
        expand_seq(q.subrange(0, k), scope, span) == Err::<Seq<TT>, Seq<char>>(x),
    ensures
        expand_seq(q, scope, span) == Err::<Seq<TT>, Seq<char>>(x),
    decreases q.len() - k,
{
    if k == q.len() {
        assert(q.subrange(0, k) =~= q);
    } else {
        let p = q.subrange(0, k + 1);
        assert(p.subrange(0, p.len() - 1) =~= q.subrange(0, k));
        lemma_seq_prefix_err(q, k + 1, scope, span, x);
    }
}

/// A prefix of the rounds that fails makes the whole loop fail the same way.
proof fn lemma_rounds_prefix_err(
    body: Seq<QT>,
    rounds: Seq<EnvV>,
    k: int,
    scope: Seq<EnvV>,
    span: Span,
    x: Seq<char>,
)
    requires
        0 <= k <= rounds.len(),
        expand_rounds(body, rounds.subrange(0, k), scope, span) == Err::<Seq<TT>, Seq<char>>(x),
    ensures
        expand_rounds(body, rounds, scope, span) == Err::<Seq<TT>, Seq<char>>(x),
    decreases rounds.len() - k,
{
    if k == rounds.len() {
        assert(rounds.subrange(0, k) =~= rounds);
    } else {
        let p = rounds.subrange(0, k + 1);
        assert(p.drop_last() =~= rounds.subrange(0, k));
        lemma_rounds_prefix_err(body, rounds, k + 1, scope, span, x);
    }
}

fn error_at(expression: &TokenStream) -> (r: ExpandError)
    ensures
        r.expression@ == render_trees(expression@),
{
    ExpandError { expression: expression.to_string() }
}

/// The body of a loop once per round.
fn expand_loop<'a>(body: &QTokens, rounds: &'a Vec<Env>, scope: &mut Vec<&'a Env>, span: Span) -> (r:
    Result<TokenStream, ExpandError>)
    ensures
        final(scope)@ == old(scope)@,
        match r {
            Ok(ts) => expand_rounds(body@, envs_view(rounds@), scope_view(old(scope)@), span)
                == Ok::<Seq<TT>, Seq<char>>(ts@),
            Err(e) => expand_rounds(body@, envs_view(rounds@), scope_view(old(scope)@), span)
                == Err::<Seq<TT>, Seq<char>>(e.expression@),
        },
    decreases body, 2nat,
{
    let ghost s0 = scope@;
    let ghost sv = scope_view(scope@);
    let ghost rv = envs_view(rounds@);
    let ghost bv = body@;
    let mut out = TokenStream::new();
    let mut k: usize = 0;
    assert(rv.subrange(0, 0) =~= Seq::<EnvV>::empty());
    while k < rounds.len()
        invariant
            k <= rounds@.len(),
            rv == envs_view(rounds@),
            bv == body@,
            scope@ == s0,
            s0 == old(scope)@,
            sv == scope_view(s0),
            expand_rounds(bv, rv.subrange(0, k as int), sv, span) == Ok::<Seq<TT>, Seq<char>>(
                out@,
            ),
        decreases rounds@.len() - k,
    {
        let round: &'a Env = &rounds[k];
        scope.push(round);
        proof {
            assert(scope_view(scope@) =~= sv.push(rv[k as int]));
            assert(decreases_to!(body => body.tokens));
        }
        let r = expand_items(&body.tokens, scope, span);
        scope.pop();
        proof {
            assert(scope@ =~= s0);
            let p = rv.subrange(0, k + 1);
            assert(p.drop_last() =~= rv.subrange(0, k as int));
            assert(p.last() == rv[k as int]);
        }
        match r {
            Ok(ts) => {
                out.extend(ts);
            },
            Err(x) => {
                proof {
                    lemma_rounds_prefix_err(bv, rv, k + 1, sv, span, x.expression@);
                }
                return Err(x);
            },
        }
        k = k + 1;
    }
    assert(rv.subrange(0, k as int) =~= rv);
    Ok(out)
}

/// The tokens of one template item.
fn expand_one<'a>(t: &TokenTreeQ, scope: &mut Vec<&'a Env>, span: Span) -> (r: Result<
    TokenStream,
    ExpandError,
>)
    ensures
        final(scope)@ == old(scope)@,
        match r {
            Ok(ts) => expand_item(t@, scope_view(old(scope)@), span) == Ok::<Seq<TT>, Seq<char>>(
                ts@,
            ),
            Err(e) => expand_item(t@, scope_view(old(scope)@), span) == Err::<Seq<TT>, Seq<char>>(
                e.expression@,
            ),
        },
    decreases t, 0nat,
{
    let ghost sv = scope_view(scope@);
    match t {
        TokenTreeQ::Plain(tt) => {
            let mut out = TokenStream::new();
            out.push(respanned(tt, span));
            assert(out@ =~= seq![respan(tt@, span)]);
            Ok(out)
        },
        TokenTreeQ::Insertion(_, e) | TokenTreeQ::Extend(_, e) => {
            let key = e.to_string();
            match lookup_value(scope, &key) {
                Some(Value::Tokens(ts)) => Ok(ts.duplicate()),
                _ => Err(error_at(e)),
            }
        },
        TokenTreeQ::Group(g) => {
            match expand_items(&g.tokens.tokens, scope, span) {
                Ok(inner) => {
                    let mut group = Group::new(g.delimiter, inner);
                    group.set_span(span);
                    let mut out = TokenStream::new();
                    out.push(TokenTree::Group(group));
                    assert(out@ =~= seq![TT::Group(g.delimiter, group.stream@, span)]);
                    Ok(out)
                },
                Err(x) => Err(x),
            }
        },
        TokenTreeQ::If(i) => {
            let key = i.condition.to_string();
            match lookup_value(scope, &key) {
                Some(Value::Flag(b)) => {
                    if *b {
                        expand_items(&i.then_branch.tokens, scope, span)
                    } else {
                        match &i.else_ {
                            Some(e) => expand_items(&e.tokens, scope, span),
                            None => Ok(TokenStream::new()),
                        }
                    }
                },
                _ => Err(error_at(&i.condition)),
            }
        },
        TokenTreeQ::For(f) => {
            let key = f.over.to_string();
            match lookup_value(scope, &key) {
                Some(Value::Each(rounds)) => expand_loop(&f.body, rounds, scope, span),
                _ => Err(error_at(&f.over)),
            }
        },
        TokenTreeQ::Match(m) => {
            let key = m.of.to_string();
            match lookup_value(scope, &key) {
                Some(Value::Arm(i, binds)) => {
                    if *i < m.patterns.len() {
                        let ghost before = scope@;
                        let binds: &'a Env = binds;
                        scope.push(binds);
                        proof {
                            assert(scope_view(scope@) =~= sv.push(binds@));
                            assert(decreases_to!(t => m.patterns));
                            vstd::std_specs::vec::axiom_vec_index_decreases(m.patterns, *i as int);
                        }
                        let r = expand_items(&m.patterns[*i].2.tokens, scope, span);
                        scope.pop();
                        proof {
                            assert(scope@ =~= before);
                        }
                        r
                    } else {
                        Err(error_at(&m.of))
                    }
                },
                _ => Err(error_at(&m.of)),
            }
        },
    }
}

/// The tokens of a sequence of template items, one after the other.
fn expand_items<'a>(q: &Vec<TokenTreeQ>, scope: &mut Vec<&'a Env>, span: Span) -> (r: Result<
    TokenStream,
    ExpandError,
>)
    ensures
        final(scope)@ == old(scope)@,
        match r {
            Ok(ts) => expand_seq(qtrees_view(q@), scope_view(old(scope)@), span) == Ok::<
                Seq<TT>,
                Seq<char>,
            >(ts@),
            Err(e) => expand_seq(qtrees_view(q@), scope_view(old(scope)@), span) == Err::<
                Seq<TT>,
                Seq<char>,
            >(e.expression@),
        },
    decreases q, 1nat,
{
    let ghost s0 = scope@;
    let ghost sv = scope_view(scope@);
    let ghost qv = qtrees_view(q@);
    let mut out = TokenStream::new();
    let mut i: usize = 0;
    assert(qv.subrange(0, 0) =~= Seq::<QT>::empty());
    while i < q.len()
        invariant
            scope@ == s0,
            s0 == old(scope)@,
            i <= q@.len(),
            qv == qtrees_view(q@),
            scope_view(scope@) == sv,
            expand_seq(qv.subrange(0, i as int), sv, span) == Ok::<Seq<TT>, Seq<char>>(out@),
        decreases q@.len() - i,
    {
        proof {
            vstd::std_specs::vec::axiom_vec_index_decreases(*q, i as int);
            let p = qv.subrange(0, i + 1);
            assert(p.subrange(0, p.len() - 1) =~= qv.subrange(0, i as int));
            assert(p[p.len() - 1] == qv[i as int]);
        }
        match expand_one(&q[i], scope, span) {
            Ok(ts) => {
                out.extend(ts);
            },
            Err(x) => {
                proof {
                    lemma_seq_prefix_err(qv, i + 1, sv, span, x.expression@);
                }
                return Err(x);
            },
        }
        i = i + 1;
    }
    assert(qv.subrange(0, i as int) =~= qv);
    Ok(out)
}

/// The tokens that the template gives where the expressions in it have the
/// values that `env` holds, every token of its own re-created at `span`.
pub fn expand(template: &QTokens, env: &Env, span: Span) -> (r: Result<TokenStream, ExpandError>)
    ensures
        match r {
            Ok(ts) => expand_seq(template@, seq![env@], span) == Ok::<Seq<TT>, Seq<char>>(ts@),
            Err(e) => expand_seq(template@, seq![env@], span) == Err::<Seq<TT>, Seq<char>>(
                e.expression@,
            ),
        },
{
    let mut scope: Vec<&Env> = Vec::new();
    scope.push(env);
    assert(scope_view(scope@) =~= seq![env@]);
    expand_items(&template.tokens, &mut scope, span)
}

} // verus!
