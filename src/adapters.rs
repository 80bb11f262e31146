//! Adapters: sequences that wrap one upstream sequence and transform its
//! items lazily. Building an adapter pulls nothing from upstream; work is
//! done one item at a time, when the adapter itself is advanced.
//!
//! A user-supplied function is modelled by its postcondition. The adapters
//! ask that it be deterministic (one possible result per argument), so that
//! the items an adapter will produce are determined by its upstream.

use vstd::prelude::*;
use crate::sequence::Sequence;

verus! {

/// `f` has at most one possible result for each argument.
pub open spec fn deterministic<A, B, F: Fn(A) -> B>(f: F) -> bool {
    forall|a: A, b1: B, b2: B|
        #![trigger f.ensures((a,), b1), f.ensures((a,), b2)]
        f.ensures((a,), b1) && f.ensures((a,), b2) ==> b1 == b2
}

/// The result of calling `f` on `a`.
pub open spec fn image<A, B, F: Fn(A) -> B>(f: F, a: A) -> B {
    choose|b: B| f.ensures((a,), b)
}

/// `f` applied to every item of `s`.
pub open spec fn mapped<A, B, F: Fn(A) -> B>(s: Seq<A>, f: F) -> Seq<B> {
    s.map(|i: int, x: A| image(f, x))
}

/// `f` may be called on every item of `s`.
pub open spec fn callable_on<A, B, F: Fn(A) -> B>(f: F, s: Seq<A>) -> bool {
    forall|i: int| 0 <= i < s.len() ==> f.requires((#[trigger] s[i],))
}

/// Applies a function to each upstream item: one item out per item in.
pub struct MapSeq<S, F> {
    up: S,
    f: F,
}

impl<S, F> MapSeq<S, F> {
    /// The wrapped upstream sequence.
    pub closed spec fn upstream(&self) -> S {
        self.up
    }

    /// The transformation.
    pub closed spec fn func(&self) -> F {
        self.f
    }
}

/// Wraps `s` so that each item `x` becomes `f(x)`. Nothing is pulled from
/// `s` and `f` is not called until the result is advanced.
pub fn map<S: Sequence, B, F: Fn(S::Item) -> B>(s: S, f: F) -> (r: MapSeq<S, F>)
    requires
        s.wf(),
        deterministic(f),
        callable_on(f, s.rest()),
    ensures
        r.wf(),
        r.upstream() == s,
        r.func() == f,
        r.rest() == mapped(s.rest(), f),
{
    MapSeq { up: s, f }
}

impl<S: Sequence, B, F: Fn(S::Item) -> B> Sequence for MapSeq<S, F> {
    type Item = B;

    closed spec fn wf(&self) -> bool {
        &&& self.up.wf()
        &&& deterministic(self.f)
        &&& callable_on(self.f, self.up.rest())
    }

    closed spec fn rest(&self) -> Seq<B> {
        mapped(self.up.rest(), self.f)
    }

    fn advance(&mut self) -> (r: Option<B>) {
        match self.up.advance() {
            Some(x) => {
                assert(self.up.rest() =~= old(self).up.rest().drop_first());
                assert(callable_on(self.f, self.up.rest()));
                let y = (self.f)(x);
                assert(self.rest() =~= old(self).rest().drop_first());
                Some(y)
            },
            None => None,
        }
    }
}


/// `p` may be called on a reference to every item of `s`.
pub open spec fn testable_on<T, P: Fn(&T) -> bool>(p: P, s: Seq<T>) -> bool {
    forall|i: int| 0 <= i < s.len() ==> p.requires((&s[i],))
}

/// `p` as a function on items.
pub open spec fn verdict<T, P: Fn(&T) -> bool>(p: P) -> spec_fn(T) -> bool {
    |x: T| image(p, &x)
}

/// The items of `s` that `keep` accepts, in their order.
pub open spec fn kept<T>(s: Seq<T>, keep: spec_fn(T) -> bool) -> Seq<T>
    decreases s.len(),
{
    if s.len() == 0 {
        Seq::empty()
    } else if keep(s[0]) {
        seq![s[0]] + kept(s.drop_first(), keep)
    } else {
        kept(s.drop_first(), keep)
    }
}

/// Keeps the upstream items that a predicate accepts; the predicate sees
/// each item by reference, exactly once.
pub struct FilterSeq<S, P> {
    up: S,
    p: P,
}

impl<S, P> FilterSeq<S, P> {
    /// The wrapped upstream sequence.
    pub closed spec fn upstream(&self) -> S {
        self.up
    }

    /// The predicate.
    pub closed spec fn pred(&self) -> P {
        self.p
    }
}

/// Wraps `s` so that only the items that `p` accepts come through. Nothing
/// is pulled from `s` and `p` is not called until the result is advanced.
pub fn filter<S: Sequence, P: Fn(&S::Item) -> bool>(s: S, p: P) -> (r: FilterSeq<S, P>)
    requires
        s.wf(),
        deterministic(p),
        testable_on(p, s.rest()),
    ensures
        r.wf(),
        r.upstream() == s,
        r.pred() == p,
        r.rest() == kept(s.rest(), verdict(p)),
{
    FilterSeq { up: s, p }
}

impl<S: Sequence, P: Fn(&S::Item) -> bool> Sequence for FilterSeq<S, P> {
    type Item = S::Item;

    closed spec fn wf(&self) -> bool {
        &&& self.up.wf()
        &&& deterministic(self.p)
        &&& testable_on(self.p, self.up.rest())
    }

    closed spec fn rest(&self) -> Seq<S::Item> {
        kept(self.up.rest(), verdict(self.p))
    }

    fn advance(&mut self) -> (r: Option<S::Item>) {
        loop
            invariant
                self.wf(),
                self.p == old(self).p,
                self.rest() == old(self).rest(),
            decreases self.up.rest().len(),
        {
            let ghost before = self.up.rest();
            match self.up.advance() {
                Some(x) => {
                    assert(self.up.rest() =~= before.drop_first());
                    assert(testable_on(self.p, self.up.rest()));
                    let keep = (self.p)(&x);
                    if keep {
                        return Some(x);
                    }
                },
                None => {
                    return None;
                },
            }
        }
    }
}

/// `f` as a function on items.
pub open spec fn picker<A, B, F: Fn(A) -> Option<B>>(f: F) -> spec_fn(A) -> Option<B> {
    |x: A| image(f, x)
}

/// `pick` applied to every item of `s`, keeping the `Some` results
/// unwrapped, in their order.
pub open spec fn picked<A, B>(s: Seq<A>, pick: spec_fn(A) -> Option<B>) -> Seq<B>
    decreases s.len(),
{
    if s.len() == 0 {
        Seq::empty()
    } else {
        match pick(s[0]) {
            Some(y) => seq![y] + picked(s.drop_first(), pick),
            None => picked(s.drop_first(), pick),
        }
    }
}

/// What a filter keeps is drawn from its input in order and is accepted:
/// every kept item is accepted, and every accepted item is kept.
pub proof fn lemma_kept_exact<T>(s: Seq<T>, keep: spec_fn(T) -> bool)
    ensures
        kept(s, keep).len() <= s.len(),
        forall|i: int| 0 <= i < kept(s, keep).len() ==> keep(#[trigger] kept(s, keep)[i]),
        forall|i: int| 0 <= i < s.len() && keep(s[i]) ==> kept(s, keep).contains(#[trigger] s[i]),
    decreases s.len(),
{
    if s.len() > 0 {
        let rest = s.drop_first();
        lemma_kept_exact(rest, keep);
        assert forall|i: int| 0 <= i < s.len() && keep(s[i]) implies kept(s, keep).contains(
            #[trigger] s[i],
        ) by {
            if i == 0 {
                assert(kept(s, keep)[0] == s[0]);
            } else {
                assert(s[i] == rest[i - 1]);
                let j = choose|j: int| 0 <= j < kept(rest, keep).len() && kept(rest, keep)[j] == rest[i - 1];
                if keep(s[0]) {
                    assert(kept(s, keep)[j + 1] == kept(rest, keep)[j]);
                } else {
                    assert(kept(s, keep)[j] == kept(rest, keep)[j]);
                }
            }
        }
        assert forall|i: int| 0 <= i < kept(s, keep).len() implies keep(#[trigger] kept(s, keep)[i]) by {
            if keep(s[0]) && i > 0 {
                assert(kept(s, keep)[i] == kept(rest, keep)[i - 1]);
            }
        }
    }
}

/// Transforms and filters in one step: each upstream item becomes the
/// value inside `Some`, or is skipped on `None`.
pub struct FilterMapSeq<S, F> {
    up: S,
    f: F,
}

impl<S, F> FilterMapSeq<S, F> {
    /// The wrapped upstream sequence.
    pub closed spec fn upstream(&self) -> S {
        self.up
    }

    /// The transformation.
    pub closed spec fn func(&self) -> F {
        self.f
    }
}

/// Wraps `s` so that each item `x` becomes `y` where `f(x)` is `Some(y)`,
/// and is skipped where it is `None`. Nothing is pulled from `s` and `f`
/// is not called until the result is advanced.
pub fn filter_map<S: Sequence, B, F: Fn(S::Item) -> Option<B>>(s: S, f: F) -> (r: FilterMapSeq<
    S,
    F,
>)
    requires
        s.wf(),
        deterministic(f),
        callable_on(f, s.rest()),
    ensures
        r.wf(),
        r.upstream() == s,
        r.func() == f,
        r.rest() == picked(s.rest(), picker(f)),
{
    FilterMapSeq { up: s, f }
}

impl<S: Sequence, B, F: Fn(S::Item) -> Option<B>> Sequence for FilterMapSeq<S, F> {
    type Item = B;

    closed spec fn wf(&self) -> bool {
        &&& self.up.wf()
        &&& deterministic(self.f)
        &&& callable_on(self.f, self.up.rest())
    }

    closed spec fn rest(&self) -> Seq<B> {
        picked(self.up.rest(), picker(self.f))
    }

    fn advance(&mut self) -> (r: Option<B>) {
        loop
            invariant
                self.wf(),
                self.f == old(self).f,
                self.rest() == old(self).rest(),
            decreases self.up.rest().len(),
        {
            let ghost before = self.up.rest();
            match self.up.advance() {
                Some(x) => {
                    assert(self.up.rest() =~= before.drop_first());
                    assert(callable_on(self.f, self.up.rest()));
                    match (self.f)(x) {
                        Some(y) => {
                            return Some(y);
                        },
                        None => {},
                    }
                },
                None => {
                    return None;
                },
            }
        }
    }
}


/// The sequences of `ss` joined end to end.
pub open spec fn concat<T>(ss: Seq<Seq<T>>) -> Seq<T>
    decreases ss.len(),
{
    if ss.len() == 0 {
        Seq::empty()
    } else {
        ss[0] + concat(ss.drop_first())
    }
}

/// Every sequence that `f` may return is well formed.
pub open spec fn yields_wf<A, U: Sequence, F: Fn(A) -> U>(f: F) -> bool {
    forall|a: A, u: U| #[trigger] f.ensures((a,), u) ==> u.wf()
}

/// The items of the sequences that `f` returns for the items of `s`, in
/// order.
pub open spec fn expanded<A, U: Sequence, F: Fn(A) -> U>(s: Seq<A>, f: F) -> Seq<U::Item> {
    concat(s.map(|i: int, x: A| image(f, x).rest()))
}

/// One step of `expanded`: the first item's sequence, then the others'. In
/// particular an item whose sequence is empty contributes nothing and does
/// not end the flattening.
pub proof fn lemma_expanded_step<A, U: Sequence, F: Fn(A) -> U>(s: Seq<A>, f: F)
    requires
        s.len() > 0,
    ensures
        expanded(s, f) == image(f, s[0]).rest() + expanded(s.drop_first(), f),
{
    let m = s.map(|i: int, x: A| image(f, x).rest());
    assert(m.drop_first() =~= s.drop_first().map(|i: int, x: A| image(f, x).rest()));
}

/// Flattens: each upstream item yields a secondary sequence, which is run
/// to its end before the next upstream item is pulled. Empty secondary
/// sequences contribute nothing and do not end the traversal.
pub struct FlatMapSeq<S, F, U> {
    up: S,
    f: F,
    /// The secondary sequence being drained, if any.
    inner: Option<U>,
}

impl<S, F, U> FlatMapSeq<S, F, U> {
    /// The wrapped upstream sequence.
    pub closed spec fn upstream(&self) -> S {
        self.up
    }

    /// The function that yields the secondary sequences.
    pub closed spec fn func(&self) -> F {
        self.f
    }

    /// Whether a secondary sequence is being drained.
    pub closed spec fn is_active(&self) -> bool {
        self.inner is Some
    }
}

/// Wraps `s` so that each item `x` is replaced by the items of `f(x)`.
/// Nothing is pulled from `s` and `f` is not called until the result is
/// advanced.
pub fn flat_map<S: Sequence, U: Sequence, F: Fn(S::Item) -> U>(s: S, f: F) -> (r: FlatMapSeq<
    S,
    F,
    U,
>)
    requires
        s.wf(),
        deterministic(f),
        callable_on(f, s.rest()),
        yields_wf(f),
    ensures
        r.wf(),
        r.upstream() == s,
        r.func() == f,
        !r.is_active(),
        r.rest() == expanded(s.rest(), f),
{
    let r = FlatMapSeq { up: s, f, inner: None };
    assert(r.rest() =~= expanded(s.rest(), f));
    r
}

impl<S, F, U: Sequence> FlatMapSeq<S, F, U> {
    /// The items the active secondary sequence will still produce.
    pub closed spec fn pending(&self) -> Seq<U::Item> {
        match self.inner {
            Some(u) => u.rest(),
            None => Seq::empty(),
        }
    }
}

impl<S: Sequence, U: Sequence, F: Fn(S::Item) -> U> Sequence for FlatMapSeq<S, F, U> {
    type Item = U::Item;

    closed spec fn wf(&self) -> bool {
        &&& self.up.wf()
        &&& deterministic(self.f)
        &&& callable_on(self.f, self.up.rest())
        &&& yields_wf(self.f)
        &&& self.inner matches Some(u) ==> u.wf()
    }

    closed spec fn rest(&self) -> Seq<U::Item> {
        self.pending() + expanded(self.up.rest(), self.f)
    }

    fn advance(&mut self) -> (r: Option<U::Item>) {
        loop
            invariant
                self.wf(),
                self.f == old(self).f,
                self.rest() == old(self).rest(),
            decreases self.up.rest().len(),
        {
            let current = self.inner.take();
            match current {
                Some(mut u) => {
                    match u.advance() {
                        Some(y) => {
                            self.inner = Some(u);
                            assert(self.rest() =~= old(self).rest().drop_first());
                            return Some(y);
                        },
                        None => {
                            assert(self.rest() =~= old(self).rest());
                        },
                    }
                },
                None => {
                    assert(self.rest() =~= old(self).rest());
                },
            }
            let ghost before = self.up.rest();
            match self.up.advance() {
                Some(x) => {
                    assert(self.up.rest() =~= before.drop_first());
                    assert(callable_on(self.f, self.up.rest()));
                    proof {
                        lemma_expanded_step(before, self.f);
                    }
                    let u = (self.f)(x);
                    self.inner = Some(u);
                    assert(self.rest() =~= old(self).rest());
                },
                None => {
                    return None;
                },
            }
        }
    }
}


/// Where a fallible traversal stands.
#[derive(PartialEq, Eq, Structural, Debug, Clone, Copy)]
pub enum SeqState {
    /// Items may still come.
    Active,
    /// The upstream reported its end.
    Exhausted,
    /// The function failed; the traversal is over.
    Poisoned,
}

/// `attempt` applied to the items of `s` in order, up to and including the
/// first failure.
pub open spec fn attempted<A, B, E>(s: Seq<A>, attempt: spec_fn(A) -> Result<B, E>) -> Seq<
    Result<B, E>,
>
    decreases s.len(),
{
    if s.len() == 0 {
        Seq::empty()
    } else {
        match attempt(s[0]) {
            Ok(y) => seq![Ok(y)] + attempted(s.drop_first(), attempt),
            Err(e) => seq![Err(e)],
        }
    }
}

/// `f` as a function on items.
pub open spec fn attempter<A, B, E, F: Fn(A) -> Result<B, E>>(f: F) -> spec_fn(A) -> Result<B, E> {
    |x: A| image(f, x)
}

/// Applies a fallible function to each upstream item. Each success is
/// passed on; the first failure is passed on too and poisons the
/// traversal: from then on the sequence only reports its end.
pub struct TryMapSeq<S, F> {
    up: S,
    f: F,
    state: SeqState,
}

impl<S, F> TryMapSeq<S, F> {
    /// The wrapped upstream sequence.
    pub closed spec fn upstream(&self) -> S {
        self.up
    }

    /// The transformation.
    pub closed spec fn func(&self) -> F {
        self.f
    }

    /// The traversal's state.
    pub closed spec fn status(&self) -> SeqState {
        self.state
    }

    /// The traversal's state.
    pub fn state(&self) -> (r: SeqState)
        ensures
            r == self.status(),
    {
        self.state
    }
}

/// Wraps `s` so that each item `x` becomes `f(x)`, stopping after the first
/// `Err`. Nothing is pulled from `s` and `f` is not called until the result
/// is advanced.
pub fn try_map<S: Sequence, B, E, F: Fn(S::Item) -> Result<B, E>>(s: S, f: F) -> (r: TryMapSeq<
    S,
    F,
>)
    requires
        s.wf(),
        deterministic(f),
        callable_on(f, s.rest()),
    ensures
        r.wf(),
        r.upstream() == s,
        r.func() == f,
        r.status() == SeqState::Active,
        r.rest() == attempted(s.rest(), attempter(f)),
{
    TryMapSeq { up: s, f, state: SeqState::Active }
}

impl<S: Sequence, B, E, F: Fn(S::Item) -> Result<B, E>> Sequence for TryMapSeq<S, F> {
    type Item = Result<B, E>;

    closed spec fn wf(&self) -> bool {
        &&& self.up.wf()
        &&& deterministic(self.f)
        &&& callable_on(self.f, self.up.rest())
    }

    closed spec fn rest(&self) -> Seq<Result<B, E>> {
        if self.state == SeqState::Active {
            attempted(self.up.rest(), attempter(self.f))
        } else {
            Seq::empty()
        }
    }

    fn advance(&mut self) -> (r: Option<Result<B, E>>) {
        if self.state != SeqState::Active {
            return None;
        }
        match self.up.advance() {
            Some(x) => {
                assert(self.up.rest() =~= old(self).up.rest().drop_first());
                assert(callable_on(self.f, self.up.rest()));
                let y = (self.f)(x);
                match y {
                    Ok(_) => {},
                    Err(_) => {
                        self.state = SeqState::Poisoned;
                    },
                }
                assert(self.rest() =~= old(self).rest().drop_first());
                Some(y)
            },
            None => {
                self.state = SeqState::Exhausted;
                None
            },
        }
    }
}

} // verus!
