//! The sequence protocol: a single `advance` step that yields an item or
//! signals the end, and the consumers that drive a sequence to its end.

use vstd::prelude::*;

verus! {

/// A lazy producer of items, one per call of `advance`.
///
/// A sequence is modelled by the finite list of items it will still
/// produce (`rest`). Each step hands out the head of that list; once the
/// list is empty every further step reports the end again, so a sequence
/// never produces an item after its end.
pub trait Sequence: Sized {
    type Item;

    /// Whether the internal cursor state is consistent.
    spec fn wf(&self) -> bool;

    /// The items still to be produced, in production order.
    spec fn rest(&self) -> Seq<Self::Item>;

    /// Produces the next item, or `None` at the end of the data.
    fn advance(&mut self) -> (r: Option<Self::Item>)
        requires
            old(self).wf(),
        ensures
            final(self).wf(),
            old(self).rest().len() == 0 ==> r is None && final(self).rest().len() == 0,
            old(self).rest().len() > 0 ==> r == Some(old(self).rest()[0]) && final(self).rest()
                == old(self).rest().drop_first(),
    ;
}

/// Drives `s` to its end and gathers every item, in production order.
pub fn collect<S: Sequence>(s: S) -> (r: Vec<S::Item>)
    requires
        s.wf(),
    ensures
        r@ == s.rest(),
{
    let ghost all = s.rest();
    let mut s = s;
    let mut out: Vec<S::Item> = Vec::new();
    loop
        invariant
            s.wf(),
            out@ + s.rest() == all,
        ensures
            out@ == all,
        decreases s.rest().len(),
    {
        match s.advance() {
            Some(x) => {
                proof {
                    assert(out@.push(x) + s.rest() =~= all);
                }
                out.push(x);
            },
            None => {
                assert(out@ =~= all);
                break ;
            },
        }
    }
    out
}

/// The accumulator after combining `acc` with the item `x` through `f`.
pub open spec fn combined<A, T, F: Fn(A, T) -> A>(f: F, acc: A, x: T) -> A {
    choose|b: A| f.ensures((acc, x), b)
}

/// `f` has at most one possible result for each pair of arguments.
pub open spec fn deterministic2<A, T, F: Fn(A, T) -> A>(f: F) -> bool {
    forall|a: A, x: T, b1: A, b2: A|
        #![trigger f.ensures((a, x), b1), f.ensures((a, x), b2)]
        f.ensures((a, x), b1) && f.ensures((a, x), b2) ==> b1 == b2
}

/// `f` as a function on accumulator and item.
pub open spec fn combiner<A, T, F: Fn(A, T) -> A>(f: F) -> spec_fn(A, T) -> A {
    |acc: A, x: T| combined(f, acc, x)
}

/// The left fold of `items` through `g` from `init`: the first item is
/// combined first, `g(... g(g(init, x0), x1) ..., xn)`.
pub open spec fn folded<A, T>(items: Seq<T>, init: A, g: spec_fn(A, T) -> A) -> A
    decreases items.len(),
{
    if items.len() == 0 {
        init
    } else {
        g(folded(items.drop_last(), init, g), items.last())
    }
}

/// Folding is strictly left to right: folding `a + b` is folding `b`
/// starting from the result of folding `a`.
pub proof fn lemma_fold_concat<A, T>(a: Seq<T>, b: Seq<T>, init: A, g: spec_fn(A, T) -> A)
    ensures
        folded(a + b, init, g) == folded(b, folded(a, init, g), g),
    decreases b.len(),
{
    if b.len() == 0 {
        assert(a + b =~= a);
    } else {
        lemma_fold_concat(a, b.drop_last(), init, g);
        assert((a + b).drop_last() =~= a + b.drop_last());
        assert((a + b).last() == b.last());
    }
}

/// `accs` records a run of `f` over `items`: `accs[i + 1]` is a result of
/// calling `f` on `accs[i]` and `items[i]`.
pub open spec fn is_trace<A, T, F: Fn(A, T) -> A>(f: F, items: Seq<T>, accs: Seq<A>) -> bool {
    &&& accs.len() == items.len() + 1
    &&& forall|i: int| 0 <= i < items.len() ==> f.ensures((accs[i], #[trigger] items[i]), accs[i + 1])
}

/// `f` may be called at every step of every run over `items` from `init`.
pub open spec fn foldable<A, T, F: Fn(A, T) -> A>(items: Seq<T>, init: A, f: F) -> bool {
    forall|i: int, accs: Seq<A>|
        0 <= i < items.len() && accs[0] == init && #[trigger] is_trace(f, items.take(i), accs)
            ==> f.requires((accs[i], items[i]))
}

/// Drives `s` to its end, combining each item into the accumulator in
/// production order, and returns the final accumulator.
pub fn fold<S: Sequence, A, F: Fn(A, S::Item) -> A>(s: S, init: A, f: F) -> (r: A)
    requires
        s.wf(),
        deterministic2(f),
        foldable(s.rest(), init, f),
    ensures
        r == folded(s.rest(), init, combiner(f)),
        exists|accs: Seq<A>| is_trace(f, s.rest(), accs) && accs[0] == init && accs.last() == r,
{
    let ghost all = s.rest();
    let ghost mut done: Seq<S::Item> = Seq::empty();
    let ghost mut accs: Seq<A> = seq![init];
    let mut s = s;
    let mut acc = init;
    loop
        invariant
            s.wf(),
            done + s.rest() == all,
            acc == folded(done, init, combiner(f)),
            foldable(all, init, f),
            deterministic2(f),
            is_trace(f, done, accs),
            accs[0] == init,
            accs.last() == acc,
        ensures
            acc == folded(all, init, combiner(f)),
            is_trace(f, all, accs),
            accs[0] == init,
            accs.last() == acc,
        decreases s.rest().len(),
    {
        match s.advance() {
            Some(x) => {
                proof {
                    let i = done.len() as int;
                    assert(all[i] == x);
                    assert(all.take(i) =~= done);
                    assert(is_trace(f, all.take(i), accs));
                }
                acc = f(acc, x);
                proof {
                    assert(done.push(x).drop_last() =~= done);
                    let ghost old_accs = accs;
                    accs = accs.push(acc);
                    assert forall|i: int| 0 <= i < done.push(x).len() implies f.ensures(
                        (accs[i], #[trigger] done.push(x)[i]),
                        accs[i + 1],
                    ) by {
                        if i < done.len() {
                            assert(f.ensures((old_accs[i], done[i]), old_accs[i + 1]));
                        }
                    }
                    done = done.push(x);
                    assert(done + s.rest() =~= all);
                }
            },
            None => {
                assert(done =~= all);
                break ;
            },
        }
    }
    acc
}

/// Drives `s` to its end and returns how many items it produced.
pub fn count<S: Sequence>(s: S) -> (r: usize)
    requires
        s.wf(),
        s.rest().len() <= usize::MAX,
    ensures
        r == s.rest().len(),
{
    let ghost all = s.rest();
    let mut s = s;
    let mut n: usize = 0;
    loop
        invariant
            s.wf(),
            n + s.rest().len() == all.len(),
            all.len() <= usize::MAX,
        ensures
            n == all.len(),
        decreases s.rest().len(),
    {
        match s.advance() {
            Some(_) => {
                n = n + 1;
            },
            None => {
                break ;
            },
        }
    }
    n
}

/// Drives `s` to its end and returns the last item it produced, if any.
pub fn last<S: Sequence>(s: S) -> (r: Option<S::Item>)
    requires
        s.wf(),
    ensures
        s.rest().len() == 0 ==> r is None,
        s.rest().len() > 0 ==> r == Some(s.rest().last()),
{
    let ghost all = s.rest();
    let mut s = s;
    let mut latest: Option<S::Item> = None;
    loop
        invariant
            s.wf(),
            all.len() >= s.rest().len(),
            s.rest() == all.subrange(all.len() - s.rest().len(), all.len() as int),
            s.rest().len() == all.len() ==> latest is None,
            s.rest().len() < all.len() ==> latest == Some(all[all.len() - s.rest().len() - 1]),
        ensures
            all.len() == 0 ==> latest is None,
            all.len() > 0 ==> latest == Some(all.last()),
        decreases s.rest().len(),
    {
        match s.advance() {
            Some(x) => {
                latest = Some(x);
            },
            None => {
                break ;
            },
        }
    }
    latest
}

/// Pulls at most `n` items from `s` and returns them in order; `s` is left
/// positioned after them.
pub fn take_first<S: Sequence>(s: &mut S, n: usize) -> (r: Vec<S::Item>)
    requires
        old(s).wf(),
    ensures
        final(s).wf(),
        r@.len() == if n < old(s).rest().len() { n as int } else { old(s).rest().len() as int },
        r@ == old(s).rest().take(r@.len() as int),
        final(s).rest() == old(s).rest().skip(r@.len() as int),
{
    let ghost all = s.rest();
    let mut out: Vec<S::Item> = Vec::new();
    while out.len() < n
        invariant
            s.wf(),
            out@.len() <= n,
            out@ + s.rest() == all,
        ensures
            out@.len() == n || s.rest().len() == 0,
            s.wf(),
            out@ + s.rest() == all,
        decreases n - out@.len(),
    {
        match s.advance() {
            Some(x) => {
                proof {
                    assert(out@.push(x) + s.rest() =~= all);
                }
                out.push(x);
            },
            None => {
                break ;
            },
        }
    }
    assert(out@ =~= all.take(out@.len() as int));
    assert(s.rest() =~= all.skip(out@.len() as int));
    out
}

} // verus!
