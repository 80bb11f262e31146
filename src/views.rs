//! Container views over a `Vec`: owned, shared, mutable and draining.

use vstd::prelude::*;
use crate::sequence::Sequence;

verus! {

/// The owned view of a vector: takes the vector and hands its elements
/// out by value, front to back, releasing them as it goes.
pub struct IntoSeq<T> {
    /// The elements still to come, last one first.
    stack: Vec<T>,
}

/// `s` read back to front.
pub open spec fn reversed<T>(s: Seq<T>) -> Seq<T> {
    Seq::new(s.len(), |i: int| s[s.len() - 1 - i])
}

/// Takes ownership of `v`; the result produces `v`'s elements in order.
pub fn into_seq<T>(v: Vec<T>) -> (r: IntoSeq<T>)
    ensures
        r.wf(),
        r.rest() == v@,
{
    let ghost orig = v@;
    let mut v = v;
    let mut stack: Vec<T> = Vec::new();
    while v.len() > 0
        invariant
            orig == v@ + reversed(stack@),
        decreases v.len(),
    {
        let x = v.pop().unwrap();
        proof {
            assert(v@.push(x) == orig.subrange(0, orig.len() - stack@.len()));
        }
        stack.push(x);
        proof {
            assert(orig =~= v@ + reversed(stack@));
        }
    }
    proof {
        assert(reversed(stack@) =~= orig);
    }
    IntoSeq { stack }
}

impl<T> Sequence for IntoSeq<T> {
    type Item = T;

    closed spec fn wf(&self) -> bool {
        true
    }

    closed spec fn rest(&self) -> Seq<T> {
        reversed(self.stack@)
    }

    fn advance(&mut self) -> (r: Option<T>) {
        let r = self.stack.pop();
        proof {
            if old(self).stack@.len() > 0 {
                assert(self.rest() =~= old(self).rest().drop_first());
            }
        }
        r
    }
}

/// The shared view of a vector: produces a shared reference to each
/// element in order, leaving the vector untouched.
pub struct SharedSeq<'a, T> {
    items: &'a Vec<T>,
    pos: usize,
}

/// Borrows `v` for reading; the result produces references to `v`'s
/// elements in order.
pub fn shared_seq<'a, T>(v: &'a Vec<T>) -> (r: SharedSeq<'a, T>)
    ensures
        r.wf(),
        r.rest() == v@.map(|i: int, x: T| &x),
{
    let r = SharedSeq { items: v, pos: 0 };
    assert(r.rest() =~= v@.map(|i: int, x: T| &x));
    r
}

impl<'a, T> Sequence for SharedSeq<'a, T> {
    type Item = &'a T;

    closed spec fn wf(&self) -> bool {
        self.pos <= self.items@.len()
    }

    closed spec fn rest(&self) -> Seq<&'a T> {
        self.items@.subrange(self.pos as int, self.items@.len() as int).map(|i: int, x: T| &x)
    }

    fn advance(&mut self) -> (r: Option<&'a T>) {
        if self.pos < self.items.len() {
            let x = &self.items[self.pos];
            self.pos = self.pos + 1;
            proof {
                assert(self.rest() =~= old(self).rest().drop_first());
            }
            Some(x)
        } else {
            None
        }
    }
}

/// Moves the elements at positions `start..end` out of `v` and returns a
/// sequence that produces them by value, in order. `v` keeps the elements
/// before and after the range, compacted, in their original order; the
/// moved elements that are never consumed are dropped with the sequence.
pub fn drain<T>(v: &mut Vec<T>, start: usize, end: usize) -> (r: IntoSeq<T>)
    requires
        start <= end <= old(v).len(),
    ensures
        r.wf(),
        r.rest() == old(v)@.subrange(start as int, end as int),
        final(v)@ == old(v)@.subrange(0, start as int) + old(v)@.subrange(
            end as int,
            old(v)@.len() as int,
        ),
{
    let mut tail = v.split_off(end);
    let middle = v.split_off(start);
    v.append(&mut tail);
    into_seq(middle)
}

/// The mutable view of a vector: holds it exclusively and produces a
/// mutable reference to each element in order. What is written through
/// those references is what the vector holds once the view is gone.
pub struct MutSeq<'a, T> {
    /// The elements not yet handed out.
    pub items: &'a mut [T],
}

/// Borrows `v` exclusively; the result's `items` are `v`'s elements, and
/// `v` ends up with whatever they hold when the view is done.
pub fn mut_seq<'a, T>(v: &'a mut Vec<T>) -> (r: MutSeq<'a, T>)
    ensures
        r.items@ == old(v)@,
        final(v)@ == final(r.items)@,
{
    MutSeq { items: v.as_mut_slice() }
}

impl<'a, T> MutSeq<'a, T> {
    /// Produces a mutable reference to the next element, or `None` at the
    /// end. The element's final value is the one written through the
    /// reference.
    pub fn advance(&mut self) -> (r: Option<&'a mut T>)
        ensures
            old(self).items@.len() == 0 ==> r is None && final(self).items@.len() == 0
                && final(old(self).items)@ == final(final(self).items)@,
            old(self).items@.len() > 0 ==> r is Some && *r.unwrap() == old(self).items@[0]
                && final(self).items@ == old(self).items@.drop_first()
                && final(old(self).items)@ == seq![*final(r.unwrap())] + final(final(self).items)@,
    {
        let mut items: &'a mut [T] = &mut [];
        std::mem::swap(&mut self.items, &mut items);
        if items.len() == 0 {
            return None;
        }
        let (first, rest) = items.split_at_mut(1);
        self.items = rest;
        Some(&mut first[0])
    }
}

/// `k` added to every element of `s`.
pub open spec fn shifted(s: Seq<i64>, k: int) -> Seq<i64> {
    s.map(|i: int, x: i64| (x + k) as i64)
}

/// Adds `k` to every element of `v` in place, through the mutable view.
pub fn add_to_each(v: &mut Vec<i64>, k: i64)
    requires
        forall|i: int| 0 <= i < old(v)@.len() ==> i64::MIN <= #[trigger] old(v)@[i] + k <= i64::MAX,
    ensures
        final(v)@ == shifted(old(v)@, k as int),
{
    let ghost orig = v@;
    let ghost fv = final(v)@;
    let mut s = mut_seq(v);
    let ghost mut i: int = 0;
    loop
        invariant
            0 <= i <= orig.len(),
            s.items@ == orig.subrange(i, orig.len() as int),
            forall|j: int| 0 <= j < orig.len() ==> i64::MIN <= #[trigger] orig[j] + k <= i64::MAX,
            fv == shifted(orig.subrange(0, i), k as int) + final(s.items)@,
        ensures
            i == orig.len(),
            s.items@.len() == 0,
            fv == shifted(orig, k as int) + final(s.items)@,
        decreases orig.len() - i,
    {
        match s.advance() {
            Some(x) => {
                *x = *x + k;
                proof {
                    i = i + 1;
                    assert(shifted(orig.subrange(0, i), k as int) =~= shifted(
                        orig.subrange(0, i - 1),
                        k as int,
                    ).push(*x));
                }
            },
            None => {
                assert(i == orig.len());
                break ;
            },
        }
    }
}

} // verus!
