//! Numeric range producers, ascending and descending, with step 1.

use vstd::prelude::*;
use crate::sequence::Sequence;

verus! {

/// The integers `lo, lo + 1, ..., hi - 1`; empty when `hi <= lo`.
pub open spec fn ascending(lo: int, hi: int) -> Seq<i64> {
    Seq::new(if lo < hi { (hi - lo) as nat } else { 0 }, |i: int| (lo + i) as i64)
}

/// The integers `hi - 1, hi - 2, ..., lo`; empty when `hi <= lo`.
pub open spec fn descending(lo: int, hi: int) -> Seq<i64> {
    Seq::new(if lo < hi { (hi - lo) as nat } else { 0 }, |i: int| (hi - 1 - i) as i64)
}

/// How a range ends.
pub enum RangeEnd {
    /// Stops before the bound.
    Exclusive(i64),
    /// Stops at the bound.
    Inclusive(i64),
    /// No bound: runs up to the largest `i64`.
    Open,
}

/// A range producer's configuration: a start and how it ends.
pub struct RangeConfig {
    pub start: i64,
    pub end: RangeEnd,
}

/// Why a range configuration was refused.
#[derive(PartialEq, Eq, Structural, Debug, Clone, Copy)]
pub enum RangeError {
    /// Reverse traversal needs a finite upper bound.
    OpenEnded,
}

impl RangeConfig {
    /// The first integer past the range (exclusive upper bound).
    pub open spec fn upper(&self) -> int {
        match self.end {
            RangeEnd::Exclusive(e) => e as int,
            RangeEnd::Inclusive(e) => e + 1,
            RangeEnd::Open => i64::MAX + 1,
        }
    }

    /// The integers the range covers, in ascending order.
    pub open spec fn items(&self) -> Seq<i64> {
        ascending(self.start as int, self.upper())
    }

    /// An ascending producer over the configured range.
    pub fn forward(&self) -> (r: RangeSeq)
        ensures
            r.wf(),
            r.rest() == self.items(),
    {
        match self.end {
            RangeEnd::Exclusive(e) => RangeSeq::new(self.start, e),
            RangeEnd::Inclusive(e) => RangeSeq::inclusive(self.start, e),
            RangeEnd::Open => RangeSeq::inclusive(self.start, i64::MAX),
        }
    }

    /// A descending producer over the configured range; refused when the
    /// range has no upper bound.
    pub fn reverse(&self) -> (r: Result<RevRangeSeq, RangeError>)
        ensures
            self.end is Open <==> r is Err,
            r is Err ==> r == Err::<RevRangeSeq, RangeError>(RangeError::OpenEnded),
            r matches Ok(s) ==> s.wf() && s.rest() == descending(self.start as int, self.upper()),
    {
        match self.end {
            RangeEnd::Exclusive(e) => Ok(RevRangeSeq::new(self.start, e)),
            RangeEnd::Inclusive(e) => Ok(RevRangeSeq::inclusive(self.start, e)),
            RangeEnd::Open => Err(RangeError::OpenEnded),
        }
    }
}

/// Ascending integers from `lo` to `hi` inclusive, unless `done`.
pub struct RangeSeq {
    lo: i64,
    hi: i64,
    done: bool,
}

impl RangeSeq {
    /// The range `start..end` (end excluded).
    pub fn new(start: i64, end: i64) -> (r: RangeSeq)
        ensures
            r.wf(),
            r.rest() == ascending(start as int, end as int),
    {
        if start < end {
            RangeSeq { lo: start, hi: end - 1, done: false }
        } else {
            RangeSeq { lo: 0, hi: 0, done: true }
        }
    }

    /// The range `start..=end` (end included).
    pub fn inclusive(start: i64, end: i64) -> (r: RangeSeq)
        ensures
            r.wf(),
            r.rest() == ascending(start as int, end + 1),
    {
        if start <= end {
            RangeSeq { lo: start, hi: end, done: false }
        } else {
            RangeSeq { lo: 0, hi: 0, done: true }
        }
    }
}

impl Sequence for RangeSeq {
    type Item = i64;

    closed spec fn wf(&self) -> bool {
        self.done || self.lo <= self.hi
    }

    closed spec fn rest(&self) -> Seq<i64> {
        if self.done {
            Seq::empty()
        } else {
            ascending(self.lo as int, self.hi + 1)
        }
    }

    fn advance(&mut self) -> (r: Option<i64>) {
        if self.done {
            return None;
        }
        let x = self.lo;
        if self.lo == self.hi {
            self.done = true;
        } else {
            self.lo = self.lo + 1;
        }
        proof {
            assert(self.rest() =~= old(self).rest().drop_first());
        }
        Some(x)
    }
}

/// Descending integers from `hi` down to `lo` inclusive, unless `done`.
pub struct RevRangeSeq {
    lo: i64,
    hi: i64,
    done: bool,
}

impl RevRangeSeq {
    /// The range `start..end` traversed from `end - 1` down to `start`.
    pub fn new(start: i64, end: i64) -> (r: RevRangeSeq)
        ensures
            r.wf(),
            r.rest() == descending(start as int, end as int),
    {
        if start < end {
            RevRangeSeq { lo: start, hi: end - 1, done: false }
        } else {
            RevRangeSeq { lo: 0, hi: 0, done: true }
        }
    }

    /// The range `start..=end` traversed from `end` down to `start`.
    pub fn inclusive(start: i64, end: i64) -> (r: RevRangeSeq)
        ensures
            r.wf(),
            r.rest() == descending(start as int, end + 1),
    {
        if start <= end {
            RevRangeSeq { lo: start, hi: end, done: false }
        } else {
            RevRangeSeq { lo: 0, hi: 0, done: true }
        }
    }
}

impl Sequence for RevRangeSeq {
    type Item = i64;

    closed spec fn wf(&self) -> bool {
        self.done || self.lo <= self.hi
    }

    closed spec fn rest(&self) -> Seq<i64> {
        if self.done {
            Seq::empty()
        } else {
            descending(self.lo as int, self.hi + 1)
        }
    }

    fn advance(&mut self) -> (r: Option<i64>) {
        if self.done {
            return None;
        }
        let x = self.hi;
        if self.lo == self.hi {
            self.done = true;
        } else {
            self.hi = self.hi - 1;
        }
        proof {
            assert(self.rest() =~= old(self).rest().drop_first());
        }
        Some(x)
    }
}

} // verus!
