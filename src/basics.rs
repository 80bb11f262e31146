//! Small computations on plain values: numbers, strings, slices, structs
//! and options.

use vstd::prelude::*;
use vstd::string::{StrSliceExecFns, StringExecFns};
use vstd::std_specs::cmp::PartialOrdSpec;
use crate::sequence::{fold, is_trace, Sequence};
use crate::range::RangeSeq;

verus! {

/// `i + 1`.
pub fn func_returning_value(i: i32) -> (r: i32)
    requires
        i < i32::MAX,
    ensures
        r == i + 1,
{
    i + 1
}

/// A fresh string holding `"yours"`.
pub fn gives_ownership() -> (r: String)
    ensures
        r@ == "yours"@,
{
    "yours".to_owned()
}

/// Hands its argument back.
pub fn takes_and_gives_back(s: String) -> (r: String)
    ensures
        r == s,
{
    s
}

/// The length of `s` in bytes (UTF-8).
pub fn calculate_length(s: &String) -> (r: usize)
    ensures
        r == vstd::utf8::encode_utf8(s@).len() as usize,
{
    s.as_str().len()
}

/// Appends `", World"` to `s`.
pub fn change_string(s: &mut String)
    ensures
        final(s)@ == old(s)@ + ", World"@,
{
    s.append(", World");
}

/// The position of the first `c` in `s`, or the length of `s` if it has
/// none.
pub open spec fn position_of(s: Seq<char>, c: char) -> int
    decreases s.len(),
{
    if s.len() == 0 {
        0
    } else if s[0] == c {
        0
    } else {
        1 + position_of(s.drop_first(), c)
    }
}

proof fn lemma_position_of(s: Seq<char>, c: char, i: int)
    requires
        0 <= i <= s.len(),
        forall|j: int| 0 <= j < i ==> s[j] != c,
        i == s.len() || s[i] == c,
    ensures
        position_of(s, c) == i,
    decreases s.len(),
{
    if s.len() > 0 && s[0] != c {
        lemma_position_of(s.drop_first(), c, i - 1);
    }
}

/// Scans `t` for the first `c`; returns its position, or the length of `t`.
fn find_char(t: &str, c: char) -> (r: usize)
    ensures
        r == position_of(t@, c),
{
    let n = t.unicode_len();
    let mut i: usize = 0;
    while i < n
        invariant
            n == t@.len(),
            i <= n,
            forall|j: int| 0 <= j < i ==> t@[j] != c,
        decreases n - i,
    {
        if t.get_char(i) == c {
            proof {
                lemma_position_of(t@, c, i as int);
            }
            return i;
        }
        i = i + 1;
    }
    proof {
        lemma_position_of(t@, c, i as int);
    }
    n
}

/// The text of `s` up to its first space (all of `s` if it has none).
pub fn first_word(s: &String) -> (r: &str)
    ensures
        r@ == s@.take(position_of(s@, ' ')),
{
    let t = s.as_str();
    let i = find_char(t, ' ');
    proof {
        lemma_position_in_range(t@, ' ');
    }
    t.substring_char(0, i)
}

proof fn lemma_position_in_range(s: Seq<char>, c: char)
    ensures
        0 <= position_of(s, c) <= s.len(),
    decreases s.len(),
{
    if s.len() > 0 && s[0] != c {
        lemma_position_in_range(s.drop_first(), c);
    }
}

/// The first line of `s`: the text before the first `'\n'`, without the
/// `'\r'` of a `"\r\n"` ending; all of `s` if it holds no `'\n'`.
pub open spec fn first_line(s: Seq<char>) -> Seq<char> {
    let i = position_of(s, '\n');
    if i < s.len() && i > 0 && s[i - 1] == '\r' {
        s.take(i - 1)
    } else {
        s.take(i)
    }
}

/// The last character of the first line of `text`; `None` when `text` is
/// empty or its first line is.
pub fn last_char_of_first_line(text: &str) -> (r: Option<char>)
    ensures
        r == if first_line(text@).len() == 0 {
            None
        } else {
            Some(first_line(text@).last())
        },
{
    let n = text.unicode_len();
    let i = find_char(text, '\n');
    proof {
        lemma_position_in_range(text@, '\n');
    }
    let mut end = i;
    if i < n && i > 0 && text.get_char(i - 1) == '\r' {
        end = i - 1;
    }
    if end == 0 {
        None
    } else {
        Some(text.get_char(end - 1))
    }
}

/// A rectangle by its side lengths.
#[derive(Debug, Clone, Copy)]
pub struct Rectangle {
    pub width: u32,
    pub height: u32,
}

/// The area of `rectangle`.
pub fn area(rectangle: &Rectangle) -> (r: u32)
    requires
        rectangle.width * rectangle.height <= u32::MAX,
    ensures
        r == rectangle.width * rectangle.height,
{
    rectangle.width * rectangle.height
}

impl Rectangle {
    /// The area of the rectangle.
    pub fn area(&self) -> (r: u32)
        requires
            self.width * self.height <= u32::MAX,
        ensures
            r == self.width * self.height,
    {
        self.width * self.height
    }

    /// Whether `other` fits strictly inside this rectangle, side by side.
    pub fn can_hold(&self, other: &Rectangle) -> (r: bool)
        ensures
            r == (self.width > other.width && self.height > other.height),
    {
        self.width > other.width && self.height > other.height
    }

    /// A square with sides `size`.
    pub fn square(size: u32) -> (r: Rectangle)
        ensures
            r.width == size,
            r.height == size,
    {
        Self { width: size, height: size }
    }
}

/// One more than the value inside, if there is one.
pub fn add_one(n: Option<i32>) -> (r: Option<i32>)
    requires
        n matches Some(i) ==> i < i32::MAX,
    ensures
        r == match n {
            None => None,
            Some(i) => Some((i + 1) as i32),
        },
{
    match n {
        None => None,
        Some(i) => Some(i + 1),
    }
}

/// The largest element of `list`.
pub fn largest_i32(list: &[i32]) -> (r: &i32)
    requires
        list@.len() > 0,
    ensures
        exists|i: int| 0 <= i < list@.len() && list@[i] == *r,
        forall|i: int| 0 <= i < list@.len() ==> list@[i] <= *r,
{
    let mut largest = &list[0];
    let mut k: usize = 0;
    while k < list.len()
        invariant
            k <= list@.len(),
            list@.len() > 0,
            exists|i: int| 0 <= i < list@.len() && list@[i] == *largest,
            forall|i: int| 0 <= i < k ==> list@[i] <= *largest,
        decreases list@.len() - k,
    {
        let item = &list[k];
        if *item > *largest {
            largest = item;
        }
        k = k + 1;
    }
    largest
}

/// The largest element of `list`.
pub fn largest_char(list: &[char]) -> (r: &char)
    requires
        list@.len() > 0,
    ensures
        exists|i: int| 0 <= i < list@.len() && list@[i] == *r,
        forall|i: int| 0 <= i < list@.len() ==> list@[i] <= *r,
{
    let mut largest = &list[0];
    let mut k: usize = 0;
    while k < list.len()
        invariant
            k <= list@.len(),
            list@.len() > 0,
            exists|i: int| 0 <= i < list@.len() && list@[i] == *largest,
            forall|i: int| 0 <= i < k ==> list@[i] <= *largest,
        decreases list@.len() - k,
    {
        let item = &list[k];
        if *item > *largest {
            largest = item;
        }
        k = k + 1;
    }
    largest
}

/// The position a left-to-right scan settles on when it moves to each
/// element that compares greater than the one it holds.
pub open spec fn champion<T: PartialOrd>(s: Seq<T>) -> int
    decreases s.len(),
{
    if s.len() <= 1 {
        0
    } else {
        let c = champion(s.drop_last());
        if s.last().partial_cmp_spec(&s[c]) == Some(core::cmp::Ordering::Greater) {
            s.len() - 1
        } else {
            c
        }
    }
}

proof fn lemma_champion_in_range<T: PartialOrd>(s: Seq<T>)
    requires
        s.len() > 0,
    ensures
        0 <= champion(s) < s.len(),
    decreases s.len(),
{
    if s.len() > 1 {
        lemma_champion_in_range(s.drop_last());
    }
}

/// The largest element of `list`, for any partially ordered type: the
/// scan keeps the element it holds unless a later one compares greater.
pub fn largest<T: PartialOrd>(list: &[T]) -> (r: &T)
    requires
        list@.len() > 0,
    ensures
        exists|i: int| 0 <= i < list@.len() && list@[i] == *r,
        T::obeys_partial_cmp_spec() ==> *r == list@[champion(list@)],
{
    let mut largest = &list[0];
    let ghost mut at: int = 0;
    let mut k: usize = 0;
    while k < list.len()
        invariant
            k <= list@.len(),
            list@.len() > 0,
            0 <= at < list@.len(),
            list@[at] == *largest,
            T::obeys_partial_cmp_spec() && k > 0 ==> at == champion(list@.take(k as int)),
            T::obeys_partial_cmp_spec() && k == 0 ==> at == 0,
        decreases list@.len() - k,
    {
        let item = &list[k];
        proof {
            if k > 0 {
                assert(list@.take(k + 1).drop_last() =~= list@.take(k as int));
                lemma_champion_in_range(list@.take(k as int));
            }
        }
        if item > largest {
            largest = item;
            proof {
                at = k as int;
            }
        }
        k = k + 1;
    }
    assert(list@.take(list@.len() as int) =~= list@);
    largest
}

/// A point with two coordinates of one type.
pub struct Point<T> {
    pub x: T,
    pub y: T,
}

impl<T> Point<T> {
    /// The first coordinate.
    pub fn x(&self) -> (r: &T)
        ensures
            *r == self.x,
    {
        &self.x
    }
}

/// `1 + 2 + ... + n`, and 0 when `n` is not positive.
pub open spec fn triangle(n: int) -> int {
    if n <= 0 {
        0
    } else {
        n * (n + 1) / 2
    }
}

/// The sum `1 + 2 + ... + n`, by a counting loop.
pub fn triangle_v1(n: i32) -> (r: i32)
    requires
        n <= 65535,
    ensures
        r == triangle(n as int),
{
    let mut sum: i32 = 0;
    let mut i: i32 = 1;
    if n <= 0 {
        return 0;
    }
    while i <= n
        invariant
            1 <= i <= n + 1,
            n <= 65535,
            sum == (i - 1) * i / 2,
        decreases n + 1 - i,
    {
        proof {
            assert((i - 1) * i / 2 + i == i * (i + 1) / 2) by (nonlinear_arith);
            assert(i * (i + 1) / 2 <= 65535 * 65536 / 2) by (nonlinear_arith)
                requires
                    1 <= i <= 65535,
            ;
        }
        sum = sum + i;
        i = i + 1;
    }
    sum
}

proof fn lemma_sum_trace<F: Fn(i64, i64) -> i64>(f: F, items: Seq<i64>, accs: Seq<i64>, k: int)
    requires
        is_trace(f, items, accs),
        accs[0] == 0,
        forall|j: int| 0 <= j < items.len() ==> #[trigger] items[j] == j + 1,
        forall|a: i64, x: i64, b: i64| #[trigger] f.ensures((a, x), b) ==> b == a + x,
        0 <= k < accs.len(),
    ensures
        accs[k] == k * (k + 1) / 2,
    decreases k,
{
    if k > 0 {
        lemma_sum_trace(f, items, accs, k - 1);
        assert(f.ensures((accs[k - 1], items[k - 1]), accs[k]));
        assert(items[k - 1] == k);
        assert(accs[k] == accs[k - 1] + items[k - 1]);
        assert((k - 1) * k / 2 + k == k * (k + 1) / 2) by (nonlinear_arith);
    } else {
        assert(k * (k + 1) / 2 == 0) by (nonlinear_arith)
            requires
                k == 0,
        ;
    }
}

/// The sum `1 + 2 + ... + n`, as a fold over the range `1..n + 1`.
pub fn triangle_v2(n: i32) -> (r: i32)
    requires
        n <= 65535,
    ensures
        r == triangle(n as int),
{
    let items = RangeSeq::new(1, n as i64 + 1);
    let add = |sum: i64, item: i64| -> (r: i64)
        requires
            0 <= sum <= 4_000_000_000,
            0 <= item <= 70_000,
        ensures
            r == sum + item,
        { sum + item };
    let ghost all = items.rest();
    proof {
        assert forall|i: int, accs: Seq<i64>|
            0 <= i < all.len() && accs[0] == 0 && #[trigger] is_trace(add, all.take(i), accs)
                implies add.requires((accs[i], all[i])) by {
            lemma_sum_trace(add, all.take(i), accs, i);
            assert(i * (i + 1) / 2 <= 65535 * 65536 / 2) by (nonlinear_arith)
                requires
                    0 <= i <= 65535,
            ;
            assert(0 <= i * (i + 1) / 2) by (nonlinear_arith)
                requires
                    0 <= i,
            ;
        }
    }
    let total = fold(items, 0i64, add);
    proof {
        let accs = choose|accs: Seq<i64>| is_trace(add, all, accs) && accs[0] == 0 && accs.last() == total;
        lemma_sum_trace(add, all, accs, all.len() as int);
        if n > 0 {
            assert(all.len() == n);
            assert(n * (n + 1) / 2 <= 65535 * 65536 / 2) by (nonlinear_arith)
                requires
                    0 <= n <= 65535,
            ;
        } else {
            assert(all.len() == 0);
        }
    }
    total as i32
}

} // verus!
