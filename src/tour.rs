//! The values that the iteration walkthrough computes: a triangle number
//! by a counting loop and by a fold over a range, and a drain that moves
//! the middle of a word out into a new container.

use vstd::prelude::*;
use crate::basics::{triangle_v1, triangle_v2};
use crate::sequence::collect;
use crate::views::drain;

verus! {

/// What the walkthrough computes.
pub struct Tour {
    /// The tenth triangle number, by a counting loop.
    pub by_loop: i32,
    /// The tenth triangle number, by a fold over a range.
    pub by_fold: i32,
    /// The characters drained out of `"Earth"` at positions `1..4`.
    pub drained: Vec<char>,
    /// What `"Earth"` holds after the drain.
    pub left: Vec<char>,
}

/// Runs the walkthrough and returns what it computes.
pub fn run() -> (r: Tour)
    ensures
        r.by_loop == 55,
        r.by_fold == 55,
        r.drained@ == seq!['a', 'r', 't'],
        r.left@ == seq!['E', 'h'],
{
    let by_loop = triangle_v1(10);
    let by_fold = triangle_v2(10);
    let mut word: Vec<char> = vec!['E', 'a', 'r', 't', 'h'];
    let middle = drain(&mut word, 1, 4);
    let drained = collect(middle);
    assert(drained@ =~= seq!['a', 'r', 't']);
    assert(word@ =~= seq!['E', 'h']);
    Tour { by_loop, by_fold, drained, left: word }
}

} // verus!
