//! Lazy, pull-based sequences with their behaviour stated as contracts.
//!
//! - `sequence`: the `Sequence` protocol (one `advance` step at a time) and
//!   the consumers that drive a sequence to its end (`collect`, `fold`,
//!   `count`, `last`, `take_first`).
//! - `range`: ascending and descending integer ranges.
//! - `views`: owned, shared, mutable and draining views of a `Vec`.
//! - `adapters`: `map`, `filter`, `filter_map`, `flat_map` and `try_map`.
//! - `ledger`: acquisition-time exclusivity between shared and exclusive
//!   views.
//! - `basics`, `guessing`, `tour`: small computations built on the above.

pub mod sequence;
pub mod range;
pub mod views;
pub mod adapters;
pub mod ledger;
pub mod basics;
pub mod guessing;
pub mod tour;
