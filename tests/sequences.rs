use std::cell::Cell;

use seqkit::adapters;
use seqkit::ledger::{AccessLedger, ViewError};
use seqkit::range::{RangeConfig, RangeEnd, RangeError, RangeSeq, RevRangeSeq};
use seqkit::sequence::{collect, count, fold, last, take_first, Sequence};
use seqkit::views::{add_to_each, drain, into_seq, mut_seq, shared_seq};

#[test]
fn range_is_end_exclusive() {
    assert_eq!(collect(RangeSeq::new(1, 5)), vec![1, 2, 3, 4]);
    assert_eq!(collect(RangeSeq::new(5, 5)), Vec::<i64>::new());
    assert_eq!(collect(RangeSeq::new(7, 2)), Vec::<i64>::new());
}

#[test]
fn inclusive_range_reaches_its_bound() {
    assert_eq!(collect(RangeSeq::inclusive(1, 4)), vec![1, 2, 3, 4]);
    assert_eq!(collect(RangeSeq::inclusive(-2, -2)), vec![-2]);
    assert_eq!(collect(RangeSeq::inclusive(i64::MAX - 1, i64::MAX)), vec![i64::MAX - 1, i64::MAX]);
}

#[test]
fn reverse_ranges_count_down() {
    assert_eq!(collect(RevRangeSeq::new(1, 4)), vec![3, 2, 1]);
    assert_eq!(collect(RevRangeSeq::inclusive(1, 4)), vec![4, 3, 2, 1]);
    assert_eq!(collect(RevRangeSeq::new(3, 3)), Vec::<i64>::new());
}

#[test]
fn configured_ranges() {
    let cfg = RangeConfig { start: 1, end: RangeEnd::Exclusive(4) };
    assert_eq!(collect(cfg.forward()), vec![1, 2, 3]);
    assert_eq!(collect(cfg.reverse().unwrap()), vec![3, 2, 1]);
    let cfg = RangeConfig { start: 1, end: RangeEnd::Inclusive(4) };
    assert_eq!(collect(cfg.reverse().unwrap()), vec![4, 3, 2, 1]);
    let open = RangeConfig { start: i64::MAX - 2, end: RangeEnd::Open };
    assert_eq!(collect(open.forward()), vec![i64::MAX - 2, i64::MAX - 1, i64::MAX]);
}

#[test]
fn reversing_an_open_range_is_refused() {
    let open = RangeConfig { start: 0, end: RangeEnd::Open };
    assert!(matches!(open.reverse(), Err(RangeError::OpenEnded)));
}

#[test]
fn building_a_chain_calls_nothing() {
    let maps = Cell::new(0u32);
    let tests = Cell::new(0u32);
    let mapped = adapters::map(RangeSeq::new(1, 5), |x: i64| {
        maps.set(maps.get() + 1);
        x * 10
    });
    let chain = adapters::filter(mapped, |x: &i64| {
        tests.set(tests.get() + 1);
        *x > 15
    });
    assert_eq!(maps.get(), 0);
    assert_eq!(tests.get(), 0);
    assert_eq!(collect(chain), vec![20, 30, 40]);
    assert_eq!(maps.get(), 4);
    assert_eq!(tests.get(), 4);
}

#[test]
fn exhausted_sequences_stay_exhausted() {
    let mut r = RangeSeq::new(0, 2);
    assert_eq!(r.advance(), Some(0));
    assert_eq!(r.advance(), Some(1));
    assert_eq!(r.advance(), None);
    for _ in 0..3 {
        assert_eq!(r.advance(), None);
    }
    let mut f = adapters::filter(into_seq(vec![1, 3, 4]), |x: &i32| *x % 2 == 0);
    assert_eq!(f.advance(), Some(4));
    for _ in 0..4 {
        assert_eq!(f.advance(), None);
    }
    let mut fm = adapters::flat_map(into_seq(vec![vec![1], vec![]]), |v: Vec<i32>| into_seq(v));
    assert_eq!(fm.advance(), Some(1));
    for _ in 0..4 {
        assert_eq!(fm.advance(), None);
    }
}

#[test]
fn map_keeps_order() {
    let out = collect(adapters::map(RangeSeq::new(1, 5), |x: i64| x * 10));
    assert_eq!(out, vec![10, 20, 30, 40]);
}

#[test]
fn filter_keeps_accepted_items_and_tests_each_once() {
    let calls = Cell::new(0u32);
    let evens = adapters::filter(into_seq(vec![1, 2, 3, 4, 5, 6]), |x: &i32| {
        calls.set(calls.get() + 1);
        *x % 2 == 0
    });
    assert_eq!(collect(evens), vec![2, 4, 6]);
    assert_eq!(calls.get(), 6);
}

#[test]
fn filter_map_transforms_and_skips() {
    let words = vec!["1", "x", "22", "", "7"];
    let numbers = adapters::filter_map(into_seq(words), |w: &str| w.parse::<i32>().ok());
    assert_eq!(collect(numbers), vec![1, 22, 7]);
}

#[test]
fn flat_map_flattens_and_skips_empty_parts() {
    let parts = vec![vec![1, 2], vec![], vec![3]];
    let flat = adapters::flat_map(into_seq(parts), |v: Vec<i32>| into_seq(v));
    assert_eq!(collect(flat), vec![1, 2, 3]);
    let leading_empty = vec![vec![], vec![], vec![5], vec![]];
    let flat = adapters::flat_map(into_seq(leading_empty), |v: Vec<i32>| into_seq(v));
    assert_eq!(collect(flat), vec![5]);
}

#[test]
fn flat_map_over_ranges() {
    let flat = adapters::flat_map(RangeSeq::new(1, 4), |n: i64| RangeSeq::new(0, n));
    assert_eq!(collect(flat), vec![0, 0, 1, 0, 1, 2]);
}

#[test]
fn drain_moves_the_range_out() {
    let mut outer: Vec<char> = "Earth".chars().collect();
    let inner: String = collect(drain(&mut outer, 1, 4)).into_iter().collect();
    let outer: String = outer.into_iter().collect();
    assert_eq!(inner, "art");
    assert_eq!(outer, "Eh");
}

#[test]
fn abandoned_drain_still_removes_its_range() {
    let mut v = vec![1, 2, 3, 4, 5];
    {
        let mut d = drain(&mut v, 1, 4);
        assert_eq!(d.advance(), Some(2));
    }
    assert_eq!(v, vec![1, 5]);
    let mut all = vec![7, 8];
    assert_eq!(collect(drain(&mut all, 0, 2)), vec![7, 8]);
    assert!(all.is_empty());
}

#[test]
fn shared_view_leaves_the_container() {
    let v = vec![4, 20, 12, 8, 6];
    let mut it = shared_seq(&v);
    assert_eq!(it.advance(), Some(&4));
    assert_eq!(it.advance(), Some(&20));
    assert_eq!(it.advance(), Some(&12));
    assert_eq!(it.advance(), Some(&8));
    assert_eq!(it.advance(), Some(&6));
    assert_eq!(it.advance(), None);
    let second = shared_seq(&v);
    assert_eq!(count(second), 5);
    assert_eq!(v, vec![4, 20, 12, 8, 6]);
}

#[test]
fn owned_view_hands_out_values() {
    let v = vec![String::from("a"), String::from("b")];
    let mut it = into_seq(v);
    assert_eq!(it.advance(), Some(String::from("a")));
    assert_eq!(it.advance(), Some(String::from("b")));
    assert_eq!(it.advance(), None);
}

#[test]
fn mutable_view_writes_through() {
    let mut v = vec![3, 5, 7, 11];
    {
        let mut view = mut_seq(&mut v);
        while let Some(e) = view.advance() {
            *e += 10;
        }
    }
    assert_eq!(v, vec![13, 15, 17, 21]);
    let mut w: Vec<i64> = vec![3, 5, 7, 11];
    add_to_each(&mut w, 10);
    assert_eq!(w, vec![13, 15, 17, 21]);
    let mut empty: Vec<i64> = Vec::new();
    add_to_each(&mut empty, 1);
    assert!(empty.is_empty());
}

#[test]
fn fold_sums_a_range() {
    assert_eq!(fold(RangeSeq::new(1, 5), 0, |acc: i64, x: i64| acc + x), 10);
    assert_eq!(fold(RangeSeq::new(1, 1), 7, |acc: i64, x: i64| acc + x), 7);
}

#[test]
fn fold_combines_left_to_right() {
    let s = fold(RangeSeq::new(1, 5), String::new(), |acc: String, x: i64| format!("{}{}", acc, x));
    assert_eq!(s, "1234");
    let s = fold(RevRangeSeq::new(1, 4), String::from(">"), |acc: String, x: i64| format!("({}{})", acc, x));
    assert_eq!(s, "(((>3)2)1)");
}

#[test]
fn count_last_and_take_first() {
    assert_eq!(count(RangeSeq::new(0, 100)), 100);
    assert_eq!(last(RangeSeq::new(0, 100)), Some(99));
    assert_eq!(last(RangeSeq::new(0, 0)), None);
    let mut r = RangeSeq::new(0, 10);
    assert_eq!(take_first(&mut r, 3), vec![0, 1, 2]);
    assert_eq!(collect(r), vec![3, 4, 5, 6, 7, 8, 9]);
    let mut short = RangeSeq::new(0, 2);
    assert_eq!(take_first(&mut short, 5), vec![0, 1]);
    assert_eq!(short.advance(), None);
}

#[test]
fn mutable_view_refused_while_shared_alive() {
    let mut ledger = AccessLedger::new();
    assert_eq!(ledger.acquire_shared(), Ok(()));
    assert_eq!(ledger.acquire_exclusive(), Err(ViewError::SharedHeld));
    assert_eq!(ledger.acquire_shared(), Ok(()));
    assert!(ledger.has_shared());
    assert!(!ledger.has_exclusive());
}

#[test]
fn exclusive_view_blocks_everything_until_released() {
    let mut ledger = AccessLedger::new();
    assert_eq!(ledger.acquire_exclusive(), Ok(()));
    assert_eq!(ledger.acquire_exclusive(), Err(ViewError::ExclusiveHeld));
    assert_eq!(ledger.acquire_shared(), Err(ViewError::ExclusiveHeld));
    ledger.release_exclusive();
    assert_eq!(ledger.acquire_shared(), Ok(()));
    ledger.release_shared();
    assert_eq!(ledger.acquire_exclusive(), Ok(()));
}

#[test]
fn try_map_stops_after_the_first_failure() {
    let parsed = adapters::try_map(into_seq(vec!["1", "2", "x", "4"]), |w: &str| w.parse::<i32>());
    let mut parsed = parsed;
    assert_eq!(parsed.state(), adapters::SeqState::Active);
    assert_eq!(parsed.advance(), Some(Ok(1)));
    assert_eq!(parsed.advance(), Some(Ok(2)));
    assert!(matches!(parsed.advance(), Some(Err(_))));
    assert_eq!(parsed.state(), adapters::SeqState::Poisoned);
    for _ in 0..3 {
        assert_eq!(parsed.advance(), None);
    }
}

#[test]
fn try_map_without_failure_reaches_the_end() {
    let mut doubled = adapters::try_map(RangeSeq::new(1, 3), |x: i64| -> Result<i64, ()> { Ok(x * 2) });
    assert_eq!(doubled.advance(), Some(Ok(2)));
    assert_eq!(doubled.advance(), Some(Ok(4)));
    assert_eq!(doubled.advance(), None);
    assert_eq!(doubled.state(), adapters::SeqState::Exhausted);
    assert_eq!(doubled.advance(), None);
}
