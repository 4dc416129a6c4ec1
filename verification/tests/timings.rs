use starship::timings::{is_enabled, Ledger, Tally, FIRST_TIMED_ID};

fn tally(count: usize, total_nanos: u128) -> Tally {
    Tally { count, total_nanos }
}

fn rows(ledger: &Ledger) -> Vec<(usize, usize, u128)> {
    let mut rows: Vec<(usize, usize, u128)> = ledger
        .entries()
        .iter()
        .map(|row| (row.id, row.tally.count, row.tally.total_nanos))
        .collect();
    rows.sort();
    rows
}

#[test]
fn operations_from_fifteen_on_are_measured() {
    assert_eq!(FIRST_TIMED_ID, 15);
    assert!(!is_enabled(0));
    assert!(!is_enabled(14));
    assert!(is_enabled(15));
    assert!(is_enabled(16));
    assert!(is_enabled(usize::MAX));
}

#[test]
fn a_new_ledger_has_no_rows() {
    assert!(Ledger::new().entries().is_empty());
}

#[test]
fn measurements_of_one_operation_add_up() {
    let mut ledger = Ledger::new();
    ledger.record(20, 5);
    ledger.record(20, 7);
    ledger.record(21, 1);
    ledger.record(20, 0);
    assert_eq!(rows(&ledger), vec![(20, 3, 12), (21, 1, 1)]);
}

#[test]
fn the_mean_is_rounded_down_and_zero_for_nothing() {
    assert_eq!(tally(3, 10).average_nanos(), 3);
    assert_eq!(tally(1, 10).average_nanos(), 10);
    assert_eq!(tally(4, 3).average_nanos(), 0);
    assert_eq!(tally(0, 0).average_nanos(), 0);
    assert_eq!(tally(0, 99).average_nanos(), 0);
}

#[test]
fn tallies_add_up_and_stop_at_the_largest_number() {
    assert_eq!(Tally::single(9), tally(1, 9));
    assert_eq!(tally(2, 10).plus(tally(3, 5)), tally(5, 15));
    assert_eq!(tally(usize::MAX, 1).plus(tally(1, 1)), tally(usize::MAX, 2));
    assert_eq!(tally(1, u128::MAX).plus(tally(1, 1)), tally(2, u128::MAX));
    assert_eq!(tally(0, 0).plus(tally(7, 8)), tally(7, 8));
    assert_eq!(tally(2, 10).plus(tally(3, 5)), tally(3, 5).plus(tally(2, 10)));
}

#[test]
fn merging_takes_each_operation_of_both_ledgers() {
    let mut one = Ledger::new();
    one.record(20, 100);
    one.record(30, 1);
    let mut other = Ledger::new();
    other.record(21, 4);
    other.record(20, 5);
    other.record(20, 7);
    one.merge(&other);
    assert_eq!(rows(&one), vec![(20, 3, 112), (21, 1, 4), (30, 1, 1)]);
    assert_eq!(rows(&other), vec![(20, 2, 12), (21, 1, 4)]);
}

#[test]
fn merging_an_empty_ledger_changes_nothing() {
    let mut one = Ledger::new();
    one.record(20, 100);
    one.merge(&Ledger::new());
    assert_eq!(rows(&one), vec![(20, 1, 100)]);
    let mut empty = Ledger::new();
    empty.merge(&one);
    assert_eq!(rows(&empty), vec![(20, 1, 100)]);
}

#[test]
fn adding_a_tally_makes_a_row_even_for_nothing() {
    let mut ledger = Ledger::new();
    ledger.add(40, tally(0, 0));
    ledger.add(40, tally(2, 6));
    assert_eq!(rows(&ledger), vec![(40, 2, 6)]);
}

#[test]
fn the_tally_of_an_operation_can_be_asked_for() {
    let mut ledger = Ledger::new();
    assert_eq!(ledger.tally_of(20), tally(0, 0));
    ledger.record(20, 5);
    ledger.record(20, 7);
    assert_eq!(ledger.tally_of(20), tally(2, 12));
    assert_eq!(ledger.tally_of(21), tally(0, 0));
    assert_eq!(ledger.tally_of(20).average_nanos(), 6);
}

#[test]
fn many_operations_keep_their_own_tallies() {
    let mut ledger = Ledger::new();
    for id in 15..215usize {
        ledger.record(id, id as u128);
        ledger.record(id, 1);
    }
    let rows = rows(&ledger);
    assert_eq!(rows.len(), 200);
    for (at, row) in rows.iter().enumerate() {
        assert_eq!(*row, (at + 15, 2, at as u128 + 16));
    }
}

#[test]
fn merging_in_either_order_gives_the_same_tallies() {
    let mut one = Ledger::new();
    one.record(20, 100);
    one.record(30, 1);
    let mut other = Ledger::new();
    other.record(21, 4);
    other.record(20, 5);
    let mut left = Ledger::new();
    left.merge(&one);
    left.merge(&other);
    let mut right = Ledger::new();
    right.merge(&other);
    right.merge(&one);
    assert_eq!(rows(&left), rows(&right));
}
