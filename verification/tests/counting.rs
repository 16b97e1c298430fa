use vrypt::counter::{stats_delta, RpsCounter};

#[test]
fn per_slot_counts_and_total() {
    let mut c = RpsCounter::new(4);
    assert_eq!(c.num_slots(), 4);
    assert_eq!(c.total(), 0);
    c.increment(0);
    c.increment(0);
    c.increment(2);
    assert_eq!(c.total(), 3);
    c.increment(3);
    assert_eq!(c.total(), 4);
}

#[test]
fn total_is_non_decreasing_under_increments() {
    let mut c = RpsCounter::new(2);
    let mut prev = c.total();
    for i in 0..100usize {
        c.increment(i % 2);
        let t = c.total();
        assert!(t >= prev, "total must never go down");
        prev = t;
    }
    assert_eq!(prev, 100);
}

#[test]
fn delta_without_wrap() {
    assert_eq!(stats_delta(100, 40), 60);
    assert_eq!(stats_delta(40, 40), 0);
}

#[test]
fn delta_is_exact_across_wrap() {
    // The machine counter wrapped between the two observations: the exact
    // totals were 2^64 - 3 and 2^64 + 5, so the machine values are
    // u64::MAX - 2 and 5, and the true growth is 8.
    assert_eq!(stats_delta(5, u64::MAX - 2), 8);
    assert_eq!(stats_delta(0, u64::MAX), 1);
}
