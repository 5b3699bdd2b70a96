use sl_core::counting::Counting;

#[test]
fn fresh_counters_are_zero() {
    let c = Counting::default();
    assert_eq!(c.counts(), (0, 0));
    let c = Counting::new();
    assert_eq!(c.counts(), (0, 0));
}

#[test]
fn n_allocations_no_deallocations() {
    let mut c = Counting::new();
    let n = 25;
    for _ in 0..n {
        c.record_alloc();
    }
    assert_eq!(c.counts(), (n, n));
}

#[test]
fn n_allocations_then_n_deallocations() {
    let mut c = Counting::new();
    let n = 12;
    for _ in 0..n {
        c.record_alloc();
    }
    for _ in 0..n {
        c.record_dealloc();
    }
    assert_eq!(c.counts(), (n, 0));
}

#[test]
fn deallocations_in_another_order() {
    // The counters see only the operation kind, so any order of the matching
    // deallocations drains `active` to zero.
    let mut c = Counting::new();
    c.record_alloc();
    c.record_alloc();
    c.record_alloc();
    c.record_dealloc();
    c.record_alloc();
    c.record_dealloc();
    c.record_dealloc();
    c.record_dealloc();
    assert_eq!(c.counts(), (4, 0));
}

#[test]
fn interleaved_pairs_from_two_workers() {
    // Two workers, two allocate/deallocate pairs each; every counter update
    // is a single atomic step, so a concurrent run is some interleaving of
    // the eight operations. One such interleaving:
    let mut c = Counting::new();
    c.record_alloc(); // worker one
    c.record_alloc(); // worker two
    c.record_dealloc(); // worker two
    c.record_alloc(); // worker one
    c.record_dealloc(); // worker one
    c.record_alloc(); // worker two
    c.record_dealloc(); // worker two
    c.record_dealloc(); // worker one
    assert_eq!(c.counts(), (4, 0));
}

#[test]
fn realloc_counts_total_not_active() {
    let mut c = Counting::new();
    c.record_alloc();
    c.record_realloc();
    assert_eq!(c.counts(), (2, 1));
    c.record_dealloc();
    assert_eq!(c.counts(), (2, 0));
}

#[test]
fn active_never_exceeds_total() {
    let mut c = Counting::new();
    c.record_alloc();
    c.record_alloc();
    c.record_realloc();
    c.record_dealloc();
    let (total, active) = c.counts();
    assert!(active <= total);
}
