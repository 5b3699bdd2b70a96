use sl_core::guard::ReentryGuard;

#[test]
fn fresh_guard_is_clear() {
    let mut g = ReentryGuard::new();
    assert!(g.try_enter());
    g.leave();
}

#[test]
fn nested_entry_is_skipped_and_body_runs_once() {
    // Simulate the guarded path re-entering itself: the outer attempt runs
    // the body, the nested attempt made from within it is refused, and after
    // the outer release the flag is clear again.
    let mut g = ReentryGuard::new();
    let mut body_runs = 0;
    if g.try_enter() {
        body_runs += 1;
        // The body triggers a nested invocation of the guarded path.
        if g.try_enter() {
            body_runs += 1;
            g.leave();
        }
        g.leave();
    }
    assert_eq!(body_runs, 1);
    // The flag is clear: a fresh invocation runs again.
    assert!(g.try_enter());
    g.leave();
}

#[test]
fn release_happens_on_the_error_path_too() {
    // A body that fails still releases: the release is the same `leave`
    // call on every exit path.
    let mut g = ReentryGuard::new();
    let entered = g.try_enter();
    assert!(entered);
    let body_failed = true;
    if body_failed {
        g.leave();
    } else {
        g.leave();
    }
    assert!(g.try_enter());
    g.leave();
}
