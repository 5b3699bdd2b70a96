use sl_core::frames::default_ignored_symbols;
use sl_core::tracker::{
    render_dump, replay, DefaultTracker, LeakEntry, ResolvedEvent, Tracker,
};

fn alloc_ev(addr: usize, size: usize) -> ResolvedEvent {
    ResolvedEvent::Alloc { addr, size, frames: Vec::new() }
}

fn dealloc_ev(addr: usize) -> ResolvedEvent {
    ResolvedEvent::Dealloc { addr }
}

#[test]
fn leak_replay() {
    // Alloc(A, 10), Alloc(B, 20), Dealloc(A): exactly one leak, B with size
    // 20, and no unknown frees.
    let log = vec![alloc_ev(0x10, 10), alloc_ev(0x20, 20), dealloc_ev(0x10)];
    let (leaks, unknowns) = replay(&log);
    assert_eq!(leaks, vec![LeakEntry { addr: 0x20, index: 1, size: 20 }]);
    assert_eq!(unknowns, vec![]);
}

#[test]
fn unknown_free_replay() {
    // Dealloc(C) with no prior allocation: one unknown free, no leaks.
    let log = vec![dealloc_ev(0x30)];
    let (leaks, unknowns) = replay(&log);
    assert_eq!(leaks, vec![]);
    assert_eq!(unknowns, vec![0x30]);
}

#[test]
fn address_reuse_replay() {
    // Alloc(A, 10), Dealloc(A), Alloc(A, 30): the leak is the second
    // allocation of A, size 30, not 10.
    let log = vec![alloc_ev(0x10, 10), dealloc_ev(0x10), alloc_ev(0x10, 30)];
    let (leaks, unknowns) = replay(&log);
    assert_eq!(leaks, vec![LeakEntry { addr: 0x10, index: 2, size: 30 }]);
    assert_eq!(unknowns, vec![]);
}

#[test]
fn reallocation_of_live_address_keeps_latest() {
    // A second allocation of a still-live address replaces the first: one
    // later dealloc cancels it and nothing leaks.
    let log = vec![alloc_ev(0x10, 10), alloc_ev(0x10, 50), dealloc_ev(0x10)];
    let (leaks, unknowns) = replay(&log);
    assert_eq!(leaks, vec![]);
    assert_eq!(unknowns, vec![]);
}

#[test]
fn double_free_is_one_unknown_free() {
    let log = vec![alloc_ev(0x10, 8), dealloc_ev(0x10), dealloc_ev(0x10), dealloc_ev(0x10)];
    let (leaks, unknowns) = replay(&log);
    assert_eq!(leaks, vec![]);
    assert_eq!(unknowns, vec![0x10]);
}

#[test]
fn empty_log_replays_and_renders_empty() {
    let log: Vec<ResolvedEvent> = Vec::new();
    let (leaks, unknowns) = replay(&log);
    assert_eq!(leaks, vec![]);
    assert_eq!(unknowns, vec![]);
    let ignored = default_ignored_symbols();
    assert_eq!(render_dump(&log, true, &ignored), "");
}

#[test]
fn rendered_report_of_leak_scenario() {
    let log = vec![alloc_ev(0x10, 10), alloc_ev(0x20, 20), dealloc_ev(0x10)];
    let ignored = default_ignored_symbols();
    let out = render_dump(&log, true, &ignored);
    let expected = "[ID: 0] ---------- Allocated 10 bytes @ Address 0x10 ----------\n\n\n[ID: 1] ---------- Allocated 20 bytes @ Address 0x20 ----------\n\n\n\n\n=============== POSSIBLE LEAKS ===============\n[ID: 1] => 20 bytes @ address 0x20\n";
    assert_eq!(out, expected);
}

#[test]
fn rendered_report_of_unknown_free_scenario() {
    let log = vec![dealloc_ev(0x30)];
    let ignored = default_ignored_symbols();
    let out = render_dump(&log, true, &ignored);
    let expected = "\n\n=============== UNKNOWN FREES ===============\n  @ Address 0x30\n";
    assert_eq!(out, expected);
}

#[test]
fn rendered_report_lists_frames_under_their_allocation() {
    let log = vec![ResolvedEvent::Alloc {
        addr: 0x40,
        size: 4,
        frames: vec![sl_core::frames::Frame {
            symbol: Some("app::work".to_owned()),
            filename: Some("/home/dev/app.rs".to_owned()),
            line: Some(5),
        }],
    }];
    let ignored = default_ignored_symbols();
    let out = render_dump(&log, true, &ignored);
    let expected = "[ID: 0] ---------- Allocated 4 bytes @ Address 0x40 ----------\n   > app::work @ line 5\n\n\n\n\n=============== POSSIBLE LEAKS ===============\n[ID: 0] => 4 bytes @ address 0x40\n";
    assert_eq!(out, expected);
}

#[test]
fn default_tracker_records_and_reports() {
    let mut t = DefaultTracker::new();
    t.track_alloc(0x10, 10);
    t.track_alloc(0x20, 20);
    t.track_dealloc(0x10, 10);
    t.track_dealloc(0x50, 1);
    let report = t.dump_info(true);
    // The stack listings depend on where the test ran, but the replay
    // sections close the report and are exact.
    let expected_tail = "\n\n=============== POSSIBLE LEAKS ===============\n[ID: 1] => 20 bytes @ address 0x20\n\n\n=============== UNKNOWN FREES ===============\n  @ Address 0x50\n";
    assert!(report.ends_with(expected_tail));
    assert!(report.starts_with("[ID: 0] ---------- Allocated 10 bytes @ Address 0x10 ----------\n"));
    assert!(report.contains("[ID: 1] ---------- Allocated 20 bytes @ Address 0x20 ----------\n"));
    // The log is left in place: a second dump reports the same replay.
    let again = t.dump_info(true);
    assert!(again.ends_with(expected_tail));
}
