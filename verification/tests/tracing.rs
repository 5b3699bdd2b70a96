use sl_core::tracing::Tracing;

#[test]
fn records_operations_in_order() {
    let mut t = Tracing::default();
    t.on_alloc(0x10, 10);
    t.on_alloc(0x20, 20);
    t.on_dealloc(0x10, 10);
    let report = t.dump_info(true).expect("first call cannot be reentrant");
    let expected_tail = "\n\n=============== POSSIBLE LEAKS ===============\n[ID: 1] => 20 bytes @ address 0x20\n";
    assert!(report.ends_with(expected_tail));
}

#[test]
fn empty_decorator_reports_nothing() {
    let mut t = Tracing::default();
    let report = t.dump_info(false).expect("first call cannot be reentrant");
    assert_eq!(report, "");
}

#[test]
fn dump_leaves_the_log_in_place() {
    let mut t = Tracing::default();
    t.on_alloc(0x30, 5);
    let first = t.dump_info(true).unwrap();
    let second = t.dump_info(true).unwrap();
    let tail = "\n\n=============== POSSIBLE LEAKS ===============\n[ID: 0] => 5 bytes @ address 0x30\n";
    assert!(first.ends_with(tail));
    assert!(second.ends_with(tail));
}
