use sl_core::frames::{default_ignored_symbols, frame_is_hidden, render_frames, Frame};

fn frame(symbol: &str, filename: &str, line: u32) -> Frame {
    Frame {
        symbol: Some(symbol.to_owned()),
        filename: Some(filename.to_owned()),
        line: Some(line),
    }
}

#[test]
fn listing_of_plain_frames() {
    let frames = vec![
        frame("app::work", "/home/dev/app/src/main.rs", 42),
        frame("app::start", "/home/dev/app/src/main.rs", 7),
    ];
    let ignored = default_ignored_symbols();
    let out = render_frames(&frames, true, &ignored);
    assert_eq!(
        out,
        "   > app::work @ line 42\n   > app::start @ line 7\n"
    );
}

#[test]
fn ignored_symbol_never_appears_when_filtering() {
    // A constructed stack holding a frame whose symbol matches a configured
    // ignore entry: with filtering on, that frame appears nowhere in the
    // listing.
    let frames = vec![
        frame("app::work", "/home/dev/app/src/main.rs", 42),
        frame("backtrace::capture::Backtrace::new", "/cargo/backtrace/lib.rs", 10),
        frame("start_main", "/libc/start.c", 99),
    ];
    let ignored = default_ignored_symbols();
    let filtered = render_frames(&frames, true, &ignored);
    assert_eq!(filtered, "   > app::work @ line 42\n");
    assert!(!filtered.contains("backtrace::"));
    assert!(!filtered.contains("start_main"));
    // With filtering off, every frame is listed.
    let unfiltered = render_frames(&frames, false, &ignored);
    assert_eq!(
        unfiltered,
        "   > app::work @ line 42\n   > backtrace::capture::Backtrace::new @ line 10\n   > start_main @ line 99\n"
    );
}

#[test]
fn runtime_sourced_frames_are_filtered() {
    let frames = vec![
        frame("core::ptr::drop_in_place", "/rustc/abcdef/library/core/src/ptr/mod.rs", 498),
        frame("app::work", "/home/dev/app/src/main.rs", 3),
    ];
    let ignored = default_ignored_symbols();
    let out = render_frames(&frames, true, &ignored);
    assert_eq!(out, "   > app::work @ line 3\n");
}

#[test]
fn unresolved_fields_render_as_placeholders() {
    let frames = vec![Frame { symbol: None, filename: None, line: None }];
    let ignored = default_ignored_symbols();
    let out = render_frames(&frames, true, &ignored);
    assert_eq!(out, format!("   > <unknown> @ line {}\n", u32::MAX));
}

#[test]
fn hidden_test_matches_prefix_and_suffix() {
    let ignored = default_ignored_symbols();
    // Prefix match on an ignore entry.
    assert!(frame_is_hidden(&frame("backtrace::trace", "/x", 1), true, &ignored));
    // Suffix match on an ignore entry.
    assert!(frame_is_hidden(&frame("start_main", "/x", 1), true, &ignored));
    // No match.
    assert!(!frame_is_hidden(&frame("app::main_loop", "/x", 1), true, &ignored));
    // Filtering off hides nothing.
    assert!(!frame_is_hidden(&frame("backtrace::trace", "/x", 1), false, &ignored));
}
