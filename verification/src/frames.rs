//! Call-stack snapshots for allocation records.
//!
//! A snapshot is captured cheaply (raw frames only) when an allocation is
//! recorded, and resolved to symbol names, source files and line numbers only
//! at report time, since resolution is expensive and itself allocates. Once
//! resolved, a stack is a sequence of plain [`Frame`] values; everything done
//! with those values — filtering internal frames, rendering the listing — is
//! verified here.

use vstd::prelude::*;

use crate::text::{dec_string, is_prefix_of, is_suffix_of, spec_dec, str_has_prefix,
    str_has_suffix};

verus! {

/// Declares `backtrace::Backtrace` — a captured stack snapshot — as an
/// opaque outside type, so that log records can carry one.
#[verifier::external_type_specification]
#[verifier::external_body]
pub struct ExBacktrace(backtrace::Backtrace);

/// One resolved stack frame: the symbol name, the source file it came from,
/// and the line number, each absent when resolution could not find it.
pub struct Frame {
    pub symbol: Option<String>,
    pub filename: Option<String>,
    pub line: Option<u32>,
}

/// Relies on `backtrace::Backtrace::new_unresolved`: captures the calling
/// thread's stack without resolving symbols. The result depends on the call
/// site and the machine, so nothing is stated of it.
#[verifier::external_body]
pub(crate) fn capture_unresolved() -> backtrace::Backtrace {
    backtrace::Backtrace::new_unresolved()
}

/// Relies on `backtrace::Backtrace::{resolve, frames}`,
/// `backtrace::BacktraceFrame::symbols` and
/// `backtrace::BacktraceSymbol::{name, filename, lineno}`: resolves a copy of
/// the captured stack and copies each symbol's name, source file and line out
/// as plain values, in stack order. The frames depend on the call site and
/// the machine, so nothing is stated of the result.
#[verifier::external_body]
pub(crate) fn resolve_frames(bt: &backtrace::Backtrace) -> Vec<Frame> {
    let mut bt = bt.clone();
    bt.resolve();
    let mut frames: Vec<Frame> = Vec::new();
    for f in bt.frames() {
        for s in f.symbols() {
            frames.push(Frame {
                symbol: s.name().map(|n| n.to_string()),
                filename: s.filename().map(|p| p.display().to_string()),
                line: s.lineno(),
            });
        }
    }
    frames
}

/// The views of a list of strings.
pub open spec fn seq_views(s: Seq<String>) -> Seq<Seq<char>> {
    s.map_values(|x: String| x@)
}

/// The ignore list the default tracker is built with: symbols of the
/// program's entry glue, of the allocation hook itself, of the stack-capture
/// machinery, and of this library's own decorators.
pub open spec fn spec_default_ignored() -> Seq<Seq<char>> {
    seq!["_main"@, "__rg_alloc"@, "backtrace::"@, "<sl_core::"@]
}

/// The default ignore list as a value.
pub fn default_ignored_symbols() -> (v: Vec<String>)
    ensures
        seq_views(v@) == spec_default_ignored(),
{
    let mut v: Vec<String> = Vec::new();
    v.push(String::from_str("_main"));
    v.push(String::from_str("__rg_alloc"));
    v.push(String::from_str("backtrace::"));
    v.push(String::from_str("<sl_core::"));
    proof {
        assert(seq_views(v@) =~= spec_default_ignored());
    }
    v
}

/// The symbol name a frame is listed and filtered under; a frame whose
/// symbol could not be resolved is listed as `<unknown>`.
pub open spec fn frame_symbol_chars(f: Frame) -> Seq<char> {
    match f.symbol {
        Option::Some(s) => s@,
        Option::None => "<unknown>"@,
    }
}

/// The source file a frame is filtered under; absent means empty.
pub open spec fn frame_file_chars(f: Frame) -> Seq<char> {
    match f.filename {
        Option::Some(s) => s@,
        Option::None => Seq::empty(),
    }
}

/// The line number a frame is listed under; absent renders as `u32::MAX`.
pub open spec fn frame_line(f: Frame) -> u32 {
    match f.line {
        Option::Some(l) => l,
        Option::None => u32::MAX,
    }
}

/// Whether a symbol name matches the ignore list, by prefix or by suffix.
pub open spec fn matches_ignored(sym: Seq<char>, ignored: Seq<Seq<char>>) -> bool {
    exists|i: int|
        0 <= i < ignored.len() && (is_prefix_of(#[trigger] ignored[i], sym) || is_suffix_of(
            ignored[i],
            sym,
        ))
}

/// Whether a frame is suppressed from the listing: only when filtering is
/// on, and then for frames sourced from the language runtime's own tree and
/// for symbols matching the ignore list.
pub open spec fn frame_hidden(f: Frame, filter: bool, ignored: Seq<Seq<char>>) -> bool {
    filter && (is_prefix_of("/rustc"@, frame_file_chars(f)) || matches_ignored(
        frame_symbol_chars(f),
        ignored,
    ))
}

/// The frames that survive filtering, in order.
pub open spec fn visible_frames(frames: Seq<Frame>, filter: bool, ignored: Seq<Seq<char>>) -> Seq<
    Frame,
>
    decreases frames.len(),
{
    if frames.len() == 0 {
        Seq::empty()
    } else {
        visible_frames(frames.drop_last(), filter, ignored) + if frame_hidden(
            frames.last(),
            filter,
            ignored,
        ) {
            Seq::<Frame>::empty()
        } else {
            seq![frames.last()]
        }
    }
}

/// One line of the stack listing.
pub open spec fn spec_frame_line(f: Frame) -> Seq<char> {
    "   > "@ + frame_symbol_chars(f) + " @ line "@ + spec_dec(frame_line(f) as nat) + "\n"@
}

/// The stack listing of a resolved snapshot: one line per frame that
/// survives filtering, in stack order.
pub open spec fn spec_render_frames(
    frames: Seq<Frame>,
    filter: bool,
    ignored: Seq<Seq<char>>,
) -> Seq<char>
    decreases frames.len(),
{
    if frames.len() == 0 {
        Seq::empty()
    } else {
        spec_render_frames(frames.drop_last(), filter, ignored) + if frame_hidden(
            frames.last(),
            filter,
            ignored,
        ) {
            Seq::<char>::empty()
        } else {
            spec_frame_line(frames.last())
        }
    }
}

/// When filtering is on, a frame sourced from the runtime's own tree or
/// whose symbol matches an ignore entry appears nowhere in the listing: the
/// surviving frames all fail both tests, and the listing of the full stack
/// is the listing of the surviving frames alone.
pub proof fn lemma_filter_hides_ignored(frames: Seq<Frame>, ignored: Seq<Seq<char>>)
    ensures
        forall|i: int|
            0 <= i < visible_frames(frames, true, ignored).len() ==> !matches_ignored(
                frame_symbol_chars(#[trigger] visible_frames(frames, true, ignored)[i]),
                ignored,
            ) && !is_prefix_of(
                "/rustc"@,
                frame_file_chars(visible_frames(frames, true, ignored)[i]),
            ),
        spec_render_frames(frames, true, ignored) == spec_render_frames(
            visible_frames(frames, true, ignored),
            true,
            ignored,
        ),
    decreases frames.len(),
{
    if frames.len() > 0 {
        lemma_filter_hides_ignored(frames.drop_last(), ignored);
        let v = visible_frames(frames, true, ignored);
        let vd = visible_frames(frames.drop_last(), true, ignored);
        if frame_hidden(frames.last(), true, ignored) {
            assert(v =~= vd);
        } else {
            assert(v =~= vd.push(frames.last()));
            assert(v.drop_last() =~= vd);
            assert(spec_render_frames(v, true, ignored) == spec_render_frames(vd, true, ignored)
                + spec_frame_line(frames.last()));
        }
    }
}

/// The symbol name a frame is listed under.
fn symbol_str<'a>(f: &'a Frame) -> (s: &'a str)
    ensures
        s@ == frame_symbol_chars(*f),
{
    match &f.symbol {
        Option::Some(s) => s.as_str(),
        Option::None => "<unknown>",
    }
}

/// Whether a frame is suppressed from the listing.
pub fn frame_is_hidden(f: &Frame, filter: bool, ignored: &Vec<String>) -> (r: bool)
    ensures
        r == frame_hidden(*f, filter, seq_views(ignored@)),
{
    if !filter {
        return false;
    }
    let file: &str = match &f.filename {
        Option::Some(s) => s.as_str(),
        Option::None => "",
    };
    proof {
        reveal_strlit("");
        assert(""@ =~= Seq::<char>::empty());
    }
    if str_has_prefix(file, "/rustc") {
        return true;
    }
    let sym = symbol_str(f);
    for i in 0..ignored.len()
        invariant
            filter,
            sym@ == frame_symbol_chars(*f),
            forall|j: int|
                0 <= j < i ==> !(is_prefix_of(#[trigger] seq_views(ignored@)[j], sym@)
                    || is_suffix_of(seq_views(ignored@)[j], sym@)),
    {
        let entry = ignored[i].as_str();
        if str_has_prefix(sym, entry) || str_has_suffix(sym, entry) {
            proof {
                assert(is_prefix_of(seq_views(ignored@)[i as int], sym@) || is_suffix_of(
                    seq_views(ignored@)[i as int],
                    sym@,
                ));
                assert(matches_ignored(sym@, seq_views(ignored@)));
                assert(frame_hidden(*f, filter, seq_views(ignored@)));
            }
            return true;
        }
    }
    false
}

/// Render the stack listing of one resolved snapshot.
pub fn render_frames(frames: &Vec<Frame>, filter: bool, ignored: &Vec<String>) -> (s: String)
    ensures
        s@ == spec_render_frames(frames@, filter, seq_views(ignored@)),
{
    let mut out = String::new();
    for i in 0..frames.len()
        invariant
            out@ == spec_render_frames(frames@.take(i as int), filter, seq_views(ignored@)),
    {
        if !frame_is_hidden(&frames[i], filter, ignored) {
            out.append("   > ");
            out.append(symbol_str(&frames[i]));
            out.append(" @ line ");
            let line: u32 = match frames[i].line {
                Option::Some(l) => l,
                Option::None => u32::MAX,
            };
            let line_dec = dec_string(line as usize);
            out.append(line_dec.as_str());
            out.append("\n");
        }
        proof {
            assert(frames@.take(i + 1).drop_last() =~= frames@.take(i as int));
            assert(frames@.take(i + 1).last() == frames@[i as int]);
        }
    }
    proof {
        assert(frames@.take(frames@.len() as int) =~= frames@);
    }
    out
}

} // verus!
