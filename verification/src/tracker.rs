//! The tracker capability: an append-only log of allocation events and the
//! replay that turns it into leak and unknown-free reports.
//!
//! Recording is cheap: an allocation appends its address, size and an
//! unresolved stack snapshot; a deallocation appends its address alone. All
//! the expensive work — resolving symbols, replaying the log, rendering the
//! report — happens at dump time.
//!
//! The replay walks the log once, keeping the not-yet-matched allocations
//! per address (a later allocation of a reused address replaces the earlier
//! one) and the addresses freed without a matching live allocation. What
//! remains unmatched at the end of the log is a possible leak; the rest of
//! the report lists the unknown frees.

use vstd::prelude::*;

use crate::frames::{capture_unresolved, render_frames, resolve_frames, seq_views,
    spec_default_ignored, spec_render_frames, default_ignored_symbols, Frame};
use crate::text::{addr_string, dec_string, spec_addr, spec_dec};

verus! {

/// One logged operation, as the replay sees it: address and size, no
/// snapshot.
#[derive(Clone, Copy, Debug, PartialEq, Eq, Structural)]
pub enum Event {
    Alloc { addr: usize, size: usize },
    Dealloc { addr: usize },
}

/// One logged operation as recorded: an allocation carries the stack
/// snapshot captured when it was observed, unresolved until dump time.
pub enum LoggedEvent {
    Allocation { addr: usize, size: usize, trace: backtrace::Backtrace },
    Deallocation { addr: usize },
}

/// One logged operation with its snapshot resolved to plain frames.
pub enum ResolvedEvent {
    Alloc { addr: usize, size: usize, frames: Vec<Frame> },
    Dealloc { addr: usize },
}

/// What the replay sees of a recorded operation.
pub open spec fn logged_model(e: LoggedEvent) -> Event {
    match e {
        LoggedEvent::Allocation { addr, size, .. } => Event::Alloc { addr, size },
        LoggedEvent::Deallocation { addr } => Event::Dealloc { addr },
    }
}

/// What the replay sees of a resolved operation.
pub open spec fn resolved_model(e: ResolvedEvent) -> Event {
    match e {
        ResolvedEvent::Alloc { addr, size, .. } => Event::Alloc { addr, size },
        ResolvedEvent::Dealloc { addr } => Event::Dealloc { addr },
    }
}

/// The plain event sequence under a resolved log.
pub open spec fn project(events: Seq<ResolvedEvent>) -> Seq<Event> {
    events.map_values(|e: ResolvedEvent| resolved_model(e))
}

/// A not-yet-matched allocation: its address, the log index of the
/// allocation that made it live, and its size.
#[derive(Clone, Copy, Debug, PartialEq, Eq, Structural)]
pub struct LeakEntry {
    pub addr: usize,
    pub index: usize,
    pub size: usize,
}

/// The position of the first entry for `addr`, or -1 when there is none.
pub open spec fn find_addr(entries: Seq<LeakEntry>, addr: usize) -> int
    decreases entries.len(),
{
    if entries.len() == 0 {
        -1
    } else if entries[0].addr == addr {
        0
    } else {
        let r = find_addr(entries.drop_first(), addr);
        if r == -1 {
            -1
        } else {
            r + 1
        }
    }
}

/// `find_addr` yields -1 exactly when no entry has the address, and
/// otherwise the first position that does.
pub proof fn lemma_find_addr(entries: Seq<LeakEntry>, addr: usize)
    ensures
        find_addr(entries, addr) == -1 ==> forall|j: int|
            0 <= j < entries.len() ==> (#[trigger] entries[j]).addr != addr,
        find_addr(entries, addr) != -1 ==> 0 <= find_addr(entries, addr) < entries.len()
            && entries[find_addr(entries, addr)].addr == addr && forall|j: int|
            0 <= j < find_addr(entries, addr) ==> (#[trigger] entries[j]).addr != addr,
    decreases entries.len(),
{
    if entries.len() > 0 && entries[0].addr != addr {
        lemma_find_addr(entries.drop_first(), addr);
        let d = entries.drop_first();
        if find_addr(entries, addr) == -1 {
            assert forall|j: int| 0 <= j < entries.len() implies (#[trigger] entries[j]).addr
                != addr by {
                if j > 0 {
                    assert(entries[j] == d[j - 1]);
                    assert(d[j - 1].addr != addr);
                }
            }
        } else {
            let r = find_addr(entries, addr);
            assert(r == find_addr(d, addr) + 1);
            assert(entries[r] == d[r - 1]);
            assert forall|j: int| 0 <= j < r implies (#[trigger] entries[j]).addr != addr by {
                if j > 0 {
                    assert(entries[j] == d[j - 1]);
                    assert(d[j - 1].addr != addr);
                }
            }
        }
    }
}

/// One event applied to the replay state `(unmatched allocations, unknown
/// frees)`; `idx` is the event's position in the log. An allocation of an
/// address already unmatched replaces it — only the most recent allocation
/// of an address is live; a deallocation cancels the unmatched allocation if
/// there is one and is otherwise an unknown free, listed once per address.
pub open spec fn replay_step(
    leaks: Seq<LeakEntry>,
    unknowns: Seq<usize>,
    e: Event,
    idx: int,
) -> (Seq<LeakEntry>, Seq<usize>) {
    match e {
        Event::Alloc { addr, size } => {
            let r = find_addr(leaks, addr);
            let kept = if r == -1 {
                leaks
            } else {
                leaks.remove(r)
            };
            (kept.push(LeakEntry { addr, index: idx as usize, size }), unknowns)
        },
        Event::Dealloc { addr } => {
            let r = find_addr(leaks, addr);
            if r == -1 {
                (
                    leaks,
                    if unknowns.contains(addr) {
                        unknowns
                    } else {
                        unknowns.push(addr)
                    },
                )
            } else {
                (leaks.remove(r), unknowns)
            }
        },
    }
}

/// The replay of a whole log from the empty state.
pub open spec fn spec_replay(log: Seq<Event>) -> (Seq<LeakEntry>, Seq<usize>)
    decreases log.len(),
{
    if log.len() == 0 {
        (Seq::<LeakEntry>::empty(), Seq::<usize>::empty())
    } else {
        let prev = spec_replay(log.drop_last());
        replay_step(prev.0, prev.1, log.last(), log.len() - 1)
    }
}

/// The position of the first entry for `addr`, or none.
fn find_entry(leaks: &Vec<LeakEntry>, addr: usize) -> (r: Option<usize>)
    ensures
        match r {
            Option::Some(i) => find_addr(leaks@, addr) == i && i < leaks@.len(),
            Option::None => find_addr(leaks@, addr) == -1,
        },
{
    for i in 0..leaks.len()
        invariant
            forall|j: int| 0 <= j < i ==> (#[trigger] leaks@[j]).addr != addr,
    {
        if leaks[i].addr == addr {
            proof {
                lemma_find_addr(leaks@, addr);
            }
            return Option::Some(i);
        }
    }
    proof {
        lemma_find_addr(leaks@, addr);
    }
    Option::None
}

/// Whether the address was already listed as an unknown free.
fn contains_addr(unknowns: &Vec<usize>, addr: usize) -> (r: bool)
    ensures
        r == unknowns@.contains(addr),
{
    for i in 0..unknowns.len()
        invariant
            forall|j: int| 0 <= j < i ==> unknowns@[j] != addr,
    {
        if unknowns[i] == addr {
            return true;
        }
    }
    false
}

/// Replay a resolved log: the allocations left unmatched at the end of the
/// log, in order, and the addresses freed without a matching allocation, in
/// first-occurrence order.
pub fn replay(events: &Vec<ResolvedEvent>) -> (r: (Vec<LeakEntry>, Vec<usize>))
    ensures
        (r.0@, r.1@) == spec_replay(project(events@)),
{
    let mut leaks: Vec<LeakEntry> = Vec::new();
    let mut unknowns: Vec<usize> = Vec::new();
    let n = events.len();
    for i in 0..n
        invariant
            n == events@.len(),
            (leaks@, unknowns@) == spec_replay(project(events@).take(i as int)),
    {
        match &events[i] {
            ResolvedEvent::Alloc { addr, size, .. } => {
                match find_entry(&leaks, *addr) {
                    Option::Some(j) => {
                        leaks.remove(j);
                    },
                    Option::None => {},
                }
                leaks.push(LeakEntry { addr: *addr, index: i, size: *size });
            },
            ResolvedEvent::Dealloc { addr } => {
                match find_entry(&leaks, *addr) {
                    Option::Some(j) => {
                        leaks.remove(j);
                    },
                    Option::None => {
                        if !contains_addr(&unknowns, *addr) {
                            unknowns.push(*addr);
                        }
                    },
                }
            },
        }
        proof {
            assert(project(events@).take(i + 1).drop_last() =~= project(events@).take(i as int));
            assert(project(events@).take(i + 1).last() == resolved_model(events@[i as int]));
        }
    }
    proof {
        assert(project(events@).take(n as int) =~= project(events@));
    }
    (leaks, unknowns)
}

/// The heading of one allocation's stack listing.
pub open spec fn spec_alloc_header(idx: int, size: usize, addr: usize) -> Seq<char> {
    "[ID: "@ + spec_dec(idx as nat) + "] ---------- Allocated "@ + spec_dec(size as nat)
        + " bytes @ Address "@ + spec_addr(addr as nat) + " ----------\n"@
}

/// What one logged event contributes to the report body: an allocation
/// contributes its heading and its filtered stack listing, a deallocation
/// contributes nothing.
pub open spec fn spec_render_event(
    e: ResolvedEvent,
    idx: int,
    filter: bool,
    ignored: Seq<Seq<char>>,
) -> Seq<char> {
    match e {
        ResolvedEvent::Alloc { addr, size, frames } => spec_alloc_header(idx, size, addr)
            + spec_render_frames(frames@, filter, ignored) + "\n\n"@,
        ResolvedEvent::Dealloc { .. } => Seq::empty(),
    }
}

/// The report body: each event's contribution, in log order.
pub open spec fn spec_render_events(
    events: Seq<ResolvedEvent>,
    filter: bool,
    ignored: Seq<Seq<char>>,
) -> Seq<char>
    decreases events.len(),
{
    if events.len() == 0 {
        Seq::empty()
    } else {
        spec_render_events(events.drop_last(), filter, ignored) + spec_render_event(
            events.last(),
            events.len() - 1,
            filter,
            ignored,
        )
    }
}

/// One line of the possible-leaks section.
pub open spec fn spec_leak_line(e: LeakEntry) -> Seq<char> {
    "[ID: "@ + spec_dec(e.index as nat) + "] => "@ + spec_dec(e.size as nat)
        + " bytes @ address "@ + spec_addr(e.addr as nat) + "\n"@
}

/// The lines of the possible-leaks section, in replay order.
pub open spec fn spec_render_leaks(entries: Seq<LeakEntry>) -> Seq<char>
    decreases entries.len(),
{
    if entries.len() == 0 {
        Seq::empty()
    } else {
        spec_render_leaks(entries.drop_last()) + spec_leak_line(entries.last())
    }
}

/// One line of the unknown-frees section.
pub open spec fn spec_unknown_line(addr: usize) -> Seq<char> {
    "  @ Address "@ + spec_addr(addr as nat) + "\n"@
}

/// The lines of the unknown-frees section, in first-occurrence order.
pub open spec fn spec_render_unknowns(addrs: Seq<usize>) -> Seq<char>
    decreases addrs.len(),
{
    if addrs.len() == 0 {
        Seq::empty()
    } else {
        spec_render_unknowns(addrs.drop_last()) + spec_unknown_line(addrs.last())
    }
}

/// The whole report of a resolved log: the body, then — each only when it
/// has something to say — the possible-leaks section and the unknown-frees
/// section.
pub open spec fn spec_render_dump(
    events: Seq<ResolvedEvent>,
    filter: bool,
    ignored: Seq<Seq<char>>,
) -> Seq<char> {
    let replayed = spec_replay(project(events));
    spec_render_events(events, filter, ignored) + (if replayed.0.len() > 0 {
        "\n\n=============== POSSIBLE LEAKS ===============\n"@ + spec_render_leaks(replayed.0)
    } else {
        Seq::<char>::empty()
    }) + (if replayed.1.len() > 0 {
        "\n\n=============== UNKNOWN FREES ===============\n"@ + spec_render_unknowns(replayed.1)
    } else {
        Seq::<char>::empty()
    })
}

/// Render the report of a resolved log.
pub fn render_dump(events: &Vec<ResolvedEvent>, filter: bool, ignored: &Vec<String>) -> (s: String)
    ensures
        s@ == spec_render_dump(events@, filter, seq_views(ignored@)),
{
    let mut out = String::new();
    let n = events.len();
    for i in 0..n
        invariant
            n == events@.len(),
            out@ == spec_render_events(events@.take(i as int), filter, seq_views(ignored@)),
    {
        match &events[i] {
            ResolvedEvent::Alloc { addr, size, frames } => {
                out.append("[ID: ");
                let piece = dec_string(i);
                out.append(piece.as_str());
                out.append("] ---------- Allocated ");
                let piece = dec_string(*size);
                out.append(piece.as_str());
                out.append(" bytes @ Address ");
                let piece = addr_string(*addr);
                out.append(piece.as_str());
                out.append(" ----------\n");
                let listing = render_frames(frames, filter, ignored);
                out.append(listing.as_str());
                out.append("\n\n");
            },
            ResolvedEvent::Dealloc { .. } => {},
        }
        proof {
            assert(events@.take(i + 1).drop_last() =~= events@.take(i as int));
            assert(events@.take(i + 1).last() == events@[i as int]);
            assert(out@ =~= spec_render_events(events@.take(i + 1), filter, seq_views(ignored@)));
        }
    }
    proof {
        assert(events@.take(n as int) =~= events@);
    }
    let (leaks, unknowns) = replay(events);
    if leaks.len() > 0 {
        out.append("\n\n=============== POSSIBLE LEAKS ===============\n");
        let m = leaks.len();
        for i in 0..m
            invariant
                m == leaks@.len(),
                out@ == spec_render_events(events@, filter, seq_views(ignored@))
                    + "\n\n=============== POSSIBLE LEAKS ===============\n"@ + spec_render_leaks(
                    leaks@.take(i as int),
                ),
        {
            out.append("[ID: ");
            let piece = dec_string(leaks[i].index);
            out.append(piece.as_str());
            out.append("] => ");
            let piece = dec_string(leaks[i].size);
            out.append(piece.as_str());
            out.append(" bytes @ address ");
            let piece = addr_string(leaks[i].addr);
            out.append(piece.as_str());
            out.append("\n");
            proof {
                assert(leaks@.take(i + 1).drop_last() =~= leaks@.take(i as int));
                assert(leaks@.take(i + 1).last() == leaks@[i as int]);
                assert(out@ =~= spec_render_events(events@, filter, seq_views(ignored@))
                    + "\n\n=============== POSSIBLE LEAKS ===============\n"@ + spec_render_leaks(
                    leaks@.take(i + 1),
                ));
            }
        }
        proof {
            assert(leaks@.take(m as int) =~= leaks@);
        }
    }
    if unknowns.len() > 0 {
        out.append("\n\n=============== UNKNOWN FREES ===============\n");
        let m = unknowns.len();
        let ghost before = out@;
        for i in 0..m
            invariant
                m == unknowns@.len(),
                out@ == before + spec_render_unknowns(unknowns@.take(i as int)),
        {
            out.append("  @ Address ");
            let piece = addr_string(unknowns[i]);
            out.append(piece.as_str());
            out.append("\n");
            proof {
                assert(unknowns@.take(i + 1).drop_last() =~= unknowns@.take(i as int));
                assert(unknowns@.take(i + 1).last() == unknowns@[i as int]);
                assert(out@ =~= before + spec_render_unknowns(unknowns@.take(i + 1)));
            }
        }
        proof {
            assert(unknowns@.take(m as int) =~= unknowns@);
        }
    }
    proof {
        assert(out@ =~= spec_render_dump(events@, filter, seq_views(ignored@)));
    }
    out
}

/// The pluggable capability for recording allocation events. Recording must
/// never fail the surrounding allocation; the default implementation only
/// appends to a log. `log` is the implementation's recorded event sequence.
pub trait Tracker: Sized {
    /// The recorded events, oldest first.
    spec fn log(&self) -> Seq<Event>;

    /// Record that `addr`, of `size` bytes, became live.
    fn track_alloc(&mut self, addr: usize, size: usize)
        ensures
            final(self).log() == old(self).log().push(Event::Alloc { addr, size }),
    ;

    /// Record that `addr` became free. The size of the freed layout is
    /// passed along; an implementation may ignore it.
    fn track_dealloc(&mut self, addr: usize, size: usize)
        ensures
            final(self).log() == old(self).log().push(Event::Dealloc { addr }),
    ;

    /// Produce the human-readable report of the current log. Writing it to
    /// a sink — and surfacing the sink's I/O errors — is the caller's
    /// business; the log itself is left in place.
    fn dump_info(&mut self, filter_internal_frames: bool) -> (report: String)
        ensures
            final(self).log() == old(self).log(),
    ;
}

/// The reference tracker: an append-only log and the default ignore list.
pub struct DefaultTracker {
    entries: Vec<LoggedEvent>,
    ignored: Vec<String>,
}

impl DefaultTracker {
    /// The ignore list the reports are filtered with.
    pub closed spec fn spec_ignored(&self) -> Seq<Seq<char>> {
        seq_views(self.ignored@)
    }

    /// An empty log with the default ignore list.
    pub fn new() -> (t: Self)
        ensures
            t.log() == Seq::<Event>::empty(),
            t.spec_ignored() == spec_default_ignored(),
    {
        let t = DefaultTracker { entries: Vec::new(), ignored: default_ignored_symbols() };
        proof {
            assert(t.log() =~= Seq::<Event>::empty());
        }
        t
    }
}

impl Tracker for DefaultTracker {
    closed spec fn log(&self) -> Seq<Event> {
        self.entries@.map_values(|e: LoggedEvent| logged_model(e))
    }

    /// Appends the allocation together with a stack snapshot captured now
    /// and resolved only at dump time, since resolution is expensive and
    /// allocates.
    fn track_alloc(&mut self, addr: usize, size: usize) {
        let trace = capture_unresolved();
        self.entries.push(LoggedEvent::Allocation { addr, size, trace });
        proof {
            assert(self.log() =~= old(self).log().push(Event::Alloc { addr, size }));
        }
    }

    /// Appends the deallocation; no snapshot is captured, since
    /// deallocation-site stacks play no part in the leak model.
    fn track_dealloc(&mut self, addr: usize, size: usize)
        ensures
            final(self).spec_ignored() == old(self).spec_ignored(),
    {
        self.entries.push(LoggedEvent::Deallocation { addr });
        proof {
            assert(self.log() =~= old(self).log().push(Event::Dealloc { addr }));
        }
    }

    /// Resolves every allocation's snapshot — the deferred cost is paid
    /// here, once per dump — and renders the report of the log: each
    /// allocation's stack listing, then the possible leaks and the unknown
    /// frees found by the replay.
    fn dump_info(&mut self, filter_internal_frames: bool) -> (report: String)
        ensures
            final(self).spec_ignored() == old(self).spec_ignored(),
            exists|resolved: Seq<ResolvedEvent>|
                #[trigger] project(resolved) == old(self).log() && report@ == spec_render_dump(
                    resolved,
                    filter_internal_frames,
                    old(self).spec_ignored(),
                ),
    {
        let mut resolved: Vec<ResolvedEvent> = Vec::new();
        let n = self.entries.len();
        for i in 0..n
            invariant
                *self == *old(self),
                n == self.entries@.len(),
                resolved@.len() == i,
                project(resolved@) == self.log().take(i as int),
        {
            match &self.entries[i] {
                LoggedEvent::Allocation { addr, size, trace } => {
                    let frames = resolve_frames(trace);
                    resolved.push(ResolvedEvent::Alloc { addr: *addr, size: *size, frames });
                },
                LoggedEvent::Deallocation { addr } => {
                    resolved.push(ResolvedEvent::Dealloc { addr: *addr });
                },
            }
            proof {
                assert(self.log().take(i + 1).drop_last() =~= self.log().take(i as int));
                assert(self.log().take(i + 1).last() == logged_model(self.entries@[i as int]));
                assert(project(resolved@) =~= self.log().take(i + 1));
            }
        }
        let report = render_dump(&resolved, filter_internal_frames, &self.ignored);
        proof {
            assert(self.log().take(n as int) =~= self.log());
            assert(project(resolved@) == old(self).log() && report@ == spec_render_dump(
                resolved@,
                filter_internal_frames,
                old(self).spec_ignored(),
            ));
        }
        report
    }
}

} // verus!


verus! {

/// `e` allocates `addr`.
pub open spec fn is_alloc_of(e: Event, addr: usize) -> bool {
    match e {
        Event::Alloc { addr: a, .. } => a == addr,
        Event::Dealloc { .. } => false,
    }
}

/// `e` deallocates `addr`.
pub open spec fn is_dealloc_of(e: Event, addr: usize) -> bool {
    match e {
        Event::Dealloc { addr: a } => a == addr,
        Event::Alloc { .. } => false,
    }
}

/// The size an allocation event carries.
pub open spec fn alloc_size(e: Event) -> usize {
    match e {
        Event::Alloc { size, .. } => size,
        Event::Dealloc { .. } => 0,
    }
}

/// Some deallocation of `addr` comes after position `i`.
pub open spec fn has_dealloc_after(log: Seq<Event>, addr: usize, i: int) -> bool {
    exists|j: int| i < j < log.len() && is_dealloc_of(#[trigger] log[j], addr)
}

/// Position `i` holds the most recent allocation of `addr`.
pub open spec fn is_last_alloc_of(log: Seq<Event>, addr: usize, i: int) -> bool {
    0 <= i < log.len() && is_alloc_of(log[i], addr) && forall|j: int|
        i < j < log.len() ==> !is_alloc_of(#[trigger] log[j], addr)
}

/// A possible leak, declaratively: some allocation of `addr` is never
/// canceled by a later deallocation of `addr` before the log ends.
pub open spec fn spec_leaked(log: Seq<Event>, addr: usize) -> bool {
    exists|i: int|
        0 <= i < log.len() && is_alloc_of(#[trigger] log[i], addr) && !has_dealloc_after(
            log,
            addr,
            i,
        )
}

/// An unknown free, declaratively: the event at `i` deallocates `addr`
/// while no prior allocation of `addr` is still unmatched.
pub open spec fn is_unknown_free_at(log: Seq<Event>, addr: usize, i: int) -> bool {
    0 <= i < log.len() && is_dealloc_of(log[i], addr) && !spec_leaked(log.take(i), addr)
}

/// Some entry carries `addr`.
pub open spec fn has_addr(entries: Seq<LeakEntry>, addr: usize) -> bool {
    exists|k: int| 0 <= k < entries.len() && (#[trigger] entries[k]).addr == addr
}

/// The entry reports a real unmatched allocation: the most recent
/// allocation of its address, with that allocation's log position and size,
/// and no later deallocation of the address.
pub open spec fn entry_matches(log: Seq<Event>, e: LeakEntry) -> bool {
    is_last_alloc_of(log, e.addr, e.index as int) && !has_dealloc_after(
        log,
        e.addr,
        e.index as int,
    ) && e.size == alloc_size(log[e.index as int])
}

/// The replay invariant, proved along the log: leak entries carry distinct
/// addresses, an address has an entry exactly when it is leaked, every entry
/// reports a real unmatched allocation, and the unknown-free list holds
/// exactly the unknown-freed addresses, each once.
#[verifier::rlimit(100)]
proof fn lemma_replay_invariant(log: Seq<Event>)
    requires
        log.len() <= usize::MAX,
    ensures
        forall|p: int, q: int|
            0 <= p < q < spec_replay(log).0.len() ==> (#[trigger] spec_replay(log).0[p]).addr != (
            #[trigger] spec_replay(log).0[q]).addr,
        forall|a: usize| #[trigger] has_addr(spec_replay(log).0, a) <==> spec_leaked(log, a),
        forall|k: int|
            0 <= k < spec_replay(log).0.len() ==> entry_matches(
                log,
                #[trigger] spec_replay(log).0[k],
            ),
        forall|a: usize| #[trigger] spec_replay(log).1.contains(a) <==> exists|i: int|
            is_unknown_free_at(log, a, i),
        forall|p: int, q: int|
            0 <= p < q < spec_replay(log).1.len() ==> spec_replay(log).1[p] != spec_replay(
                log,
            ).1[q],
    decreases log.len(),
{
    if log.len() == 0 {
        assert(forall|a: usize| !(#[trigger] has_addr(spec_replay(log).0, a)));
        assert(forall|a: usize| !(#[trigger] spec_replay(log).1.contains(a)));
    } else {
        let prev = log.drop_last();
        lemma_replay_invariant(prev);
        let st = spec_replay(prev);
        let e = log.last();
        let idx = log.len() - 1;
        assert(log.take(idx) =~= prev);

        // The old positions are untouched, so the declarative predicates on
        // them carry over: a deallocation after an old position exists in
        // the grown log exactly when it exists in the old log or the new
        // event is itself a deallocation of the address.
        assert forall|b: usize, i: int|
            0 <= i <= idx && !is_dealloc_of(e, b) implies (has_dealloc_after(log, b, i)
            <==> has_dealloc_after(prev, b, i)) by {
            if has_dealloc_after(log, b, i) {
                let j = choose|j: int| i < j < log.len() && is_dealloc_of(#[trigger] log[j], b);
                assert(j < idx);
                assert(prev[j] == log[j]);
                assert(has_dealloc_after(prev, b, i));
            }
            if has_dealloc_after(prev, b, i) {
                let j = choose|j: int| i < j < prev.len() && is_dealloc_of(#[trigger] prev[j], b);
                assert(log[j] == prev[j]);
                assert(has_dealloc_after(log, b, i));
            }
        }
        // Likewise leakedness of addresses the new event does not touch.
        assert forall|b: usize|
            !is_dealloc_of(e, b) && !is_alloc_of(e, b) implies (spec_leaked(log, b)
            <==> spec_leaked(prev, b)) by {
            if spec_leaked(log, b) {
                let i = choose|i: int|
                    0 <= i < log.len() && is_alloc_of(#[trigger] log[i], b) && !has_dealloc_after(
                        log,
                        b,
                        i,
                    );
                assert(i < idx);
                assert(prev[i] == log[i]);
                assert(!has_dealloc_after(prev, b, i));
                assert(spec_leaked(prev, b));
            }
            if spec_leaked(prev, b) {
                let i = choose|i: int|
                    0 <= i < prev.len() && is_alloc_of(#[trigger] prev[i], b) && !has_dealloc_after(
                        prev,
                        b,
                        i,
                    );
                assert(log[i] == prev[i]);
                assert(!has_dealloc_after(log, b, i));
                assert(spec_leaked(log, b));
            }
        }
        // Unknown-freeness at old positions is also untouched: the prefixes
        // below an old position are the same in both logs.
        assert forall|b: usize, i: int| 0 <= i < idx implies (is_unknown_free_at(log, b, i)
            <==> is_unknown_free_at(prev, b, i)) by {
            assert(log.take(i) =~= prev.take(i));
            assert(log[i] == prev[i]);
        }

        match e {
            Event::Alloc { addr: a0, size: sz } => {
                lemma_find_addr(st.0, a0);
                let r = find_addr(st.0, a0);
                let kept = if r == -1 {
                    st.0
                } else {
                    st.0.remove(r)
                };
                if r != -1 {
                    st.0.remove_ensures(r);
                }
                // No kept entry carries the new address, and the kept
                // entries are exactly the old entries for other addresses.
                assert forall|k: int| 0 <= k < kept.len() implies (#[trigger] kept[k]).addr != a0
                    && exists|k2: int|
                    0 <= k2 < st.0.len() && kept[k] == #[trigger] st.0[k2] by {
                    if r == -1 {
                        assert(kept[k] == st.0[k]);
                    } else if k < r {
                        assert(kept[k] == st.0[k]);
                    } else {
                        assert(kept[k] == st.0[k + 1]);
                    }
                }
                let entry = LeakEntry { addr: a0, index: idx as usize, size: sz };
                let grown = kept.push(entry);
                assert(spec_replay(log).0 == grown);
                assert(spec_replay(log).1 == st.1);

                // The new event is the most recent allocation of its
                // address, with nothing after it.
                assert(is_alloc_of(log[idx], a0));
                assert(!has_dealloc_after(log, a0, idx));
                assert(is_last_alloc_of(log, a0, idx));
                assert(entry_matches(log, entry));

                // Membership: the new address is leaked and present; other
                // addresses are as they were.
                assert forall|a: usize| #[trigger] has_addr(grown, a) <==> spec_leaked(
                    log,
                    a,
                ) by {
                    if a == a0 {
                        assert(grown[kept.len() as int] == entry);
                        assert(has_addr(grown, a0));
                        assert(spec_leaked(log, a0));
                    } else {
                        assert(!is_dealloc_of(e, a) && !is_alloc_of(e, a));
                        if has_addr(grown, a) {
                            let k = choose|k: int|
                                0 <= k < grown.len() && (#[trigger] grown[k]).addr == a;
                            assert(k < kept.len());
                            assert(kept[k].addr == a);
                            let k2 = choose|k2: int|
                                0 <= k2 < st.0.len() && kept[k] == #[trigger] st.0[k2];
                            assert(st.0[k2].addr == a);
                            assert(has_addr(st.0, a));
                        }
                        if spec_leaked(log, a) {
                            assert(spec_leaked(prev, a));
                            assert(has_addr(st.0, a));
                            let k2 = choose|k2: int|
                                0 <= k2 < st.0.len() && (#[trigger] st.0[k2]).addr == a;
                            if r == -1 {
                                assert(grown[k2] == st.0[k2]);
                            } else {
                                assert(st.0[r].addr == a0);
                                assert(k2 != r);
                                if k2 < r {
                                    assert(grown[k2] == st.0[k2]);
                                } else {
                                    assert(grown[k2 - 1] == st.0[k2]);
                                }
                            }
                            assert(has_addr(grown, a));
                        }
                    }
                }

                // Every entry still reports a real unmatched allocation.
                assert forall|k: int| 0 <= k < grown.len() implies entry_matches(
                    log,
                    #[trigger] grown[k],
                ) by {
                    if k < kept.len() {
                        let old_entry = grown[k];
                        assert(old_entry == kept[k]);
                        let k2 = choose|k2: int|
                            0 <= k2 < st.0.len() && kept[k] == #[trigger] st.0[k2];
                        assert(entry_matches(prev, old_entry));
                        assert(old_entry.addr != a0);
                        assert(!is_dealloc_of(e, old_entry.addr));
                        assert(log[old_entry.index as int] == prev[old_entry.index as int]);
                        assert forall|j: int|
                            old_entry.index < j < log.len() implies !is_alloc_of(
                            #[trigger] log[j],
                            old_entry.addr,
                        ) by {
                            if j < idx {
                                assert(log[j] == prev[j]);
                            }
                        }
                        assert(is_last_alloc_of(log, old_entry.addr, old_entry.index as int));
                    }
                }

                // Distinct addresses: the kept entries were distinct and
                // none of them carries the new address.
                assert forall|p: int, q: int| 0 <= p < q < grown.len() implies (
                #[trigger] grown[p]).addr != (#[trigger] grown[q]).addr by {
                    if q < kept.len() {
                        if r == -1 {
                            assert(grown[p] == st.0[p] && grown[q] == st.0[q]);
                        } else {
                            let p2: int = if p < r {
                                p
                            } else {
                                p + 1
                            };
                            let q2: int = if q < r {
                                q
                            } else {
                                q + 1
                            };
                            assert(grown[p] == st.0[p2] && grown[q] == st.0[q2]);
                        }
                    } else {
                        assert(grown[q] == entry);
                        assert(grown[p].addr != a0);
                    }
                }

                // The unknown-free list is untouched: the new event is no
                // deallocation.
                assert forall|a: usize| #[trigger] st.1.contains(a) <==> exists|i: int|
                    is_unknown_free_at(log, a, i) by {
                    if st.1.contains(a) {
                        let i = choose|i: int| is_unknown_free_at(prev, a, i);
                        assert(is_unknown_free_at(log, a, i));
                    }
                    if exists|i: int| is_unknown_free_at(log, a, i) {
                        let i = choose|i: int| is_unknown_free_at(log, a, i);
                        assert(!is_dealloc_of(log[idx], a));
                        assert(i < idx);
                        assert(is_unknown_free_at(prev, a, i));
                    }
                }
            },
            Event::Dealloc { addr: a0 } => {
                lemma_find_addr(st.0, a0);
                let r = find_addr(st.0, a0);
                let kept = if r == -1 {
                    st.0
                } else {
                    st.0.remove(r)
                };
                if r != -1 {
                    st.0.remove_ensures(r);
                }
                assert(spec_replay(log).0 == kept);
                assert forall|k: int| 0 <= k < kept.len() implies (#[trigger] kept[k]).addr != a0
                    && exists|k2: int|
                    0 <= k2 < st.0.len() && kept[k] == #[trigger] st.0[k2] by {
                    if r == -1 {
                        assert(kept[k] == st.0[k]);
                    } else if k < r {
                        assert(kept[k] == st.0[k]);
                    } else {
                        assert(kept[k] == st.0[k + 1]);
                    }
                }

                // The deallocated address is no longer leaked: the event at
                // the end cancels every allocation of it.
                assert forall|i: int|
                    0 <= i < log.len() && is_alloc_of(#[trigger] log[i], a0) implies
                    has_dealloc_after(log, a0, i) by {
                    assert(is_dealloc_of(log[idx], a0));
                    assert(i < idx);
                }
                assert(!spec_leaked(log, a0));

                // Membership.
                assert forall|a: usize| #[trigger] has_addr(kept, a) <==> spec_leaked(
                    log,
                    a,
                ) by {
                    if a == a0 {
                        if has_addr(kept, a0) {
                            let k = choose|k: int|
                                0 <= k < kept.len() && (#[trigger] kept[k]).addr == a0;
                            assert(kept[k].addr != a0);
                        }
                        assert(!has_addr(kept, a0));
                    } else {
                        assert(!is_dealloc_of(e, a) && !is_alloc_of(e, a));
                        if has_addr(kept, a) {
                            let k = choose|k: int|
                                0 <= k < kept.len() && (#[trigger] kept[k]).addr == a;
                            let k2 = choose|k2: int|
                                0 <= k2 < st.0.len() && kept[k] == #[trigger] st.0[k2];
                            assert(has_addr(st.0, a));
                        }
                        if spec_leaked(log, a) {
                            assert(spec_leaked(prev, a));
                            assert(has_addr(st.0, a));
                            let k2 = choose|k2: int|
                                0 <= k2 < st.0.len() && (#[trigger] st.0[k2]).addr == a;
                            if r == -1 {
                                assert(kept[k2] == st.0[k2]);
                            } else {
                                assert(st.0[r].addr == a0);
                                assert(k2 != r);
                                if k2 < r {
                                    assert(kept[k2] == st.0[k2]);
                                } else {
                                    assert(kept[k2 - 1] == st.0[k2]);
                                }
                            }
                            assert(has_addr(kept, a));
                        }
                    }
                }

                // Entries still report real unmatched allocations.
                assert forall|k: int| 0 <= k < kept.len() implies entry_matches(
                    log,
                    #[trigger] kept[k],
                ) by {
                    let old_entry = kept[k];
                    let k2 = choose|k2: int|
                        0 <= k2 < st.0.len() && kept[k] == #[trigger] st.0[k2];
                    assert(entry_matches(prev, old_entry));
                    assert(old_entry.addr != a0);
                    assert(!is_dealloc_of(e, old_entry.addr));
                    assert(log[old_entry.index as int] == prev[old_entry.index as int]);
                    assert forall|j: int|
                        old_entry.index < j < log.len() implies !is_alloc_of(
                        #[trigger] log[j],
                        old_entry.addr,
                    ) by {
                        if j < idx {
                            assert(log[j] == prev[j]);
                        }
                    }
                    assert(is_last_alloc_of(log, old_entry.addr, old_entry.index as int));
                }

                // Distinct addresses.
                assert forall|p: int, q: int| 0 <= p < q < kept.len() implies (
                #[trigger] kept[p]).addr != (#[trigger] kept[q]).addr by {
                    if r == -1 {
                        assert(kept[p] == st.0[p] && kept[q] == st.0[q]);
                    } else {
                        let p2: int = if p < r {
                            p
                        } else {
                            p + 1
                        };
                        let q2: int = if q < r {
                            q
                        } else {
                            q + 1
                        };
                        assert(kept[p] == st.0[p2] && kept[q] == st.0[q2]);
                    }
                }

                // The unknown-free list: the new deallocation is an unknown
                // free exactly when its address had no unmatched allocation.
                let grown_unknowns = spec_replay(log).1;
                assert forall|a: usize| #[trigger] grown_unknowns.contains(a) <==> exists|i: int|
                    is_unknown_free_at(log, a, i) by {
                    if a == a0 {
                        if r == -1 {
                            assert(!has_addr(st.0, a0));
                            assert(!spec_leaked(prev, a0));
                            assert(is_unknown_free_at(log, a0, idx));
                            if st.1.contains(a0) {
                                assert(grown_unknowns == st.1);
                            } else {
                                assert(grown_unknowns == st.1.push(a0));
                                assert(grown_unknowns[st.1.len() as int] == a0);
                            }
                            assert(grown_unknowns.contains(a0));
                        } else {
                            assert(grown_unknowns == st.1);
                            assert(st.0[r].addr == a0);
                            assert(has_addr(st.0, a0));
                            assert(spec_leaked(prev, a0));
                            if grown_unknowns.contains(a0) {
                                let i = choose|i: int| is_unknown_free_at(prev, a0, i);
                                assert(is_unknown_free_at(log, a0, i));
                            }
                            if exists|i: int| is_unknown_free_at(log, a0, i) {
                                let i = choose|i: int| is_unknown_free_at(log, a0, i);
                                if i == idx {
                                    assert(log.take(idx) =~= prev);
                                    assert(!spec_leaked(prev, a0));
                                    assert(false);
                                } else {
                                    assert(is_unknown_free_at(prev, a0, i));
                                    assert(st.1.contains(a0));
                                }
                            }
                        }
                    } else {
                        if grown_unknowns.contains(a) {
                            if r == -1 && !st.1.contains(a0) {
                                let ki = choose|ki: int|
                                    0 <= ki < grown_unknowns.len() && grown_unknowns[ki] == a;
                                assert(ki < st.1.len());
                                assert(st.1[ki] == a);
                                assert(st.1.contains(a));
                            } else {
                                assert(grown_unknowns == st.1);
                            }
                            let i = choose|i: int| is_unknown_free_at(prev, a, i);
                            assert(is_unknown_free_at(log, a, i));
                        }
                        if exists|i: int| is_unknown_free_at(log, a, i) {
                            let i = choose|i: int| is_unknown_free_at(log, a, i);
                            assert(!is_dealloc_of(log[idx], a));
                            assert(i < idx);
                            assert(is_unknown_free_at(prev, a, i));
                            assert(st.1.contains(a));
                            if r == -1 && !st.1.contains(a0) {
                                let ki = choose|ki: int| 0 <= ki < st.1.len() && st.1[ki] == a;
                                assert(grown_unknowns[ki] == a);
                            }
                            assert(grown_unknowns.contains(a));
                        }
                    }
                }

                // Unknown-free addresses stay distinct: an address is pushed
                // only when it was absent.
                assert forall|p: int, q: int| 0 <= p < q < grown_unknowns.len() implies
                    grown_unknowns[p] != grown_unknowns[q] by {
                    if r == -1 && !st.1.contains(a0) {
                        if q < st.1.len() {
                            assert(grown_unknowns[p] == st.1[p] && grown_unknowns[q] == st.1[q]);
                        } else {
                            assert(grown_unknowns[q] == a0);
                            assert(grown_unknowns[p] == st.1[p]);
                            assert(st.1.contains(st.1[p]));
                        }
                    }
                }
            },
        }
    }
}

/// The leak report, declaratively: an address stands among the possible
/// leaks exactly when some allocation of it is never canceled by a later
/// deallocation; its entry carries the log position and size of the most
/// recent allocation of that address; and each address is reported at most
/// once.
pub proof fn lemma_leak_report_characterized(log: Seq<Event>, addr: usize)
    requires
        log.len() <= usize::MAX,
    ensures
        has_addr(spec_replay(log).0, addr) <==> spec_leaked(log, addr),
        has_addr(spec_replay(log).0, addr) ==> exists|k: int|
            0 <= k < spec_replay(log).0.len() && (#[trigger] spec_replay(log).0[k]).addr == addr
                && entry_matches(log, spec_replay(log).0[k]),
        forall|p: int, q: int|
            0 <= p < q < spec_replay(log).0.len() ==> (#[trigger] spec_replay(log).0[p]).addr != (
            #[trigger] spec_replay(log).0[q]).addr,
{
    lemma_replay_invariant(log);
    if has_addr(spec_replay(log).0, addr) {
        let k = choose|k: int|
            0 <= k < spec_replay(log).0.len() && (#[trigger] spec_replay(log).0[k]).addr == addr;
        assert(entry_matches(log, spec_replay(log).0[k]));
    }
}

/// The unknown-free report, declaratively: an address stands among the
/// unknown frees exactly when some deallocation of it happens while no
/// allocation of it is unmatched, and each such address is listed once.
pub proof fn lemma_unknown_free_report_characterized(log: Seq<Event>, addr: usize)
    requires
        log.len() <= usize::MAX,
    ensures
        spec_replay(log).1.contains(addr) <==> exists|i: int| is_unknown_free_at(log, addr, i),
        forall|p: int, q: int|
            0 <= p < q < spec_replay(log).1.len() ==> spec_replay(log).1[p] != spec_replay(
                log,
            ).1[q],
{
    lemma_replay_invariant(log);
}

} // verus!
