//! Tracing decorator: records every observed allocation and deallocation
//! through a pluggable [`Tracker`], under the reentrancy guard.
//!
//! The process-global hook that owns a `Tracing` value forwards each call to
//! the real allocator first and reports the completed operation here, so the
//! log never holds a record of an operation that did not happen; it
//! serializes threads around the decorator with a lock of its own, since the
//! log must see events in a definite total order. A poisoned lock is fatal
//! to the diagnostic path only, never to the allocation itself.
//!
//! Recording runs under the guard: when the tracker's own work allocates and
//! the hook re-enters itself on the same thread, the nested call finds the
//! flag set and records nothing.

use vstd::prelude::*;

use crate::guard::ReentryGuard;
use crate::tracker::{DefaultTracker, Event, Tracker};

verus! {

/// A tracker and the calling thread's reentrancy flag.
pub struct Tracing<T: Tracker> {
    tracker: T,
    guard: ReentryGuard,
}

impl Tracing<DefaultTracker> {
    /// A decorator around the system allocator and the default tracker.
    pub fn default() -> (t: Self)
        ensures
            t.log() == Seq::<Event>::empty(),
            !t.guard_held(),
    {
        Tracing { tracker: DefaultTracker::new(), guard: ReentryGuard::new() }
    }
}

impl<T: Tracker> Tracing<T> {
    /// The tracker's recorded log.
    pub closed spec fn log(&self) -> Seq<Event> {
        self.tracker.log()
    }

    /// Whether the calling thread is already inside the recording path.
    pub closed spec fn guard_held(&self) -> bool {
        self.guard.held()
    }

    /// A decorator around a caller-chosen inner allocator and tracker.
    pub fn new(tracker: T) -> (t: Self)
        ensures
            t.log() == tracker.log(),
            !t.guard_held(),
    {
        Tracing { tracker, guard: ReentryGuard::new() }
    }

    /// Observe a completed allocation of `size` bytes at `addr`: record it,
    /// unless this call re-entered the recording path, in which case the
    /// operation goes unrecorded and the flag is left as it was found.
    pub fn on_alloc(&mut self, addr: usize, size: usize)
        ensures
            final(self).guard_held() == old(self).guard_held(),
            !old(self).guard_held() ==> final(self).log() == old(self).log().push(
                Event::Alloc { addr, size },
            ),
            old(self).guard_held() ==> final(self).log() == old(self).log(),
    {
        if self.guard.try_enter() {
            self.tracker.track_alloc(addr, size);
            self.guard.leave();
        }
    }

    /// Observe a completed deallocation of `size` bytes at `addr`, with the
    /// same reentrancy rule as `on_alloc`.
    pub fn on_dealloc(&mut self, addr: usize, size: usize)
        ensures
            final(self).guard_held() == old(self).guard_held(),
            !old(self).guard_held() ==> final(self).log() == old(self).log().push(
                Event::Dealloc { addr },
            ),
            old(self).guard_held() ==> final(self).log() == old(self).log(),
    {
        if self.guard.try_enter() {
            self.tracker.track_dealloc(addr, size);
            self.guard.leave();
        }
    }

    /// Produce the tracker's report of the log so far, or nothing when the
    /// call re-entered the recording path. The log is left in place either
    /// way; writing the report to a sink is the caller's business.
    pub fn dump_info(&mut self, filter_internal_frames: bool) -> (report: Option<String>)
        ensures
            final(self).guard_held() == old(self).guard_held(),
            final(self).log() == old(self).log(),
            report is Some <==> !old(self).guard_held(),
    {
        if self.guard.try_enter() {
            let report = self.tracker.dump_info(filter_internal_frames);
            self.guard.leave();
            Option::Some(report)
        } else {
            Option::None
        }
    }
}

} // verus!
