//! Reentrancy guard: a per-thread boolean flag with a "run only if not
//! already inside" protocol.
//!
//! Instrumentation code that runs inside an allocation hook may itself
//! allocate (growing a log, capturing a stack snapshot). Without a guard such
//! an allocation would recurse into the hook forever. The guard breaks the
//! recursion: an invocation that finds the flag set skips its body and
//! returns at once.
//!
//! One `ReentryGuard` value stands for the calling thread's flag; the guard
//! coordinates nothing across threads. Callers follow the protocol
//! `if g.try_enter() { body; g.leave(); }`, releasing on every exit path.

use vstd::prelude::*;

verus! {

/// One attempt to enter the guarded region: given the flag before the
/// attempt, yields the flag after it and whether the body runs. An attempt
/// that finds the flag set runs nothing and leaves the flag set; one that
/// finds it clear sets it and runs the body.
pub open spec fn guard_enter(held: bool) -> (bool, bool) {
    if held {
        (true, false)
    } else {
        (true, true)
    }
}

/// Leaving the guarded region, on any exit path (a normal return or an
/// error): only the invocation that acquired the flag clears it; a skipped
/// invocation leaves the flag as it found it.
pub open spec fn guard_exit(held: bool, acquired: bool) -> bool {
    if acquired {
        false
    } else {
        held
    }
}

/// The calling thread's reentrancy flag, initially clear.
pub struct ReentryGuard {
    held: bool,
}

impl ReentryGuard {
    /// Whether the calling thread is currently inside the guarded region.
    pub closed spec fn held(&self) -> bool {
        self.held
    }

    pub fn new() -> (g: Self)
        ensures
            !g.held(),
    {
        ReentryGuard { held: false }
    }

    /// Attempt to enter the guarded region. Returns whether the caller may
    /// run the protected body; a nested attempt (flag already set) is
    /// refused and changes nothing.
    pub fn try_enter(&mut self) -> (entered: bool)
        ensures
            entered == !old(self).held(),
            (final(self).held(), entered) == guard_enter(old(self).held()),
    {
        if self.held {
            false
        } else {
            self.held = true;
            true
        }
    }

    /// Clear the flag on leaving the guarded region. Only the invocation
    /// whose `try_enter` returned true calls this.
    pub fn leave(&mut self)
        ensures
            !final(self).held(),
    {
        self.held = false;
    }
}

/// A guarded invocation that re-enters itself runs its body exactly once:
/// starting from a clear flag, the outer attempt runs the body, a nested
/// attempt made from within the body is skipped and leaves the flag as it
/// found it, and after the outer invocation releases — on a normal return or
/// on an error, since release happens on every exit path — the flag is clear
/// again.
pub proof fn lemma_guard_runs_body_once(flag: bool)
    requires
        !flag,
    ensures
        ({
            let (h1, outer_runs) = guard_enter(flag);
            let (h2, inner_runs) = guard_enter(h1);
            let h3 = guard_exit(h2, inner_runs);
            let h4 = guard_exit(h3, outer_runs);
            outer_runs && !inner_runs && h3 == h1 && !h4
        }),
{
}

} // verus!
