//! Counting decorator: two counters over an allocator's entry points.
//!
//! `total` counts every allocation ever observed (monotonically increasing);
//! `active` counts allocations not yet deallocated. A reallocation counts as
//! a new allocation for `total` and leaves `active` unchanged, since it
//! replaces an existing live allocation — a deliberate policy, not a
//! free-plus-alloc pair.
//!
//! The real memory work — forwarding each call to the wrapped allocator and
//! returning its result unchanged, including failure — stays with the
//! process-global hook that owns a `Counting` value; the decorator itself
//! never fails and only bookkeeps.

use vstd::prelude::*;

verus! {

/// One observed allocator operation, as the counters see it: no addresses,
/// no sizes, only which entry point ran.
#[derive(Clone, Copy, PartialEq, Eq, Structural)]
pub enum CountEvent {
    Alloc,
    Dealloc,
    Realloc,
}

/// What one operation does to the counter pair `(total, active)`.
pub open spec fn apply_count_event(c: (int, int), e: CountEvent) -> (int, int) {
    match e {
        CountEvent::Alloc => (c.0 + 1, c.1 + 1),
        CountEvent::Dealloc => (c.0, c.1 - 1),
        CountEvent::Realloc => (c.0 + 1, c.1),
    }
}

/// The counter pair after a sequence of operations.
pub open spec fn apply_count_events(c: (int, int), evts: Seq<CountEvent>) -> (int, int)
    decreases evts.len(),
{
    if evts.len() == 0 {
        c
    } else {
        apply_count_event(apply_count_events(c, evts.drop_last()), evts.last())
    }
}

/// How many events of the sequence are allocations.
pub open spec fn num_allocs(evts: Seq<CountEvent>) -> int
    decreases evts.len(),
{
    if evts.len() == 0 {
        0
    } else {
        num_allocs(evts.drop_last()) + if evts.last() is Alloc {
            1int
        } else {
            0int
        }
    }
}

/// How many events of the sequence are deallocations.
pub open spec fn num_deallocs(evts: Seq<CountEvent>) -> int
    decreases evts.len(),
{
    if evts.len() == 0 {
        0
    } else {
        num_deallocs(evts.drop_last()) + if evts.last() is Dealloc {
            1int
        } else {
            0int
        }
    }
}

/// How many events of the sequence are reallocations.
pub open spec fn num_reallocs(evts: Seq<CountEvent>) -> int
    decreases evts.len(),
{
    if evts.len() == 0 {
        0
    } else {
        num_reallocs(evts.drop_last()) + if evts.last() is Realloc {
            1int
        } else {
            0int
        }
    }
}

/// The counters after a sequence of operations, in closed form: `total`
/// grows by one per allocation and reallocation, `active` by one per
/// allocation less one per deallocation.
pub proof fn lemma_counts_closed_form(c: (int, int), evts: Seq<CountEvent>)
    ensures
        apply_count_events(c, evts) == (
            c.0 + num_allocs(evts) + num_reallocs(evts),
            c.1 + num_allocs(evts) - num_deallocs(evts),
        ),
    decreases evts.len(),
{
    if evts.len() > 0 {
        lemma_counts_closed_form(c, evts.drop_last());
    }
}

/// N allocation calls with no deallocations leave `total == N` and
/// `active == N`.
pub proof fn lemma_counts_all_allocs(evts: Seq<CountEvent>)
    requires
        forall|i: int| 0 <= i < evts.len() ==> evts[i] is Alloc,
    ensures
        apply_count_events((0int, 0int), evts) == (evts.len() as int, evts.len() as int),
    decreases evts.len(),
{
    if evts.len() > 0 {
        assert(forall|i: int|
            0 <= i < evts.drop_last().len() ==> evts.drop_last()[i] == evts[i]);
        lemma_counts_all_allocs(evts.drop_last());
        assert(evts.last() == evts[evts.len() - 1]);
    }
}

/// N allocations and N matching deallocations, in any order and however
/// interleaved, leave `active == 0` and `total == N`.
pub proof fn lemma_counts_balanced(evts: Seq<CountEvent>, n: int)
    requires
        num_allocs(evts) == n,
        num_deallocs(evts) == n,
        num_reallocs(evts) == 0,
    ensures
        apply_count_events((0int, 0int), evts) == (n, 0int),
{
    lemma_counts_closed_form((0int, 0int), evts);
}

/// M threads each performing K allocate/deallocate pairs concurrently: every
/// interleaving is some sequence with `m * k` allocations and `m * k`
/// deallocations, and each counter update is a single atomic step, so the
/// final counts are `total == m * k` and `active == 0` regardless of the
/// interleaving.
pub proof fn lemma_counts_concurrent_pairs(evts: Seq<CountEvent>, m: nat, k: nat)
    requires
        num_allocs(evts) == m * k,
        num_deallocs(evts) == m * k,
        num_reallocs(evts) == 0,
    ensures
        apply_count_events((0int, 0int), evts) == ((m * k) as int, 0int),
{
    lemma_counts_balanced(evts, (m * k) as int);
}

/// In a sequence where no prefix deallocates more than was allocated before
/// it — deallocations match prior allocations — the counters keep the
/// invariant `0 <= active <= total`.
pub proof fn lemma_counts_invariant(evts: Seq<CountEvent>)
    requires
        forall|i: int|
            0 <= i <= evts.len() ==> num_deallocs(#[trigger] evts.take(i)) <= num_allocs(
                evts.take(i),
            ),
    ensures
        0 <= apply_count_events((0int, 0int), evts).1,
        apply_count_events((0int, 0int), evts).1 <= apply_count_events((0int, 0int), evts).0,
{
    lemma_counts_closed_form((0int, 0int), evts);
    lemma_counts_nonneg(evts);
    assert(evts.take(evts.len() as int) == evts);
}

/// The event tallies are never negative.
proof fn lemma_counts_nonneg(evts: Seq<CountEvent>)
    ensures
        num_allocs(evts) >= 0,
        num_deallocs(evts) >= 0,
        num_reallocs(evts) >= 0,
    decreases evts.len(),
{
    if evts.len() > 0 {
        lemma_counts_nonneg(evts.drop_last());
    }
}

/// The counting decorator's state: a lifetime total and a currently-active
/// count. The wrapped allocator performs the memory work; these counters are
/// an observability signal, read independently, not a synchronization
/// primitive.
pub struct Counting {
    total: usize,
    active: usize,
}

impl Counting {
    /// At most as many allocations are live as were ever made.
    #[verifier::type_invariant]
    spec fn inv(self) -> bool {
        self.active <= self.total
    }

    /// Allocations ever observed.
    pub closed spec fn spec_total(&self) -> usize {
        self.total
    }

    /// Allocations observed and not yet deallocated.
    pub closed spec fn spec_active(&self) -> usize {
        self.active
    }

    /// A decorator around the system allocator, with both counters at zero.
    pub fn default() -> (c: Self)
        ensures
            c.spec_total() == 0,
            c.spec_active() == 0,
    {
        Counting { total: 0, active: 0 }
    }

    /// A fresh decorator with both counters at zero; the caller wires it
    /// around whichever inner allocator it instruments.
    pub fn new() -> (c: Self)
        ensures
            c.spec_total() == 0,
            c.spec_active() == 0,
    {
        Counting { total: 0, active: 0 }
    }

    /// A snapshot `(total, active)`. Each field is read on its own; under
    /// concurrent use the pair need not come from one instant.
    pub fn counts(&self) -> (r: (usize, usize))
        ensures
            r.0 == self.spec_total(),
            r.1 == self.spec_active(),
            r.1 <= r.0,
    {
        proof {
            use_type_invariant(self);
        }
        (self.total, self.active)
    }

    /// Observe one allocation: both counters grow by one.
    pub fn record_alloc(&mut self)
        requires
            old(self).spec_total() < usize::MAX,
        ensures
            (final(self).spec_total() as int, final(self).spec_active() as int)
                == apply_count_event(
                (old(self).spec_total() as int, old(self).spec_active() as int),
                CountEvent::Alloc,
            ),
    {
        proof {
            use_type_invariant(&*self);
        }
        self.total = self.total + 1;
        self.active = self.active + 1;
    }

    /// Observe one deallocation: the active count drops by one, the total
    /// stands.
    pub fn record_dealloc(&mut self)
        requires
            old(self).spec_active() > 0,
        ensures
            (final(self).spec_total() as int, final(self).spec_active() as int)
                == apply_count_event(
                (old(self).spec_total() as int, old(self).spec_active() as int),
                CountEvent::Dealloc,
            ),
    {
        proof {
            use_type_invariant(&*self);
        }
        self.active = self.active - 1;
    }

    /// Observe one reallocation: it replaces a live allocation, so the total
    /// grows by one and the active count stands.
    pub fn record_realloc(&mut self)
        requires
            old(self).spec_total() < usize::MAX,
        ensures
            (final(self).spec_total() as int, final(self).spec_active() as int)
                == apply_count_event(
                (old(self).spec_total() as int, old(self).spec_active() as int),
                CountEvent::Realloc,
            ),
    {
        proof {
            use_type_invariant(&*self);
        }
        self.total = self.total + 1;
    }
}

} // verus!
