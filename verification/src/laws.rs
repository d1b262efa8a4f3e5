//! What holds of wrappers put together, and of each part for all requests.

pub mod arena;
pub mod bytes;
pub mod checks;
pub mod counting;
pub mod jitter;
pub mod requests;
pub mod system;
pub mod wrappers;

use crate::alloc_fault_policy::AllocFaultPolicy;
use crate::allocator;
use crate::allocator::{Allocator, Deallocator, Residue};
use crate::bump_arena::BumpArena;
use crate::fixed_range::FixedRange;
use crate::hardening::statistics;
use crate::hardening::{Canary, Faulty, PoisonOnFree, Statistics, ZeroizeOnFree};
use crate::layout::NonZeroLayout;
use crate::memory;
use crate::testing;
use vstd::prelude::*;

verus! {

/// Whatever is written to blocks in use, a block that could be given back still can.
pub proof fn blocks_stay_returnable<A: Deallocator>(
    a: A,
    m1: Map<int, u8>,
    m2: Map<int, u8>,
    p: int,
)
    requires
        a.wf(),
        a.live().contains_key(p),
        allocator::backed(a.region(), m1),
        allocator::same_outside(a.live(), m1, m2),
    ensures
        a.verdict(m1, p) is Sound <==> a.verdict(m2, p) is Sound,
{
    a.bookkeeping_apart(m1, m2, p);
}

/// An arena that was reset serves every request as it did when it was new.
pub proof fn reset_reuses_addresses<B: FixedRange>(
    first: BumpArena<B>,
    later: BumpArena<B>,
    again: BumpArena<B>,
    layout: NonZeroLayout,
)
    requires
        first.allocated() == 0,
        later.region_owner() == first.region_owner(),
        later.inside().base() == first.inside().base(),
        later.capacity() == first.capacity(),
        later.after_reset(again),
    ensures
        again.outcome(layout) == first.outcome(layout),
        again.allocated() == 0,
{
}

/// A request that the policy fails leaves the wrapped allocator as it was, so that it takes
/// nothing from what can still be served.
pub proof fn injected_faults_cost_nothing<I: Allocator, P: AllocFaultPolicy>(
    before: Faulty<I, P>,
    after: Faulty<I, P>,
    layout: NonZeroLayout,
)
    requires
        before.policy_spec().fails(layout),
        before.after_issue(layout, after),
    ensures
        before.outcome(layout) is None,
        after.inside() == before.inside(),
{
}

/// A block given back to a poisoning arena holds the pattern and nothing of what it held.
pub proof fn poisoned_arena_leaves_the_pattern<B: FixedRange>(a: PoisonOnFree<BumpArena<B>>)
    ensures
        a.residue() == Residue::Filled(a.pattern()),
{
}

/// A block given back to a guarded arena has no guard word left around it.
pub proof fn guarded_arena_leaves_no_guards<B: FixedRange>(
    a: Canary<BumpArena<B>>,
    m: Map<int, u8>,
    p: int,
)
    requires
        a.wf(),
        a.live().contains_key(p),
        allocator::backed(a.region(), m),
        a.verdict(m, p) is Sound,
    ensures
        memory::word_at(a.freed(m, p), p - 8) == 0,
        memory::word_at(a.freed(m, p), p + a.live()[p].layout.size()) == 0,
{
    a.guard_words_are_cleared(m, p);
}

/// A block given back to a clearing arena is zero.
pub proof fn cleared_arena_leaves_zeros<B: FixedRange>(a: ZeroizeOnFree<BumpArena<B>>)
    ensures
        a.residue() == Residue::Filled(0),
{
}

/// Where two wrappers overwrite a block, the inner one has the last word.
pub proof fn inner_scrub_wins<B: FixedRange>(
    poison_outside: PoisonOnFree<ZeroizeOnFree<BumpArena<B>>>,
    zeroize_outside: ZeroizeOnFree<PoisonOnFree<BumpArena<B>>>,
)
    ensures
        poison_outside.residue() == Residue::Filled(0),
        zeroize_outside.residue() == Residue::Filled(zeroize_outside.inside().pattern()),
{
}

/// Counting and scrubbing change neither which requests are served nor where blocks lie.
pub proof fn observers_do_not_interfere<I: Allocator>(
    counted: Statistics<PoisonOnFree<I>>,
    layout: NonZeroLayout,
)
    ensures
        counted.outcome(layout) == counted.inside().inside().outcome(layout),
        counted.region() == counted.inside().inside().region(),
        counted.budget() == counted.inside().inside().budget(),
{
}

/// Holding three blocks of 64 bytes at once and giving them back is counted as three
/// requests served and three blocks given back. No failure is added, the bytes in use are
/// what they were, and the peak has seen 192 bytes more.
pub proof fn round_trip_is_counted<I: Allocator>(
    s: Statistics<I>,
    m: Map<int, u8>,
    layout: NonZeroLayout,
    s2: Statistics<I>,
    m2: Map<int, u8>,
)
    requires
        layout.size() == 64,
        s.counts().bytes + 192 <= usize::MAX,
        testing::round_trip(s, m, layout, s2, m2, Ok(())),
    ensures
        s2.counts().allocations == s.counts().allocations.wrapping_add(3),
        s2.counts().deallocations == s.counts().deallocations.wrapping_add(3),
        s2.counts().failures == s.counts().failures,
        s2.counts().bytes == s.counts().bytes,
        s2.counts().peak == statistics::larger(
            s.counts().peak,
            (s.counts().bytes + 192) as usize,
        ),
{
    let run = choose|run: Seq<(Statistics<I>, Map<int, u8>)>|
        {
            &&& #[trigger] testing::holds_three(run, layout)
            &&& run.first() == (s, m)
            &&& run.len() == 7 && run.last() == (s2, m2)
        };
    assert(testing::holding_step(run, layout, 0));
    assert(testing::holding_step(run, layout, 1));
    assert(testing::holding_step(run, layout, 2));
    let p1 = run[0].0.outcome(layout)->Some_0.addr as int;
    let p2 = run[1].0.outcome(layout)->Some_0.addr as int;
    let p3 = run[2].0.outcome(layout)->Some_0.addr as int;
    assert(run[1].0.live().contains_key(p1));
    assert(run[2].0.live().contains_key(p1) && run[2].0.live().contains_key(p2));
    assert(testing::holding_step(run, layout, 3));
    assert(testing::holding_step(run, layout, 4));
    assert(testing::holding_step(run, layout, 5));
}

} // verus!
