//! `Statistics`: counts of what goes through an allocator.

use crate::allocator;
use crate::allocator::{Allocator, Block, Corruption, Deallocator, Grant, Residue, Verdict};
use crate::cache_padded::CachePadded;
use crate::fixed_range::FixedRange;
use crate::layout::{AllocError, NonZeroLayout};
use crate::memory::Memory;
use vstd::prelude::*;

verus! {

/// Counters of allocation activity.
#[non_exhaustive]
#[derive(Debug)]
pub struct AllocStats {
    /// Requests that were served.
    pub total_allocations: CachePadded<usize>,
    /// Blocks that were given back.
    pub total_deallocations: CachePadded<usize>,
    /// Bytes asked for by the blocks in use.
    pub bytes_allocated: CachePadded<usize>,
    /// The most bytes that were ever in use.
    pub bytes_peak: CachePadded<usize>,
    /// Requests that were refused.
    pub failures: CachePadded<usize>,
    /// The damage events that the wrapped allocator has counted, as last seen.
    pub corruption_events: CachePadded<usize>,
}

/// The counters as plain numbers.
pub struct Counts {
    pub allocations: usize,
    pub deallocations: usize,
    pub bytes: usize,
    pub peak: usize,
    pub failures: usize,
    pub events: usize,
}

/// The larger of two numbers.
pub open spec fn larger(a: usize, b: usize) -> usize {
    if a >= b {
        a
    } else {
        b
    }
}

/// A 64-bit count cut to the machine word.
pub open spec fn clamped(n: u64) -> usize {
    if n > usize::MAX {
        usize::MAX
    } else {
        n as usize
    }
}

impl Counts {
    /// The counts after a request of `size` bytes was served, `events` being what the
    /// wrapped allocator reports.
    pub open spec fn served(self, size: usize, events: u64) -> Counts {
        Counts {
            allocations: self.allocations.wrapping_add(1),
            bytes: self.bytes.wrapping_add(size),
            peak: larger(self.peak, self.bytes.saturating_add(size)),
            events: larger(self.events, clamped(events)),
            ..self
        }
    }

    /// The counts after a request was refused.
    pub open spec fn refused(self, events: u64) -> Counts {
        Counts {
            failures: self.failures.wrapping_add(1),
            events: larger(self.events, clamped(events)),
            ..self
        }
    }

    /// The counts after a block of `size` bytes was handed in.
    pub open spec fn returned(self, size: usize, events: u64) -> Counts {
        Counts {
            deallocations: self.deallocations.wrapping_add(1),
            bytes: self.bytes.wrapping_sub(size),
            events: larger(self.events, clamped(events)),
            ..self
        }
    }
}

impl AllocStats {
    /// The counters as plain numbers.
    pub open spec fn counts(&self) -> Counts {
        Counts {
            allocations: self.total_allocations.value(),
            deallocations: self.total_deallocations.value(),
            bytes: self.bytes_allocated.value(),
            peak: self.bytes_peak.value(),
            failures: self.failures.value(),
            events: self.corruption_events.value(),
        }
    }

    /// Counters at zero.
    pub fn new() -> (r: Self)
        ensures
            r.counts() == (Counts {
                allocations: 0,
                deallocations: 0,
                bytes: 0,
                peak: 0,
                failures: 0,
                events: 0,
            }),
    {
        AllocStats {
            total_allocations: CachePadded::new(0),
            total_deallocations: CachePadded::new(0),
            bytes_allocated: CachePadded::new(0),
            bytes_peak: CachePadded::new(0),
            failures: CachePadded::new(0),
            corruption_events: CachePadded::new(0),
        }
    }

    /// Bytes in use.
    pub fn current_bytes(&self) -> (r: u64)
        ensures
            r == self.counts().bytes,
    {
        *self.bytes_allocated as u64
    }

    /// The most bytes ever in use.
    pub fn peak_bytes(&self) -> (r: u64)
        ensures
            r == self.counts().peak,
    {
        *self.bytes_peak as u64
    }

    /// The number of blocks in use: requests served less blocks given back.
    pub fn live_count(&self) -> (r: i64)
        requires
            i64::MIN <= (self.counts().allocations as i64) - (self.counts().deallocations as i64)
                <= i64::MAX,
        ensures
            r == (self.counts().allocations as i64) - (self.counts().deallocations as i64),
    {
        let a: i64 = *self.total_allocations as i64;
        let d: i64 = *self.total_deallocations as i64;
        a - d
    }
}

impl Default for AllocStats {
    fn default() -> (r: Self)
        ensures
            r.counts() == (Counts {
                allocations: 0,
                deallocations: 0,
                bytes: 0,
                peak: 0,
                failures: 0,
                events: 0,
            }),
    {
        AllocStats::new()
    }
}

/// The bytes asked for by the blocks that start below `top`.
pub open spec fn bytes_below(live: Map<int, Grant>, top: int) -> int
    decreases top,
{
    if top <= 0 {
        0
    } else {
        bytes_below(live, top - 1) + if live.contains_key(top - 1) {
            live[top - 1].layout.size() as int
        } else {
            0
        }
    }
}

/// The bytes asked for by all blocks.
pub open spec fn bytes_in(live: Map<int, Grant>) -> int {
    bytes_below(live, usize::MAX + 1)
}

proof fn lemma_bytes_insert(live: Map<int, Grant>, p: int, g: Grant, top: int)
    requires
        p >= 0,
        !live.contains_key(p),
    ensures
        bytes_below(live.insert(p, g), top) == bytes_below(live, top) + if p < top {
            g.layout.size() as int
        } else {
            0
        },
    decreases top,
{
    if top > 0 {
        lemma_bytes_insert(live, p, g, top - 1);
    }
}

proof fn lemma_bytes_remove(live: Map<int, Grant>, p: int)
    requires
        0 <= p <= usize::MAX,
        live.contains_key(p),
    ensures
        bytes_in(live.remove(p)) == bytes_in(live) - live[p].layout.size(),
{
    lemma_bytes_insert(live.remove(p), p, live[p], usize::MAX + 1);
    assert(live.remove(p).insert(p, live[p]) =~= live);
}

/// Blocks that do not overlap cannot ask for more bytes than there are addresses.
proof fn lemma_bytes_bound(live: Map<int, Grant>, top: int, end: int)
    requires
        allocator::apart(live),
        forall|p: int| #[trigger] live.contains_key(p) ==> allocator::serves(p, live[p]),
        forall|p: int| #[trigger] live.contains_key(p) && p < top ==> p + live[p].len <= end,
        end >= 1,
    ensures
        0 <= bytes_below(live, top) <= end - 1,
    decreases top,
{
    if top > 0 {
        let p = top - 1;
        if live.contains_key(p) {
            lemma_bytes_bound(live, p, p);
        } else {
            lemma_bytes_bound(live, p, end);
        }
    }
}

/// Counting one up or down goes on round the machine word.
proof fn lemma_count_round(n: int, step: int)
    requires
        n >= 0,
        step == 1 || step == -1,
    ensures
        ({
            let top = usize::MAX + 1;
            let at = n % top;
            (n + step) % top == if at + step == top {
                0
            } else if at + step < 0 {
                top - 1
            } else {
                at + step
            }
        }),
        (0int) % (usize::MAX + 1) == 0,
{
    let top = usize::MAX + 1;
    let at = n % top;
    let q = n / top;
    vstd::arithmetic::div_mod::lemma_fundamental_div_mod(n, top);
    vstd::arithmetic::div_mod::lemma_small_mod(0, top as nat);
    if at + step == top {
        vstd::arithmetic::div_mod::lemma_fundamental_div_mod_converse(n + step, top, q + 1, 0);
    } else if at + step < 0 {
        vstd::arithmetic::div_mod::lemma_fundamental_div_mod_converse(n + step, top, q - 1, top - 1);
    } else {
        vstd::arithmetic::div_mod::lemma_fundamental_div_mod_converse(n + step, top, q, at + step);
    }
}

/// Giving back what was just served restores the byte count; the peak and the mirrored
/// events never go down.
pub proof fn counting_is_reversible(c: Counts, size: usize, e1: u64, e2: u64)
    ensures
        c.served(size, e1).returned(size, e2).bytes == c.bytes,
        c.served(size, e1).peak >= c.peak,
        c.refused(e1).peak == c.peak,
        c.refused(e1).bytes == c.bytes,
        c.returned(size, e1).peak == c.peak,
        c.served(size, e1).events >= c.events,
        c.returned(size, e1).events >= c.events,
        c.refused(e1).events >= c.events,
{
}

/// Brings a mirrored count up to date; it never goes down.
fn mirror_corruption(mirror: &mut CachePadded<usize>, inner_val: u64)
    ensures
        final(mirror).value() == larger(old(mirror).value(), clamped(inner_val)),
{
    let seen: usize = if inner_val > usize::MAX as u64 {
        usize::MAX
    } else {
        inner_val as usize
    };
    if seen > **mirror {
        *mirror = CachePadded::new(seen);
    }
}

/// Counts what goes through the wrapped allocator.
///
/// Bytes are counted as they were asked for, whatever the wrapped allocator adds to them.
pub struct Statistics<I> {
    inner: I,
    stats: AllocStats,
    live: Ghost<Map<int, Grant>>,
    exact: Ghost<bool>,
}

impl<I> Statistics<I> {
    /// The wrapped allocator.
    pub closed spec fn inside(&self) -> I {
        self.inner
    }

    /// The counts.
    pub closed spec fn counts(&self) -> Counts {
        self.stats.counts()
    }

    /// Whether every block that was handed in was also taken back: no damage was found.
    pub closed spec fn exact(&self) -> bool {
        self.exact@
    }

    /// The counters.
    pub fn stats(&self) -> (r: &AllocStats)
        ensures
            r.counts() == self.counts(),
    {
        &self.stats
    }

    /// The wrapped allocator.
    pub fn inner(&self) -> (r: &I)
        ensures
            *r == self.inside(),
    {
        &self.inner
    }
}

impl<I: Allocator> Statistics<I> {
    /// Wraps `inner`, with counters at zero.
    pub fn new(inner: I) -> (r: Self)
        requires
            inner.wf(),
        ensures
            r.wf(),
            r.inside() == inner,
            r.exact(),
            r.live() == Map::<int, Grant>::empty(),
            r.counts() == (Counts {
                allocations: 0,
                deallocations: 0,
                bytes: 0,
                peak: 0,
                failures: 0,
                events: 0,
            }),
    {
        proof {
            lemma_bytes_none(usize::MAX + 1);
            lemma_count_round(0, 1);
        }
        Statistics {
            inner,
            stats: AllocStats::new(),
            live: Ghost(Map::empty()),
            exact: Ghost(true),
        }
    }

    /// Unless damage was found, the byte count is what the blocks in use ask for, it never
    /// exceeds the peak, and the number of requests served less that of blocks given back
    /// is the number of blocks in use, counted round the machine word.
    pub proof fn counts_match_live_blocks(&self)
        requires
            self.wf(),
            self.exact(),
        ensures
            self.counts().bytes == bytes_in(self.live()),
            self.counts().bytes <= self.counts().peak,
            self.counts().allocations.wrapping_sub(self.counts().deallocations) as int
                == self.live().dom().len() as int % (usize::MAX + 1),
    {
    }
}

proof fn lemma_bytes_none(top: int)
    ensures
        bytes_below(Map::<int, Grant>::empty(), top) == 0,
    decreases top,
{
    if top > 0 {
        lemma_bytes_none(top - 1);
    }
}

impl<I: Allocator> Deallocator for Statistics<I> {
    closed spec fn wf(&self) -> bool {
        &&& self.inner.wf()
        &&& forall|p: int| #[trigger]
            self.live@.contains_key(p) ==> self.inner.live().contains_key(p)
                && self.inner.live()[p] == self.live@[p]
        &&& self.live@.dom().finite()
        &&& self.exact@ ==> {
            &&& self.counts().bytes == bytes_in(self.live@)
            &&& self.counts().bytes <= self.counts().peak
            &&& self.counts().allocations.wrapping_sub(self.counts().deallocations) as int
                == self.live@.dom().len() as int % (usize::MAX + 1)
        }
    }

    open spec fn region(&self) -> Set<int> {
        self.inside().region()
    }

    closed spec fn live(&self) -> Map<int, Grant> {
        self.live@
    }

    open spec fn budget(&self) -> Option<usize> {
        self.inside().budget()
    }

    open spec fn events(&self) -> u64 {
        self.inside().events()
    }

    open spec fn residue(&self) -> Residue {
        self.inside().residue()
    }

    open spec fn verdict(&self, m: Map<int, u8>, p: int) -> Verdict {
        self.inside().verdict(m, p)
    }

    open spec fn freed(&self, m: Map<int, u8>, p: int) -> Map<int, u8> {
        self.inside().freed(m, p)
    }

    open spec fn after_return(&self, m: Map<int, u8>, p: int, next: Self) -> bool {
        &&& next.counts() == self.counts().returned(self.live()[p].layout.size(), self.events())
        &&& next.exact() == (self.exact() && self.verdict(m, p) is Sound)
        &&& self.inside().after_return(m, p, next.inside())
    }

    proof fn live_blocks(&self) {
        self.inner.live_blocks();
        allocator::lemma_fewer_blocks(self.live@, self.inner.live());
        assert forall|p: int| #[trigger] self.live().contains_key(p) implies allocator::serves(
            p,
            self.live()[p],
        ) by {
            assert(self.inner.live().contains_key(p));
        }
        assert forall|p: int, q: int| #[trigger]
            self.live().contains_key(p) && #[trigger] self.live().contains_key(q) && p
                != q implies p + self.live()[p].len <= q || q + self.live()[q].len <= p by {
            assert(self.inner.live().contains_key(p));
            assert(self.inner.live().contains_key(q));
        }
    }

    proof fn bookkeeping_apart(&self, m1: Map<int, u8>, m2: Map<int, u8>, p: int) {
        allocator::lemma_fewer_blocks(self.live@, self.inner.live());
        self.inner.bookkeeping_apart(m1, m2, p);
    }

    fn deallocate<M: Memory>(&mut self, mem: &mut M, ptr: usize, layout: NonZeroLayout) -> (r:
        Result<(), Corruption>)
        ensures
            final(self).counts().deallocations == old(self).counts().deallocations.wrapping_add(1),
            final(self).counts().bytes == old(self).counts().bytes.wrapping_sub(layout.size()),
            final(self).counts().allocations == old(self).counts().allocations,
            final(self).counts().failures == old(self).counts().failures,
            final(self).counts().peak == old(self).counts().peak,
    {
        let ghost p = ptr as int;
        let ghost live = self.live@;
        proof {
            self.live_blocks();
            allocator::lemma_fewer_blocks(live.remove(p), self.inner.live().remove(p));
            lemma_bytes_remove(live, p);
            lemma_bytes_bound(live, usize::MAX + 1, usize::MAX + 1);
            lemma_bytes_bound(live.remove(p), usize::MAX + 1, usize::MAX + 1);
            assert forall|q: int| #[trigger] live.remove(p).contains_key(q) implies self.inner.live().remove(
                p,
            ).contains_key(q) by {
                assert(live.contains_key(q));
            }
        }
        let size: usize = layout.size();
        let done: usize = *self.stats.total_deallocations;
        self.stats.total_deallocations = CachePadded::new(done.wrapping_add(1));
        let bytes: usize = *self.stats.bytes_allocated;
        self.stats.bytes_allocated = CachePadded::new(bytes.wrapping_sub(size));
        mirror_corruption(&mut self.stats.corruption_events, self.inner.corruption_events());
        match self.inner.deallocate(mem, ptr, layout) {
            Ok(_) => {
                self.live = Ghost(self.live@.remove(p));
                proof {
                    lemma_count_round(live.dom().len() as int, -1);
                }
                Ok(())
            },
            Err(c) => {
                self.exact = Ghost(false);
                Err(c)
            },
        }
    }
}

impl<I: Allocator> Allocator for Statistics<I> {
    open spec fn outcome(&self, layout: NonZeroLayout) -> Option<Block> {
        self.inside().outcome(layout)
    }

    open spec fn issued(&self, m: Map<int, u8>, layout: NonZeroLayout) -> Map<int, u8> {
        self.inside().issued(m, layout)
    }

    open spec fn usable(&self, p: int, layout: NonZeroLayout) -> Option<usize> {
        None
    }

    open spec fn resettable(&self) -> bool {
        false
    }

    open spec fn after_issue(&self, layout: NonZeroLayout, next: Self) -> bool {
        &&& next.counts() == if self.outcome(layout) is Some {
            self.counts().served(layout.size(), next.events())
        } else {
            self.counts().refused(next.events())
        }
        &&& next.exact() == self.exact()
        &&& self.inside().after_issue(layout, next.inside())
    }

    open spec fn after_reset(&self, next: Self) -> bool {
        false
    }

    fn allocate<M: Memory>(&mut self, mem: &mut M, layout: NonZeroLayout) -> (r: Result<
        Block,
        AllocError,
    >)
        ensures
            final(self).counts().failures == if r is Err {
                old(self).counts().failures.wrapping_add(1)
            } else {
                old(self).counts().failures
            },
            final(self).counts().allocations == if r is Ok {
                old(self).counts().allocations.wrapping_add(1)
            } else {
                old(self).counts().allocations
            },
            final(self).counts().bytes == if r is Ok {
                old(self).counts().bytes.wrapping_add(layout.size())
            } else {
                old(self).counts().bytes
            },
            final(self).counts().deallocations == old(self).counts().deallocations,
    {
        let ghost live = self.live@;
        proof {
            allocator::lemma_fewer_blocks(live, self.inner.live());
            assert forall|q: int| #[trigger] live.contains_key(q) implies self.inner.live().contains_key(
                q,
            ) by {}
        }
        let result = self.inner.allocate(mem, layout);
        mirror_corruption(&mut self.stats.corruption_events, self.inner.corruption_events());
        match result {
            Ok(block) => {
                let size: usize = layout.size();
                let done: usize = *self.stats.total_allocations;
                self.stats.total_allocations = CachePadded::new(done.wrapping_add(1));
                let prev: usize = *self.stats.bytes_allocated;
                self.stats.bytes_allocated = CachePadded::new(prev.wrapping_add(size));
                let new: usize = prev.saturating_add(size);
                let peak: usize = *self.stats.bytes_peak;
                if new > peak {
                    self.stats.bytes_peak = CachePadded::new(new);
                }
                let ghost grant = Grant { layout, len: block.len };
                self.live = Ghost(self.live@.insert(block.addr as int, grant));
                proof {
                    self.inner.live_blocks();
                    assert(self.inner.live().contains_key(block.addr as int));
                    assert(!live.contains_key(block.addr as int)) by {
                        if live.contains_key(block.addr as int) {
                            assert(old(self).inner.live().contains_key(block.addr as int));
                            old(self).inner.live_blocks();
                        }
                    }
                    lemma_bytes_insert(live, block.addr as int, grant, usize::MAX + 1);
                    lemma_count_round(live.dom().len() as int, 1);
                    assert forall|p: int| #[trigger]
                        self.live@.contains_key(p) implies self.inner.live().contains_key(p)
                        && self.inner.live()[p] == self.live@[p] by {
                        if p != block.addr {
                            assert(live.contains_key(p));
                        }
                    }
                    assert(allocator::apart(self.live@)) by {
                        assert forall|p: int, q: int| #[trigger]
                            self.live@.contains_key(p) && #[trigger] self.live@.contains_key(q) && p
                                != q implies p + self.live@[p].len <= q || q + self.live@[q].len
                            <= p by {
                            assert(self.inner.live().contains_key(p));
                            assert(self.inner.live().contains_key(q));
                        }
                    }
                    assert forall|p: int| #[trigger]
                        self.live@.contains_key(p) implies allocator::serves(p, self.live@[p]) by {
                        assert(self.inner.live().contains_key(p));
                    }
                    lemma_bytes_bound(self.live@, usize::MAX + 1, usize::MAX + 1);
                    assert(allocator::clear_of(live, block.addr as int, block.len as int)) by {
                        assert forall|q: int| #[trigger] live.contains_key(q) implies block.addr
                            + block.len <= q || q + live[q].len <= block.addr by {
                            assert(old(self).inner.live().contains_key(q));
                        }
                    }
                }
                Ok(block)
            },
            Err(e) => {
                let done: usize = *self.stats.failures;
                self.stats.failures = CachePadded::new(done.wrapping_add(1));
                Err(e)
            },
        }
    }

    fn reset(&mut self) -> (r: Result<(), AllocError>) {
        Err(AllocError)
    }

    fn usable_size(&self, ptr: usize, layout: NonZeroLayout) -> (r: Option<usize>) {
        None
    }

    fn capacity_bytes(&self) -> (r: Option<usize>) {
        self.inner.capacity_bytes()
    }

    fn corruption_events(&self) -> (r: u64) {
        self.inner.corruption_events()
    }
}

impl<I: FixedRange> FixedRange for Statistics<I> {
    open spec fn start(&self) -> usize {
        self.inside().start()
    }

    open spec fn extent(&self) -> usize {
        self.inside().extent()
    }

    open spec fn commits(&self, offset: int, len: int) -> bool {
        true
    }

    fn base(&self) -> (r: usize) {
        self.inner.base()
    }

    fn size(&self) -> (r: usize) {
        self.inner.size()
    }

    fn commit(&self, offset: usize, len: usize) -> (r: Result<(), AllocError>) {
        Ok(())
    }
}

} // verus!
