//! `ZeroizeOnFree`: blocks cleared when they are given back.

use crate::allocator;
use crate::allocator::{Allocator, Block, Corruption, Deallocator, Grant, Residue, Verdict};
use crate::fixed_range::FixedRange;
use crate::layout::{AllocError, NonZeroLayout};
use crate::memory;
use crate::memory::{fill, Memory};
use vstd::prelude::*;

verus! {

/// Clears a block before it is given back, so that what it held does not outlive it.
///
/// A block that is resized moves, so its old place is cleared too.
pub struct ZeroizeOnFree<I> {
    inner: I,
}

impl<I> ZeroizeOnFree<I> {
    /// The wrapped allocator.
    pub closed spec fn inside(&self) -> I {
        self.inner
    }

    /// Wraps `inner`.
    pub fn new(inner: I) -> (r: Self)
        ensures
            r.inside() == inner,
    {
        ZeroizeOnFree { inner }
    }

    /// The wrapped allocator.
    pub fn inner(&self) -> (r: &I)
        ensures
            *r == self.inside(),
    {
        &self.inner
    }
}

impl<I: Allocator> ZeroizeOnFree<I> {
    /// The bytes that are cleared: all that were asked for.
    pub open spec fn scrub_len(&self, p: int) -> int {
        self.live()[p].layout.size() as int
    }

    /// Memory with the block at `p` overwritten.
    pub open spec fn scrubbed(&self, m: Map<int, u8>, p: int) -> Map<int, u8> {
        memory::overlay(m, p, memory::repeated(0, self.scrub_len(p)))
    }
}

impl<I: Allocator> Deallocator for ZeroizeOnFree<I> {
    open spec fn wf(&self) -> bool {
        self.inside().wf()
    }

    open spec fn region(&self) -> Set<int> {
        self.inside().region()
    }

    open spec fn live(&self) -> Map<int, Grant> {
        self.inside().live()
    }

    open spec fn budget(&self) -> Option<usize> {
        self.inside().budget()
    }

    open spec fn events(&self) -> u64 {
        self.inside().events()
    }

    open spec fn residue(&self) -> Residue {
        match self.inside().residue() {
            Residue::Kept => Residue::Filled(0),
            Residue::Filled(b) => Residue::Filled(b),
        }
    }

    open spec fn verdict(&self, m: Map<int, u8>, p: int) -> Verdict {
        self.inside().verdict(m, p)
    }

    open spec fn freed(&self, m: Map<int, u8>, p: int) -> Map<int, u8> {
        self.inside().freed(self.scrubbed(m, p), p)
    }

    open spec fn after_return(&self, m: Map<int, u8>, p: int, next: Self) -> bool {
        self.inside().after_return(self.scrubbed(m, p), p, next.inside())
    }

    proof fn live_blocks(&self) {
        self.inner.live_blocks();
    }

    proof fn bookkeeping_apart(&self, m1: Map<int, u8>, m2: Map<int, u8>, p: int) {
        self.inner.bookkeeping_apart(m1, m2, p);
    }

    fn deallocate<M: Memory>(&mut self, mem: &mut M, ptr: usize, layout: NonZeroLayout) -> (r:
        Result<(), Corruption>)
    {
        let ghost m0 = mem.view();
        let ghost s0 = *self;
        let ghost p = ptr as int;
        let ghost live = self.inner.live();
        proof {
            self.inner.live_blocks();
            assert(self.inner.live().contains_key(p));
            allocator::lemma_in_block(live, p);
        }
        let n: usize = layout.size();
        fill(mem, ptr, n, 0);
        let ghost m1 = mem.view();
        proof {
            allocator::lemma_overlay_inside(
                live,
                m0,
                p,
                memory::repeated(0, n as int),
                p,
            );
            assert forall|q: int| #[trigger] live.contains_key(q) implies self.inner.verdict(m1, q)
                == self.inner.verdict(m0, q) by {
                self.inner.bookkeeping_apart(m0, m1, q);
            }
            assert forall|a: int| allocator::in_blocks(live.remove(p), a) implies !(p <= a < p
                + live[p].len) by {
                let q = choose|q: int| #[trigger]
                    live.remove(p).contains_key(q) && q <= a < q + live.remove(p)[q].len;
                assert(live.contains_key(q));
            }
            assert forall|q: int| #[trigger] live.remove(p).contains_key(q) implies live.contains_key(
                q,
            ) by {}
        }
        self.inner.deallocate(mem, ptr, layout)
    }
}

impl<I: Allocator> Allocator for ZeroizeOnFree<I> {
    open spec fn outcome(&self, layout: NonZeroLayout) -> Option<Block> {
        self.inside().outcome(layout)
    }

    open spec fn issued(&self, m: Map<int, u8>, layout: NonZeroLayout) -> Map<int, u8> {
        self.inside().issued(m, layout)
    }

    open spec fn usable(&self, p: int, layout: NonZeroLayout) -> Option<usize> {
        self.inside().usable(p, layout)
    }

    open spec fn resettable(&self) -> bool {
        self.inside().resettable()
    }

    open spec fn after_issue(&self, layout: NonZeroLayout, next: Self) -> bool {
        self.inside().after_issue(layout, next.inside())
    }

    open spec fn after_reset(&self, next: Self) -> bool {
        self.inside().after_reset(next.inside())
    }

    fn allocate<M: Memory>(&mut self, mem: &mut M, layout: NonZeroLayout) -> (r: Result<
        Block,
        AllocError,
    >)
    {
        let r = self.inner.allocate(mem, layout);
        assert(old(self).issued(old(mem).view(), layout) == old(self).inside().issued(
            old(mem).view(),
            layout,
        ));
        r
    }

    fn allocate_zeroed<M: Memory>(&mut self, mem: &mut M, layout: NonZeroLayout) -> (r: Result<
        Block,
        AllocError,
    >)
    {
        self.inner.allocate_zeroed(mem, layout)
    }

    fn reset(&mut self) -> (r: Result<(), AllocError>) {
        self.inner.reset()
    }

    fn usable_size(&self, ptr: usize, layout: NonZeroLayout) -> (r: Option<usize>) {
        self.inner.usable_size(ptr, layout)
    }

    fn capacity_bytes(&self) -> (r: Option<usize>) {
        self.inner.capacity_bytes()
    }

    fn corruption_events(&self) -> (r: u64) {
        self.inner.corruption_events()
    }
}

impl<I: FixedRange> FixedRange for ZeroizeOnFree<I> {
    open spec fn start(&self) -> usize {
        self.inside().start()
    }

    open spec fn extent(&self) -> usize {
        self.inside().extent()
    }

    open spec fn commits(&self, offset: int, len: int) -> bool {
        self.inside().commits(offset, len)
    }

    fn base(&self) -> (r: usize) {
        self.inner.base()
    }

    fn size(&self) -> (r: usize) {
        self.inner.size()
    }

    fn commit(&self, offset: usize, len: usize) -> (r: Result<(), AllocError>) {
        self.inner.commit(offset, len)
    }
}

} // verus!
