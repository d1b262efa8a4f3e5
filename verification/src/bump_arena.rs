//! `BumpArena`: an allocator over any region.

use crate::allocator::{Allocator, Block, Corruption, Deallocator, Grant, Residue, Verdict};
use crate::bits;
use crate::bump;
use crate::bump::BumpCursor;
use crate::fixed_range::FixedRange;
use crate::layout::{AllocError, NonZeroLayout};
use crate::memory::Memory;
use vstd::prelude::*;

verus! {

/// Carves blocks off a region, front to back. Blocks are taken back all at once, by
/// [`Allocator::reset`].
pub struct BumpArena<B> {
    backing: B,
    cursor: BumpCursor,
}

impl<B> BumpArena<B> {
    /// The cursor over the region.
    pub closed spec fn inside(&self) -> BumpCursor {
        self.cursor
    }

    /// The region.
    pub closed spec fn region_owner(&self) -> B {
        self.backing
    }

    pub open spec fn allocated_spec(&self) -> usize {
        self.inside().used()
    }

    pub open spec fn capacity_spec(&self) -> usize {
        self.inside().limit()
    }

    /// The bytes issued so far, padding counted.
    #[verifier::when_used_as_spec(allocated_spec)]
    pub fn allocated(&self) -> (r: usize)
        ensures
            r == self.allocated(),
    {
        self.cursor.used()
    }

    /// The size of the region.
    #[verifier::when_used_as_spec(capacity_spec)]
    pub fn capacity(&self) -> (r: usize)
        ensures
            r == self.capacity(),
            r == self.inside().limit(),
    {
        self.cursor.limit()
    }

    /// The region.
    pub fn backing(&self) -> (r: &B)
        ensures
            *r == self.region_owner(),
    {
        &self.backing
    }
}

impl<B: FixedRange> BumpArena<B> {
    /// An arena over `backing`, or an error if the region is empty or reaches the end of
    /// the address space.
    pub fn new(backing: B) -> (r: Result<Self, AllocError>)
        ensures
            r is Ok <==> backing.start() > 0 && backing.extent() > 0 && backing.start()
                + backing.extent() <= usize::MAX,
            r matches Ok(a) ==> {
                &&& a.wf()
                &&& a.region_owner() == backing
                &&& a.inside().base() == backing.start()
                &&& a.capacity() == backing.extent()
                &&& a.allocated() == 0
                &&& a.live() == Map::<int, Grant>::empty()
                &&& a.region() == bump::addresses(backing.start() as int, backing.extent() as int)
            },
    {
        let base: usize = backing.base();
        let size: usize = backing.size();
        if base == 0 || size == 0 || base.checked_add(size).is_none() {
            return Err(AllocError);
        }
        Ok(BumpArena { backing, cursor: BumpCursor::new(base, size) })
    }

    /// The bytes not issued yet.
    pub fn remaining(&self) -> (r: usize)
        requires
            self.wf(),
        ensures
            r == self.capacity() - self.allocated(),
    {
        self.cursor.remaining()
    }

    /// Blocks are issued from the whole region and nothing else.
    pub proof fn serves_its_region(&self)
        requires
            self.wf(),
        ensures
            self.inside().base() == self.start(),
            self.capacity() == self.extent(),
            self.region() == bump::addresses(self.start() as int, self.extent() as int),
            self.start() > 0,
            self.start() + self.extent() <= usize::MAX + 1,
    {
        self.cursor.lemma_bounds();
    }
}

impl<B: FixedRange> Deallocator for BumpArena<B> {
    closed spec fn wf(&self) -> bool {
        &&& self.cursor.wf()
        &&& self.cursor.base() == self.backing.start()
        &&& self.cursor.limit() == self.backing.extent()
    }

    open spec fn region(&self) -> Set<int> {
        self.inside().region()
    }

    open spec fn live(&self) -> Map<int, Grant> {
        self.inside().live()
    }

    open spec fn budget(&self) -> Option<usize> {
        self.inside().budget()
    }

    open spec fn events(&self) -> u64 {
        self.inside().events()
    }

    open spec fn residue(&self) -> Residue {
        self.inside().residue()
    }

    open spec fn verdict(&self, m: Map<int, u8>, p: int) -> Verdict {
        self.inside().verdict(m, p)
    }

    open spec fn freed(&self, m: Map<int, u8>, p: int) -> Map<int, u8> {
        self.inside().freed(m, p)
    }

    open spec fn after_return(&self, m: Map<int, u8>, p: int, next: Self) -> bool {
        &&& next.region_owner() == self.region_owner()
        &&& self.inside().after_return(m, p, next.inside())
    }

    proof fn live_blocks(&self) {
        self.cursor.live_blocks();
    }

    proof fn bookkeeping_apart(&self, m1: Map<int, u8>, m2: Map<int, u8>, p: int) {
        self.cursor.bookkeeping_apart(m1, m2, p);
    }

    fn deallocate<M: Memory>(&mut self, mem: &mut M, ptr: usize, layout: NonZeroLayout) -> (r:
        Result<(), Corruption>)
    {
        self.cursor.deallocate(mem, ptr, layout)
    }
}

impl<B: FixedRange> Allocator for BumpArena<B> {
    /// The next block that fits, if the region can make it ready for writing.
    open spec fn outcome(&self, layout: NonZeroLayout) -> Option<Block> {
        match self.inside().outcome(layout) {
            Some(b) => if self.region_owner().commits(
                b.addr - self.inside().base(),
                b.len as int,
            ) {
                Some(b)
            } else {
                None
            },
            None => None,
        }
    }

    open spec fn issued(&self, m: Map<int, u8>, layout: NonZeroLayout) -> Map<int, u8> {
        m
    }

    open spec fn usable(&self, p: int, layout: NonZeroLayout) -> Option<usize> {
        None
    }

    open spec fn resettable(&self) -> bool {
        true
    }

    open spec fn after_issue(&self, layout: NonZeroLayout, next: Self) -> bool {
        &&& next.region_owner() == self.region_owner()
        &&& match self.outcome(layout) {
            Some(_) => self.inside().after_issue(layout, next.inside()),
            None => next == *self,
        }
    }

    open spec fn after_reset(&self, next: Self) -> bool {
        &&& next.region_owner() == self.region_owner()
        &&& self.inside().after_reset(next.inside())
    }

    fn allocate<M: Memory>(&mut self, mem: &mut M, layout: NonZeroLayout) -> (r: Result<
        Block,
        AllocError,
    >)
        ensures
            ({
                let from = old(self).start() + old(self).allocated();
                let at = bits::round_up(from, layout.align() as int);
                let fits = from + layout.align() <= usize::MAX + 1 && at + layout.size()
                    <= old(self).start() + old(self).capacity();
                &&& r is Ok <==> fits && old(self).commits(
                    at - old(self).start(),
                    layout.size() as int,
                )
                &&& r matches Ok(b) ==> {
                    &&& b.addr == at
                    &&& b.len == layout.size()
                    &&& final(self).allocated() == at + layout.size() - old(self).start()
                }
                &&& r is Err ==> final(self).allocated() == old(self).allocated()
            }),
    {
        let align: usize = layout.align();
        proof {
            self.serves_its_region();
            bits::lemma_round_up(self.start() + self.allocated(), align as int);
        }
        let addr: usize = match self.cursor.place(layout) {
            Ok(a) => a,
            Err(e) => {
                return Err(e);
            },
        };
        if self.backing.commit(addr - self.cursor.base(), layout.size()).is_err() {
            return Err(AllocError);
        }
        self.cursor.allocate(mem, layout)
    }

    fn reset(&mut self) -> (r: Result<(), AllocError>) {
        self.cursor.reset()
    }

    fn usable_size(&self, ptr: usize, layout: NonZeroLayout) -> (r: Option<usize>) {
        None
    }

    fn capacity_bytes(&self) -> (r: Option<usize>) {
        self.cursor.capacity_bytes()
    }

    fn corruption_events(&self) -> (r: u64) {
        0
    }
}

impl<B: FixedRange> FixedRange for BumpArena<B> {
    open spec fn start(&self) -> usize {
        self.region_owner().start()
    }

    open spec fn extent(&self) -> usize {
        self.region_owner().extent()
    }

    open spec fn commits(&self, offset: int, len: int) -> bool {
        self.region_owner().commits(offset, len)
    }

    fn base(&self) -> (r: usize) {
        self.backing.base()
    }

    fn size(&self) -> (r: usize) {
        self.backing.size()
    }

    fn commit(&self, offset: usize, len: usize) -> (r: Result<(), AllocError>) {
        self.backing.commit(offset, len)
    }
}

} // verus!
