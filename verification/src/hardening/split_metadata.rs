//! `SplitMetadata`: bookkeeping kept in a mapping of its own.

use crate::allocator;
use crate::allocator::{Allocator, Block, Corruption, Deallocator, Grant, Residue, Verdict};
use crate::backing::mmap;
use crate::backing::mmap::MmapBacked;
use crate::bits;
use crate::bump;
use crate::fixed_range::FixedRange;
use crate::layout::{AllocError, NonZeroLayout};
use crate::memory::Memory;
use crate::os::{OsCall, OsErrorSlot, Platform};
use crate::os_backed::{OsBacked, ProtectFlags};
use vstd::prelude::*;

verus! {

/// Blocks from one region, bookkeeping in another, so that running over a block cannot
/// reach the bookkeeping.
#[must_use]
pub struct SplitMetadata<I> {
    meta_region: MmapBacked,
    data_region: I,
}

impl<I> SplitMetadata<I> {
    /// The allocator of the blocks.
    pub closed spec fn inside(&self) -> I {
        self.data_region
    }

    /// The mapping for bookkeeping.
    pub closed spec fn meta_spec(&self) -> MmapBacked {
        self.meta_region
    }

    /// The mapping for bookkeeping.
    pub fn meta(&self) -> (r: &MmapBacked)
        ensures
            *r == self.meta_spec(),
    {
        &self.meta_region
    }

    /// The allocator of the blocks.
    pub fn data(&self) -> (r: &I)
        ensures
            *r == self.inside(),
    {
        &self.data_region
    }
}

impl<I: Allocator> SplitMetadata<I> {
    /// Whether the bookkeeping lies apart from the addresses from which blocks are issued.
    pub open spec fn lies_apart(&self) -> bool {
        self.region().disjoint(
            bump::addresses(self.meta_spec().start() as int, self.meta_spec().extent() as int),
        )
    }

    /// Adds a mapping of at least `meta_size` bytes to `data_region`. `reply` is the answer
    /// to the request for that mapping. Where the system has placed it apart from the blocks,
    /// the bookkeeping lies apart from them.
    pub fn new(
        data_region: I,
        meta_size: usize,
        platform: &Platform,
        reply: Result<usize, i32>,
        slot: &mut OsErrorSlot,
    ) -> (r: Result<Self, AllocError>)
        requires
            data_region.wf(),
            mmap::placed_by_os(reply, bits::round_up(meta_size as int, platform.page() as int)),
        ensures
            r is Ok <==> mmap::mappable(meta_size, platform.page()) && reply is Ok,
            r matches Ok(s) ==> s.wf() && s.inside() == data_region && mmap::mapped(
                meta_size,
                platform,
                reply,
                old(slot),
                final(slot),
                Ok(s.meta_spec()),
            ),
            r matches Ok(s) ==> (s.lies_apart() <==> mmap::placed_apart(
                reply,
                bits::round_up(meta_size as int, platform.page() as int),
                data_region.region(),
            )),
            r is Err ==> mmap::mapped(
                meta_size,
                platform,
                reply,
                old(slot),
                final(slot),
                Err(AllocError),
            ),
    {
        match MmapBacked::new(meta_size, platform, reply, slot) {
            Ok(meta_region) => Ok(SplitMetadata { meta_region, data_region }),
            Err(e) => Err(e),
        }
    }

    /// Adds a mapping to `data_region`.
    pub fn with_meta(data_region: I, meta_region: MmapBacked) -> (r: Self)
        requires
            data_region.wf(),
            meta_region.wf(),
        ensures
            r.wf(),
            r.inside() == data_region,
            r.meta_spec() == meta_region,
            r.lies_apart() <==> data_region.region().disjoint(meta_region.region()),
    {
        SplitMetadata { meta_region, data_region }
    }

    /// The first address of the mapping for bookkeeping.
    pub fn meta_base(&self) -> (r: usize)
        requires
            self.wf(),
        ensures
            r == self.meta_spec().start(),
    {
        self.meta_region.base_ptr()
    }

    /// The length of the mapping for bookkeeping.
    pub fn meta_size(&self) -> (r: usize)
        requires
            self.wf(),
        ensures
            r == self.meta_spec().extent(),
    {
        self.meta_region.region_size()
    }

    /// Where the two regions do not overlap, no block reaches into the bookkeeping, and
    /// what leaves alone all but the region of the blocks leaves the bookkeeping alone.
    pub proof fn bookkeeping_is_out_of_reach(&self, m1: Map<int, u8>, m2: Map<int, u8>, a: int)
        requires
            self.wf(),
            self.lies_apart(),
            allocator::same_elsewhere(self.region(), m1, m2),
            m1.contains_key(a),
            self.meta_spec().start() <= a < self.meta_spec().start() + self.meta_spec().extent(),
        ensures
            !allocator::in_blocks(self.live(), a),
            m2[a] == m1[a],
    {
        self.data_region.live_blocks();
        assert(bump::addresses(
            self.meta_spec().start() as int,
            self.meta_spec().extent() as int,
        ).contains(a));
    }

    /// Whether a request is answered or a block taken back, the bookkeeping stays apart.
    pub proof fn bookkeeping_stays_apart(
        &self,
        layout: NonZeroLayout,
        m: Map<int, u8>,
        p: int,
        next: Self,
    )
        requires
            self.lies_apart(),
            next.region() == self.region(),
            self.after_issue(layout, next) || self.after_return(m, p, next),
        ensures
            next.lies_apart(),
    {
    }
}

impl SplitMetadata<MmapBacked> {
    /// Where the bookkeeping lies apart, the two mappings have no address in common: neither
    /// the one of the bookkeeping nor the one of the blocks reaches into the other.
    pub proof fn mappings_are_disjoint(&self, a: int)
        requires
            self.wf(),
            self.lies_apart(),
        ensures
            !(self.meta_spec().start() <= a < self.meta_spec().start() + self.meta_spec().extent()
                && self.os_base() <= a < self.os_base() + self.os_size()),
    {
        let meta = bump::addresses(
            self.meta_spec().start() as int,
            self.meta_spec().extent() as int,
        );
        let data = bump::addresses(self.os_base() as int, self.os_size() as int);
        assert(self.region() =~= data);
        assert(meta.contains(a) && data.contains(a) ==> false);
    }
}

impl<I: Allocator> Deallocator for SplitMetadata<I> {
    open spec fn wf(&self) -> bool {
        self.inside().wf() && self.meta_spec().wf()
    }

    open spec fn region(&self) -> Set<int> {
        self.inside().region()
    }

    open spec fn live(&self) -> Map<int, Grant> {
        self.inside().live()
    }

    open spec fn budget(&self) -> Option<usize> {
        self.inside().budget()
    }

    open spec fn events(&self) -> u64 {
        self.inside().events()
    }

    open spec fn residue(&self) -> Residue {
        self.inside().residue()
    }

    open spec fn verdict(&self, m: Map<int, u8>, p: int) -> Verdict {
        self.inside().verdict(m, p)
    }

    open spec fn freed(&self, m: Map<int, u8>, p: int) -> Map<int, u8> {
        self.inside().freed(m, p)
    }

    open spec fn after_return(&self, m: Map<int, u8>, p: int, next: Self) -> bool {
        &&& next.meta_spec() == self.meta_spec()
        &&& self.inside().after_return(m, p, next.inside())
    }

    proof fn live_blocks(&self) {
        self.data_region.live_blocks();
    }

    proof fn bookkeeping_apart(&self, m1: Map<int, u8>, m2: Map<int, u8>, p: int) {
        self.data_region.bookkeeping_apart(m1, m2, p);
    }

    fn deallocate<M: Memory>(&mut self, mem: &mut M, ptr: usize, layout: NonZeroLayout) -> (r:
        Result<(), Corruption>)
    {
        self.data_region.deallocate(mem, ptr, layout)
    }
}

impl<I: Allocator> Allocator for SplitMetadata<I> {
    open spec fn outcome(&self, layout: NonZeroLayout) -> Option<Block> {
        self.inside().outcome(layout)
    }

    open spec fn issued(&self, m: Map<int, u8>, layout: NonZeroLayout) -> Map<int, u8> {
        self.inside().issued(m, layout)
    }

    open spec fn usable(&self, p: int, layout: NonZeroLayout) -> Option<usize> {
        None
    }

    open spec fn resettable(&self) -> bool {
        false
    }

    open spec fn after_issue(&self, layout: NonZeroLayout, next: Self) -> bool {
        &&& next.meta_spec() == self.meta_spec()
        &&& self.inside().after_issue(layout, next.inside())
    }

    open spec fn after_reset(&self, next: Self) -> bool {
        false
    }

    fn allocate<M: Memory>(&mut self, mem: &mut M, layout: NonZeroLayout) -> (r: Result<
        Block,
        AllocError,
    >)
    {
        self.data_region.allocate(mem, layout)
    }

    fn reset(&mut self) -> (r: Result<(), AllocError>) {
        Err(AllocError)
    }

    fn usable_size(&self, ptr: usize, layout: NonZeroLayout) -> (r: Option<usize>) {
        None
    }

    fn capacity_bytes(&self) -> (r: Option<usize>) {
        self.data_region.capacity_bytes()
    }

    fn corruption_events(&self) -> (r: u64) {
        self.data_region.corruption_events()
    }
}

impl<I: OsBacked> OsBacked for SplitMetadata<I> {
    open spec fn os_base(&self) -> usize {
        self.inside().os_base()
    }

    open spec fn os_size(&self) -> usize {
        self.inside().os_size()
    }

    open spec fn release_call(&self, addr: usize, size: usize) -> Option<OsCall> {
        self.inside().release_call(addr, size)
    }

    open spec fn protect_call(&self, addr: usize, size: usize, flags: ProtectFlags) -> OsCall {
        self.inside().protect_call(addr, size, flags)
    }

    proof fn mapping_bounds(&self) {
        self.data_region.mapping_bounds();
    }

    fn base_ptr(&self) -> (r: usize) {
        self.data_region.base_ptr()
    }

    fn region_size(&self) -> (r: usize) {
        self.data_region.region_size()
    }

    fn release_pages(&self, addr: usize, size: usize) -> (r: Option<OsCall>) {
        self.data_region.release_pages(addr, size)
    }

    fn protect(&self, addr: usize, size: usize, flags: ProtectFlags) -> (r: OsCall) {
        self.data_region.protect(addr, size, flags)
    }
}

impl<I: FixedRange> FixedRange for SplitMetadata<I> {
    open spec fn start(&self) -> usize {
        self.inside().start()
    }

    open spec fn extent(&self) -> usize {
        self.inside().extent()
    }

    open spec fn commits(&self, offset: int, len: int) -> bool {
        true
    }

    fn base(&self) -> (r: usize) {
        self.data_region.base()
    }

    fn size(&self) -> (r: usize) {
        self.data_region.size()
    }

    fn commit(&self, offset: usize, len: usize) -> (r: Result<(), AllocError>) {
        Ok(())
    }
}

} // verus!
