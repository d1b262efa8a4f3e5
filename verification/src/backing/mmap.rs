//! `MmapBacked`: blocks carved from a mapping of the operating system.

use crate::allocator::{Allocator, Block, Corruption, Deallocator, Grant, Residue, Verdict};
use crate::bits;
use crate::bump;
use crate::bump::BumpCursor;
use crate::fixed_range::FixedRange;
use crate::layout::{AllocError, NonZeroLayout};
use crate::memory::Memory;
use crate::os;
use crate::os::{capture_synthetic_einval, mmap_record_os_error, OsCall, OsErrorSlot, Platform, Target};
use crate::os_backed::{OsBacked, ProtectFlags};
use vstd::prelude::*;

verus! {

/// Options for [`MmapBacked::with_flags`]. Only `populate` has an effect here.
#[non_exhaustive]
#[derive(Clone, Copy, Debug, PartialEq, Eq, Structural)]
pub struct MmapFlags {
    /// Ask for huge pages.
    pub huge_pages: bool,
    /// Fault all pages in at once, where the system can do that.
    pub populate: bool,
    /// The memory node to bind to.
    pub numa_node: Option<u32>,
    /// Add a guard page at the end.
    pub guard_at_end: bool,
}

impl MmapFlags {
    /// No option.
    #[verifier::allow_in_spec]
    pub fn none() -> (r: Self)
        returns
            (MmapFlags { huge_pages: false, populate: false, numa_node: None, guard_at_end: false }),
    {
        MmapFlags { huge_pages: false, populate: false, numa_node: None, guard_at_end: false }
    }

    /// Whether `populate` has an effect: on Linux alone.
    pub fn populate_supported(target: Target) -> (r: bool)
        ensures
            r == (target == Target::Linux),
    {
        target == Target::Linux
    }
}

impl Default for MmapFlags {
    fn default() -> (r: Self)
        ensures
            r == MmapFlags::none(),
    {
        MmapFlags::none()
    }
}

/// Whether a mapping of `size` bytes can be asked for at all.
pub open spec fn mappable(size: usize, page: usize) -> bool {
    size > 0 && size + page - 1 <= usize::MAX
}

/// What the system answers where a mapping is asked for: an address at which `len` bytes
/// fit, or an error.
pub open spec fn placed_by_os(reply: Result<usize, i32>, len: int) -> bool {
    reply matches Ok(base) ==> base > 0 && base + len <= usize::MAX + 1
}

/// Whether the mapping of `len` bytes that the system answers with lies apart from the
/// addresses `taken`. A system that is asked for a fresh mapping gives no other.
pub open spec fn placed_apart(reply: Result<usize, i32>, len: int, taken: Set<int>) -> bool {
    reply matches Ok(base) ==> taken.disjoint(bump::addresses(base as int, len))
}

/// A mapping from which blocks are carved, front to back.
pub struct MmapBacked {
    cursor: BumpCursor,
}

impl MmapBacked {
    /// The cursor over the mapping.
    pub closed spec fn inside(&self) -> BumpCursor {
        self.cursor
    }

    /// The call that maps at least `size` bytes, or an error if they cannot be asked for.
    pub fn map_request(size: usize, flags: MmapFlags, platform: &Platform) -> (r: Result<
        OsCall,
        AllocError,
    >)
        ensures
            r is Ok <==> mappable(size, platform.page()),
            r matches Ok(c) ==> c == (OsCall::MapPages {
                len: bits::round_up(size as int, platform.page() as int) as usize,
                populate: flags.populate && platform.target() == Target::Linux,
            }),
    {
        if size == 0 {
            return Err(AllocError);
        }
        match bits::checked_round_up(size, platform.page()) {
            Some(len) => Ok(
                OsCall::MapPages {
                    len,
                    populate: flags.populate && MmapFlags::populate_supported(platform.target()),
                },
            ),
            None => Err(AllocError),
        }
    }

    /// A mapping of at least `size` bytes. `reply` is the answer to [`Self::map_request`].
    pub fn new(
        size: usize,
        platform: &Platform,
        reply: Result<usize, i32>,
        slot: &mut OsErrorSlot,
    ) -> (r: Result<Self, AllocError>)
        requires
            placed_by_os(reply, bits::round_up(size as int, platform.page() as int)),
        ensures
            mapped(size, platform, reply, old(slot), final(slot), r),
    {
        Self::with_flags(size, MmapFlags::none(), platform, reply, slot)
    }

    /// Like [`Self::new`], with huge pages asked for. The wish is not passed on.
    pub fn with_huge_pages(
        size: usize,
        platform: &Platform,
        reply: Result<usize, i32>,
        slot: &mut OsErrorSlot,
    ) -> (r: Result<Self, AllocError>)
        requires
            placed_by_os(reply, bits::round_up(size as int, platform.page() as int)),
        ensures
            mapped(size, platform, reply, old(slot), final(slot), r),
    {
        let mut flags = MmapFlags::none();
        flags.huge_pages = true;
        Self::with_flags(size, flags, platform, reply, slot)
    }

    /// Like [`Self::new`], with options.
    ///
    /// A size of zero, or one that cannot be rounded up to whole pages, is rejected
    /// whatever `reply` is, and the slot then holds the code for an invalid argument.
    pub fn with_flags(
        size: usize,
        flags: MmapFlags,
        platform: &Platform,
        reply: Result<usize, i32>,
        slot: &mut OsErrorSlot,
    ) -> (r: Result<Self, AllocError>)
        requires
            placed_by_os(reply, bits::round_up(size as int, platform.page() as int)),
        ensures
            mapped(size, platform, reply, old(slot), final(slot), r),
    {
        if size == 0 {
            capture_synthetic_einval(slot, platform.target());
            return Err(AllocError);
        }
        let len: usize = match bits::checked_round_up(size, platform.page()) {
            Some(l) => l,
            None => {
                capture_synthetic_einval(slot, platform.target());
                return Err(AllocError);
            },
        };
        match reply {
            Ok(base) => Ok(MmapBacked { cursor: BumpCursor::new(base, len) }),
            Err(code) => {
                mmap_record_os_error(slot, Some(code));
                Err(AllocError)
            },
        }
    }

    pub open spec fn allocated_spec(&self) -> usize {
        self.inside().used()
    }

    /// The bytes issued so far, padding counted.
    #[verifier::when_used_as_spec(allocated_spec)]
    pub fn allocated(&self) -> (r: usize)
        ensures
            r == self.allocated(),
    {
        self.cursor.used()
    }

    pub open spec fn capacity_spec(&self) -> usize {
        self.inside().limit()
    }

    /// The length of the region.
    #[verifier::when_used_as_spec(capacity_spec)]
    pub fn capacity(&self) -> (r: usize)
        ensures
            r == self.capacity(),
            r == self.extent(),
    {
        self.cursor.limit()
    }

    /// The bytes not issued yet.
    pub fn remaining(&self) -> (r: usize)
        requires
            self.wf(),
        ensures
            r == self.capacity() - self.allocated(),
    {
        self.cursor.remaining()
    }

    /// The call that gives the mapping back.
    pub fn unmap_request(&self) -> (r: OsCall)
        ensures
            r == (OsCall::Unmap { addr: self.start(), len: self.capacity() }),
    {
        OsCall::Unmap { addr: self.cursor.base(), len: self.cursor.limit() }
    }
}

/// What asking for a mapping comes to.
pub open spec fn mapped(
    size: usize,
    platform: &Platform,
    reply: Result<usize, i32>,
    slot: &OsErrorSlot,
    slot2: &OsErrorSlot,
    r: Result<MmapBacked, AllocError>,
) -> bool {
    &&& r is Ok <==> mappable(size, platform.page()) && reply is Ok
    &&& r matches Ok(m) ==> {
        &&& m.wf()
        &&& m.start() == reply->Ok_0
        &&& m.capacity() == bits::round_up(size as int, platform.page() as int)
        &&& m.allocated() == 0
        &&& m.live() == Map::<int, Grant>::empty()
        &&& m.region() == bump::addresses(m.start() as int, m.capacity() as int)
        &&& slot2 == slot
    }
    &&& !mappable(size, platform.page()) ==> slot2.code == Some(
        os::invalid_argument(platform.target()),
    )
    &&& mappable(size, platform.page()) && reply is Err ==> slot2.code == Some(reply->Err_0)
}

impl Deallocator for MmapBacked {
    closed spec fn wf(&self) -> bool {
        self.cursor.wf()
    }

    open spec fn region(&self) -> Set<int> {
        self.inside().region()
    }

    open spec fn live(&self) -> Map<int, Grant> {
        self.inside().live()
    }

    open spec fn budget(&self) -> Option<usize> {
        self.inside().budget()
    }

    open spec fn events(&self) -> u64 {
        self.inside().events()
    }

    open spec fn residue(&self) -> Residue {
        self.inside().residue()
    }

    open spec fn verdict(&self, m: Map<int, u8>, p: int) -> Verdict {
        self.inside().verdict(m, p)
    }

    open spec fn freed(&self, m: Map<int, u8>, p: int) -> Map<int, u8> {
        self.inside().freed(m, p)
    }

    open spec fn after_return(&self, m: Map<int, u8>, p: int, next: Self) -> bool {
        self.inside().after_return(m, p, next.inside())
    }

    proof fn live_blocks(&self) {
        self.cursor.live_blocks();
    }

    proof fn bookkeeping_apart(&self, m1: Map<int, u8>, m2: Map<int, u8>, p: int) {
        self.cursor.bookkeeping_apart(m1, m2, p);
    }

    fn deallocate<M: Memory>(&mut self, mem: &mut M, ptr: usize, layout: NonZeroLayout) -> (r:
        Result<(), Corruption>)
    {
        self.cursor.deallocate(mem, ptr, layout)
    }
}

impl Allocator for MmapBacked {
    open spec fn outcome(&self, layout: NonZeroLayout) -> Option<Block> {
        self.inside().outcome(layout)
    }

    open spec fn issued(&self, m: Map<int, u8>, layout: NonZeroLayout) -> Map<int, u8> {
        self.inside().issued(m, layout)
    }

    open spec fn usable(&self, p: int, layout: NonZeroLayout) -> Option<usize> {
        None
    }

    open spec fn resettable(&self) -> bool {
        false
    }

    open spec fn after_issue(&self, layout: NonZeroLayout, next: Self) -> bool {
        self.inside().after_issue(layout, next.inside())
    }

    open spec fn after_reset(&self, next: Self) -> bool {
        false
    }

    fn allocate<M: Memory>(&mut self, mem: &mut M, layout: NonZeroLayout) -> (r: Result<
        Block,
        AllocError,
    >)
    {
        self.cursor.allocate(mem, layout)
    }

    fn reset(&mut self) -> (r: Result<(), AllocError>) {
        Err(AllocError)
    }

    fn usable_size(&self, ptr: usize, layout: NonZeroLayout) -> (r: Option<usize>) {
        None
    }

    fn capacity_bytes(&self) -> (r: Option<usize>) {
        self.cursor.capacity_bytes()
    }

    fn corruption_events(&self) -> (r: u64) {
        self.cursor.corruption_events()
    }
}

impl FixedRange for MmapBacked {
    open spec fn start(&self) -> usize {
        self.inside().base()
    }

    open spec fn extent(&self) -> usize {
        self.capacity()
    }

    open spec fn commits(&self, offset: int, len: int) -> bool {
        true
    }

    fn base(&self) -> (r: usize) {
        self.cursor.base()
    }

    fn size(&self) -> (r: usize) {
        self.capacity()
    }

    fn commit(&self, offset: usize, len: usize) -> (r: Result<(), AllocError>) {
        Ok(())
    }
}

impl OsBacked for MmapBacked {
    open spec fn os_base(&self) -> usize {
        self.start()
    }

    open spec fn os_size(&self) -> usize {
        self.extent()
    }

    open spec fn release_call(&self, addr: usize, size: usize) -> Option<OsCall> {
        Some(OsCall::Release { addr, len: size })
    }

    open spec fn protect_call(&self, addr: usize, size: usize, flags: ProtectFlags) -> OsCall {
        OsCall::Protect { addr, len: size, flags }
    }

    proof fn mapping_bounds(&self) {
        self.cursor.lemma_bounds();
    }

    fn base_ptr(&self) -> (r: usize) {
        self.cursor.base()
    }

    fn region_size(&self) -> (r: usize) {
        self.cursor.limit()
    }

    fn release_pages(&self, addr: usize, size: usize) -> (r: Option<OsCall>) {
        Some(OsCall::Release { addr, len: size })
    }

    fn protect(&self, addr: usize, size: usize, flags: ProtectFlags) -> (r: OsCall) {
        OsCall::Protect { addr, len: size, flags }
    }
}

} // verus!
