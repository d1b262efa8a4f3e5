//! `HugePageBacked`: blocks carved from a mapping of huge pages.

use crate::allocator::{Allocator, Block, Corruption, Deallocator, Grant, Residue, Verdict};
use crate::bits;
use crate::bump;
use crate::bump::BumpCursor;
use crate::fixed_range::FixedRange;
use crate::layout::{AllocError, NonZeroLayout};
use crate::memory::Memory;
use crate::os;
use crate::os::{capture_synthetic_einval, mmap_record_os_error, OsCall, OsErrorSlot, Target};
use crate::os_backed::{OsBacked, ProtectFlags};
use vstd::arithmetic::power2::*;
use vstd::prelude::*;

verus! {

/// The huge page size used where none is given: 2 MiB.
pub fn default_huge_page_size() -> (r: usize)
    ensures
        r == 0x20_0000,
        is_pow2(r as int),
{
    proof {
        lemma_two_mib();
    }
    0x20_0000
}

proof fn lemma_two_mib()
    ensures
        is_pow2(0x20_0000),
{
    is_pow2_equiv(0x20_0000);
    lemma2_to64();
    lemma_pow2(21);
}

/// What the length of a mapping of huge pages must be a multiple of.
pub open spec fn granularity(target: Target, huge_page_size: usize) -> usize {
    if target == Target::MacX86 && huge_page_size <= 0x20_0000 {
        0x20_0000
    } else {
        huge_page_size
    }
}

/// What the length of a mapping of huge pages must be a multiple of: the huge page size,
/// but no less than 2 MiB on macOS on x86-64.
pub fn rounding_granularity(target: Target, huge_page_size: usize) -> (r: usize)
    requires
        is_pow2(huge_page_size as int),
    ensures
        r == granularity(target, huge_page_size),
        is_pow2(r as int),
        r >= huge_page_size,
{
    if target == Target::MacX86 {
        let superpage: usize = default_huge_page_size();
        if huge_page_size > superpage {
            huge_page_size
        } else {
            superpage
        }
    } else {
        huge_page_size
    }
}

/// Whether the system has huge pages to offer.
pub open spec fn offers_huge_pages(target: Target) -> bool {
    target == Target::Linux || target == Target::MacX86 || target == Target::Windows
}

/// Whether a mapping of huge pages can be asked for at all.
pub open spec fn huge_mappable(target: Target, min_size: usize, huge_page_size: usize) -> bool {
    &&& min_size > 0
    &&& huge_page_size >= 4096
    &&& is_pow2(huge_page_size as int)
    &&& min_size + granularity(target, huge_page_size) - 1 <= usize::MAX
}

/// The length of a mapping of huge pages.
pub open spec fn huge_len(target: Target, min_size: usize, huge_page_size: usize) -> int {
    bits::round_up(min_size as int, granularity(target, huge_page_size) as int)
}

/// A mapping of huge pages from which blocks are carved, front to back.
pub struct HugePageBacked {
    cursor: BumpCursor,
    huge_page_size: usize,
}

impl HugePageBacked {
    /// The cursor over the mapping.
    pub closed spec fn inside(&self) -> BumpCursor {
        self.cursor
    }

    pub closed spec fn huge_page_size_spec(&self) -> usize {
        self.huge_page_size
    }

    /// The call that maps at least `min_size` bytes of huge pages, or `None` if none is
    /// made.
    pub fn map_request(target: Target, min_size: usize, huge_page_size: usize) -> (r: Option<OsCall>)
        ensures
            r is Some <==> huge_mappable(target, min_size, huge_page_size) && offers_huge_pages(
                target,
            ),
            r matches Some(c) ==> c == (OsCall::MapHuge {
                len: huge_len(target, min_size, huge_page_size) as usize,
                huge_page_size,
            }),
    {
        if min_size == 0 || huge_page_size < 4096 || !bits::is_power_of_two(huge_page_size) {
            return None;
        }
        match bits::checked_round_up(min_size, rounding_granularity(target, huge_page_size)) {
            Some(len) => if target == Target::MacArm || target == Target::OtherUnix {
                None
            } else {
                Some(OsCall::MapHuge { len, huge_page_size })
            },
            None => None,
        }
    }

    /// A mapping of at least `min_size` bytes of huge pages of the default size. `reply` is
    /// the answer to [`Self::map_request`].
    pub fn new(
        target: Target,
        min_size: usize,
        reply: Result<usize, i32>,
        slot: &mut OsErrorSlot,
    ) -> (r: Result<Self, AllocError>)
        requires
            crate::backing::mmap::placed_by_os(reply, huge_len(target, min_size, 0x20_0000)),
        ensures
            huge_mapped(target, min_size, 0x20_0000, reply, old(slot), final(slot), r),
    {
        Self::with_huge_page_size(target, min_size, default_huge_page_size(), reply, slot)
    }

    /// Like [`Self::new`], with huge pages of the given size, which must be a power of two
    /// of at least 4096.
    pub fn with_huge_page_size(
        target: Target,
        min_size: usize,
        huge_page_size: usize,
        reply: Result<usize, i32>,
        slot: &mut OsErrorSlot,
    ) -> (r: Result<Self, AllocError>)
        requires
            crate::backing::mmap::placed_by_os(reply, huge_len(target, min_size, huge_page_size)),
        ensures
            huge_mapped(target, min_size, huge_page_size, reply, old(slot), final(slot), r),
    {
        if min_size == 0 || huge_page_size < 4096 || !bits::is_power_of_two(huge_page_size) {
            capture_synthetic_einval(slot, target);
            return Err(AllocError);
        }
        let round: usize = rounding_granularity(target, huge_page_size);
        let len: usize = match bits::checked_round_up(min_size, round) {
            Some(l) => l,
            None => {
                capture_synthetic_einval(slot, target);
                return Err(AllocError);
            },
        };
        if target == Target::MacArm || target == Target::OtherUnix {
            capture_synthetic_einval(slot, target);
            return Err(AllocError);
        }
        match reply {
            Ok(base) => Ok(HugePageBacked { cursor: BumpCursor::new(base, len), huge_page_size }),
            Err(code) => {
                mmap_record_os_error(slot, Some(code));
                Err(AllocError)
            },
        }
    }

    pub open spec fn allocated_spec(&self) -> usize {
        self.inside().used()
    }

    /// The bytes issued so far, padding counted.
    #[verifier::when_used_as_spec(allocated_spec)]
    pub fn allocated(&self) -> (r: usize)
        ensures
            r == self.allocated(),
    {
        self.cursor.used()
    }

    pub open spec fn capacity_spec(&self) -> usize {
        self.inside().limit()
    }

    /// The length of the region.
    #[verifier::when_used_as_spec(capacity_spec)]
    pub fn capacity(&self) -> (r: usize)
        ensures
            r == self.capacity(),
            r == self.extent(),
    {
        self.cursor.limit()
    }

    /// The bytes not issued yet.
    pub fn remaining(&self) -> (r: usize)
        requires
            self.wf(),
        ensures
            r == self.capacity() - self.allocated(),
    {
        self.cursor.remaining()
    }

    /// The huge page size.
    #[verifier::when_used_as_spec(huge_page_size_spec)]
    pub fn huge_page_size(&self) -> (r: usize)
        ensures
            r == self.huge_page_size(),
    {
        self.huge_page_size
    }

    /// The call that gives the mapping back.
    pub fn unmap_request(&self) -> (r: OsCall)
        ensures
            r == (OsCall::Unmap { addr: self.start(), len: self.capacity() }),
    {
        OsCall::Unmap { addr: self.cursor.base(), len: self.cursor.limit() }
    }
}

/// What asking for a mapping of huge pages comes to.
pub open spec fn huge_mapped(
    target: Target,
    min_size: usize,
    huge_page_size: usize,
    reply: Result<usize, i32>,
    slot: &OsErrorSlot,
    slot2: &OsErrorSlot,
    r: Result<HugePageBacked, AllocError>,
) -> bool {
    let asked = huge_mappable(target, min_size, huge_page_size) && offers_huge_pages(target);
    &&& r is Ok <==> asked && reply is Ok
    &&& r matches Ok(m) ==> {
        &&& m.wf()
        &&& m.start() == reply->Ok_0
        &&& m.capacity() == huge_len(target, min_size, huge_page_size)
        &&& m.huge_page_size() == huge_page_size
        &&& m.allocated() == 0
        &&& m.live() == Map::<int, Grant>::empty()
        &&& m.region() == bump::addresses(m.start() as int, m.capacity() as int)
        &&& slot2 == slot
    }
    &&& !asked ==> slot2.code == Some(os::invalid_argument(target))
    &&& asked && reply is Err ==> slot2.code == Some(reply->Err_0)
}

impl Deallocator for HugePageBacked {
    closed spec fn wf(&self) -> bool {
        self.cursor.wf()
    }

    open spec fn region(&self) -> Set<int> {
        self.inside().region()
    }

    open spec fn live(&self) -> Map<int, Grant> {
        self.inside().live()
    }

    open spec fn budget(&self) -> Option<usize> {
        self.inside().budget()
    }

    open spec fn events(&self) -> u64 {
        self.inside().events()
    }

    open spec fn residue(&self) -> Residue {
        self.inside().residue()
    }

    open spec fn verdict(&self, m: Map<int, u8>, p: int) -> Verdict {
        self.inside().verdict(m, p)
    }

    open spec fn freed(&self, m: Map<int, u8>, p: int) -> Map<int, u8> {
        self.inside().freed(m, p)
    }

    open spec fn after_return(&self, m: Map<int, u8>, p: int, next: Self) -> bool {
        &&& next.huge_page_size() == self.huge_page_size()
        &&& self.inside().after_return(m, p, next.inside())
    }

    proof fn live_blocks(&self) {
        self.cursor.live_blocks();
    }

    proof fn bookkeeping_apart(&self, m1: Map<int, u8>, m2: Map<int, u8>, p: int) {
        self.cursor.bookkeeping_apart(m1, m2, p);
    }

    fn deallocate<M: Memory>(&mut self, mem: &mut M, ptr: usize, layout: NonZeroLayout) -> (r:
        Result<(), Corruption>)
    {
        self.cursor.deallocate(mem, ptr, layout)
    }
}

impl Allocator for HugePageBacked {
    open spec fn outcome(&self, layout: NonZeroLayout) -> Option<Block> {
        self.inside().outcome(layout)
    }

    open spec fn issued(&self, m: Map<int, u8>, layout: NonZeroLayout) -> Map<int, u8> {
        self.inside().issued(m, layout)
    }

    open spec fn usable(&self, p: int, layout: NonZeroLayout) -> Option<usize> {
        None
    }

    open spec fn resettable(&self) -> bool {
        false
    }

    open spec fn after_issue(&self, layout: NonZeroLayout, next: Self) -> bool {
        &&& next.huge_page_size() == self.huge_page_size()
        &&& self.inside().after_issue(layout, next.inside())
    }

    open spec fn after_reset(&self, next: Self) -> bool {
        false
    }

    fn allocate<M: Memory>(&mut self, mem: &mut M, layout: NonZeroLayout) -> (r: Result<
        Block,
        AllocError,
    >)
    {
        self.cursor.allocate(mem, layout)
    }

    fn reset(&mut self) -> (r: Result<(), AllocError>) {
        Err(AllocError)
    }

    fn usable_size(&self, ptr: usize, layout: NonZeroLayout) -> (r: Option<usize>) {
        None
    }

    fn capacity_bytes(&self) -> (r: Option<usize>) {
        self.cursor.capacity_bytes()
    }

    fn corruption_events(&self) -> (r: u64) {
        self.cursor.corruption_events()
    }
}

impl FixedRange for HugePageBacked {
    open spec fn start(&self) -> usize {
        self.inside().base()
    }

    open spec fn extent(&self) -> usize {
        self.capacity()
    }

    open spec fn commits(&self, offset: int, len: int) -> bool {
        true
    }

    fn base(&self) -> (r: usize) {
        self.cursor.base()
    }

    fn size(&self) -> (r: usize) {
        self.capacity()
    }

    fn commit(&self, offset: usize, len: usize) -> (r: Result<(), AllocError>) {
        Ok(())
    }
}

impl OsBacked for HugePageBacked {
    open spec fn os_base(&self) -> usize {
        self.start()
    }

    open spec fn os_size(&self) -> usize {
        self.extent()
    }

    open spec fn release_call(&self, addr: usize, size: usize) -> Option<OsCall> {
        Some(OsCall::Release { addr, len: size })
    }

    open spec fn protect_call(&self, addr: usize, size: usize, flags: ProtectFlags) -> OsCall {
        OsCall::Protect { addr, len: size, flags }
    }

    proof fn mapping_bounds(&self) {
        self.cursor.lemma_bounds();
    }

    fn base_ptr(&self) -> (r: usize) {
        self.cursor.base()
    }

    fn region_size(&self) -> (r: usize) {
        self.cursor.limit()
    }

    fn release_pages(&self, addr: usize, size: usize) -> (r: Option<OsCall>) {
        Some(OsCall::Release { addr, len: size })
    }

    fn protect(&self, addr: usize, size: usize, flags: ProtectFlags) -> (r: OsCall) {
        OsCall::Protect { addr, len: size, flags }
    }
}

} // verus!
