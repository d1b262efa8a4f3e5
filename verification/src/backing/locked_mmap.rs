//! `LockedMmapBacked`: a mapping kept in physical memory.

use crate::allocator::{Allocator, Block, Corruption, Deallocator, Grant, Residue, Verdict};
use crate::backing::mmap;
use crate::backing::mmap::{MmapBacked, MmapFlags};
use crate::bits;
use crate::fixed_range::FixedRange;
use crate::layout::{AllocError, NonZeroLayout};
use crate::memory::Memory;
use crate::os;
use crate::os::{mmap_last_os_error, mmap_record_os_error, note_reply, OsCall, OsErrorSlot, Platform, Target};
use crate::os_backed::{OsBacked, ProtectFlags};
use vstd::prelude::*;

verus! {

/// A mapping whose pages are locked into physical memory, for secrets that must not reach
/// the disk. There is no such value without the lock.
pub struct LockedMmapBacked {
    inner: MmapBacked,
}

impl LockedMmapBacked {
    /// The locked mapping.
    pub closed spec fn inside(&self) -> MmapBacked {
        self.inner
    }

    /// The call to make next, given the answers so far: map, then lock, then, on Linux,
    /// keep the pages out of core dumps. A mapping that cannot be locked is given back.
    pub fn next_call(
        size: usize,
        platform: &Platform,
        map: Option<Result<usize, i32>>,
        lock: Option<Result<(), i32>>,
    ) -> (r: Option<OsCall>)
        ensures
            r == next_lock_call(size, platform, map, lock),
    {
        let request = match MmapBacked::map_request(size, MmapFlags::none(), platform) {
            Ok(c) => c,
            Err(_) => {
                return None;
            },
        };
        let len: usize = match request {
            OsCall::MapPages { len, .. } => len,
            _ => {
                return None;
            },
        };
        match map {
            None => Some(request),
            Some(Err(_)) => None,
            Some(Ok(addr)) => match lock {
                None => Some(OsCall::Lock { addr, len }),
                Some(Ok(_)) => if platform.target() == Target::Linux {
                    Some(OsCall::HideFromDumps { addr, len })
                } else {
                    None
                },
                Some(Err(_)) => Some(OsCall::Unmap { addr, len }),
            },
        }
    }

    /// A locked mapping of at least `size` bytes. `map`, `lock` and `unmap` are the answers
    /// to the calls of [`Self::next_call`]; an answer to a call that was not made is not
    /// looked at.
    ///
    /// Where the lock fails, the slot holds the error of the lock, whatever giving the
    /// mapping back met with.
    pub fn new(
        size: usize,
        platform: &Platform,
        map: Result<usize, i32>,
        lock: Result<(), i32>,
        unmap: Result<(), i32>,
        slot: &mut OsErrorSlot,
    ) -> (r: Result<Self, AllocError>)
        requires
            mmap::placed_by_os(map, bits::round_up(size as int, platform.page() as int)),
        ensures
            r is Ok <==> mmap::mappable(size, platform.page()) && map is Ok && lock is Ok,
            r matches Ok(m) ==> {
                &&& m.wf()
                &&& m.start() == map->Ok_0
                &&& m.extent() == bits::round_up(size as int, platform.page() as int)
                &&& m.inside().allocated() == 0
                &&& m.live() == Map::<int, Grant>::empty()
                &&& *final(slot) == *old(slot)
            },
            !mmap::mappable(size, platform.page()) ==> final(slot).code == Some(
                os::invalid_argument(platform.target()),
            ),
            mmap::mappable(size, platform.page()) && map is Err ==> final(slot).code == Some(
                map->Err_0,
            ),
            mmap::mappable(size, platform.page()) && map is Ok && lock is Err ==> final(slot).code
                == Some(lock->Err_0),
    {
        let inner = match MmapBacked::new(size, platform, map, slot) {
            Ok(m) => m,
            Err(e) => {
                return Err(e);
            },
        };
        match lock {
            Ok(_) => Ok(LockedMmapBacked { inner }),
            Err(code) => {
                mmap_record_os_error(slot, Some(code));
                let saved = mmap_last_os_error(slot);
                note_reply(slot, unmap);
                if saved.is_some() {
                    mmap_record_os_error(slot, saved);
                }
                Err(AllocError)
            },
        }
    }

    /// The calls that give the mapping back: unlock, then unmap.
    pub fn teardown(&self) -> (r: (OsCall, OsCall))
        ensures
            r.0 == (OsCall::Unlock { addr: self.start(), len: self.extent() }),
            r.1 == (OsCall::Unmap { addr: self.start(), len: self.extent() }),
    {
        let unlock = OsCall::Unlock { addr: self.inner.base(), len: self.inner.size() };
        (unlock, self.inner.unmap_request())
    }
}

/// The call that follows the answers so far.
pub open spec fn next_lock_call(
    size: usize,
    platform: &Platform,
    map: Option<Result<usize, i32>>,
    lock: Option<Result<(), i32>>,
) -> Option<OsCall> {
    let len = bits::round_up(size as int, platform.page() as int) as usize;
    if !mmap::mappable(size, platform.page()) {
        None
    } else {
        match map {
            None => Some(OsCall::MapPages { len, populate: false }),
            Some(Err(_)) => None,
            Some(Ok(addr)) => match lock {
                None => Some(OsCall::Lock { addr, len }),
                Some(Ok(_)) => if platform.target() == Target::Linux {
                    Some(OsCall::HideFromDumps { addr, len })
                } else {
                    None
                },
                Some(Err(_)) => Some(OsCall::Unmap { addr, len }),
            },
        }
    }
}

impl Deallocator for LockedMmapBacked {
    open spec fn wf(&self) -> bool {
        self.inside().wf()
    }

    open spec fn region(&self) -> Set<int> {
        self.inside().region()
    }

    open spec fn live(&self) -> Map<int, Grant> {
        self.inside().live()
    }

    open spec fn budget(&self) -> Option<usize> {
        self.inside().budget()
    }

    open spec fn events(&self) -> u64 {
        self.inside().events()
    }

    open spec fn residue(&self) -> Residue {
        self.inside().residue()
    }

    open spec fn verdict(&self, m: Map<int, u8>, p: int) -> Verdict {
        self.inside().verdict(m, p)
    }

    open spec fn freed(&self, m: Map<int, u8>, p: int) -> Map<int, u8> {
        self.inside().freed(m, p)
    }

    open spec fn after_return(&self, m: Map<int, u8>, p: int, next: Self) -> bool {
        self.inside().after_return(m, p, next.inside())
    }

    proof fn live_blocks(&self) {
        self.inner.live_blocks();
    }

    proof fn bookkeeping_apart(&self, m1: Map<int, u8>, m2: Map<int, u8>, p: int) {
        self.inner.bookkeeping_apart(m1, m2, p);
    }

    fn deallocate<M: Memory>(&mut self, mem: &mut M, ptr: usize, layout: NonZeroLayout) -> (r:
        Result<(), Corruption>)
    {
        self.inner.deallocate(mem, ptr, layout)
    }
}

impl Allocator for LockedMmapBacked {
    open spec fn outcome(&self, layout: NonZeroLayout) -> Option<Block> {
        self.inside().outcome(layout)
    }

    open spec fn issued(&self, m: Map<int, u8>, layout: NonZeroLayout) -> Map<int, u8> {
        self.inside().issued(m, layout)
    }

    open spec fn usable(&self, p: int, layout: NonZeroLayout) -> Option<usize> {
        None
    }

    open spec fn resettable(&self) -> bool {
        false
    }

    open spec fn after_issue(&self, layout: NonZeroLayout, next: Self) -> bool {
        self.inside().after_issue(layout, next.inside())
    }

    open spec fn after_reset(&self, next: Self) -> bool {
        false
    }

    fn allocate<M: Memory>(&mut self, mem: &mut M, layout: NonZeroLayout) -> (r: Result<
        Block,
        AllocError,
    >)
    {
        self.inner.allocate(mem, layout)
    }

    fn reset(&mut self) -> (r: Result<(), AllocError>) {
        Err(AllocError)
    }

    fn usable_size(&self, ptr: usize, layout: NonZeroLayout) -> (r: Option<usize>) {
        None
    }

    fn capacity_bytes(&self) -> (r: Option<usize>) {
        self.inner.capacity_bytes()
    }

    fn corruption_events(&self) -> (r: u64) {
        self.inner.corruption_events()
    }
}

impl FixedRange for LockedMmapBacked {
    open spec fn start(&self) -> usize {
        self.inside().start()
    }

    open spec fn extent(&self) -> usize {
        self.inside().extent()
    }

    open spec fn commits(&self, offset: int, len: int) -> bool {
        self.inside().commits(offset, len)
    }

    fn base(&self) -> (r: usize) {
        self.inner.base()
    }

    fn size(&self) -> (r: usize) {
        self.inner.size()
    }

    fn commit(&self, offset: usize, len: usize) -> (r: Result<(), AllocError>) {
        self.inner.commit(offset, len)
    }
}

impl OsBacked for LockedMmapBacked {
    open spec fn os_base(&self) -> usize {
        self.inside().os_base()
    }

    open spec fn os_size(&self) -> usize {
        self.inside().os_size()
    }

    /// Locked pages are never given back one by one.
    open spec fn release_call(&self, addr: usize, size: usize) -> Option<OsCall> {
        None
    }

    open spec fn protect_call(&self, addr: usize, size: usize, flags: ProtectFlags) -> OsCall {
        self.inside().protect_call(addr, size, flags)
    }

    proof fn mapping_bounds(&self) {
        self.inner.mapping_bounds();
    }

    fn base_ptr(&self) -> (r: usize) {
        self.inner.base_ptr()
    }

    fn region_size(&self) -> (r: usize) {
        self.inner.region_size()
    }

    fn release_pages(&self, addr: usize, size: usize) -> (r: Option<OsCall>) {
        None
    }

    fn protect(&self, addr: usize, size: usize, flags: ProtectFlags) -> (r: OsCall) {
        self.inner.protect(addr, size, flags)
    }
}

} // verus!
