//! `GuardPage`: blocks between two pages that must not be touched.

use crate::allocator::{Allocator, Block, Corruption, Deallocator, Grant, Residue, Verdict};
use crate::bits;
use crate::bump;
use crate::bump::BumpCursor;
use crate::fixed_range::FixedRange;
use crate::layout::{AllocError, NonZeroLayout};
use crate::memory::Memory;
use crate::os::{mmap_clear_last_os_error, mmap_last_os_error, note_reply, OsCall, OsErrorSlot};
use crate::os_backed::{OsBacked, ProtectFlags};
use vstd::arithmetic::power2::*;
use vstd::prelude::*;

verus! {

/// Whether a mapping is made of whole pages and has room for two guard pages and at least
/// one byte between them.
pub open spec fn guardable(base: usize, size: usize, page_size: usize) -> bool {
    &&& is_pow2(page_size as int)
    &&& 2 * page_size + 1 <= size
    &&& base as int % page_size as int == 0
    &&& size as int % page_size as int == 0
}

/// Blocks carved from a mapping whose first and last page are closed to all access, so that
/// running over either end is caught by the hardware.
///
/// The guards stand around the whole region, not around each block.
pub struct GuardPage<I> {
    inner: I,
    page_size: usize,
    cursor: BumpCursor,
}

impl<I> GuardPage<I> {
    /// The wrapped allocator.
    pub closed spec fn guarded(&self) -> I {
        self.inner
    }

    /// The cursor over the region between the guards.
    pub closed spec fn inside(&self) -> BumpCursor {
        self.cursor
    }

    pub closed spec fn page_size_spec(&self) -> usize {
        self.page_size
    }

    pub open spec fn allocated_spec(&self) -> usize {
        self.inside().used()
    }

    /// The wrapped allocator.
    pub fn inner(&self) -> (r: &I)
        ensures
            *r == self.guarded(),
    {
        &self.inner
    }

    /// The size of each guard.
    #[verifier::when_used_as_spec(page_size_spec)]
    pub fn page_size(&self) -> (r: usize)
        ensures
            r == self.page_size(),
    {
        self.page_size
    }

    /// The bytes issued so far, padding counted.
    #[verifier::when_used_as_spec(allocated_spec)]
    pub fn allocated(&self) -> (r: usize)
        ensures
            r == self.allocated(),
    {
        self.cursor.used()
    }
}

impl<I: OsBacked> GuardPage<I> {
    /// Whether the mapping has room for guards.
    fn room_for_guards(inner: &I, page_size: usize) -> (r: bool)
        requires
            inner.wf(),
        ensures
            r == guardable(inner.os_base(), inner.os_size(), page_size),
    {
        proof {
            reveal(is_pow2);
        }
        if page_size == 0 || !bits::is_power_of_two(page_size) {
            return false;
        }
        let region_size: usize = inner.region_size();
        let both: usize = match page_size.checked_mul(2) {
            Some(v) => v,
            None => {
                return false;
            },
        };
        let needed: usize = match both.checked_add(1) {
            Some(v) => v,
            None => {
                return false;
            },
        };
        if region_size < needed {
            return false;
        }
        let base: usize = inner.base_ptr();
        proof {
            bits::lemma_mask(base, page_size);
            bits::lemma_mask(region_size, page_size);
        }
        if base & (page_size - 1) != 0 {
            return false;
        }
        region_size & (page_size - 1) == 0
    }

    /// The call to make next, given the answers so far: close the first page, then the
    /// last. Nothing is closed in a mapping without room for guards, and the last page is
    /// left alone where the first could not be closed.
    pub fn next_call(
        inner: &I,
        page_size: usize,
        head: Option<Result<(), i32>>,
        tail: Option<Result<(), i32>>,
    ) -> (r: Option<OsCall>)
        requires
            inner.wf(),
        ensures
            r == (if !guardable(inner.os_base(), inner.os_size(), page_size) {
                None
            } else if head is None {
                Some(
                    OsCall::Protect {
                        addr: inner.os_base(),
                        len: page_size,
                        flags: ProtectFlags::none(),
                    },
                )
            } else if head->0 is Ok && tail is None {
                Some(
                    OsCall::Protect {
                        addr: (inner.os_base() + inner.os_size() - page_size) as usize,
                        len: page_size,
                        flags: ProtectFlags::none(),
                    },
                )
            } else {
                None
            }),
    {
        if !Self::room_for_guards(inner, page_size) {
            return None;
        }
        proof {
            inner.mapping_bounds();
        }
        match head {
            None => Some(inner.protect(inner.base_ptr(), page_size, ProtectFlags::none())),
            Some(Err(_)) => None,
            Some(Ok(_)) => match tail {
                None => {
                    proof {
                        reveal(is_pow2);
                    }
                    let last: usize = inner.base_ptr() + (inner.region_size() - page_size);
                    Some(inner.protect(last, page_size, ProtectFlags::none()))
                },
                Some(_) => None,
            },
        }
    }

    /// Guards the mapping of `inner`. `head` and `tail` are the answers to the calls of
    /// [`Self::next_call`]; an answer to a call that was not made is not looked at.
    ///
    /// The slot is emptied before the first call, and holds the error of the call that
    /// failed, if one did.
    pub fn new(
        inner: I,
        page_size: usize,
        head: Result<(), i32>,
        tail: Result<(), i32>,
        slot: &mut OsErrorSlot,
    ) -> (r: Result<Self, AllocError>)
        requires
            inner.wf(),
        ensures
            r is Ok <==> guardable(inner.os_base(), inner.os_size(), page_size) && head is Ok
                && tail is Ok,
            r matches Ok(g) ==> {
                &&& g.wf()
                &&& g.guarded() == inner
                &&& g.page_size() == page_size
                &&& g.start() == inner.os_base() + page_size
                &&& g.extent() == inner.os_size() - 2 * page_size
                &&& g.allocated() == 0
                &&& g.live() == Map::<int, Grant>::empty()
                &&& final(slot).code is None
            },
            !guardable(inner.os_base(), inner.os_size(), page_size) ==> *final(slot) == *old(slot),
            guardable(inner.os_base(), inner.os_size(), page_size) && head is Err
                ==> final(slot).code == Some(head->Err_0),
            guardable(inner.os_base(), inner.os_size(), page_size) && head is Ok && tail is Err
                ==> final(slot).code == Some(tail->Err_0),
    {
        if !Self::room_for_guards(&inner, page_size) {
            return Err(AllocError);
        }
        proof {
            inner.mapping_bounds();
            reveal(is_pow2);
        }
        let region_size: usize = inner.region_size();
        mmap_clear_last_os_error(slot);
        note_reply(slot, head);
        if mmap_last_os_error(slot).is_some() {
            return Err(AllocError);
        }
        note_reply(slot, tail);
        if mmap_last_os_error(slot).is_some() {
            return Err(AllocError);
        }
        let base: usize = inner.base_ptr() + page_size;
        let usable: usize = region_size - 2 * page_size;
        Ok(GuardPage { inner, page_size, cursor: BumpCursor::new(base, usable) })
    }

    /// The region between the guards starts one page into the mapping and ends one page before
    /// its end.
    pub proof fn between_its_guards(&self)
        requires
            self.wf(),
        ensures
            self.start() == self.guarded().os_base() + self.page_size(),
            self.extent() == self.guarded().os_size() - 2 * self.page_size(),
            self.start() > 0,
            self.start() + self.extent() <= usize::MAX + 1,
            self.allocated() <= self.extent(),
    {
        self.cursor.lemma_bounds();
    }

    /// No block touches a guard: blocks are issued from between the first and the last page
    /// of the mapping, both of which are whole pages.
    pub proof fn blocks_avoid_guards(&self)
        requires
            self.wf(),
        ensures
            self.region() == bump::addresses(
                self.guarded().os_base() + self.page_size(),
                self.guarded().os_size() - 2 * self.page_size(),
            ),
            forall|a: int| #[trigger]
                self.region().contains(a) ==> !(self.guarded().os_base() <= a
                    < self.guarded().os_base() + self.page_size()) && !(self.guarded().os_base()
                    + self.guarded().os_size() - self.page_size() <= a < self.guarded().os_base()
                    + self.guarded().os_size()),
            self.page_size() > 0,
            self.guarded().os_base() as int % self.page_size() as int == 0,
    {
        reveal(is_pow2);
    }
}

impl<I: OsBacked> Deallocator for GuardPage<I> {
    closed spec fn wf(&self) -> bool {
        &&& self.inner.wf()
        &&& self.cursor.wf()
        &&& guardable(self.inner.os_base(), self.inner.os_size(), self.page_size)
        &&& self.cursor.base() == self.inner.os_base() + self.page_size
        &&& self.cursor.limit() == self.inner.os_size() - 2 * self.page_size
    }

    open spec fn region(&self) -> Set<int> {
        self.inside().region()
    }

    open spec fn live(&self) -> Map<int, Grant> {
        self.inside().live()
    }

    open spec fn budget(&self) -> Option<usize> {
        self.inside().budget()
    }

    open spec fn events(&self) -> u64 {
        self.inside().events()
    }

    open spec fn residue(&self) -> Residue {
        self.inside().residue()
    }

    open spec fn verdict(&self, m: Map<int, u8>, p: int) -> Verdict {
        self.inside().verdict(m, p)
    }

    open spec fn freed(&self, m: Map<int, u8>, p: int) -> Map<int, u8> {
        self.inside().freed(m, p)
    }

    open spec fn after_return(&self, m: Map<int, u8>, p: int, next: Self) -> bool {
        &&& next.guarded() == self.guarded()
        &&& next.page_size() == self.page_size()
        &&& self.inside().after_return(m, p, next.inside())
    }

    proof fn live_blocks(&self) {
        self.cursor.live_blocks();
    }

    proof fn bookkeeping_apart(&self, m1: Map<int, u8>, m2: Map<int, u8>, p: int) {
        self.cursor.bookkeeping_apart(m1, m2, p);
    }

    fn deallocate<M: Memory>(&mut self, mem: &mut M, ptr: usize, layout: NonZeroLayout) -> (r:
        Result<(), Corruption>)
    {
        self.cursor.deallocate(mem, ptr, layout)
    }
}

impl<I: OsBacked> Allocator for GuardPage<I> {
    open spec fn outcome(&self, layout: NonZeroLayout) -> Option<Block> {
        self.inside().outcome(layout)
    }

    open spec fn issued(&self, m: Map<int, u8>, layout: NonZeroLayout) -> Map<int, u8> {
        self.inside().issued(m, layout)
    }

    open spec fn usable(&self, p: int, layout: NonZeroLayout) -> Option<usize> {
        None
    }

    open spec fn resettable(&self) -> bool {
        false
    }

    open spec fn after_issue(&self, layout: NonZeroLayout, next: Self) -> bool {
        &&& next.guarded() == self.guarded()
        &&& next.page_size() == self.page_size()
        &&& self.inside().after_issue(layout, next.inside())
    }

    open spec fn after_reset(&self, next: Self) -> bool {
        false
    }

    fn allocate<M: Memory>(&mut self, mem: &mut M, layout: NonZeroLayout) -> (r: Result<
        Block,
        AllocError,
    >)
    {
        self.cursor.allocate(mem, layout)
    }

    fn reset(&mut self) -> (r: Result<(), AllocError>) {
        Err(AllocError)
    }

    fn usable_size(&self, ptr: usize, layout: NonZeroLayout) -> (r: Option<usize>) {
        None
    }

    fn capacity_bytes(&self) -> (r: Option<usize>) {
        self.cursor.capacity_bytes()
    }

    fn corruption_events(&self) -> (r: u64) {
        self.cursor.corruption_events()
    }
}

impl<I> FixedRange for GuardPage<I> {
    open spec fn start(&self) -> usize {
        self.inside().base()
    }

    open spec fn extent(&self) -> usize {
        self.inside().limit()
    }

    open spec fn commits(&self, offset: int, len: int) -> bool {
        true
    }

    fn base(&self) -> (r: usize) {
        self.cursor.base()
    }

    fn size(&self) -> (r: usize) {
        self.cursor.limit()
    }

    fn commit(&self, offset: usize, len: usize) -> (r: Result<(), AllocError>) {
        Ok(())
    }
}

} // verus!
