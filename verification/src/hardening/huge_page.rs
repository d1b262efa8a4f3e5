//! `HugePageAligned`: blocks aligned to huge pages.

use crate::allocator;
use crate::allocator::{Allocator, Block, Corruption, Deallocator, Grant, Residue, Verdict};
use crate::bits;
use crate::fixed_range::FixedRange;
use crate::layout;
use crate::layout::{AllocError, NonZeroLayout};
use crate::memory::Memory;
use crate::os::{OsCall, Target};
use crate::os_backed::{OsBacked, ProtectFlags};
use vstd::arithmetic::power2::*;
use vstd::prelude::*;

verus! {

/// The huge page size used where none is given: 32 MiB on macOS on Apple Silicon, 2 MiB
/// elsewhere.
pub fn default_huge_page_size(target: Target) -> (r: usize)
    ensures
        r == if target == Target::MacArm {
            0x200_0000int
        } else {
            0x20_0000
        },
{
    if target == Target::MacArm {
        0x200_0000
    } else {
        0x20_0000
    }
}

/// The larger of an alignment and the huge page size.
pub open spec fn raised(layout: NonZeroLayout, huge_page_size: usize) -> usize {
    if layout.align() >= huge_page_size {
        layout.align()
    } else {
        huge_page_size
    }
}

/// The request with its alignment raised to the huge page size.
pub open spec fn promoted(layout: NonZeroLayout, huge_page_size: usize) -> NonZeroLayout {
    NonZeroLayout::of(layout.size() as int, raised(layout, huge_page_size) as int)
}

/// Whether the raised request still makes a layout.
pub open spec fn promotable(layout: NonZeroLayout, huge_page_size: usize) -> bool {
    layout.size() <= isize::MAX - (raised(layout, huge_page_size) - 1)
}

/// The part of a range that is made of whole huge pages, if there is one.
pub open spec fn whole_pages(addr: usize, size: usize, huge_page_size: usize) -> Option<Block> {
    let start = bits::round_up(addr as int, huge_page_size as int);
    let end = bits::round_down(addr + size, huge_page_size as int);
    if addr + size <= usize::MAX && addr + huge_page_size - 1 <= usize::MAX && start < end {
        Some(Block { addr: start as usize, len: (end - start) as usize })
    } else {
        None
    }
}

/// Aligns every block to a huge page.
pub struct HugePageAligned<I> {
    inner: I,
    huge_page_size: usize,
    live: Ghost<Map<int, Grant>>,
}

impl<I> HugePageAligned<I> {
    /// The wrapped allocator.
    pub closed spec fn inside(&self) -> I {
        self.inner
    }

    pub closed spec fn huge_page_size_spec(&self) -> usize {
        self.huge_page_size
    }

    /// The huge page size.
    #[verifier::when_used_as_spec(huge_page_size_spec)]
    pub fn huge_page_size(&self) -> (r: usize)
        ensures
            r == self.huge_page_size(),
    {
        self.huge_page_size
    }

    /// The least number of bytes whose pages can be given back: one huge page.
    pub fn min_purge_size(&self) -> (r: usize)
        ensures
            r == self.huge_page_size(),
    {
        self.huge_page_size
    }

    /// The wrapped allocator.
    pub fn inner(&self) -> (r: &I)
        ensures
            *r == self.inside(),
    {
        &self.inner
    }

    /// The request with its alignment raised to the huge page size.
    fn promote_layout(&self, layout: NonZeroLayout) -> (r: Result<NonZeroLayout, AllocError>)
        requires
            is_pow2(self.huge_page_size as int),
        ensures
            r is Ok <==> promotable(layout, self.huge_page_size),
            r matches Ok(l) ==> l == promoted(layout, self.huge_page_size) && l.valid(),
    {
        let align: usize = if layout.align() >= self.huge_page_size {
            layout.align()
        } else {
            self.huge_page_size
        };
        match NonZeroLayout::from_size_align(layout.size(), align) {
            Ok(l) => Ok(l),
            Err(_) => Err(AllocError),
        }
    }
}

impl<I: OsBacked> HugePageAligned<I> {
    /// Wraps `inner` with the default huge page size.
    pub fn new(inner: I, target: Target) -> (r: Option<Self>)
        requires
            inner.wf(),
        ensures
            r matches Some(h) && h.wf() && h.inside() == inner && h.huge_page_size() == (
            if target == Target::MacArm {
                0x200_0000int
            } else {
                0x20_0000
            }) && h.live() == Map::<int, Grant>::empty(),
    {
        proof {
            is_pow2_equiv(0x20_0000);
            is_pow2_equiv(0x200_0000);
            lemma2_to64();
            lemma_pow2(21);
            lemma_pow2(25);
        }
        Self::with_huge_page_size(inner, default_huge_page_size(target))
    }

    /// Wraps `inner` with the given huge page size, which must be a power of two of at
    /// least 4096.
    pub fn with_huge_page_size(inner: I, huge_page_size: usize) -> (r: Option<Self>)
        requires
            inner.wf(),
        ensures
            r is Some <==> is_pow2(huge_page_size as int) && huge_page_size >= 4096,
            r matches Some(h) ==> h.wf() && h.inside() == inner && h.huge_page_size()
                == huge_page_size && h.live() == Map::<int, Grant>::empty(),
    {
        if !bits::is_power_of_two(huge_page_size) || huge_page_size < 4096 {
            return None;
        }
        Some(HugePageAligned { inner, huge_page_size, live: Ghost(Map::empty()) })
    }

    /// The huge page size is a power of two of at least 4096.
    pub proof fn page_size_is_a_power_of_two(&self)
        requires
            self.wf(),
        ensures
            is_pow2(self.huge_page_size() as int),
            self.huge_page_size() >= 4096,
    {
    }

    /// Every block is aligned to a huge page.
    pub proof fn blocks_are_aligned(&self, p: int)
        requires
            self.wf(),
            self.live().contains_key(p),
        ensures
            p % (self.huge_page_size() as int) == 0,
    {
        let g = self.live@[p];
        self.inner.live_blocks();
        assert(self.inner.live().contains_key(p));
        layout::lemma_layout_of(
            g.layout.size() as int,
            raised(g.layout, self.huge_page_size) as int,
        );
        bits::lemma_aligned_weaker(p, raised(g.layout, self.huge_page_size), self.huge_page_size);
    }

    proof fn lemma_covered(&self)
        requires
            self.wf(),
        ensures
            forall|a: int| allocator::in_blocks(self.live@, a) ==> allocator::in_blocks(
                self.inner.live(),
                a,
            ),
    {
        assert forall|a: int| allocator::in_blocks(self.live@, a) implies allocator::in_blocks(
            self.inner.live(),
            a,
        ) by {
            let q = choose|q: int| #[trigger]
                self.live@.contains_key(q) && q <= a < q + self.live@[q].len;
            assert(self.inner.live().contains_key(q));
        }
    }
}

impl<I: OsBacked> Deallocator for HugePageAligned<I> {
    closed spec fn wf(&self) -> bool {
        &&& self.inner.wf()
        &&& is_pow2(self.huge_page_size as int)
        &&& self.huge_page_size >= 4096
        &&& forall|p: int| #[trigger]
            self.live@.contains_key(p) ==> {
                let g = self.live@[p];
                &&& g.layout.valid()
                &&& promotable(g.layout, self.huge_page_size)
                &&& self.inner.live().contains_key(p)
                &&& self.inner.live()[p] == (Grant {
                    layout: promoted(g.layout, self.huge_page_size),
                    len: g.len,
                })
            }
    }

    open spec fn region(&self) -> Set<int> {
        self.inside().region()
    }

    closed spec fn live(&self) -> Map<int, Grant> {
        self.live@
    }

    open spec fn budget(&self) -> Option<usize> {
        self.inside().budget()
    }

    open spec fn events(&self) -> u64 {
        self.inside().events()
    }

    open spec fn residue(&self) -> Residue {
        self.inside().residue()
    }

    open spec fn verdict(&self, m: Map<int, u8>, p: int) -> Verdict {
        self.inside().verdict(m, p)
    }

    open spec fn freed(&self, m: Map<int, u8>, p: int) -> Map<int, u8> {
        self.inside().freed(m, p)
    }

    open spec fn after_return(&self, m: Map<int, u8>, p: int, next: Self) -> bool {
        &&& next.huge_page_size() == self.huge_page_size()
        &&& self.inside().after_return(m, p, next.inside())
    }

    proof fn live_blocks(&self) {
        self.inner.live_blocks();
        self.lemma_covered();
        assert forall|p: int| #[trigger] self.live().contains_key(p) implies allocator::serves(
            p,
            self.live()[p],
        ) by {
            let g = self.live@[p];
            assert(self.inner.live().contains_key(p));
            layout::lemma_layout_of(
                g.layout.size() as int,
                raised(g.layout, self.huge_page_size) as int,
            );
            bits::lemma_aligned_weaker(p, raised(g.layout, self.huge_page_size), g.layout.align());
        }
        assert forall|p: int, q: int| #[trigger]
            self.live().contains_key(p) && #[trigger] self.live().contains_key(q) && p
                != q implies p + self.live()[p].len <= q || q + self.live()[q].len <= p by {
            assert(self.inner.live().contains_key(p));
            assert(self.inner.live().contains_key(q));
        }
    }

    proof fn bookkeeping_apart(&self, m1: Map<int, u8>, m2: Map<int, u8>, p: int) {
        self.lemma_covered();
        self.inner.bookkeeping_apart(m1, m2, p);
    }

    fn deallocate<M: Memory>(&mut self, mem: &mut M, ptr: usize, layout: NonZeroLayout) -> (r:
        Result<(), Corruption>)
    {
        let ghost p = ptr as int;
        let ghost live = self.live@;
        let ghost rest = self.inner.live().remove(p);
        proof {
            layout::lemma_layout_of(
                layout.size() as int,
                raised(layout, self.huge_page_size) as int,
            );
            assert forall|q: int| #[trigger] live.remove(p).contains_key(q) implies rest.contains_key(
                q,
            ) by {
                assert(live.contains_key(q));
            }
            assert forall|a: int| allocator::in_blocks(
                live.remove(p),
                a,
            ) implies allocator::in_blocks(rest, a) by {
                let q = choose|q: int| #[trigger]
                    live.remove(p).contains_key(q) && q <= a < q + live.remove(p)[q].len;
                assert(live.contains_key(q));
                assert(rest.contains_key(q));
            }
        }
        match self.promote_layout(layout) {
            Ok(inflated) => match self.inner.deallocate(mem, ptr, inflated) {
                Ok(_) => {
                    self.live = Ghost(self.live@.remove(p));
                    Ok(())
                },
                Err(c) => Err(c),
            },
            Err(_) => {
                assert(false);
                Ok(())
            },
        }
    }
}

impl<I: OsBacked> Allocator for HugePageAligned<I> {
    open spec fn outcome(&self, layout: NonZeroLayout) -> Option<Block> {
        if promotable(layout, self.huge_page_size()) {
            self.inside().outcome(promoted(layout, self.huge_page_size()))
        } else {
            None
        }
    }

    open spec fn issued(&self, m: Map<int, u8>, layout: NonZeroLayout) -> Map<int, u8> {
        self.inside().issued(m, promoted(layout, self.huge_page_size()))
    }

    open spec fn usable(&self, p: int, layout: NonZeroLayout) -> Option<usize> {
        self.inside().usable(p, promoted(layout, self.huge_page_size()))
    }

    open spec fn resettable(&self) -> bool {
        false
    }

    open spec fn after_issue(&self, layout: NonZeroLayout, next: Self) -> bool {
        &&& next.huge_page_size() == self.huge_page_size()
        &&& if promotable(layout, self.huge_page_size()) {
            self.inside().after_issue(promoted(layout, self.huge_page_size()), next.inside())
        } else {
            next == *self
        }
    }

    open spec fn after_reset(&self, next: Self) -> bool {
        false
    }

    fn allocate<M: Memory>(&mut self, mem: &mut M, layout: NonZeroLayout) -> (r: Result<
        Block,
        AllocError,
    >)
        ensures
            final(self).huge_page_size() == old(self).huge_page_size(),
            r matches Ok(b) ==> b.addr as int % old(self).huge_page_size() as int == 0,
    {
        let ghost live = self.live@;
        let size: usize = layout.size();
        proof {
            self.lemma_covered();
            assert forall|q: int| #[trigger] live.contains_key(q) implies self.inner.live().contains_key(
                q,
            ) by {}
        }
        let inflated = match self.promote_layout(layout) {
            Ok(l) => l,
            Err(e) => {
                return Err(e);
            },
        };
        match self.inner.allocate(mem, inflated) {
            Ok(block) => {
                let ghost grant = Grant { layout, len: block.len };
                self.live = Ghost(self.live@.insert(block.addr as int, grant));
                proof {
                    self.inner.live_blocks();
                    assert(self.inner.live().contains_key(block.addr as int));
                    assert forall|q: int| #[trigger] live.contains_key(q) implies block.addr
                        + block.len <= q || q + live[q].len <= block.addr by {
                        assert(old(self).inner.live().contains_key(q));
                    }
                    assert(self.wf());
                    self.blocks_are_aligned(block.addr as int);
                }
                Ok(block)
            },
            Err(e) => Err(e),
        }
    }

    fn reset(&mut self) -> (r: Result<(), AllocError>) {
        Err(AllocError)
    }

    fn usable_size(&self, ptr: usize, layout: NonZeroLayout) -> (r: Option<usize>) {
        proof {
            layout::lemma_layout_of(
                layout.size() as int,
                raised(layout, self.huge_page_size) as int,
            );
        }
        match self.promote_layout(layout) {
            Ok(inflated) => self.inner.usable_size(ptr, inflated),
            Err(_) => None,
        }
    }

    fn capacity_bytes(&self) -> (r: Option<usize>) {
        self.inner.capacity_bytes()
    }

    fn corruption_events(&self) -> (r: u64) {
        self.inner.corruption_events()
    }
}

impl<I: OsBacked> OsBacked for HugePageAligned<I> {
    open spec fn os_base(&self) -> usize {
        self.inside().os_base()
    }

    open spec fn os_size(&self) -> usize {
        self.inside().os_size()
    }

    /// Only whole huge pages of the range are given back.
    open spec fn release_call(&self, addr: usize, size: usize) -> Option<OsCall> {
        match whole_pages(addr, size, self.huge_page_size()) {
            Some(b) => self.inside().release_call(b.addr, b.len),
            None => None,
        }
    }

    open spec fn protect_call(&self, addr: usize, size: usize, flags: ProtectFlags) -> OsCall {
        self.inside().protect_call(addr, size, flags)
    }

    proof fn mapping_bounds(&self) {
        self.inner.mapping_bounds();
    }

    fn base_ptr(&self) -> (r: usize) {
        self.inner.base_ptr()
    }

    fn region_size(&self) -> (r: usize) {
        self.inner.region_size()
    }

    fn release_pages(&self, addr: usize, size: usize) -> (r: Option<OsCall>) {
        let hp: usize = self.huge_page_size;
        proof {
            reveal(is_pow2);
            bits::lemma_round_up(addr as int, hp as int);
            bits::lemma_round_down(addr + size, hp as int);
        }
        let end: usize = match addr.checked_add(size) {
            Some(e) => e,
            None => {
                return None;
            },
        };
        let aligned_start: usize = match bits::checked_round_up(addr, hp) {
            Some(s) => s,
            None => {
                return None;
            },
        };
        let aligned_end: usize = bits::mask_down(end, hp);
        if aligned_end <= aligned_start {
            return None;
        }
        self.inner.release_pages(aligned_start, aligned_end - aligned_start)
    }

    fn protect(&self, addr: usize, size: usize, flags: ProtectFlags) -> (r: OsCall) {
        self.inner.protect(addr, size, flags)
    }
}

impl<I: FixedRange> FixedRange for HugePageAligned<I> {
    open spec fn start(&self) -> usize {
        self.inside().start()
    }

    open spec fn extent(&self) -> usize {
        self.inside().extent()
    }

    open spec fn commits(&self, offset: int, len: int) -> bool {
        self.inside().commits(offset, len)
    }

    fn base(&self) -> (r: usize) {
        self.inner.base()
    }

    fn size(&self) -> (r: usize) {
        self.inner.size()
    }

    fn commit(&self, offset: usize, len: usize) -> (r: Result<(), AllocError>) {
        self.inner.commit(offset, len)
    }
}

/// What is given back is made of whole huge pages and lies in the range that was named.
pub proof fn released_pages_are_whole(addr: usize, size: usize, huge_page_size: usize)
    requires
        is_pow2(huge_page_size as int),
        whole_pages(addr, size, huge_page_size) is Some,
    ensures
        ({
            let b = whole_pages(addr, size, huge_page_size)->0;
            &&& b.addr as int % huge_page_size as int == 0
            &&& b.len as int % huge_page_size as int == 0
            &&& b.len > 0
            &&& addr <= b.addr
            &&& b.addr + b.len <= addr + size
        }),
{
    let hp = huge_page_size as int;
    reveal(is_pow2);
    bits::lemma_round_up(addr as int, hp);
    bits::lemma_round_down(addr + size, hp);
    let start = bits::round_up(addr as int, hp);
    let end = bits::round_down(addr + size, hp);
    vstd::arithmetic::div_mod::lemma_sub_mod_noop(end, start, hp);
    vstd::arithmetic::div_mod::lemma_small_mod(0, hp as nat);
}

} // verus!
