//! The cursor that carves blocks off the front of a region.

use crate::allocator;
use crate::allocator::{Allocator, Block, Corruption, Deallocator, Grant, Residue, Verdict};
use crate::bits;
use crate::layout::{AllocError, NonZeroLayout};
use crate::memory::Memory;
use vstd::prelude::*;

verus! {

/// The block that follows the first `used` of the `limit` bytes from `base` on, or `None`
/// where it does not fit.
pub open spec fn next_block(base: int, limit: int, used: int, layout: NonZeroLayout) -> Option<
    Block,
> {
    let align = layout.align() as int;
    let addr = bits::round_up(base + used, align);
    if base + used + align - 1 <= usize::MAX && addr + layout.size() <= base + limit {
        Some(Block { addr: addr as usize, len: layout.size() })
    } else {
        None
    }
}

/// The addresses of a region.
pub open spec fn addresses(base: int, len: int) -> Set<int> {
    Set::new(|a: int| base <= a < base + len)
}

/// A region with a cursor: what lies below the cursor has been issued, what lies above is
/// free.
pub struct BumpCursor {
    base: usize,
    limit: usize,
    used: usize,
    live: Ghost<Map<int, Grant>>,
}

impl BumpCursor {
    pub closed spec fn base_spec(&self) -> usize {
        self.base
    }

    pub closed spec fn limit_spec(&self) -> usize {
        self.limit
    }

    pub closed spec fn used_spec(&self) -> usize {
        self.used
    }

    /// A region of `limit` bytes from `base` on, of which none is issued.
    pub fn new(base: usize, limit: usize) -> (r: Self)
        requires
            base > 0,
            base + limit <= usize::MAX + 1,
        ensures
            r.wf(),
            r.base() == base,
            r.limit() == limit,
            r.used() == 0,
            r.live() == Map::<int, Grant>::empty(),
    {
        BumpCursor { base, limit, used: 0, live: Ghost(Map::empty()) }
    }

    /// The first address of the region.
    #[verifier::when_used_as_spec(base_spec)]
    pub fn base(&self) -> (r: usize)
        ensures
            r == self.base(),
    {
        self.base
    }

    /// The number of bytes in the region.
    #[verifier::when_used_as_spec(limit_spec)]
    pub fn limit(&self) -> (r: usize)
        ensures
            r == self.limit(),
    {
        self.limit
    }

    /// The bytes below the cursor.
    #[verifier::when_used_as_spec(used_spec)]
    pub fn used(&self) -> (r: usize)
        ensures
            r == self.used(),
    {
        self.used
    }

    /// The bytes above the cursor.
    pub fn remaining(&self) -> (r: usize)
        requires
            self.wf(),
        ensures
            r == self.limit() - self.used(),
    {
        self.limit - self.used
    }

    /// Moves the cursor back to the front.
    pub fn rewind(&mut self)
        requires
            old(self).wf(),
        ensures
            final(self).wf(),
            final(self).base() == old(self).base(),
            final(self).limit() == old(self).limit(),
            final(self).used() == 0,
            final(self).live() == Map::<int, Grant>::empty(),
    {
        self.used = 0;
        self.live = Ghost(Map::empty());
    }

    /// The region is now the one from `base` on. The cursor keeps its offset, and blocks
    /// issued before are no longer in use.
    pub fn moved_to(&mut self, base: usize)
        requires
            old(self).wf(),
            base > 0,
            base + old(self).limit() <= usize::MAX + 1,
        ensures
            final(self).wf(),
            final(self).base() == base,
            final(self).limit() == old(self).limit(),
            final(self).used() == old(self).used(),
            final(self).live() == Map::<int, Grant>::empty(),
    {
        self.base = base;
        self.live = Ghost(Map::empty());
    }

    /// The bounds that the invariant keeps.
    pub proof fn lemma_bounds(&self)
        requires
            self.wf(),
        ensures
            self.base() > 0,
            self.base() + self.limit() <= usize::MAX + 1,
            self.used() <= self.limit(),
            self.region() == addresses(self.base() as int, self.limit() as int),
            forall|p: int| #[trigger]
                self.live().contains_key(p) ==> self.base() <= p && p + self.live()[p].len
                    <= self.base() + self.used() && self.live()[p].len
                    == self.live()[p].layout.size(),
    {
    }

    /// Where the next block for `layout` starts, or an error if it does not fit.
    pub fn place(&self, layout: NonZeroLayout) -> (r: Result<usize, AllocError>)
        requires
            self.wf(),
        ensures
            match next_block(
                self.base() as int,
                self.limit() as int,
                self.used() as int,
                layout,
            ) {
                Some(b) => r == Ok::<usize, AllocError>(b.addr),
                None => r is Err,
            },
            r matches Ok(addr) ==> {
                &&& self.base() + self.used() <= addr
                &&& addr == bits::round_up(self.base() + self.used(), layout.align() as int)
                &&& addr + layout.size() <= self.base() + self.limit()
                &&& addr % layout.align() == 0
            },
    {
        let align: usize = layout.align();
        let from: usize = match self.base.checked_add(self.used) {
            Some(f) => f,
            None => {
                return Err(AllocError);
            },
        };
        proof {
            bits::lemma_round_up(from as int, align as int);
        }
        let next: usize = match bits::checked_round_up(from, align) {
            Some(n) => n,
            None => {
                return Err(AllocError);
            },
        };
        let offset: usize = next - self.base;
        let end: usize = match offset.checked_add(layout.size()) {
            Some(e) => e,
            None => {
                return Err(AllocError);
            },
        };
        if end > self.limit {
            return Err(AllocError);
        }
        Ok(next)
    }
}

impl Deallocator for BumpCursor {
    closed spec fn wf(&self) -> bool {
        &&& self.base > 0
        &&& self.base + self.limit <= usize::MAX + 1
        &&& self.used <= self.limit
        &&& allocator::apart(self.live@)
        &&& forall|p: int| #[trigger]
            self.live@.contains_key(p) ==> {
                &&& self.base <= p
                &&& p + self.live@[p].len <= self.base + self.used
                &&& self.live@[p].len == self.live@[p].layout.size()
                &&& allocator::serves(p, self.live@[p])
            }
    }

    open spec fn region(&self) -> Set<int> {
        addresses(self.base() as int, self.limit() as int)
    }

    closed spec fn live(&self) -> Map<int, Grant> {
        self.live@
    }

    open spec fn budget(&self) -> Option<usize> {
        Some(self.limit())
    }

    open spec fn events(&self) -> u64 {
        0
    }

    open spec fn residue(&self) -> Residue {
        Residue::Kept
    }

    open spec fn verdict(&self, m: Map<int, u8>, p: int) -> Verdict {
        Verdict::Sound
    }

    open spec fn freed(&self, m: Map<int, u8>, p: int) -> Map<int, u8> {
        m
    }

    open spec fn after_return(&self, m: Map<int, u8>, p: int, next: Self) -> bool {
        &&& next.base() == self.base()
        &&& next.limit() == self.limit()
        &&& next.used() == self.used()
    }

    proof fn live_blocks(&self) {
    }

    proof fn bookkeeping_apart(&self, m1: Map<int, u8>, m2: Map<int, u8>, p: int) {
    }

    fn deallocate<M: Memory>(&mut self, mem: &mut M, ptr: usize, layout: NonZeroLayout) -> (r:
        Result<(), Corruption>)
    {
        self.live = Ghost(self.live@.remove(ptr as int));
        Ok(())
    }
}

impl Allocator for BumpCursor {
    open spec fn outcome(&self, layout: NonZeroLayout) -> Option<Block> {
        next_block(self.base() as int, self.limit() as int, self.used() as int, layout)
    }

    open spec fn issued(&self, m: Map<int, u8>, layout: NonZeroLayout) -> Map<int, u8> {
        m
    }

    open spec fn usable(&self, p: int, layout: NonZeroLayout) -> Option<usize> {
        None
    }

    open spec fn resettable(&self) -> bool {
        true
    }

    open spec fn after_issue(&self, layout: NonZeroLayout, next: Self) -> bool {
        &&& next.base() == self.base()
        &&& next.limit() == self.limit()
        &&& match self.outcome(layout) {
            Some(b) => next.used() == b.addr + b.len - self.base(),
            None => next == *self,
        }
    }

    open spec fn after_reset(&self, next: Self) -> bool {
        &&& next.base() == self.base()
        &&& next.limit() == self.limit()
        &&& next.used() == 0
    }

    fn allocate<M: Memory>(&mut self, mem: &mut M, layout: NonZeroLayout) -> (r: Result<
        Block,
        AllocError,
    >)
    {
        let addr: usize = match self.place(layout) {
            Ok(a) => a,
            Err(e) => {
                return Err(e);
            },
        };
        let len: usize = layout.size();
        proof {
            let d = allocator::Grant { layout, len };
            assert(allocator::serves(addr as int, d));
        }
        self.used = addr - self.base + len;
        self.live = Ghost(self.live@.insert(addr as int, Grant { layout, len }));
        Ok(Block { addr, len })
    }

    fn reset(&mut self) -> (r: Result<(), AllocError>) {
        self.rewind();
        Ok(())
    }

    fn usable_size(&self, ptr: usize, layout: NonZeroLayout) -> (r: Option<usize>) {
        None
    }

    fn capacity_bytes(&self) -> (r: Option<usize>) {
        Some(self.limit)
    }

    fn corruption_events(&self) -> (r: u64) {
        0
    }
}

/// A block starts past what was issued before, wastes less than its alignment, and is the
/// first that does.
pub proof fn little_is_wasted(base: int, limit: int, used: int, layout: NonZeroLayout)
    requires
        layout.valid(),
        0 <= base,
        0 <= used,
        next_block(base, limit, used, layout) is Some,
    ensures
        ({
            let b = next_block(base, limit, used, layout)->0;
            &&& base + used <= b.addr < base + used + layout.align()
            &&& b.addr as int % layout.align() as int == 0
            &&& b.addr + b.len <= base + limit
            &&& forall|a: int|
                base + used <= a && #[trigger] (a % (layout.align() as int)) == 0 ==> b.addr <= a
        }),
{
    let align = layout.align() as int;
    crate::layout::lemma_largest_power(layout.align());
    bits::lemma_round_up(base + used, align);
    assert forall|a: int| base + used <= a && #[trigger] (a % align) == 0 implies bits::round_up(
        base + used,
        align,
    ) <= a by {
        bits::lemma_round_up_least(base + used, align, a);
    }
}

/// A region that was rewound serves every request as a fresh one does.
pub proof fn rewound_is_as_good_as_new(rewound: BumpCursor, fresh: BumpCursor, layout: NonZeroLayout)
    requires
        rewound.base() == fresh.base(),
        rewound.limit() == fresh.limit(),
        rewound.used() == 0,
        fresh.used() == 0,
    ensures
        rewound.outcome(layout) == fresh.outcome(layout),
{
}

} // verus!
