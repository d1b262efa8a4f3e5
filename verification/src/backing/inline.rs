//! `InlineBacked`: blocks carved from storage of a fixed size.

use crate::allocator::{Allocator, Block, Corruption, Deallocator, Grant, Residue, Verdict};
use crate::bits;
use crate::bump;
use crate::bump::BumpCursor;
use crate::fixed_range::FixedRange;
use crate::layout::{AllocError, NonZeroLayout};
use crate::memory::Memory;
use vstd::arithmetic::power2::*;
use vstd::prelude::*;

verus! {

/// The largest alignment that inline storage serves.
pub const MAX_ALIGN: usize = 16;

/// Storage of `N` bytes, a whole number of machine words, from which blocks are carved, front
/// to back.
///
/// The storage starts at a multiple of [`MAX_ALIGN`]. It moves with the value that holds
/// it: [`Self::moved_to`] records where it has gone.
pub struct InlineBacked<const N: usize> {
    cursor: BumpCursor,
    /// Empty. It gives the value the alignment of its storage.
    alignment: [u128; 0],
}

/// Whether storage of `n` bytes is a whole number of machine words.
pub open spec fn whole_words(n: usize) -> bool {
    n as int % (usize::BITS as int / 8) == 0
}

impl<const N: usize> InlineBacked<N> {
    /// The cursor over the storage.
    pub closed spec fn inside(&self) -> BumpCursor {
        self.cursor
    }

    /// Storage whose addresses are counted from [`MAX_ALIGN`] on.
    pub fn new() -> (r: Self)
        requires
            whole_words(N),
            N <= isize::MAX,
        ensures
            r.wf(),
            r.start() == MAX_ALIGN,
            r.allocated() == 0,
            r.live() == Map::<int, Grant>::empty(),
            r.region() == bump::addresses(r.start() as int, N as int),
    {
        Self::placed_at(MAX_ALIGN)
    }

    /// Storage that starts at `base`.
    pub fn placed_at(base: usize) -> (r: Self)
        requires
            whole_words(N),
            base > 0,
            base as int % MAX_ALIGN as int == 0,
            base + N <= usize::MAX + 1,
        ensures
            r.wf(),
            r.start() == base,
            r.allocated() == 0,
            r.live() == Map::<int, Grant>::empty(),
            r.region() == bump::addresses(r.start() as int, N as int),
    {
        InlineBacked { cursor: BumpCursor::new(base, N), alignment: [] }
    }

    /// The storage now starts at `base`. What was issued stays issued, but the addresses
    /// handed out before are no longer good.
    pub fn moved_to(&mut self, base: usize)
        requires
            old(self).wf(),
            base > 0,
            base as int % MAX_ALIGN as int == 0,
            base + N <= usize::MAX + 1,
        ensures
            final(self).wf(),
            final(self).start() == base,
            final(self).allocated() == old(self).allocated(),
            final(self).live() == Map::<int, Grant>::empty(),
            final(self).region() == bump::addresses(base as int, N as int),
    {
        self.cursor.moved_to(base);
    }

    pub open spec fn allocated_spec(&self) -> usize {
        self.inside().used()
    }

    /// The bytes issued so far, padding counted.
    #[verifier::when_used_as_spec(allocated_spec)]
    pub fn allocated(&self) -> (r: usize)
        ensures
            r == self.allocated(),
    {
        self.cursor.used()
    }

    /// The size of the storage.
    pub fn capacity(&self) -> (r: usize)
        ensures
            r == N,
    {
        N
    }

    /// The bytes not issued yet.
    pub fn remaining(&self) -> (r: usize)
        requires
            self.wf(),
        ensures
            r == N - self.allocated(),
    {
        proof {
            self.cursor.lemma_bounds();
        }
        N - self.cursor.used()
    }

    /// Takes every block back at once.
    pub fn reset(&mut self)
        requires
            old(self).wf(),
        ensures
            final(self).wf(),
            final(self).start() == old(self).start(),
            final(self).region() == old(self).region(),
            final(self).allocated() == 0,
            final(self).live() == Map::<int, Grant>::empty(),
    {
        self.cursor.rewind();
    }

    /// The first address of the storage.
    fn buffer_base(&self) -> (r: usize)
        ensures
            r == self.cursor.base(),
    {
        self.cursor.base()
    }

    /// The storage is `N` bytes long, does not wrap round the address space, and starts at a
    /// multiple of 16.
    pub proof fn within_its_storage(&self)
        requires
            self.wf(),
        ensures
            self.start() > 0,
            self.start() + N <= usize::MAX + 1,
            self.allocated() <= N,
            self.start() as int % 16 == 0,
            self.budget() == Some(N),
            self.region() == bump::addresses(self.start() as int, N as int),
    {
        self.cursor.lemma_bounds();
    }

    /// Where a block lands in the storage does not depend on where the storage is: the
    /// block starts at the first multiple of its alignment past what is issued.
    pub proof fn place_within_storage(&self, layout: NonZeroLayout)
        requires
            self.wf(),
            layout.valid(),
            self.start() + N + MAX_ALIGN <= usize::MAX,
        ensures
            self.outcome(layout) == (if layout.align() <= MAX_ALIGN && bits::round_up(
                self.allocated() as int,
                layout.align() as int,
            ) + layout.size() <= N {
                Some(
                    Block {
                        addr: (self.start() + bits::round_up(
                            self.allocated() as int,
                            layout.align() as int,
                        )) as usize,
                        len: layout.size(),
                    },
                )
            } else {
                None
            }),
    {
        self.cursor.lemma_bounds();
        if layout.align() <= MAX_ALIGN {
            let a = layout.align() as int;
            let base = self.start() as int;
            let used = self.allocated() as int;
            assert(is_pow2(16)) by {
                reveal_with_fuel(is_pow2, 5);
            }
            reveal(is_pow2);
            bits::lemma_aligned_weaker(base, MAX_ALIGN, layout.align());
            vstd::arithmetic::div_mod::lemma_add_mod_noop(base, used + a - 1, a);
            vstd::arithmetic::div_mod::lemma_mod_twice(used + a - 1, a);
            assert((base + used + a - 1) % a == (used + a - 1) % a);
            bits::lemma_round_up(base + used, a);
        }
    }
}

impl<const N: usize> Deallocator for InlineBacked<N> {
    closed spec fn wf(&self) -> bool {
        &&& self.cursor.wf()
        &&& self.cursor.limit() == N
        &&& self.cursor.base() as int % MAX_ALIGN as int == 0
    }

    open spec fn region(&self) -> Set<int> {
        self.inside().region()
    }

    open spec fn live(&self) -> Map<int, Grant> {
        self.inside().live()
    }

    open spec fn budget(&self) -> Option<usize> {
        self.inside().budget()
    }

    open spec fn events(&self) -> u64 {
        self.inside().events()
    }

    open spec fn residue(&self) -> Residue {
        self.inside().residue()
    }

    open spec fn verdict(&self, m: Map<int, u8>, p: int) -> Verdict {
        self.inside().verdict(m, p)
    }

    open spec fn freed(&self, m: Map<int, u8>, p: int) -> Map<int, u8> {
        self.inside().freed(m, p)
    }

    open spec fn after_return(&self, m: Map<int, u8>, p: int, next: Self) -> bool {
        next.start() == self.start() && next.allocated() == self.allocated()
    }

    proof fn live_blocks(&self) {
        self.cursor.live_blocks();
    }

    proof fn bookkeeping_apart(&self, m1: Map<int, u8>, m2: Map<int, u8>, p: int) {
        self.cursor.bookkeeping_apart(m1, m2, p);
    }

    fn deallocate<M: Memory>(&mut self, mem: &mut M, ptr: usize, layout: NonZeroLayout) -> (r:
        Result<(), Corruption>)
    {
        self.cursor.deallocate(mem, ptr, layout)
    }
}

impl<const N: usize> Allocator for InlineBacked<N> {
    open spec fn outcome(&self, layout: NonZeroLayout) -> Option<Block> {
        if layout.align() > MAX_ALIGN {
            None
        } else {
            bump::next_block(self.start() as int, N as int, self.allocated() as int, layout)
        }
    }

    open spec fn issued(&self, m: Map<int, u8>, layout: NonZeroLayout) -> Map<int, u8> {
        m
    }

    open spec fn usable(&self, p: int, layout: NonZeroLayout) -> Option<usize> {
        None
    }

    open spec fn resettable(&self) -> bool {
        false
    }

    open spec fn after_issue(&self, layout: NonZeroLayout, next: Self) -> bool {
        &&& next.start() == self.start()
        &&& match self.outcome(layout) {
            Some(b) => next.allocated() == b.addr + b.len - self.start(),
            None => next == *self,
        }
    }

    open spec fn after_reset(&self, next: Self) -> bool {
        false
    }

    fn allocate<M: Memory>(&mut self, mem: &mut M, layout: NonZeroLayout) -> (r: Result<
        Block,
        AllocError,
    >)
    {
        if layout.align() > MAX_ALIGN {
            return Err(AllocError);
        }
        self.cursor.allocate(mem, layout)
    }

    fn reset(&mut self) -> (r: Result<(), AllocError>) {
        Err(AllocError)
    }

    fn usable_size(&self, ptr: usize, layout: NonZeroLayout) -> (r: Option<usize>) {
        None
    }

    fn capacity_bytes(&self) -> (r: Option<usize>) {
        self.cursor.capacity_bytes()
    }

    fn corruption_events(&self) -> (r: u64) {
        self.cursor.corruption_events()
    }
}

impl<const N: usize> FixedRange for InlineBacked<N> {
    open spec fn start(&self) -> usize {
        self.inside().base()
    }

    open spec fn extent(&self) -> usize {
        N
    }

    open spec fn commits(&self, offset: int, len: int) -> bool {
        true
    }

    fn base(&self) -> (r: usize) {
        self.buffer_base()
    }

    fn size(&self) -> (r: usize) {
        N
    }

    fn commit(&self, offset: usize, len: usize) -> (r: Result<(), AllocError>) {
        Ok(())
    }
}

} // verus!
