//! The two halves of an allocator: issuing blocks and taking them back.
//!
//! [`Deallocator`] takes blocks back and [`Allocator`] issues them. Both carry the promises
//! that every allocator of the crate keeps: blocks in use never overlap, an allocator
//! never writes to a block in use, and a refused request changes nothing.

use crate::layout::{AllocError, NonZeroLayout};
use crate::memory;
use crate::memory::{Address, Bytes, Memory};
use vstd::prelude::*;

verus! {

/// A run of `len` bytes that starts at `addr`.
#[derive(Clone, Copy, Debug, PartialEq, Eq, Structural)]
pub struct Block {
    pub addr: usize,
    pub len: usize,
}

/// A block in use: the layout that was asked for, and the bytes that may be used.
#[derive(Clone, Copy, Debug, PartialEq, Eq, Structural)]
pub struct Grant {
    pub layout: NonZeroLayout,
    pub len: usize,
}

/// Damage that was found around a block when it was given back.
#[derive(Clone, Copy, Debug, PartialEq, Eq, Structural)]
pub enum Corruption {
    /// The guard word in front of the block was overwritten.
    PreCanary,
    /// The guard word behind the block was overwritten.
    PostCanary,
    /// The header in front of the block does not authenticate.
    JitterHeader,
}

/// Why a block could not be resized.
#[derive(Clone, Copy, Debug, PartialEq, Eq, Structural)]
pub enum ResizeError {
    /// No block of the new size could be issued; the old one is untouched.
    Alloc(AllocError),
    /// The old block could not be given back.
    Corrupt(Corruption),
}

/// What the bookkeeping around a block says of giving it back.
pub enum Verdict {
    /// The bookkeeping is as it was written: the block can be taken back.
    Sound,
    /// The bookkeeping is damaged and the damage is found.
    Caught(Corruption),
    /// The bookkeeping was replaced by a forgery that authenticates.
    Forged,
}

/// What a block holds once it has been given back.
#[derive(Clone, Copy, Debug, PartialEq, Eq, Structural)]
pub enum Residue {
    /// What it held before.
    Kept,
    /// The same byte everywhere.
    Filled(u8),
}

/// Whether `n` bytes from `at` on hold in `m2` what a block that held them in `m` leaves
/// behind.
pub open spec fn left_behind(
    residue: Residue,
    m: Map<int, u8>,
    m2: Map<int, u8>,
    at: int,
    n: int,
) -> bool {
    forall|a: int|
        #![trigger m2[a]]
        at <= a < at + n ==> m2[a] == match residue {
            Residue::Kept => m[a],
            Residue::Filled(b) => b,
        }
}

/// Whether address `a` lies in one of the blocks.
pub open spec fn in_blocks(live: Map<int, Grant>, a: int) -> bool {
    exists|q: int| #[trigger] live.contains_key(q) && q <= a < q + live[q].len
}

/// Whether a run of `len` bytes from `addr` on meets none of the blocks.
pub open spec fn clear_of(live: Map<int, Grant>, addr: int, len: int) -> bool {
    forall|q: int| #[trigger]
        live.contains_key(q) ==> addr + len <= q || q + live[q].len <= addr
}

/// No two of the blocks overlap.
pub open spec fn apart(live: Map<int, Grant>) -> bool {
    forall|p: int, q: int| #[trigger]
        live.contains_key(p) && #[trigger] live.contains_key(q) && p != q ==> p + live[p].len <= q
            || q + live[q].len <= p
}

/// A block satisfies the request it was issued for.
pub open spec fn serves(p: int, g: Grant) -> bool {
    &&& p > 0
    &&& g.layout.valid()
    &&& g.len >= g.layout.size()
    &&& p + g.len <= usize::MAX + 1
    &&& p % (g.layout.align() as int) == 0
}

/// Two states of memory that agree outside the blocks.
pub open spec fn same_outside(live: Map<int, Grant>, m1: Map<int, u8>, m2: Map<int, u8>) -> bool {
    &&& m1.dom() == m2.dom()
    &&& forall|a: int|
        #![trigger m1[a]]
        #![trigger m2[a]]
        m1.contains_key(a) && !in_blocks(live, a) ==> m1[a] == m2[a]
}

/// Two states of memory that agree on every byte of the blocks.
pub open spec fn same_inside(live: Map<int, Grant>, m1: Map<int, u8>, m2: Map<int, u8>) -> bool {
    forall|a: int|
        #![trigger m1[a]]
        #![trigger m2[a]]
        m1.contains_key(a) && in_blocks(live, a) ==> m1[a] == m2[a]
}

/// The memory behind the addresses is accessible.
pub open spec fn backed(region: Set<int>, m: Map<int, u8>) -> bool {
    region.subset_of(m.dom())
}

/// Two states of memory that agree outside the addresses.
pub open spec fn same_elsewhere(region: Set<int>, m1: Map<int, u8>, m2: Map<int, u8>) -> bool {
    &&& m1.dom() == m2.dom()
    &&& forall|a: int|
        #![trigger m1[a]]
        #![trigger m2[a]]
        m1.contains_key(a) && !region.contains(a) ==> m1[a] == m2[a]
}

/// The blocks in use, by their start address.
pub type Blocks = Map<Address, Grant>;

/// The addresses from which blocks are issued.
pub type Addresses = Set<Address>;

/// The half of an allocator that takes blocks back.
pub trait Deallocator: Sized {
    /// The allocator's invariant.
    spec fn wf(&self) -> bool;

    /// The addresses from which blocks are issued.
    spec fn region(&self) -> Addresses;

    /// The blocks in use, by their start address.
    spec fn live(&self) -> Blocks;

    /// The total bytes that can be issued, where that is bounded.
    spec fn budget(&self) -> Option<usize>;

    /// The damage events that were counted rather than reported.
    spec fn events(&self) -> u64;

    /// What a block holds once it has been given back.
    spec fn residue(&self) -> Residue;

    /// What the bookkeeping in `m` says of giving back the block at `p`.
    spec fn verdict(&self, m: Bytes, p: Address) -> Verdict;

    /// What becomes of memory `m` when the block at `p` is given back.
    spec fn freed(&self, m: Bytes, p: Address) -> Bytes;

    /// Whether `next` is what the allocator becomes when the block at `p` is given back in
    /// memory `m`.
    spec fn after_return(&self, m: Bytes, p: Address, next: Self) -> bool;

    /// Blocks in use serve their requests, lie within the addresses of the allocator and
    /// do not overlap.
    proof fn live_blocks(&self)
        requires
            self.wf(),
        ensures
            apart(self.live()),
            forall|p: int| #[trigger]
                self.live().contains_key(p) ==> serves(p, self.live()[p]),
            forall|a: int| in_blocks(self.live(), a) ==> self.region().contains(a),
    ;

    /// The bookkeeping lies outside the blocks in use: writing to them changes no verdict.
    proof fn bookkeeping_apart(&self, m1: Bytes, m2: Bytes, p: Address)
        requires
            self.wf(),
            self.live().contains_key(p),
            backed(self.region(), m1),
            same_outside(self.live(), m1, m2),
        ensures
            self.verdict(m1, p) == self.verdict(m2, p),
    ;

    /// Gives back the block at `ptr`, which was issued for `layout` and is still in use.
    fn deallocate<M: Memory>(&mut self, mem: &mut M, ptr: usize, layout: NonZeroLayout) -> (r:
        Result<(), Corruption>)
        requires
            old(self).wf(),
            backed(old(self).region(), old(mem).view()),
            old(self).live().contains_key(ptr as int),
            old(self).live()[ptr as int].layout == layout,
            old(self).verdict(old(mem).view(), ptr as int) !is Forged,
        ensures
            final(self).wf(),
            final(self).region() == old(self).region(),
            final(self).budget() == old(self).budget(),
            final(self).residue() == old(self).residue(),
            final(self).events() >= old(self).events(),
            final(mem).view() == old(self).freed(old(mem).view(), ptr as int),
            old(self).after_return(old(mem).view(), ptr as int, *final(self)),
            same_elsewhere(old(self).region(), old(mem).view(), final(mem).view()),
            same_inside(
                old(self).live().remove(ptr as int),
                old(mem).view(),
                final(mem).view(),
            ),
            forall|q: int| #[trigger]
                old(self).live().remove(ptr as int).contains_key(q) ==> final(self).verdict(final(mem).view(), q)
                    == old(self).verdict(old(mem).view(), q),
            match old(self).verdict(old(mem).view(), ptr as int) {
                Verdict::Sound => {
                    &&& r is Ok
                    &&& final(self).live() == old(self).live().remove(ptr as int)
                    &&& left_behind(
                        old(self).residue(),
                        old(mem).view(),
                        final(mem).view(),
                        ptr as int,
                        layout.size() as int,
                    )
                },
                Verdict::Caught(c) => r == Err::<(), Corruption>(c) && final(self).live() == old(
                    self,
                ).live(),
                Verdict::Forged => true,
            },
    ;
}

/// The half of an allocator that issues blocks.
pub trait Allocator: Deallocator {
    /// The block that a request is served with, or `None` if it is refused.
    spec fn outcome(&self, layout: NonZeroLayout) -> Option<Block>;

    /// What becomes of memory `m` when a request is served.
    spec fn issued(&self, m: Bytes, layout: NonZeroLayout) -> Bytes;

    /// The usable bytes reported for the block at `p`.
    spec fn usable(&self, p: Address, layout: NonZeroLayout) -> Option<usize>;

    /// Whether everything issued can be reclaimed at once.
    spec fn resettable(&self) -> bool;

    /// Whether `next` is what the allocator becomes when it answers a request.
    spec fn after_issue(&self, layout: NonZeroLayout, next: Self) -> bool;

    /// Whether `next` is what the allocator becomes when everything is reclaimed.
    spec fn after_reset(&self, next: Self) -> bool;

    /// Issues a block for `layout`.
    fn allocate<M: Memory>(&mut self, mem: &mut M, layout: NonZeroLayout) -> (r: Result<
        Block,
        AllocError,
    >)
        requires
            old(self).wf(),
            backed(old(self).region(), old(mem).view()),
        ensures
            final(self).wf(),
            final(self).region() == old(self).region(),
            final(self).budget() == old(self).budget(),
            final(self).residue() == old(self).residue(),
            final(self).events() >= old(self).events(),
            same_elsewhere(old(self).region(), old(mem).view(), final(mem).view()),
            same_inside(old(self).live(), old(mem).view(), final(mem).view()),
            forall|q: int| #[trigger]
                old(self).live().contains_key(q) ==> final(self).verdict(final(mem).view(), q)
                    == old(self).verdict(old(mem).view(), q),
            old(self).after_issue(layout, *final(self)),
            match old(self).outcome(layout) {
                Some(b) => {
                    &&& r == Ok::<Block, AllocError>(b)
                    &&& clear_of(old(self).live(), b.addr as int, b.len as int)
                    &&& final(self).live() == old(self).live().insert(
                        b.addr as int,
                        Grant { layout, len: b.len },
                    )
                    &&& final(mem).view() == old(self).issued(old(mem).view(), layout)
                    &&& final(self).verdict(final(mem).view(), b.addr as int) is Sound
                },
                None => {
                    &&& r is Err
                    &&& final(self).live() == old(self).live()
                    &&& final(mem).view() == old(mem).view()
                },
            },
    ;

    /// Gives back everything that is in use, where the allocator can do that.
    fn reset(&mut self) -> (r: Result<(), AllocError>)
        requires
            old(self).wf(),
        ensures
            final(self).wf(),
            final(self).region() == old(self).region(),
            final(self).budget() == old(self).budget(),
            final(self).residue() == old(self).residue(),
            final(self).events() >= old(self).events(),
            r is Ok <==> old(self).resettable(),
            r is Ok ==> final(self).live() == Map::<int, Grant>::empty() && old(self).after_reset(
                *final(self),
            ),
            r is Err ==> *final(self) == *old(self),
    ;

    /// The usable bytes of the block at `ptr`, if the allocator reports them.
    fn usable_size(&self, ptr: usize, layout: NonZeroLayout) -> (r: Option<usize>)
        requires
            self.wf(),
            self.live().contains_key(ptr as int),
            self.live()[ptr as int].layout == layout,
        ensures
            r == self.usable(ptr as int, layout),
            r matches Some(n) ==> layout.size() <= n <= self.live()[ptr as int].len,
    ;

    /// The total bytes that can be issued, or `None` where that is unbounded.
    fn capacity_bytes(&self) -> (r: Option<usize>)
        requires
            self.wf(),
        ensures
            r == self.budget(),
    ;

    /// The damage events counted since construction.
    fn corruption_events(&self) -> (r: u64)
        requires
            self.wf(),
        ensures
            r == self.events(),
    ;

    /// Issues a block for `layout` whose first `layout.size()` bytes are zero.
    fn allocate_zeroed<M: Memory>(&mut self, mem: &mut M, layout: NonZeroLayout) -> (r: Result<
        Block,
        AllocError,
    >)
        requires
            old(self).wf(),
            backed(old(self).region(), old(mem).view()),
        ensures
            final(self).wf(),
            final(self).region() == old(self).region(),
            final(self).budget() == old(self).budget(),
            final(self).residue() == old(self).residue(),
            final(self).events() >= old(self).events(),
            same_elsewhere(old(self).region(), old(mem).view(), final(mem).view()),
            same_inside(old(self).live(), old(mem).view(), final(mem).view()),
            forall|q: int| #[trigger]
                old(self).live().contains_key(q) ==> final(self).verdict(final(mem).view(), q)
                    == old(self).verdict(old(mem).view(), q),
            old(self).after_issue(layout, *final(self)),
            match old(self).outcome(layout) {
                Some(b) => {
                    &&& r == Ok::<Block, AllocError>(b)
                    &&& clear_of(old(self).live(), b.addr as int, b.len as int)
                    &&& final(self).live() == old(self).live().insert(
                        b.addr as int,
                        Grant { layout, len: b.len },
                    )
                    &&& final(mem).view() == memory::overlay(
                        old(self).issued(old(mem).view(), layout),
                        b.addr as int,
                        memory::repeated(0, layout.size() as int),
                    )
                    &&& final(self).verdict(final(mem).view(), b.addr as int) is Sound
                },
                None => {
                    &&& r is Err
                    &&& final(self).live() == old(self).live()
                    &&& final(mem).view() == old(mem).view()
                },
            },
    {
        match self.allocate(mem, layout) {
            Ok(block) => {
                let ghost m1 = mem.view();
                let ghost live = self.live();
                proof {
                    self.live_blocks();
                    lemma_in_block(live, block.addr as int);
                    assert(self.live().contains_key(block.addr as int));
                }
                memory::fill(mem, block.addr, layout.size(), 0);
                proof {
                    lemma_overlay_inside(
                        live,
                        m1,
                        block.addr as int,
                        memory::repeated(0, layout.size() as int),
                        block.addr as int,
                    );
                    assert forall|q: int| #[trigger] live.contains_key(q) implies self.verdict(
                        mem.view(),
                        q,
                    ) == self.verdict(m1, q) by {
                        self.bookkeeping_apart(m1, mem.view(), q);
                    }
                    lemma_clear_bytes(old(self).live(), block.addr as int, block.len as int);
                    assert forall|q: int| #[trigger]
                        old(self).live().contains_key(q) implies self.verdict(mem.view(), q)
                        == old(self).verdict(old(mem).view(), q) by {
                        assert(live.contains_key(q));
                    }
                }
                Ok(block)
            },
            Err(e) => Err(e),
        }
    }

    /// Moves the block at `ptr` to a larger one, keeping its bytes.
    fn grow<M: Memory>(
        &mut self,
        mem: &mut M,
        ptr: usize,
        from: NonZeroLayout,
        to: NonZeroLayout,
    ) -> (r: Result<Block, ResizeError>)
        requires
            old(self).wf(),
            backed(old(self).region(), old(mem).view()),
            old(self).live().contains_key(ptr as int),
            old(self).live()[ptr as int].layout == from,
            old(self).verdict(old(mem).view(), ptr as int) !is Forged,
            to.size() >= from.size(),
            to.align() == from.align(),
        ensures
            final(self).wf(),
            final(self).region() == old(self).region(),
            final(self).budget() == old(self).budget(),
            final(self).residue() == old(self).residue(),
            final(self).events() >= old(self).events(),
            same_elsewhere(old(self).region(), old(mem).view(), final(mem).view()),
            same_inside(
                old(self).live().remove(ptr as int),
                old(mem).view(),
                final(mem).view(),
            ),
            forall|q: int| #[trigger]
                old(self).live().remove(ptr as int).contains_key(q) ==> final(self).verdict(
                    final(mem).view(),
                    q,
                ) == old(self).verdict(old(mem).view(), q),
            resized(
                old(self).live(),
                old(self).outcome(to),
                old(self).verdict(old(mem).view(), ptr as int),
                Block { addr: ptr, len: from.size() },
                to,
                old(mem).view(),
                final(self).live(),
                final(mem).view(),
                r,
            ),
            match old(self).outcome(to) {
                None => old(self).after_issue(to, *final(self)),
                Some(b) => {
                    let moved = memory::overlay(
                        old(self).issued(old(mem).view(), to),
                        b.addr as int,
                        memory::span_of(old(mem).view(), ptr as int, from.size() as int),
                    );
                    exists|mid: Self|
                        {
                            &&& #[trigger] old(self).after_issue(to, mid)
                            &&& mid.wf()
                            &&& mid.live() == old(self).live().insert(
                                b.addr as int,
                                Grant { layout: to, len: b.len },
                            )
                            &&& mid.after_return(moved, ptr as int, *final(self))
                            &&& final(mem).view() == mid.freed(moved, ptr as int)
                        }
                },
            },
            old(self).outcome(to) matches Some(b) ==> final(self).verdict(
                final(mem).view(),
                b.addr as int,
            ) is Sound,
            r is Ok ==> left_behind(
                old(self).residue(),
                old(mem).view(),
                final(mem).view(),
                ptr as int,
                from.size() as int,
            ),
    {
        let ghost live0 = self.live();
        proof {
            self.live_blocks();
            lemma_in_block(live0, ptr as int);
            assert(self.live().contains_key(ptr as int));
        }
        let dst = match self.allocate(mem, to) {
            Ok(b) => b,
            Err(e) => {
                return Err(ResizeError::Alloc(e));
            },
        };
        let ghost mid = *self;
        proof {
            lemma_copied(
                self,
                live0,
                old(mem).view(),
                mem.view(),
                ptr as int,
                dst.addr as int,
                from.size() as int,
            );
        }
        memory::copy(mem, ptr, dst.addr, from.size());
        let ghost m2 = mem.view();
        let done = self.deallocate(mem, ptr, from);
        assert(old(self).after_issue(to, mid) && mid.after_return(m2, ptr as int, *self));
        match done {
            Ok(_) => Ok(dst),
            Err(c) => Err(ResizeError::Corrupt(c)),
        }
    }

    /// Moves the block at `ptr` to a smaller one, keeping the bytes that fit.
    fn shrink<M: Memory>(
        &mut self,
        mem: &mut M,
        ptr: usize,
        from: NonZeroLayout,
        to: NonZeroLayout,
    ) -> (r: Result<Block, ResizeError>)
        requires
            old(self).wf(),
            backed(old(self).region(), old(mem).view()),
            old(self).live().contains_key(ptr as int),
            old(self).live()[ptr as int].layout == from,
            old(self).verdict(old(mem).view(), ptr as int) !is Forged,
            to.size() <= from.size(),
            to.align() == from.align(),
        ensures
            final(self).wf(),
            final(self).region() == old(self).region(),
            final(self).budget() == old(self).budget(),
            final(self).residue() == old(self).residue(),
            final(self).events() >= old(self).events(),
            same_elsewhere(old(self).region(), old(mem).view(), final(mem).view()),
            same_inside(
                old(self).live().remove(ptr as int),
                old(mem).view(),
                final(mem).view(),
            ),
            forall|q: int| #[trigger]
                old(self).live().remove(ptr as int).contains_key(q) ==> final(self).verdict(
                    final(mem).view(),
                    q,
                ) == old(self).verdict(old(mem).view(), q),
            resized(
                old(self).live(),
                old(self).outcome(to),
                old(self).verdict(old(mem).view(), ptr as int),
                Block { addr: ptr, len: to.size() },
                to,
                old(mem).view(),
                final(self).live(),
                final(mem).view(),
                r,
            ),
            match old(self).outcome(to) {
                None => old(self).after_issue(to, *final(self)),
                Some(b) => {
                    let moved = memory::overlay(
                        old(self).issued(old(mem).view(), to),
                        b.addr as int,
                        memory::span_of(old(mem).view(), ptr as int, to.size() as int),
                    );
                    exists|mid: Self|
                        {
                            &&& #[trigger] old(self).after_issue(to, mid)
                            &&& mid.wf()
                            &&& mid.live() == old(self).live().insert(
                                b.addr as int,
                                Grant { layout: to, len: b.len },
                            )
                            &&& mid.after_return(moved, ptr as int, *final(self))
                            &&& final(mem).view() == mid.freed(moved, ptr as int)
                        }
                },
            },
            old(self).outcome(to) matches Some(b) ==> final(self).verdict(
                final(mem).view(),
                b.addr as int,
            ) is Sound,
            r is Ok ==> left_behind(
                old(self).residue(),
                old(mem).view(),
                final(mem).view(),
                ptr as int,
                from.size() as int,
            ),
    {
        let ghost live0 = self.live();
        proof {
            self.live_blocks();
            lemma_in_block(live0, ptr as int);
            assert(self.live().contains_key(ptr as int));
        }
        let dst = match self.allocate(mem, to) {
            Ok(b) => b,
            Err(e) => {
                return Err(ResizeError::Alloc(e));
            },
        };
        let ghost mid = *self;
        proof {
            lemma_copied(
                self,
                live0,
                old(mem).view(),
                mem.view(),
                ptr as int,
                dst.addr as int,
                to.size() as int,
            );
        }
        memory::copy(mem, ptr, dst.addr, to.size());
        let ghost m2 = mem.view();
        let done = self.deallocate(mem, ptr, from);
        assert(old(self).after_issue(to, mid) && mid.after_return(m2, ptr as int, *self));
        match done {
            Ok(_) => Ok(dst),
            Err(c) => Err(ResizeError::Corrupt(c)),
        }
    }
}

/// What moving a block comes to for an allocator and its memory: the new block is issued,
/// `kept` bytes are copied to it, and the old block is given back.
pub open spec fn relocated<A: Allocator>(
    before: &A,
    m: Map<int, u8>,
    ptr: usize,
    from: NonZeroLayout,
    to: NonZeroLayout,
    kept: usize,
    after: &A,
    m2: Map<int, u8>,
    r: Result<Block, ResizeError>,
) -> bool {
    &&& after.wf()
    &&& after.region() == before.region()
    &&& after.budget() == before.budget()
    &&& after.residue() == before.residue()
    &&& after.events() >= before.events()
    &&& same_elsewhere(before.region(), m, m2)
    &&& same_inside(before.live().remove(ptr as int), m, m2)
    &&& forall|q: int| #[trigger]
        before.live().remove(ptr as int).contains_key(q) ==> after.verdict(m2, q)
            == before.verdict(m, q)
    &&& resized(
        before.live(),
        before.outcome(to),
        before.verdict(m, ptr as int),
        Block { addr: ptr, len: kept },
        to,
        m,
        after.live(),
        m2,
        r,
    )
    &&& match before.outcome(to) {
        None => before.after_issue(to, *after),
        Some(b) => {
            let copied = memory::overlay(
                before.issued(m, to),
                b.addr as int,
                memory::span_of(m, ptr as int, kept as int),
            );
            &&& after.verdict(m2, b.addr as int) is Sound
            &&& exists|mid: A|
                {
                    &&& #[trigger] before.after_issue(to, mid)
                    &&& mid.wf()
                    &&& mid.live() == before.live().insert(
                        b.addr as int,
                        Grant { layout: to, len: b.len },
                    )
                    &&& mid.after_return(copied, ptr as int, *after)
                    &&& m2 == mid.freed(copied, ptr as int)
                }
        },
    }
    &&& r is Ok ==> left_behind(before.residue(), m, m2, ptr as int, from.size() as int)
}

/// What moving a block comes to. `kept` is the part of the old block whose bytes are
/// copied, `got` what the request for the new block is answered with, and `verdict` what
/// the bookkeeping says of giving back the old one.
pub open spec fn resized(
    live: Map<int, Grant>,
    got: Option<Block>,
    verdict: Verdict,
    kept: Block,
    to: NonZeroLayout,
    m: Map<int, u8>,
    live2: Map<int, Grant>,
    m2: Map<int, u8>,
    r: Result<Block, ResizeError>,
) -> bool {
    match got {
        None => {
            &&& r == Err::<Block, ResizeError>(ResizeError::Alloc(AllocError))
            &&& live2 == live
            &&& m2 == m
        },
        Some(b) => {
            let grown = live.insert(b.addr as int, Grant { layout: to, len: b.len });
            &&& clear_of(live, b.addr as int, b.len as int)
            &&& b.addr != kept.addr
            &&& forall|i: int|
                0 <= i < kept.len ==> #[trigger] m2[b.addr + i] == m[kept.addr + i]
            &&& match verdict {
                Verdict::Sound => r == Ok::<Block, ResizeError>(b) && live2 == grown.remove(
                    kept.addr as int,
                ),
                Verdict::Caught(c) => r == Err::<Block, ResizeError>(ResizeError::Corrupt(c))
                    && live2 == grown,
                Verdict::Forged => true,
            }
        },
    }
}

/// The address of a block lies in the blocks.
pub proof fn lemma_in_block(live: Map<int, Grant>, p: int)
    requires
        live.contains_key(p),
    ensures
        forall|a: int| p <= a < p + live[p].len ==> in_blocks(live, a),
{
}

/// Where there are fewer blocks, fewer addresses lie in them.
pub proof fn lemma_fewer_blocks(few: Map<int, Grant>, many: Map<int, Grant>)
    requires
        forall|q: int| #[trigger]
            few.contains_key(q) ==> many.contains_key(q) && many[q] == few[q],
    ensures
        forall|a: int| in_blocks(few, a) ==> in_blocks(many, a),
{
    assert forall|a: int| in_blocks(few, a) implies in_blocks(many, a) by {
        let q = choose|q: int| #[trigger] few.contains_key(q) && q <= a < q + few[q].len;
        assert(many.contains_key(q));
    }
}

/// No byte of a run that is clear of the blocks lies in them.
pub proof fn lemma_clear_bytes(live: Map<int, Grant>, addr: int, len: int)
    requires
        clear_of(live, addr, len),
    ensures
        forall|a: int| addr <= a < addr + len ==> !in_blocks(live, a),
{
}

/// A write inside the block at `p` leaves everything outside the blocks alone.
pub proof fn lemma_overlay_inside(
    live: Map<int, Grant>,
    m: Map<int, u8>,
    at: int,
    s: Seq<u8>,
    p: int,
)
    requires
        live.contains_key(p),
        p <= at,
        at + s.len() <= p + live[p].len,
    ensures
        same_outside(live, m, memory::overlay(m, at, s)),
{
    lemma_in_block(live, p);
    assert(m.dom() =~= memory::overlay(m, at, s).dom());
}

/// What is known once `kept` bytes of the block at `ptr` have been copied to the block at
/// `dst`, which was issued after the blocks of `live0`. `m0` is the memory before it was
/// issued, `m1` the memory before the bytes were copied.
pub proof fn lemma_copied<A: Deallocator>(
    alloc: &A,
    live0: Map<int, Grant>,
    m0: Map<int, u8>,
    m1: Map<int, u8>,
    ptr: int,
    dst: int,
    kept: int,
)
    requires
        alloc.wf(),
        backed(alloc.region(), m1),
        m0.dom() == m1.dom(),
        same_inside(live0, m0, m1),
        live0.contains_key(ptr),
        0 <= kept <= live0[ptr].layout.size(),
        alloc.live().contains_key(dst),
        alloc.live() == live0.insert(dst, alloc.live()[dst]),
        kept <= alloc.live()[dst].layout.size(),
        clear_of(live0, dst, alloc.live()[dst].len as int),
        forall|q: int| #[trigger] live0.contains_key(q) ==> serves(q, live0[q]),
    ensures
        ({
            let live1 = alloc.live();
            let m2 = memory::overlay(m1, dst, memory::span_of(m1, ptr, kept));
            &&& memory::accessible(m1, ptr, kept)
            &&& memory::accessible(m1, dst, kept)
            &&& ptr + kept <= dst || dst + kept <= ptr
            &&& ptr + kept <= usize::MAX + 1
            &&& dst + kept <= usize::MAX + 1
            &&& memory::span_of(m1, ptr, kept) == memory::span_of(m0, ptr, kept)
            &&& live1.contains_key(ptr) && live1[ptr] == live0[ptr]
            &&& forall|q: int| #[trigger]
                live1.contains_key(q) ==> alloc.verdict(m2, q) == alloc.verdict(m1, q)
            &&& forall|q: int| #[trigger]
                live0.remove(ptr).contains_key(q) ==> live0.contains_key(q)
                    && live1.remove(ptr).contains_key(q) && live1.contains_key(q)
            &&& live1.remove(ptr).contains_key(dst)
            &&& forall|a: int| #[trigger]
                in_blocks(live0.remove(ptr), a) ==> in_blocks(live1.remove(ptr), a)
                    && in_blocks(live0, a)
            &&& same_inside(live0, m1, m2)
            &&& same_elsewhere(alloc.region(), m1, m2)
            &&& forall|a: int|
                dst <= a < dst + kept ==> #[trigger] in_blocks(live1.remove(ptr), a) && m2[a]
                    == m0[ptr + a - dst]
        }),
{
    let live1 = alloc.live();
    let m2 = memory::overlay(m1, dst, memory::span_of(m1, ptr, kept));
    alloc.live_blocks();
    assert(live1.contains_key(ptr));
    assert(serves(dst, live1[dst]));
    lemma_in_block(live0, ptr);
    lemma_in_block(live1, ptr);
    lemma_in_block(live1, dst);
    lemma_in_block(live1.remove(ptr), dst);
    assert(memory::span_of(m1, ptr, kept) =~= memory::span_of(m0, ptr, kept));
    lemma_overlay_inside(live1, m1, dst, memory::span_of(m1, ptr, kept), dst);
    assert forall|q: int| #[trigger] live1.contains_key(q) implies alloc.verdict(m2, q)
        == alloc.verdict(m1, q) by {
        alloc.bookkeeping_apart(m1, m2, q);
    }
    lemma_clear_bytes(live0, dst, live1[dst].len as int);
    lemma_fewer_blocks(live0.remove(ptr), live1.remove(ptr));
    lemma_fewer_blocks(live0.remove(ptr), live0);
}

/// Writing inside a block in use changes no verdict.
pub proof fn lemma_verdict_kept<A: Deallocator>(
    alloc: &A,
    m: Map<int, u8>,
    at: int,
    s: Seq<u8>,
    p: int,
    q: int,
)
    requires
        alloc.wf(),
        backed(alloc.region(), m),
        alloc.live().contains_key(p),
        p <= at,
        at + s.len() <= p + alloc.live()[p].len,
        alloc.live().contains_key(q),
    ensures
        alloc.verdict(memory::overlay(m, at, s), q) == alloc.verdict(m, q),
        memory::overlay(m, at, s).dom() == m.dom(),
{
    lemma_overlay_inside(alloc.live(), m, at, s, p);
    alloc.bookkeeping_apart(m, memory::overlay(m, at, s), q);
}

} // verus!
