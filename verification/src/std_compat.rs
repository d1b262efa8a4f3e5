//! `StdCompat`: an allocator that also answers requests for nothing.

use crate::allocator;
use crate::allocator::{Allocator, Block, Corruption, Grant, ResizeError, Verdict};
use crate::layout;
use crate::layout::{AllocError, Layout, NonZeroLayout};
use crate::memory;
use crate::memory::Memory;
use vstd::prelude::*;

verus! {

/// The layout of a request for something.
pub open spec fn nonzero(layout: Layout) -> NonZeroLayout {
    NonZeroLayout::of(layout.size() as int, layout.align() as int)
}

/// The answer to a request for nothing: no byte, at an address that is aligned as asked.
pub open spec fn nothing(layout: Layout) -> Block {
    Block { addr: layout.align(), len: 0 }
}

/// The address that stands for a block of no bytes: the alignment itself.
fn dangling_for_align(align: usize) -> (r: Block)
    ensures
        r == (Block { addr: align, len: 0 }),
{
    Block { addr: align, len: 0 }
}

/// Wraps an allocator so that requests for zero bytes are answered here; the wrapped
/// allocator never sees one.
#[derive(Copy, Debug)]
pub struct StdCompat<A> {
    inner: A,
}

impl<A> StdCompat<A> {
    /// The wrapped allocator.
    pub closed spec fn inside(&self) -> A {
        self.inner
    }

    /// Wraps `inner`.
    pub fn new(inner: A) -> (r: Self)
        ensures
            r.inside() == inner,
    {
        StdCompat { inner }
    }

    /// The wrapped allocator.
    pub fn inner(&self) -> (r: &A)
        ensures
            *r == self.inside(),
    {
        &self.inner
    }

    /// Unwraps the allocator.
    pub fn into_inner(self) -> (r: A)
        ensures
            r == self.inside(),
    {
        self.inner
    }
}

impl<A: Clone> Clone for StdCompat<A> {
    fn clone(&self) -> (r: Self)
        ensures
            cloned(self.inside(), r.inside()),
    {
        StdCompat { inner: self.inner.clone() }
    }
}

impl<A: Default> Default for StdCompat<A> {
    fn default() -> (r: Self)
        ensures
            call_ensures(A::default, (), r.inside()),
    {
        StdCompat::new(A::default())
    }
}

/// What serving a request comes to.
pub open spec fn served<A: Allocator>(
    before: &A,
    m: Map<int, u8>,
    layout: NonZeroLayout,
    after: &A,
    m2: Map<int, u8>,
    r: Option<Block>,
) -> bool {
    &&& after.wf()
    &&& after.region() == before.region()
    &&& after.budget() == before.budget()
    &&& after.residue() == before.residue()
    &&& after.events() >= before.events()
    &&& allocator::same_elsewhere(before.region(), m, m2)
    &&& allocator::same_inside(before.live(), m, m2)
    &&& forall|q: int| #[trigger]
        before.live().contains_key(q) ==> after.verdict(m2, q) == before.verdict(m, q)
    &&& r == before.outcome(layout)
    &&& before.after_issue(layout, *after)
    &&& match before.outcome(layout) {
        Some(b) => {
            &&& allocator::clear_of(before.live(), b.addr as int, b.len as int)
            &&& after.live() == before.live().insert(b.addr as int, Grant { layout, len: b.len })
            &&& m2 == before.issued(m, layout)
            &&& after.verdict(m2, b.addr as int) is Sound
        },
        None => after.live() == before.live() && m2 == m,
    }
}

/// What giving a block back comes to.
pub open spec fn taken_back<A: Allocator>(
    before: &A,
    m: Map<int, u8>,
    p: int,
    after: &A,
    m2: Map<int, u8>,
    r: Result<(), Corruption>,
) -> bool {
    &&& after.wf()
    &&& after.region() == before.region()
    &&& after.budget() == before.budget()
    &&& after.residue() == before.residue()
    &&& after.events() >= before.events()
    &&& m2 == before.freed(m, p)
    &&& before.after_return(m, p, *after)
    &&& allocator::same_elsewhere(before.region(), m, m2)
    &&& allocator::same_inside(before.live().remove(p), m, m2)
    &&& forall|q: int| #[trigger]
        before.live().remove(p).contains_key(q) ==> after.verdict(m2, q) == before.verdict(m, q)
    &&& match before.verdict(m, p) {
        Verdict::Sound => {
            &&& r is Ok
            &&& after.live() == before.live().remove(p)
            &&& allocator::left_behind(
                before.residue(),
                m,
                m2,
                p,
                before.live()[p].layout.size() as int,
            )
        },
        Verdict::Caught(c) => r == Err::<(), Corruption>(c) && after.live() == before.live(),
        Verdict::Forged => true,
    }
}

impl<A: Allocator> StdCompat<A> {
    /// Issues a block for `layout`.
    pub fn allocate<M: Memory>(&mut self, mem: &mut M, layout: Layout) -> (r: Result<
        Block,
        AllocError,
    >)
        requires
            old(self).inside().wf(),
            allocator::backed(old(self).inside().region(), old(mem).view()),
        ensures
            layout.size() == 0 ==> {
                &&& r == Ok::<Block, AllocError>(nothing(layout))
                &&& *final(self) == *old(self)
                &&& final(mem).view() == old(mem).view()
            },
            layout.size() > 0 ==> served(
                &old(self).inside(),
                old(mem).view(),
                nonzero(layout),
                &final(self).inside(),
                final(mem).view(),
                (if r is Ok {
                    Some(r->Ok_0)
                } else {
                    None
                }),
            ),
    {
        match NonZeroLayout::try_from(layout) {
            Ok(nzl) => self.inner.allocate(mem, nzl),
            Err(_) => Ok(dangling_for_align(layout.align())),
        }
    }

    /// Gives back a block that was issued for `layout`; nothing is done for a block of no
    /// bytes.
    pub fn deallocate<M: Memory>(&mut self, mem: &mut M, ptr: usize, layout: Layout) -> (r: Result<
        (),
        Corruption,
    >)
        requires
            layout.size() > 0 ==> {
                &&& old(self).inside().wf()
                &&& allocator::backed(old(self).inside().region(), old(mem).view())
                &&& old(self).inside().live().contains_key(ptr as int)
                &&& old(self).inside().live()[ptr as int].layout == nonzero(layout)
                &&& old(self).inside().verdict(old(mem).view(), ptr as int) !is Forged
            },
        ensures
            layout.size() == 0 ==> {
                &&& r is Ok
                &&& *final(self) == *old(self)
                &&& final(mem).view() == old(mem).view()
            },
            layout.size() > 0 ==> taken_back(
                &old(self).inside(),
                old(mem).view(),
                ptr as int,
                &final(self).inside(),
                final(mem).view(),
                r,
            ),
    {
        match NonZeroLayout::try_from(layout) {
            Ok(nzl) => self.inner.deallocate(mem, ptr, nzl),
            Err(_) => Ok(()),
        }
    }

    /// Moves a block to a larger one. From nothing to something is a plain request; from
    /// something to nothing is refused.
    pub fn grow<M: Memory>(&mut self, mem: &mut M, ptr: usize, from: Layout, to: Layout) -> (r:
        Result<Block, ResizeError>)
        requires
            old(self).inside().wf(),
            allocator::backed(old(self).inside().region(), old(mem).view()),
            from.size() > 0 && to.size() > 0 ==> {
                &&& old(self).inside().live().contains_key(ptr as int)
                &&& old(self).inside().live()[ptr as int].layout == nonzero(from)
                &&& old(self).inside().verdict(old(mem).view(), ptr as int) !is Forged
                &&& to.size() >= from.size()
                &&& to.align() == from.align()
            },
        ensures
            from.size() > 0 && to.size() > 0 ==> allocator::relocated(
                &old(self).inside(),
                old(mem).view(),
                ptr,
                nonzero(from),
                nonzero(to),
                from.size(),
                &final(self).inside(),
                final(mem).view(),
                r,
            ),
            from.size() == 0 && to.size() > 0 ==> {
                &&& served(
                    &old(self).inside(),
                    old(mem).view(),
                    nonzero(to),
                    &final(self).inside(),
                    final(mem).view(),
                    (if r is Ok {
                        Some(r->Ok_0)
                    } else {
                        None
                    }),
                )
                &&& r is Err ==> r->Err_0 == ResizeError::Alloc(AllocError)
            },
            from.size() > 0 && to.size() == 0 ==> {
                &&& r == Err::<Block, ResizeError>(ResizeError::Alloc(AllocError))
                &&& *final(self) == *old(self)
                &&& final(mem).view() == old(mem).view()
            },
            from.size() == 0 && to.size() == 0 ==> {
                &&& r == Ok::<Block, ResizeError>(nothing(to))
                &&& *final(self) == *old(self)
                &&& final(mem).view() == old(mem).view()
            },
    {
        proof {
            layout::lemma_layout_of(from.size() as int, from.align() as int);
            layout::lemma_layout_of(to.size() as int, to.align() as int);
        }
        match NonZeroLayout::try_from(from) {
            Ok(from_nz) => match NonZeroLayout::try_from(to) {
                Ok(to_nz) => self.inner.grow(mem, ptr, from_nz, to_nz),
                Err(_) => Err(ResizeError::Alloc(AllocError)),
            },
            Err(_) => match NonZeroLayout::try_from(to) {
                Ok(to_nz) => match self.inner.allocate(mem, to_nz) {
                    Ok(b) => Ok(b),
                    Err(e) => Err(ResizeError::Alloc(e)),
                },
                Err(_) => Ok(dangling_for_align(to.align())),
            },
        }
    }

    /// Moves a block to a smaller one. From something to nothing gives the block back; from
    /// nothing to something is refused.
    pub fn shrink<M: Memory>(&mut self, mem: &mut M, ptr: usize, from: Layout, to: Layout) -> (r:
        Result<Block, ResizeError>)
        requires
            old(self).inside().wf(),
            allocator::backed(old(self).inside().region(), old(mem).view()),
            from.size() > 0 ==> {
                &&& old(self).inside().live().contains_key(ptr as int)
                &&& old(self).inside().live()[ptr as int].layout == nonzero(from)
                &&& old(self).inside().verdict(old(mem).view(), ptr as int) !is Forged
            },
            from.size() > 0 && to.size() > 0 ==> to.size() <= from.size() && to.align()
                == from.align(),
        ensures
            from.size() > 0 && to.size() > 0 ==> allocator::relocated(
                &old(self).inside(),
                old(mem).view(),
                ptr,
                nonzero(from),
                nonzero(to),
                to.size(),
                &final(self).inside(),
                final(mem).view(),
                r,
            ),
            from.size() > 0 && to.size() == 0 ==> {
                &&& r is Ok ==> r->Ok_0 == nothing(to)
                &&& r is Err ==> r->Err_0 is Corrupt
                &&& taken_back(
                    &old(self).inside(),
                    old(mem).view(),
                    ptr as int,
                    &final(self).inside(),
                    final(mem).view(),
                    (if r is Ok {
                        Ok::<(), Corruption>(())
                    } else {
                        Err(r->Err_0->Corrupt_0)
                    }),
                )
            },
            from.size() == 0 && to.size() > 0 ==> {
                &&& r == Err::<Block, ResizeError>(ResizeError::Alloc(AllocError))
                &&& *final(self) == *old(self)
                &&& final(mem).view() == old(mem).view()
            },
            from.size() == 0 && to.size() == 0 ==> {
                &&& r == Ok::<Block, ResizeError>(nothing(to))
                &&& *final(self) == *old(self)
                &&& final(mem).view() == old(mem).view()
            },
    {
        proof {
            layout::lemma_layout_of(from.size() as int, from.align() as int);
            layout::lemma_layout_of(to.size() as int, to.align() as int);
        }
        match NonZeroLayout::try_from(from) {
            Ok(from_nz) => match NonZeroLayout::try_from(to) {
                Ok(to_nz) => self.inner.shrink(mem, ptr, from_nz, to_nz),
                Err(_) => match self.inner.deallocate(mem, ptr, from_nz) {
                    Ok(_) => Ok(dangling_for_align(to.align())),
                    Err(c) => Err(ResizeError::Corrupt(c)),
                },
            },
            Err(_) => match NonZeroLayout::try_from(to) {
                Ok(_) => Err(ResizeError::Alloc(AllocError)),
                Err(_) => Ok(dangling_for_align(to.align())),
            },
        }
    }
}

} // verus!
