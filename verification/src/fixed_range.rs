//! Regions whose address range is fixed at construction.

use crate::layout::AllocError;
use vstd::prelude::*;

verus! {

/// Whether address `p` is one of the `size` addresses that follow `base`, counted round the
/// end of the address space.
pub open spec fn in_range(base: usize, size: usize, p: usize) -> bool {
    if p >= base {
        p - base < size
    } else {
        p + (usize::MAX + 1) - base < size
    }
}

/// An address range fixed at construction.
///
/// A type can own a run of bytes without carving blocks out of it; [`crate::BumpArena`]
/// makes an allocator of such a type.
pub trait FixedRange {
    /// The first address of the range.
    spec fn start(&self) -> usize;

    /// The number of addresses in the range.
    spec fn extent(&self) -> usize;

    /// Whether the given part of the range can be made ready for writing.
    spec fn commits(&self, offset: int, len: int) -> bool;

    /// The first address of the range.
    fn base(&self) -> (r: usize)
        ensures
            r == self.start(),
    ;

    /// The number of addresses in the range.
    fn size(&self) -> (r: usize)
        ensures
            r == self.extent(),
    ;

    /// Makes `len` bytes from `offset` on ready for writing.
    fn commit(&self, offset: usize, len: usize) -> (r: Result<(), AllocError>)
        requires
            offset + len <= self.extent(),
        ensures
            r is Ok <==> self.commits(offset as int, len as int),
    ;

    /// Whether `ptr` lies in the range, also where its end wraps round the address space.
    fn contains(&self, ptr: usize) -> (r: bool)
        ensures
            r == in_range(self.start(), self.extent(), ptr),
    {
        ptr.wrapping_sub(self.base()) < self.size()
    }
}

/// Where the range does not wrap, it holds exactly the addresses from its start to its end.
pub proof fn range_without_wrap(base: usize, size: usize, p: usize)
    requires
        base + size <= usize::MAX + 1,
    ensures
        in_range(base, size, p) <==> base <= p < base + size,
{
}

/// Every byte of a range is in it, the address just past its end is not, and an empty
/// range holds nothing.
pub proof fn range_edges(base: usize, size: usize, i: int)
    requires
        0 <= i < size,
    ensures
        in_range(base, size, ((base + i) % (usize::MAX + 1)) as usize),
        !in_range(base, size, ((base + size) % (usize::MAX + 1)) as usize),
        forall|p: usize| !in_range(base, 0, p),
{
    let top = usize::MAX + 1;
    let p = (base + i) % top;
    assert(p == if base + i < top { base + i } else { base + i - top }) by {
        if base + i >= top {
            vstd::arithmetic::div_mod::lemma_mod_sub_multiples_vanish(base + i, top);
            vstd::arithmetic::div_mod::lemma_small_mod((base + i - top) as nat, top as nat);
        } else {
            vstd::arithmetic::div_mod::lemma_small_mod((base + i) as nat, top as nat);
        }
    }
    let e = (base + size) % top;
    assert(e == if base + size < top { base + size } else { base + size - top }) by {
        if base + size >= top {
            vstd::arithmetic::div_mod::lemma_mod_sub_multiples_vanish(base + size, top);
            vstd::arithmetic::div_mod::lemma_small_mod((base + size - top) as nat, top as nat);
        } else {
            vstd::arithmetic::div_mod::lemma_small_mod((base + size) as nat, top as nat);
        }
    }
}

} // verus!
