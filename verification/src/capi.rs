//! A bump arena over a caller's buffer, with the interface that C code calls.
//!
//! Addresses take the place of pointers, zero that of the null pointer.

use crate::allocator;
use crate::allocator::{Allocator, Block, Deallocator, Grant};
use crate::backing::static_buf::StaticBacked;
use crate::bits;
use crate::bump;
use crate::bump_arena::BumpArena;
use crate::fixed_range::FixedRange;
use crate::hardening::poison::DEFAULT_POISON;
use crate::layout;
use crate::layout::NonZeroLayout;
use crate::memory;
use crate::memory::{fill, Memory};
use vstd::arithmetic::power2::*;
use vstd::prelude::*;

verus! {

/// An arena over a caller's buffer.
pub struct ForgeBump<'a> {
    arena: BumpArena<StaticBacked<'a>>,
}

impl<'a> ForgeBump<'a> {
    /// The arena.
    pub closed spec fn arena(&self) -> BumpArena<StaticBacked<'a>> {
        self.arena
    }
}

/// Makes an arena over `buf`, which starts at `addr`.
///
/// `None` if `addr` is null, if the buffer is empty or longer than `isize::MAX`, or if it
/// reaches the end of the address space.
pub fn forge_bump_init<'a>(buf: &'a mut [u8], addr: usize) -> (r: Option<ForgeBump<'a>>)
    requires
        addr + old(buf)@.len() <= usize::MAX + 1,
    ensures
        r is Some <==> addr != 0 && 0 < old(buf)@.len() <= isize::MAX && addr + old(buf)@.len()
            <= usize::MAX,
        r matches Some(h) ==> {
            &&& h.arena().wf()
            &&& h.arena().start() == addr
            &&& h.arena().capacity() == old(buf)@.len()
            &&& h.arena().allocated() == 0
            &&& h.arena().live() == Map::<int, Grant>::empty()
            &&& h.arena().region() == bump::addresses(addr as int, old(buf)@.len() as int)
        },
{
    let len: usize = buf.len();
    if addr == 0 || len == 0 || len > isize::MAX as usize {
        return None;
    }
    match BumpArena::new(StaticBacked::new(buf, addr)) {
        Ok(arena) => Some(ForgeBump { arena }),
        Err(_) => None,
    }
}

/// The address of a block, or null where there is none.
pub open spec fn address_or_null(block: Option<Block>) -> usize {
    match block {
        Some(b) => b.addr,
        None => 0,
    }
}

/// The block that a request of `size` bytes aligned to `align` is served with.
pub open spec fn bump_outcome(handle: &ForgeBump, size: usize, align: usize) -> Option<Block> {
    if size > 0 && layout::fits(size, align) {
        handle.arena().outcome(NonZeroLayout::of(size as int, align as int))
    } else {
        None
    }
}

/// A request is served at the first address that is aligned for it, where the block then
/// fits.
proof fn lemma_first_place(handle: &ForgeBump, size: usize, align: usize)
    requires
        handle.arena().wf(),
    ensures
        ({
            let from = handle.arena().start() + handle.arena().allocated();
            let at = bits::round_up(from, align as int);
            address_or_null(bump_outcome(handle, size, align)) == if size > 0 && is_pow2(
                align as int,
            ) && size + align - 1 <= isize::MAX && from + align <= usize::MAX + 1 && at + size
                <= handle.arena().start() + handle.arena().capacity() {
                at
            } else {
                0
            }
        }),
{
    handle.arena().serves_its_region();
    if size > 0 && layout::fits(size, align) {
        layout::lemma_largest_power(align);
        layout::lemma_layout_of(size as int, align as int);
        bits::lemma_round_up(handle.arena().start() + handle.arena().allocated(), align as int);
    }
}

/// Issues a block and returns its address, or null if the size is zero, the alignment is
/// not a power of two or the arena is used up.
pub fn forge_bump_alloc<'a, M: Memory>(
    handle: &mut ForgeBump<'a>,
    mem: &mut M,
    size: usize,
    align: usize,
) -> (r: usize)
    requires
        old(handle).arena().wf(),
        allocator::backed(old(handle).arena().region(), old(mem).view()),
    ensures
        final(handle).arena().wf(),
        final(handle).arena().region() == old(handle).arena().region(),
        final(mem).view() == old(mem).view(),
        r == address_or_null(bump_outcome(old(handle), size, align)),
        ({
            let from = old(handle).arena().start() + old(handle).arena().allocated();
            let at = bits::round_up(from, align as int);
            r == if size > 0 && is_pow2(align as int) && size + align - 1 <= isize::MAX && from
                + align <= usize::MAX + 1 && at + size <= old(handle).arena().start() + old(
                handle,
            ).arena().capacity() {
                at
            } else {
                0
            }
        }),
        bump_outcome(old(handle), size, align) is None ==> *final(handle) == *old(handle),
        bump_outcome(old(handle), size, align) matches Some(b) ==> {
            &&& r > 0
            &&& final(handle).arena().allocated() == b.addr + b.len - old(handle).arena().start()
            &&& old(handle).arena().after_issue(
                NonZeroLayout::of(size as int, align as int),
                final(handle).arena(),
            )
            &&& final(handle).arena().live() == old(handle).arena().live().insert(
                b.addr as int,
                Grant { layout: NonZeroLayout::of(size as int, align as int), len: b.len },
            )
        },
{
    let layout = match NonZeroLayout::from_size_align(size, align) {
        Ok(l) => l,
        Err(_) => {
            return 0;
        },
    };
    match handle.arena.allocate(mem, layout) {
        Ok(b) => {
            proof {
                old(handle).arena.serves_its_region();
                handle.arena.live_blocks();
                assert(handle.arena.live().contains_key(b.addr as int));
            }
            b.addr
        },
        Err(_) => 0,
    }
}

/// Like [`forge_bump_alloc`], with the bytes of the block set to zero.
pub fn forge_bump_alloc_zeroed<'a, M: Memory>(
    handle: &mut ForgeBump<'a>,
    mem: &mut M,
    size: usize,
    align: usize,
) -> (r: usize)
    requires
        old(handle).arena().wf(),
        allocator::backed(old(handle).arena().region(), old(mem).view()),
    ensures
        final(handle).arena().wf(),
        final(handle).arena().region() == old(handle).arena().region(),
        r == address_or_null(bump_outcome(old(handle), size, align)),
        ({
            let from = old(handle).arena().start() + old(handle).arena().allocated();
            let at = bits::round_up(from, align as int);
            r == if size > 0 && is_pow2(align as int) && size + align - 1 <= isize::MAX && from
                + align <= usize::MAX + 1 && at + size <= old(handle).arena().start() + old(
                handle,
            ).arena().capacity() {
                at
            } else {
                0
            }
        }),
        bump_outcome(old(handle), size, align) is None ==> {
            &&& *final(handle) == *old(handle)
            &&& final(mem).view() == old(mem).view()
        },
        bump_outcome(old(handle), size, align) matches Some(b) ==> {
            &&& r > 0
            &&& final(handle).arena().allocated() == b.addr + b.len - old(handle).arena().start()
            &&& old(handle).arena().after_issue(
                NonZeroLayout::of(size as int, align as int),
                final(handle).arena(),
            )
            &&& final(handle).arena().live() == old(handle).arena().live().insert(
                b.addr as int,
                Grant { layout: NonZeroLayout::of(size as int, align as int), len: b.len },
            )
            &&& final(mem).view() == memory::overlay(
                old(mem).view(),
                b.addr as int,
                memory::repeated(0, size as int),
            )
        },
{
    proof {
        lemma_first_place(handle, size, align);
    }
    let layout = match NonZeroLayout::from_size_align(size, align) {
        Ok(l) => l,
        Err(_) => {
            return 0;
        },
    };
    match handle.arena.allocate_zeroed(mem, layout) {
        Ok(b) => {
            proof {
                old(handle).arena.serves_its_region();
                handle.arena.live_blocks();
                assert(handle.arena.live().contains_key(b.addr as int));
            }
            b.addr
        },
        Err(_) => 0,
    }
}

/// Overwrites `size` bytes from `ptr` on with the poison pattern; null and zero bytes are
/// left alone. The space is not given back: that is what [`forge_bump_reset`] does.
pub fn forge_bump_free<M: Memory>(mem: &mut M, ptr: usize, size: usize)
    requires
        ptr != 0 && size != 0 ==> ptr + size <= usize::MAX + 1 && memory::accessible(
            old(mem).view(),
            ptr as int,
            size as int,
        ),
    ensures
        final(mem).view() == if ptr == 0 || size == 0 {
            old(mem).view()
        } else {
            memory::overlay(
                old(mem).view(),
                ptr as int,
                memory::repeated(DEFAULT_POISON, size as int),
            )
        },
{
    if ptr == 0 || size == 0 {
        return;
    }
    fill(mem, ptr, size, DEFAULT_POISON);
}

/// Takes every block back at once. Returns 1.
pub fn forge_bump_reset<'a>(handle: &mut ForgeBump<'a>) -> (r: i32)
    requires
        old(handle).arena().wf(),
    ensures
        r == 1,
        final(handle).arena().wf(),
        final(handle).arena().region() == old(handle).arena().region(),
        final(handle).arena().allocated() == 0,
        final(handle).arena().live() == Map::<int, Grant>::empty(),
        old(handle).arena().after_reset(final(handle).arena()),
{
    match handle.arena.reset() {
        Ok(_) => 1,
        Err(_) => 0,
    }
}

/// The bytes not issued yet, or zero without an arena.
pub fn forge_bump_remaining(handle: Option<&ForgeBump>) -> (r: usize)
    requires
        handle matches Some(h) ==> h.arena().wf(),
    ensures
        r == match handle {
            Some(h) => h.arena().capacity() - h.arena().allocated(),
            None => 0int,
        },
{
    match handle {
        Some(h) => h.arena.remaining(),
        None => 0,
    }
}

/// The size of the buffer, or zero without an arena.
pub fn forge_bump_capacity(handle: Option<&ForgeBump>) -> (r: usize)
    ensures
        r == match handle {
            Some(h) => h.arena().capacity() as int,
            None => 0,
        },
{
    match handle {
        Some(h) => h.arena.capacity(),
        None => 0,
    }
}

/// The bytes issued so far, or zero without an arena.
pub fn forge_bump_allocated(handle: Option<&ForgeBump>) -> (r: usize)
    ensures
        r == match handle {
            Some(h) => h.arena().allocated() as int,
            None => 0,
        },
{
    match handle {
        Some(h) => h.arena.allocated(),
        None => 0,
    }
}

} // verus!
