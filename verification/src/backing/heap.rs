//! `HeapBytes`: one block of the global heap as a region.

use crate::backing::inline::MAX_ALIGN;
use crate::bits;
use crate::fixed_range::FixedRange;
use crate::layout;
use crate::layout::{AllocError, NonZeroLayout};
use crate::memory::Memory;
use vstd::arithmetic::power2::*;
use vstd::prelude::*;

verus! {

/// What is asked of the global heap: a block, whose bytes are zero if `zeroed` is set.
#[derive(Clone, Copy, Debug, PartialEq, Eq, Structural)]
pub struct HeapRequest {
    pub layout: NonZeroLayout,
    pub zeroed: bool,
}

/// The request that size and alignment make, if they make one.
pub open spec fn asked(size: usize, align: usize, zeroed: bool) -> Option<HeapRequest> {
    if size > 0 && layout::fits(size, align) {
        Some(HeapRequest { layout: NonZeroLayout::of(size as int, align as int), zeroed })
    } else {
        None
    }
}

/// What asking the global heap starts with: the request, or an error if there is none.
pub open spec fn requested(
    size: usize,
    align: usize,
    zeroed: bool,
    r: Result<HeapRequest, AllocError>,
) -> bool {
    match asked(size, align, zeroed) {
        Some(q) => {
            &&& r == Ok::<HeapRequest, AllocError>(q)
            &&& q.layout.size() == size
            &&& q.layout.align() == align
            &&& q.zeroed == zeroed
        },
        None => r is Err,
    }
}

/// What the global heap answers to a request: the address of a block of that size and
/// alignment, or a refusal. Where there is no request, there is no answer to speak of.
pub open spec fn granted_by_heap(
    request: Option<HeapRequest>,
    reply: Result<usize, AllocError>,
) -> bool {
    request is Some && reply is Ok ==> {
        let layout = request->Some_0.layout;
        let addr = reply->Ok_0;
        &&& addr > 0
        &&& addr + layout.size() <= usize::MAX + 1
        &&& addr as int % layout.align() as int == 0
    }
}

/// Whether the `n` bytes from `at` on are accessible and zero.
pub open spec fn zero_bytes(m: Map<int, u8>, at: int, n: int) -> bool {
    forall|a: int| at <= a < at + n ==> #[trigger] m.contains_key(a) && m[a] == 0
}

/// What the global heap leaves in memory when it answers a request: zero bytes, where they
/// were asked for.
pub open spec fn cleared_by_heap(
    request: Option<HeapRequest>,
    reply: Result<usize, AllocError>,
    m: Map<int, u8>,
) -> bool {
    request is Some && request->Some_0.zeroed && reply is Ok ==> zero_bytes(
        m,
        reply->Ok_0 as int,
        request->Some_0.layout.size() as int,
    )
}

/// One block of the global heap.
pub struct HeapBytes {
    addr: usize,
    block_layout: NonZeroLayout,
}

impl HeapBytes {
    /// The layout of the block, which is needed to give it back.
    pub closed spec fn layout(&self) -> NonZeroLayout {
        self.block_layout
    }

    /// What to ask of the global heap, or an error if the size is zero or, with the
    /// alignment, makes no layout.
    fn request(size: usize, align: usize, zeroed: bool) -> (r: Result<HeapRequest, AllocError>)
        ensures
            requested(size, align, zeroed, r),
    {
        proof {
            reveal(is_pow2);
        }
        if size == 0 || align == 0 || !bits::is_power_of_two(align) {
            return Err(AllocError);
        }
        match NonZeroLayout::from_size_align(size, align) {
            Ok(layout) => Ok(HeapRequest { layout, zeroed }),
            Err(_) => Err(AllocError),
        }
    }

    /// What [`Self::new`] asks of the global heap.
    pub fn new_request(size: usize) -> (r: Result<HeapRequest, AllocError>)
        ensures
            requested(size, MAX_ALIGN, false, r),
    {
        Self::request(size, MAX_ALIGN, false)
    }

    /// What [`Self::new_zeroed`] asks of the global heap: a zeroed block.
    pub fn new_zeroed_request(size: usize) -> (r: Result<HeapRequest, AllocError>)
        ensures
            requested(size, MAX_ALIGN, true, r),
    {
        Self::request(size, MAX_ALIGN, true)
    }

    /// What [`Self::with_align`] asks of the global heap.
    pub fn with_align_request(size: usize, align: usize) -> (r: Result<HeapRequest, AllocError>)
        ensures
            requested(size, align, false, r),
    {
        Self::request(size, align, false)
    }

    /// What [`Self::with_align_zeroed`] asks of the global heap: a zeroed block.
    pub fn with_align_zeroed_request(size: usize, align: usize) -> (r: Result<
        HeapRequest,
        AllocError,
    >)
        ensures
            requested(size, align, true, r),
    {
        Self::request(size, align, true)
    }

    /// A block of `size` bytes, aligned to [`MAX_ALIGN`]. `reply` is the answer to
    /// [`Self::new_request`].
    pub fn new(size: usize, reply: Result<usize, AllocError>) -> (r: Result<Self, AllocError>)
        requires
            granted_by_heap(asked(size, MAX_ALIGN, false), reply),
        ensures
            heap_block(asked(size, MAX_ALIGN, false), reply, r),
            r matches Ok(h) ==> h.extent() == size && h.start() as int % MAX_ALIGN as int == 0,
    {
        Self::with_align(size, MAX_ALIGN, reply)
    }

    /// Like [`Self::new`], with zero bytes. `reply` is the answer to
    /// [`Self::new_zeroed_request`], and `mem` the memory as the heap has left it.
    pub fn new_zeroed<M: Memory>(
        size: usize,
        reply: Result<usize, AllocError>,
        mem: &M,
    ) -> (r: Result<Self, AllocError>)
        requires
            granted_by_heap(asked(size, MAX_ALIGN, true), reply),
            cleared_by_heap(asked(size, MAX_ALIGN, true), reply, mem.view()),
        ensures
            heap_block(asked(size, MAX_ALIGN, true), reply, r),
            r matches Ok(h) ==> {
                &&& h.extent() == size
                &&& h.start() as int % MAX_ALIGN as int == 0
                &&& zero_bytes(mem.view(), h.start() as int, size as int)
            },
    {
        Self::with_align_zeroed(size, MAX_ALIGN, reply, mem)
    }

    /// A block of `size` bytes with the given alignment. `reply` is the answer to
    /// [`Self::with_align_request`].
    pub fn with_align(size: usize, align: usize, reply: Result<usize, AllocError>) -> (r: Result<
        Self,
        AllocError,
    >)
        requires
            granted_by_heap(asked(size, align, false), reply),
        ensures
            heap_block(asked(size, align, false), reply, r),
            r matches Ok(h) ==> h.extent() == size && h.start() as int % align as int == 0,
    {
        match Self::with_align_request(size, align) {
            Ok(q) => Self::of_answer(q, reply),
            Err(e) => Err(e),
        }
    }

    /// Like [`Self::with_align`], with zero bytes. `reply` is the answer to
    /// [`Self::with_align_zeroed_request`], and `mem` the memory as the heap has left it.
    pub fn with_align_zeroed<M: Memory>(
        size: usize,
        align: usize,
        reply: Result<usize, AllocError>,
        mem: &M,
    ) -> (r: Result<Self, AllocError>)
        requires
            granted_by_heap(asked(size, align, true), reply),
            cleared_by_heap(asked(size, align, true), reply, mem.view()),
        ensures
            heap_block(asked(size, align, true), reply, r),
            r matches Ok(h) ==> {
                &&& h.extent() == size
                &&& h.start() as int % align as int == 0
                &&& zero_bytes(mem.view(), h.start() as int, size as int)
            },
    {
        match Self::with_align_zeroed_request(size, align) {
            Ok(q) => Self::of_answer(q, reply),
            Err(e) => Err(e),
        }
    }

    /// The block that the heap has answered a request with.
    fn of_answer(request: HeapRequest, reply: Result<usize, AllocError>) -> (r: Result<
        Self,
        AllocError,
    >)
        requires
            granted_by_heap(Some(request), reply),
        ensures
            heap_block(Some(request), reply, r),
    {
        match reply {
            Ok(addr) => Ok(HeapBytes { addr, block_layout: request.layout }),
            Err(e) => Err(e),
        }
    }

    /// The size of the block.
    pub fn capacity(&self) -> (r: usize)
        ensures
            r == self.extent(),
            r > 0,
    {
        self.block_layout.size()
    }

    /// The address and the layout with which the block is given back.
    pub fn release_request(&self) -> (r: (usize, NonZeroLayout))
        ensures
            r.0 == self.start(),
            r.1 == self.layout(),
    {
        (self.addr, self.block_layout)
    }
}

/// What asking for a block comes to.
pub open spec fn heap_block(
    request: Option<HeapRequest>,
    reply: Result<usize, AllocError>,
    r: Result<HeapBytes, AllocError>,
) -> bool {
    &&& r is Ok <==> request is Some && reply is Ok
    &&& r matches Ok(h) ==> {
        &&& h.start() == reply->Ok_0
        &&& h.layout() == request->Some_0.layout
        &&& h.extent() == h.layout().size()
        &&& h.start() > 0
        &&& h.start() as int % h.layout().align() as int == 0
        &&& h.start() + h.extent() <= usize::MAX + 1
    }
}

impl FixedRange for HeapBytes {
    closed spec fn start(&self) -> usize {
        self.addr
    }

    open spec fn extent(&self) -> usize {
        self.layout().size()
    }

    open spec fn commits(&self, offset: int, len: int) -> bool {
        true
    }

    fn base(&self) -> (r: usize) {
        self.addr
    }

    fn size(&self) -> (r: usize) {
        self.block_layout.size()
    }

    fn commit(&self, offset: usize, len: usize) -> (r: Result<(), AllocError>) {
        Ok(())
    }
}

} // verus!
