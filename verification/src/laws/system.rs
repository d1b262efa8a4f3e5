//! Mappings, guards, nodes and heap blocks: what is asked of the system and what comes of it.

use crate::allocator::{Allocator, Deallocator, Grant};
use crate::backing::heap;
use crate::backing::heap::{HeapBytes, HeapRequest};
use crate::backing::huge_page_backed;
use crate::backing::huge_page_backed::HugePageBacked;
use crate::backing::locked_mmap;
use crate::backing::mmap;
use crate::backing::mmap::MmapBacked;
use crate::backing::LockedMmapBacked;
use crate::bits;
use crate::fixed_range::FixedRange;
use crate::hardening::guard_page;
use crate::hardening::numa;
use crate::hardening::numa::{NodeSet, NumaPolicy};
use crate::layout::AllocError;
use crate::os;
use crate::os::{OsCall, OsErrorSlot, Platform, Target};
use crate::os_backed::{OsBacked, ProtectFlags};
use vstd::arithmetic::power2::*;
use vstd::prelude::*;

verus! {

/// The address space is made of whole pages, whatever their size.
proof fn lemma_whole_address_space(page: usize)
    requires
        is_pow2(page as int),
    ensures
        page > 0,
        (usize::MAX + 1) % page as int == 0,
{
    let n = bits::lemma_exponent(page);
    lemma2_to64();
    lemma2_to64_rest();
    lemma_pow2_pos(n);
    let rest = (usize::BITS - n) as nat;
    lemma_pow2_adds(n, rest);
    vstd::arithmetic::div_mod::lemma_mod_multiples_basic(pow2(rest) as int, page as int);
    vstd::arithmetic::mul::lemma_mul_is_commutative(pow2(rest) as int, page as int);
}

/// Two multiples of `page` are at least `page` apart.
proof fn lemma_next_multiple(page: int, low: int, high: int)
    requires
        page > 0,
        low % page == 0,
        high % page == 0,
        low < high,
    ensures
        low + page <= high,
{
    if high < low + page {
        vstd::arithmetic::div_mod::lemma_sub_mod_noop(high, low, page);
        vstd::arithmetic::div_mod::lemma_small_mod((high - low) as nat, page as nat);
        vstd::arithmetic::div_mod::lemma_small_mod(0, page as nat);
    }
}

/// A size can be mapped exactly where it is not zero and some whole number of pages that
/// holds it ends within the address space.
pub proof fn whole_pages_can_be_mapped(size: usize, page: usize, len: int)
    requires
        is_pow2(page as int),
    ensures
        size > 0 && size <= len <= usize::MAX && len % page as int == 0 ==> mmap::mappable(
            size,
            page,
        ),
        mmap::mappable(size, page) ==> size > 0 && exists|l: int|
            size <= l <= usize::MAX && #[trigger] (l % page as int) == 0,
{
    lemma_whole_address_space(page);
    if size <= len <= usize::MAX && len % page as int == 0 {
        lemma_next_multiple(page as int, len, usize::MAX + 1);
    }
    if mmap::mappable(size, page) {
        bits::lemma_round_up(size as int, page as int);
        let l = bits::round_up(size as int, page as int);
        assert(size <= l <= usize::MAX && l % page as int == 0);
    }
}

/// A mapping starts where the system says, holds the size that was asked for and less than a
/// page more, is made of whole pages, and nothing has been issued from it. A size of zero,
/// or one that no whole number of pages can hold, is rejected with the system's code for an
/// invalid argument; the system's own error is kept as it is.
pub proof fn mappings_are_as_answered(
    size: usize,
    platform: &Platform,
    reply: Result<usize, i32>,
    slot: &OsErrorSlot,
    slot2: &OsErrorSlot,
    r: Result<MmapBacked, AllocError>,
    len: int,
)
    requires
        is_pow2(platform.page() as int),
        mmap::mapped(size, platform, reply, slot, slot2, r),
    ensures
        ({
            let page = platform.page() as int;
            let held = size > 0 && size <= len <= usize::MAX && len % page == 0;
            let invalid: i32 = if platform.target() == Target::Windows {
                87
            } else {
                22
            };
            &&& held && reply is Ok ==> r is Ok
            &&& held && reply is Err ==> r is Err && slot2.code == Some(reply->Err_0)
            &&& size == 0 || size > usize::MAX + 1 - page ==> r is Err && slot2.code == Some(
                invalid,
            )
            &&& r is Ok ==> {
                &&& reply == Ok::<usize, i32>(r->Ok_0.start())
                &&& size <= r->Ok_0.capacity() < size + page
                &&& r->Ok_0.capacity() as int % page == 0
                &&& r->Ok_0.extent() == r->Ok_0.capacity()
                &&& r->Ok_0.os_base() == r->Ok_0.start()
                &&& r->Ok_0.os_size() == r->Ok_0.capacity()
                &&& r->Ok_0.allocated() == 0
                &&& r->Ok_0.live() == Map::<int, Grant>::empty()
                &&& forall|a: int| #[trigger]
                    r->Ok_0.region().contains(a) <==> r->Ok_0.start() <= a < r->Ok_0.start()
                        + r->Ok_0.capacity()
                &&& slot2.code == slot.code
            }
        }),
{
    whole_pages_can_be_mapped(size, platform.page(), len);
    lemma_whole_address_space(platform.page());
    bits::lemma_round_up(size as int, platform.page() as int);
}

/// A mapping of huge pages is made of whole pages of the size that was asked for, and of at
/// least 2 MiB on macOS on x86-64. The page size must be a power of two of at least 4096, and
/// the system must have huge pages to offer; else it is as for a mapping of ordinary pages.
pub proof fn huge_mappings_are_as_answered(
    target: Target,
    min_size: usize,
    huge_page_size: usize,
    reply: Result<usize, i32>,
    slot: &OsErrorSlot,
    slot2: &OsErrorSlot,
    r: Result<HugePageBacked, AllocError>,
    unit: usize,
    len: int,
)
    requires
        huge_page_backed::huge_mapped(target, min_size, huge_page_size, reply, slot, slot2, r),
        unit == huge_page_size || (target == Target::MacX86 && unit == 0x20_0000),
        target == Target::MacX86 ==> unit >= 0x20_0000 && unit >= huge_page_size,
        target == Target::MacX86 && huge_page_size >= 0x20_0000 ==> unit == huge_page_size,
    ensures
        ({
            let none = target == Target::MacArm || target == Target::OtherUnix;
            let fine = is_pow2(huge_page_size as int) && huge_page_size >= 4096 && !none;
            let held = min_size > 0 && min_size <= len <= usize::MAX && len % unit as int == 0;
            let invalid: i32 = if target == Target::Windows {
                87
            } else {
                22
            };
            &&& fine && held && reply is Ok ==> r is Ok
            &&& fine && held && reply is Err ==> r is Err && slot2.code == Some(reply->Err_0)
            &&& !fine || min_size == 0 || min_size > usize::MAX + 1 - unit ==> r is Err
                && slot2.code == Some(invalid)
            &&& r is Ok ==> {
                &&& reply == Ok::<usize, i32>(r->Ok_0.start())
                &&& min_size <= r->Ok_0.capacity() < min_size + unit
                &&& r->Ok_0.capacity() as int % unit as int == 0
                &&& r->Ok_0.extent() == r->Ok_0.capacity()
                &&& r->Ok_0.os_base() == r->Ok_0.start()
                &&& r->Ok_0.os_size() == r->Ok_0.capacity()
                &&& r->Ok_0.huge_page_size() == huge_page_size
                &&& r->Ok_0.allocated() == 0
                &&& r->Ok_0.live() == Map::<int, Grant>::empty()
                &&& forall|a: int| #[trigger]
                    r->Ok_0.region().contains(a) <==> r->Ok_0.start() <= a < r->Ok_0.start()
                        + r->Ok_0.capacity()
                &&& slot2.code == slot.code
            }
        }),
{
    if is_pow2(huge_page_size as int) {
        assert(is_pow2(unit as int)) by {
            if unit != huge_page_size {
                is_pow2_equiv(0x20_0000);
                lemma2_to64();
                lemma_pow2(21);
            }
        }
        whole_pages_can_be_mapped(min_size, unit, len);
        lemma_whole_address_space(unit);
        bits::lemma_round_up(min_size as int, unit as int);
        assert(huge_page_backed::granularity(target, huge_page_size) == unit);
    }
}

/// Locking goes map, lock, hide: each call is made for the whole mapping once the one before
/// it was answered well, hiding only on Linux. A mapping that cannot be locked is unmapped,
/// and nothing follows a mapping that the system refused.
pub proof fn locking_goes_in_order(
    size: usize,
    platform: &Platform,
    addr: usize,
    code: i32,
    other: Option<Result<(), i32>>,
    len: usize,
)
    requires
        is_pow2(platform.page() as int),
        size > 0,
        size <= len < size + platform.page(),
        len as int % platform.page() as int == 0,
    ensures
        locked_mmap::next_lock_call(size, platform, None, other) == Some(
            OsCall::MapPages { len, populate: false },
        ),
        locked_mmap::next_lock_call(size, platform, Some(Err(code)), other) is None,
        locked_mmap::next_lock_call(size, platform, Some(Ok(addr)), None) == Some(
            OsCall::Lock { addr, len },
        ),
        locked_mmap::next_lock_call(size, platform, Some(Ok(addr)), Some(Err(code))) == Some(
            OsCall::Unmap { addr, len },
        ),
        platform.target() == Target::Linux ==> locked_mmap::next_lock_call(
            size,
            platform,
            Some(Ok(addr)),
            Some(Ok(())),
        ) == Some(OsCall::HideFromDumps { addr, len }),
        platform.target() != Target::Linux ==> locked_mmap::next_lock_call(
            size,
            platform,
            Some(Ok(addr)),
            Some(Ok(())),
        ) is None,
{
    let page = platform.page() as int;
    whole_pages_can_be_mapped(size, platform.page(), len as int);
    lemma_whole_address_space(platform.page());
    bits::lemma_round_up(size as int, page);
    let up = bits::round_up(size as int, page);
    if up < len {
        lemma_next_multiple(page, up, len as int);
    } else if len < up {
        lemma_next_multiple(page, len as int, up);
    }
}

/// No call is made for a size that cannot be mapped.
pub proof fn unmappable_sizes_are_not_locked(
    size: usize,
    platform: &Platform,
    map: Option<Result<usize, i32>>,
    lock: Option<Result<(), i32>>,
)
    requires
        size == 0 || size > usize::MAX + 1 - platform.page(),
    ensures
        locked_mmap::next_lock_call(size, platform, map, lock) is None,
{
}

/// Pages are given back and protected exactly as asked, except that locked pages are not
/// given back.
pub proof fn mappings_pass_calls_on(
    m: MmapBacked,
    h: HugePageBacked,
    l: LockedMmapBacked,
    addr: usize,
    size: usize,
    flags: ProtectFlags,
)
    ensures
        m.release_call(addr, size) == Some(OsCall::Release { addr, len: size }),
        h.release_call(addr, size) == Some(OsCall::Release { addr, len: size }),
        l.release_call(addr, size) is None,
        m.protect_call(addr, size, flags) == (OsCall::Protect { addr, len: size, flags }),
        h.protect_call(addr, size, flags) == (OsCall::Protect { addr, len: size, flags }),
        l.protect_call(addr, size, flags) == (OsCall::Protect { addr, len: size, flags }),
        l.os_base() == l.inside().start(),
        l.os_size() == l.inside().capacity(),
{
}

/// There is room for guards exactly where the mapping starts on a page, is made of at least
/// three whole pages, and pages have a size that is a power of two.
pub proof fn three_pages_can_be_guarded(
    page_size: usize,
    first: int,
    pages: int,
    base: usize,
    size: usize,
)
    requires
        is_pow2(page_size as int),
    ensures
        base == first * page_size && size == pages * page_size && pages >= 3
            ==> guard_page::guardable(base, size, page_size),
        size == pages * page_size && pages < 3 ==> !guard_page::guardable(base, size, page_size),
        guard_page::guardable(base, size, page_size) ==> base as int % page_size as int == 0
            && size as int % page_size as int == 0 && size > 2 * page_size,
{
    lemma_whole_address_space(page_size);
    let p = page_size as int;
    vstd::arithmetic::div_mod::lemma_mod_multiples_basic(first, p);
    vstd::arithmetic::div_mod::lemma_mod_multiples_basic(pages, p);
    if pages >= 3 {
        assert(pages * p >= 3 * p) by (nonlinear_arith)
            requires
                pages >= 3,
                p > 0,
        ;
    } else {
        assert(pages * p <= 2 * p) by (nonlinear_arith)
            requires
                pages < 3,
                p > 0,
        ;
    }
}

/// Without a power of two for a page size, or off a page boundary, there are no guards.
pub proof fn other_mappings_have_no_guards(base: usize, size: usize, page_size: usize)
    ensures
        !is_pow2(page_size as int) ==> !guard_page::guardable(base, size, page_size),
        base as int % page_size as int != 0 ==> !guard_page::guardable(base, size, page_size),
        size as int % page_size as int != 0 ==> !guard_page::guardable(base, size, page_size),
{
}

/// A policy is taken exactly where it names a node, and the mask it is bound with holds the
/// nodes that it names and no other.
pub proof fn policies_bind_the_nodes_they_name(nodes: NodeSet, preferred: u32, n: u32)
    requires
        n < 64,
    ensures
        numa::names_nodes(NumaPolicy::Bind(nodes)) <==> nodes.mask() != 0,
        numa::names_nodes(NumaPolicy::Interleaved(nodes)) <==> nodes.mask() != 0,
        numa::names_nodes(NumaPolicy::Preferred(preferred)) <==> preferred < 64,
        forall|k: u32| #[trigger] nodes.has(k) ==> k < 64,
        nodes.has(n) ==> numa::names_nodes(NumaPolicy::Bind(nodes)) && numa::names_nodes(
            NumaPolicy::Interleaved(nodes),
        ),
        numa::bind_mode(NumaPolicy::Preferred(preferred)).0 == 1,
        numa::bind_mode(NumaPolicy::Bind(nodes)).0 == 2,
        numa::bind_mode(NumaPolicy::Interleaved(nodes)).0 == 3,
        numa::bind_mode(NumaPolicy::Bind(nodes)).1 & (1u64 << n) != 0 <==> nodes.has(n),
        numa::bind_mode(NumaPolicy::Interleaved(nodes)).1 & (1u64 << n) != 0 <==> nodes.has(n),
        preferred < 64 ==> (numa::bind_mode(NumaPolicy::Preferred(preferred)).1 & (1u64 << n) != 0
            <==> n == preferred),
{
    let mask = nodes.mask();
    assert(mask & (1u64 << n) != 0 <==> (mask >> n) & 1 == 1) by (bit_vector)
        requires
            n < 64,
    ;
    assert((mask >> n) & 1 == 1 ==> mask != 0) by (bit_vector)
        requires
            n < 64,
    ;
    assert(preferred < 64 ==> ((1u64 << preferred) & (1u64 << n) != 0 <==> n == preferred))
        by (bit_vector)
        requires
            n < 64,
    ;
}

/// A block can be asked of the heap exactly where its size is not zero, its alignment is a
/// power of two, and some multiple of the alignment that holds the size is within
/// `isize::MAX`. What is asked for has that size and that alignment.
pub proof fn heap_requests_are_as_asked(
    size: usize,
    align: usize,
    zeroed: bool,
    r: Result<HeapRequest, AllocError>,
    m: int,
)
    requires
        heap::requested(size, align, zeroed, r),
    ensures
        size == 0 || !is_pow2(align as int) ==> r is Err,
        size > 0 && is_pow2(align as int) && size <= m <= isize::MAX && m % align as int == 0
            ==> r is Ok,
        size > isize::MAX - (align - 1) ==> r is Err,
        r is Ok ==> {
            &&& r->Ok_0.layout.size() == size
            &&& r->Ok_0.layout.align() == align
            &&& r->Ok_0.zeroed == zeroed
        },
{
    if size > 0 && is_pow2(align as int) && size <= m <= isize::MAX && m % align as int == 0 {
        super::requests::aligned_sizes_fit(size, align, m);
    }
}

/// A block of the heap is where the heap says, with the layout that was asked for; it is had
/// exactly where there was a request and the heap granted it.
pub proof fn heap_blocks_are_as_granted(
    request: Option<HeapRequest>,
    reply: Result<usize, AllocError>,
    r: Result<HeapBytes, AllocError>,
    offset: int,
    len: int,
)
    requires
        heap::heap_block(request, reply, r),
    ensures
        request is Some && reply is Ok ==> r is Ok,
        request is None || reply is Err ==> r is Err,
        r is Ok ==> {
            &&& reply == Ok::<usize, AllocError>(r->Ok_0.start())
            &&& r->Ok_0.layout() == request->Some_0.layout
            &&& r->Ok_0.extent() == request->Some_0.layout.size()
            &&& r->Ok_0.start() >= 1
            &&& r->Ok_0.start() + request->Some_0.layout.size() - 1 <= usize::MAX
            &&& r->Ok_0.start() as int % request->Some_0.layout.align() as int == 0
            &&& r->Ok_0.commits(offset, len)
        },
{
}

/// The heap is relied on for a block of the size and the alignment that were asked for, and
/// for zero bytes where they were asked for, byte by byte.
pub proof fn heap_answers_are_relied_on(
    request: HeapRequest,
    addr: usize,
    m: Map<int, u8>,
    a: int,
)
    ensures
        heap::granted_by_heap(Some(request), Ok(addr)) <==> addr > 0 && addr
            + request.layout.size() <= usize::MAX + 1 && addr as int % request.layout.align() as int
            == 0,
        heap::granted_by_heap(Some(request), Err(AllocError)),
        heap::granted_by_heap(None, Ok(addr)),
        heap::cleared_by_heap(None, Ok(addr), m),
        heap::cleared_by_heap(Some(request), Err(AllocError), m),
        !request.zeroed ==> heap::cleared_by_heap(Some(request), Ok(addr), m),
        request.zeroed && heap::cleared_by_heap(Some(request), Ok(addr), m) && addr <= a < addr
            + request.layout.size() ==> m.contains_key(a) && m[a] == 0,
        (forall|b: int| addr <= b < addr + request.layout.size() ==> #[trigger] m.contains_key(b)
            && m[b] == 0) ==> heap::cleared_by_heap(Some(request), Ok(addr), m),
{
}

/// What is relied on where the system places a mapping: it does not wrap round the address
/// space, and lies apart from the addresses that are taken, address by address.
pub proof fn placements_are_relied_on(base: usize, code: i32, len: int, taken: Set<int>, i: int)
    ensures
        mmap::placed_by_os(Ok(base), len) <==> base > 0 && base + len <= usize::MAX + 1,
        mmap::placed_by_os(Err(code), len),
        mmap::placed_apart(Err(code), len, taken),
        mmap::placed_apart(Ok(base), len, taken) && 0 <= i < len ==> !taken.contains(base + i),
        (forall|j: int| 0 <= j < len ==> !#[trigger] taken.contains(base + j))
            ==> mmap::placed_apart(Ok(base), len, taken),
{
    if forall|j: int| 0 <= j < len ==> !#[trigger] taken.contains(base + j) {
        let range = crate::bump::addresses(base as int, len);
        assert forall|a: int| range.contains(a) implies !#[trigger] taken.contains(a) by {
            assert(!taken.contains(base + (a - base)));
        }
        assert(taken.disjoint(range));
    }
}

/// The codes for a rejected argument, and what each protection value permits.
pub proof fn system_values(target: Target)
    ensures
        target != Target::Windows ==> os::invalid_argument(target) == 22,
        os::invalid_argument(Target::Windows) == 87,
        os::page_permits(0x01) == (false, false, false),
        os::page_permits(0x02) == (true, false, false),
        os::page_permits(0x04) == (true, true, false),
        os::page_permits(0x10) == (false, false, true),
        os::page_permits(0x20) == (true, false, true),
        os::page_permits(0x40) == (true, true, true),
{
}

} // verus!
