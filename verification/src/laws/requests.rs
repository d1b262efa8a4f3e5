//! Requests: which sizes and alignments make one, and what becomes of a block.

use crate::alloc_fault_policy::AllocFaultPolicy;
use crate::allocator;
use crate::allocator::{Allocator, Block, Corruption, Grant, ResizeError, Verdict};
use crate::backing::{HugePageBacked, InlineBacked, LockedMmapBacked, MmapBacked};
use crate::bits;
use crate::fixed_range::FixedRange;
use crate::freelist_protection::{FreelistProtection, NoProtection, SipHashMAC};
use crate::hardening::{
    AllocStats, CacheJitter, Canary, Faulty, GuardPage, HugePageAligned, NumaLocal, PoisonOnFree,
    SplitMetadata, Statistics, ZeroizeOnFree,
};
use crate::layout;
use crate::layout::{AllocError, Layout, LayoutError, NonZeroLayout};
use crate::memory;
use crate::os_backed::OsBacked;
use crate::outside;
use crate::std_compat;
use vstd::arithmetic::power2::*;
use vstd::prelude::*;

verus! {

/// A size and an alignment make a layout exactly where the alignment is a power of two and
/// some multiple of it that holds the size is within `isize::MAX`.
pub proof fn aligned_sizes_fit(size: usize, align: usize, m: int)
    ensures
        is_pow2(align as int) && size <= m <= isize::MAX && m % align as int == 0 ==> layout::fits(
            size,
            align,
        ),
        layout::fits(size, align) ==> is_pow2(align as int) && exists|k: int|
            size <= k <= isize::MAX && #[trigger] (k % align as int) == 0,
        forall|n: NonZeroLayout| #[trigger]
            n.valid() <==> n.size() >= 1 && layout::fits(n.size(), n.align()),
{
    if is_pow2(align as int) {
        layout::lemma_largest_power(align);
        let a = align as int;
        if size <= m <= isize::MAX && m % a == 0 {
            let top: usize = (isize::MAX + 1) as usize;
            lemma2_to64();
            lemma2_to64_rest();
            lemma_pow2((usize::BITS - 1) as nat);
            is_pow2_equiv(top as int);
            bits::lemma_divides(top, align);
            if top < m + a {
                vstd::arithmetic::div_mod::lemma_sub_mod_noop(top as int, m, a);
                vstd::arithmetic::div_mod::lemma_small_mod((top - m) as nat, a as nat);
                vstd::arithmetic::div_mod::lemma_small_mod(0, a as nat);
            }
        }
        if layout::fits(size, align) {
            bits::lemma_round_up(size as int, a);
            let k = bits::round_up(size as int, a);
            assert(size <= k <= isize::MAX && k % a == 0);
        }
    }
}

/// A size and an alignment are kept when a layout is converted, and only a layout of no
/// bytes cannot be.
pub proof fn conversions_keep_size_and_alignment(l: Layout, n: NonZeroLayout)
    ensures
        ({
            let to = <NonZeroLayout as vstd::std_specs::convert::TryFromSpec<
                Layout,
            >>::try_from_spec(l);
            let back = <Layout as vstd::std_specs::convert::FromSpec<NonZeroLayout>>::from_spec(n);
            &&& l.size() == 0 ==> to == Err::<NonZeroLayout, LayoutError>(LayoutError)
            &&& l.size() > 0 ==> to is Ok && to->Ok_0.size() == l.size() && to->Ok_0.align()
                == l.align()
            &&& back.size() == n.size()
            &&& back.align() == n.align()
        }),
        std_compat::nonzero(l).size() == l.size(),
        std_compat::nonzero(l).align() == l.align(),
        std_compat::nothing(l).addr == l.align(),
        std_compat::nothing(l).len == 0,
{
    layout::lemma_layout_of(l.size() as int, l.align() as int);
    layout::lemma_plain_layout(n);
}

/// A request that was served has a block that meets no other; a request that was refused
/// changes nothing. Either way the other blocks keep their bytes and can be given back as
/// before, and no memory outside the allocator's own is touched.
pub proof fn requests_leave_other_blocks_alone<A: Allocator>(
    before: A,
    m: Map<int, u8>,
    layout: NonZeroLayout,
    after: A,
    m2: Map<int, u8>,
    r: Option<Block>,
    q: int,
    a: int,
)
    requires
        std_compat::served(&before, m, layout, &after, m2, r),
    ensures
        r == before.outcome(layout),
        before.after_issue(layout, after),
        after.region() == before.region(),
        after.residue() == before.residue(),
        after.budget() == before.budget(),
        after.events() >= before.events(),
        r is None ==> m2 == m && after.live() == before.live(),
        r is Some ==> {
            &&& m2 == before.issued(m, layout)
            &&& after.live() == before.live().insert(
                r->0.addr as int,
                Grant { layout, len: r->0.len },
            )
            &&& after.verdict(m2, r->0.addr as int) is Sound
            &&& before.live().contains_key(q) ==> r->0.addr + r->0.len <= q || q
                + before.live()[q].len <= r->0.addr
        },
        before.live().contains_key(q) ==> after.verdict(m2, q) == before.verdict(m, q),
        before.live().contains_key(q) && q <= a < q + before.live()[q].len && m.contains_key(a)
            ==> m2[a] == m[a],
        m.contains_key(a) && !before.region().contains(a) ==> m2[a] == m[a],
        m2.contains_key(a) <==> m.contains_key(a),
{
    if before.live().contains_key(q) && q <= a < q + before.live()[q].len {
        assert(allocator::in_blocks(before.live(), a));
    }
}

/// A block that is given back is gone, unless its bookkeeping is damaged; the other blocks
/// keep their bytes and can be given back as before.
pub proof fn returns_leave_other_blocks_alone<A: Allocator>(
    before: A,
    m: Map<int, u8>,
    p: int,
    after: A,
    m2: Map<int, u8>,
    r: Result<(), Corruption>,
    q: int,
    a: int,
)
    requires
        std_compat::taken_back(&before, m, p, &after, m2, r),
    ensures
        m2 == before.freed(m, p),
        before.after_return(m, p, after),
        after.region() == before.region(),
        after.residue() == before.residue(),
        after.budget() == before.budget(),
        after.events() >= before.events(),
        before.verdict(m, p) == Verdict::Sound ==> r == Ok::<(), Corruption>(()) && after.live()
            == before.live().remove(p),
        before.verdict(m, p) matches Verdict::Caught(c) ==> r == Err::<(), Corruption>(c)
            && after.live() == before.live(),
        before.live().contains_key(q) && q != p ==> after.verdict(m2, q) == before.verdict(m, q),
        before.live().contains_key(q) && q != p && q <= a < q + before.live()[q].len
            && m.contains_key(a) ==> m2[a] == m[a],
        m.contains_key(a) && !before.region().contains(a) ==> m2[a] == m[a],
        m2.contains_key(a) <==> m.contains_key(a),
{
    if before.live().contains_key(q) && q != p {
        assert(before.live().remove(p).contains_key(q));
        if q <= a < q + before.live()[q].len {
            assert(allocator::in_blocks(before.live().remove(p), a));
        }
    }
    if before.verdict(m, p) == Verdict::Sound {
        assert(r is Ok);
        assert(r->Ok_0 == ());
    }
}

/// A block that is moved keeps its first bytes, at a place that meets no other block. A move
/// for which there is no room changes nothing; one from a damaged block is reported and
/// leaves both blocks in use.
pub proof fn moves_keep_the_bytes<A: Allocator>(
    before: A,
    m: Map<int, u8>,
    ptr: usize,
    from: NonZeroLayout,
    to: NonZeroLayout,
    kept: usize,
    after: A,
    m2: Map<int, u8>,
    r: Result<Block, ResizeError>,
    i: int,
    q: int,
    a: int,
)
    requires
        allocator::relocated(&before, m, ptr, from, to, kept, &after, m2, r),
        before.verdict(m, ptr as int) !is Forged,
    ensures
        after.region() == before.region(),
        after.residue() == before.residue(),
        after.budget() == before.budget(),
        after.events() >= before.events(),
        before.outcome(to) is None ==> {
            &&& r == Err::<Block, ResizeError>(ResizeError::Alloc(AllocError))
            &&& after.live() == before.live()
            &&& m2 == m
        },
        before.outcome(to) is Some ==> {
            let b = before.outcome(to)->0;
            let grant = Grant { layout: to, len: b.len };
            &&& b.addr != ptr
            &&& 0 <= i < kept ==> m2[b.addr + i] == m[ptr + i]
            &&& before.verdict(m, ptr as int) == Verdict::Sound ==> r == Ok::<Block, ResizeError>(b)
                && after.live() == before.live().insert(b.addr as int, grant).remove(ptr as int)
            &&& before.verdict(m, ptr as int) matches Verdict::Caught(c) ==> r == Err::<
                Block,
                ResizeError,
            >(ResizeError::Corrupt(c)) && after.live() == before.live().insert(
                b.addr as int,
                grant,
            )
            &&& before.live().contains_key(q) ==> b.addr + b.len <= q || q + before.live()[q].len
                <= b.addr
            &&& after.verdict(m2, b.addr as int) is Sound
            &&& exists|mid: A|
                {
                    let copied = memory::overlay(
                        before.issued(m, to),
                        b.addr as int,
                        Seq::new(kept as nat, |j: int| m[ptr + j]),
                    );
                    &&& #[trigger] before.after_issue(to, mid)
                    &&& mid.live() == before.live().insert(b.addr as int, grant)
                    &&& mid.after_return(copied, ptr as int, after)
                    &&& m2 == mid.freed(copied, ptr as int)
                }
        },
        before.outcome(to) is None ==> before.after_issue(to, after),
        before.live().contains_key(q) && q != ptr ==> after.verdict(m2, q) == before.verdict(m, q),
        before.live().contains_key(q) && q != ptr && q <= a < q + before.live()[q].len
            && m.contains_key(a) ==> m2[a] == m[a],
        m.contains_key(a) && !before.region().contains(a) ==> m2[a] == m[a],
        m2.contains_key(a) <==> m.contains_key(a),
{
    if before.live().contains_key(q) && q != ptr {
        assert(before.live().remove(ptr as int).contains_key(q));
        if q <= a < q + before.live()[q].len {
            assert(allocator::in_blocks(before.live().remove(ptr as int), a));
        }
    }
    assert(memory::span_of(m, ptr as int, kept as int) =~= Seq::new(
        kept as nat,
        |j: int| m[ptr + j],
    ));
}

/// A wrapper has the range of the allocator it wraps.
pub proof fn wrappers_keep_the_range<I: FixedRange, P>(
    canary: Canary<I>,
    faulty: Faulty<I, P>,
    huge: HugePageAligned<I>,
    jitter: CacheJitter<I>,
    local: NumaLocal<I>,
    poison: PoisonOnFree<I>,
    split: SplitMetadata<I>,
    counting: Statistics<I>,
    zeroize: ZeroizeOnFree<I>,
)
    ensures
        canary.start() == canary.inside().start() && canary.extent() == canary.inside().extent(),
        faulty.start() == faulty.inside().start() && faulty.extent() == faulty.inside().extent(),
        huge.start() == huge.inside().start() && huge.extent() == huge.inside().extent(),
        jitter.start() == jitter.inside().start() && jitter.extent() == jitter.inside().extent(),
        local.start() == local.inside().start() && local.extent() == local.inside().extent(),
        poison.start() == poison.inside().start() && poison.extent() == poison.inside().extent(),
        split.start() == split.inside().start() && split.extent() == split.inside().extent(),
        counting.start() == counting.inside().start() && counting.extent()
            == counting.inside().extent(),
        zeroize.start() == zeroize.inside().start() && zeroize.extent()
            == zeroize.inside().extent(),
{
}

/// Wrappers that pass a request for room on make exactly the parts ready that the wrapped
/// region does; the others keep no part back.
pub proof fn wrappers_commit_as_their_region<I: FixedRange, P>(
    canary: Canary<I>,
    faulty: Faulty<I, P>,
    huge: HugePageAligned<I>,
    jitter: CacheJitter<I>,
    local: NumaLocal<I>,
    poison: PoisonOnFree<I>,
    split: SplitMetadata<I>,
    counting: Statistics<I>,
    zeroize: ZeroizeOnFree<I>,
    offset: int,
    len: int,
)
    ensures
        canary.commits(offset, len) <==> canary.inside().commits(offset, len),
        faulty.commits(offset, len) <==> faulty.inside().commits(offset, len),
        huge.commits(offset, len) <==> huge.inside().commits(offset, len),
        local.commits(offset, len) <==> local.inside().commits(offset, len),
        poison.commits(offset, len) <==> poison.inside().commits(offset, len),
        zeroize.commits(offset, len) <==> zeroize.inside().commits(offset, len),
        jitter.commits(offset, len),
        split.commits(offset, len),
        counting.commits(offset, len),
{
}

/// Wrappers whose bookkeeping would outlive the blocks are never reset.
pub proof fn wrappers_with_bookkeeping_are_never_reset<I: OsBacked>(
    canary: (Canary<I>, Canary<I>),
    huge: (HugePageAligned<I>, HugePageAligned<I>),
    jitter: (CacheJitter<I>, CacheJitter<I>),
    local: (NumaLocal<I>, NumaLocal<I>),
    split: (SplitMetadata<I>, SplitMetadata<I>),
    counting: (Statistics<I>, Statistics<I>),
)
    ensures
        !canary.0.resettable() && !canary.0.after_reset(canary.1),
        !huge.0.resettable() && !huge.0.after_reset(huge.1),
        !jitter.0.resettable() && !jitter.0.after_reset(jitter.1),
        !local.0.resettable() && !local.0.after_reset(local.1),
        !split.0.resettable() && !split.0.after_reset(split.1),
        !counting.0.resettable() && !counting.0.after_reset(counting.1),
{
}

/// Mappings and inline storage are never reset: their blocks are given up all at once, with
/// the region.
pub proof fn regions_are_never_reset<I: OsBacked, const N: usize>(
    storage: (InlineBacked<N>, InlineBacked<N>),
    mapping: (MmapBacked, MmapBacked),
    huge: (HugePageBacked, HugePageBacked),
    locked: (LockedMmapBacked, LockedMmapBacked),
    guarded: (GuardPage<I>, GuardPage<I>),
)
    ensures
        !storage.0.resettable() && !storage.0.after_reset(storage.1),
        !mapping.0.resettable() && !mapping.0.after_reset(mapping.1),
        !huge.0.resettable() && !huge.0.after_reset(huge.1),
        !locked.0.resettable() && !locked.0.after_reset(locked.1),
        !guarded.0.resettable() && !guarded.0.after_reset(guarded.1),
{
}

/// The wrappers that pass a reset on are reset as the wrapped allocator is, and keep what
/// they were made with.
pub proof fn resets_are_passed_on<I: Allocator, P: AllocFaultPolicy>(
    faulty: (Faulty<I, P>, Faulty<I, P>),
    poison: (PoisonOnFree<I>, PoisonOnFree<I>),
    zeroize: (ZeroizeOnFree<I>, ZeroizeOnFree<I>),
)
    ensures
        faulty.0.resettable() <==> faulty.0.inside().resettable(),
        faulty.0.after_reset(faulty.1) <==> faulty.0.inside().after_reset(faulty.1.inside())
            && faulty.1.policy_spec() == faulty.0.policy_spec(),
        poison.0.resettable() <==> poison.0.inside().resettable(),
        poison.0.after_reset(poison.1) <==> poison.0.inside().after_reset(poison.1.inside())
            && poison.1.pattern() == poison.0.pattern(),
        zeroize.0.resettable() <==> zeroize.0.inside().resettable(),
        zeroize.0.after_reset(zeroize.1) <==> zeroize.0.inside().after_reset(zeroize.1.inside()),
{
}

/// Each count is the value of the counter that goes by its name.
pub proof fn counts_are_the_counters(s: AllocStats)
    ensures
        s.counts().allocations == s.total_allocations.value(),
        s.counts().deallocations == s.total_deallocations.value(),
        s.counts().bytes == s.bytes_allocated.value(),
        s.counts().peak == s.bytes_peak.value(),
        s.counts().failures == s.failures.value(),
        s.counts().events == s.corruption_events.value(),
{
}

/// The code of a link is the low half of the keyed digest of the link and its address, and
/// is the one code that is accepted. Without protection every code is.
pub proof fn codes_are_halves_of_digests(
    mac: SipHashMAC,
    none: NoProtection,
    next_idx: u32,
    stored: u32,
    slot_addr: usize,
)
    ensures
        mac.code(next_idx, slot_addr) == outside::sip13(mac.key(), next_idx, slot_addr as u64)
            % 0x1_0000_0000,
        mac.accepts(next_idx, stored, slot_addr) <==> stored == outside::sip13(
            mac.key(),
            next_idx,
            slot_addr as u64,
        ) % 0x1_0000_0000,
        none.accepts(next_idx, stored, slot_addr),
        none.code(next_idx, slot_addr) == 0,
{
    let digest = outside::sip13(mac.key(), next_idx, slot_addr as u64);
    assert(digest as u32 == digest % 0x1_0000_0000) by (bit_vector);
}

} // verus!
