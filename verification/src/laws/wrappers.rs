//! Wrappers: what each adds to the allocator it wraps, byte by byte.

use crate::allocator;
use crate::allocator::{Allocator, Block, Corruption, Deallocator, Residue, Verdict};
use crate::bits;
use crate::bump_arena::BumpArena;
use crate::fixed_range::FixedRange;
use crate::hardening::{
    Canary, HugePageAligned, NumaLocal, PoisonOnFree, SplitMetadata, ZeroizeOnFree,
};
use crate::layout;
use crate::layout::NonZeroLayout;
use crate::memory;
use crate::os::OsCall;
use crate::os_backed::{OsBacked, ProtectFlags};
use vstd::arithmetic::power2::*;
use vstd::prelude::*;

verus! {

/// A poisoning wrapper hands the wrapped allocator a block in which every byte that may be
/// used holds the pattern; if the wrapped allocator does not say how many these are, it is
/// every byte that was asked for. Nothing else in memory is touched.
pub proof fn poisoned_blocks_hold_the_pattern<I: Allocator>(
    w: PoisonOnFree<I>,
    m: Map<int, u8>,
    p: int,
    n: int,
    scrubbed: Map<int, u8>,
    next: PoisonOnFree<I>,
)
    requires
        n == match w.inside().usable(p, w.inside().live()[p].layout) {
            Some(usable) => usable as int,
            None => w.inside().live()[p].layout.size() as int,
        },
        scrubbed.dom() == m.dom(),
        forall|a: int| #[trigger]
            m.contains_key(a) ==> scrubbed[a] == if p <= a && a - p < n {
                w.pattern()
            } else {
                m[a]
            },
    ensures
        w.freed(m, p) == w.inside().freed(scrubbed, p),
        w.after_return(m, p, next) ==> w.inside().after_return(scrubbed, p, next.inside())
            && next.pattern() == w.pattern(),
        w.verdict(m, p) == w.inside().verdict(m, p),
{
    assert(w.scrubbed(m, p) =~= scrubbed);
}

/// Where no pattern is given the bytes of a returned block hold 0xDE, and where no guard word
/// is given, a zero one is not used: the words round a block are then 0xCAFE_BABE_DEAD_BEEF.
pub proof fn defaults_stand_in<I: Allocator>(
    inner: I,
    pattern: u8,
    seed: u64,
    plain: PoisonOnFree<I>,
    chosen: PoisonOnFree<I>,
    guarded: Canary<I>,
)
    requires
        call_ensures(PoisonOnFree::<I>::new, (inner,), plain),
        call_ensures(PoisonOnFree::<I>::with_pattern, (inner, pattern), chosen),
        call_ensures(Canary::<I>::new_with_seed, (inner, seed), guarded),
    ensures
        plain.inside() == inner && plain.pattern() == 0xDE,
        chosen.inside() == inner && chosen.pattern() == pattern,
        guarded.inside() == inner,
        seed != 0 ==> guarded.canary_value() == seed,
        seed == 0 ==> guarded.canary_value() == 0xCAFE_BABE_DEAD_BEEF,
{
}

/// A clearing wrapper hands the wrapped allocator a block in which every byte that was asked
/// for is zero. Nothing else in memory is touched.
pub proof fn cleared_blocks_hold_zeros<I: Allocator>(
    w: ZeroizeOnFree<I>,
    m: Map<int, u8>,
    p: int,
    scrubbed: Map<int, u8>,
    next: ZeroizeOnFree<I>,
)
    requires
        scrubbed.dom() == m.dom(),
        forall|a: int| #[trigger]
            m.contains_key(a) ==> scrubbed[a] == if p <= a && a - p
                < w.inside().live()[p].layout.size() {
                0
            } else {
                m[a]
            },
    ensures
        w.freed(m, p) == w.inside().freed(scrubbed, p),
        w.after_return(m, p, next) ==> w.inside().after_return(scrubbed, p, next.inside()),
        w.verdict(m, p) == w.inside().verdict(m, p),
{
    assert(w.scrubbed(m, p) =~= scrubbed);
}

/// A block given back to an arena that poisons, or that clears, holds the pattern, or zeros,
/// in every byte that was asked for, and memory around it is as it was.
pub proof fn scrubbed_arena_blocks<B: FixedRange>(
    w: PoisonOnFree<BumpArena<B>>,
    z: ZeroizeOnFree<BumpArena<B>>,
    m: Map<int, u8>,
    p: int,
    a: int,
)
    requires
        m.contains_key(a),
    ensures
        p <= a && a - p < w.live()[p].layout.size() ==> w.freed(m, p)[a] == w.pattern(),
        a < p || w.live()[p].layout.size() <= a - p ==> w.freed(m, p)[a] == m[a],
        p <= a && a - p < z.live()[p].layout.size() ==> z.freed(m, p)[a] == 0,
        a < p || z.live()[p].layout.size() <= a - p ==> z.freed(m, p)[a] == m[a],
        w.freed(m, p).contains_key(a),
        z.freed(m, p).contains_key(a),
{
}

/// What a scrubbed block leaves behind: the wrapper's byte, or that of a wrapper inside it.
pub proof fn scrubbing_leaves_its_byte<I: Allocator>(w: PoisonOnFree<I>, z: ZeroizeOnFree<I>)
    ensures
        w.inside().residue() is Kept ==> w.residue() == Residue::Filled(w.pattern()),
        w.inside().residue() !is Kept ==> w.residue() == w.inside().residue(),
        z.inside().residue() is Kept ==> z.residue() == Residue::Filled(0),
        z.inside().residue() !is Kept ==> z.residue() == z.inside().residue(),
{
}

/// Poisoning changes nothing but what a block holds when it is given back.
pub proof fn poisoning_is_transparent<I: Allocator>(
    w: PoisonOnFree<I>,
    layout: NonZeroLayout,
    m: Map<int, u8>,
    p: int,
    next: PoisonOnFree<I>,
)
    ensures
        w.outcome(layout) == w.inside().outcome(layout),
        w.issued(m, layout) == w.inside().issued(m, layout),
        w.live() == w.inside().live(),
        w.region() == w.inside().region(),
        w.budget() == w.inside().budget(),
        w.events() == w.inside().events(),
        w.after_issue(layout, next) ==> w.inside().after_issue(layout, next.inside()),
        w.usable(p, layout) == w.inside().usable(p, layout),
        w.resettable() == w.inside().resettable(),
        w.after_reset(next) ==> w.inside().after_reset(next.inside()),
        w.after_issue(layout, next) || w.after_reset(next) ==> next.pattern() == w.pattern(),
{
}

/// Clearing changes nothing but what a block holds when it is given back.
pub proof fn clearing_is_transparent<I: Allocator>(
    w: ZeroizeOnFree<I>,
    layout: NonZeroLayout,
    m: Map<int, u8>,
    p: int,
    next: ZeroizeOnFree<I>,
)
    ensures
        w.outcome(layout) == w.inside().outcome(layout),
        w.issued(m, layout) == w.inside().issued(m, layout),
        w.live() == w.inside().live(),
        w.region() == w.inside().region(),
        w.budget() == w.inside().budget(),
        w.events() == w.inside().events(),
        w.after_issue(layout, next) ==> w.inside().after_issue(layout, next.inside()),
        w.usable(p, layout) == w.inside().usable(p, layout),
        w.resettable() == w.inside().resettable(),
        w.after_reset(next) ==> w.inside().after_reset(next.inside()),
{
}

/// Tying a region to nodes changes nothing about its blocks.
pub proof fn node_binding_is_transparent<I: OsBacked>(
    w: NumaLocal<I>,
    layout: NonZeroLayout,
    m: Map<int, u8>,
    p: int,
    next: NumaLocal<I>,
)
    ensures
        w.outcome(layout) == w.inside().outcome(layout),
        w.issued(m, layout) == w.inside().issued(m, layout),
        w.live() == w.inside().live(),
        w.region() == w.inside().region(),
        w.budget() == w.inside().budget(),
        w.events() == w.inside().events(),
        w.after_issue(layout, next) ==> w.inside().after_issue(layout, next.inside()),
        w.residue() == w.inside().residue(),
        w.freed(m, p) == w.inside().freed(m, p),
        w.verdict(m, p) == w.inside().verdict(m, p),
        w.after_return(m, p, next) ==> w.inside().after_return(m, p, next.inside()),
        w.usable(p, layout) is None,
        !w.resettable(),
        w.after_issue(layout, next) || w.after_return(m, p, next) ==> next.policy_spec()
            == w.policy_spec(),
{
}

/// Bookkeeping kept apart changes nothing about the blocks.
pub proof fn split_bookkeeping_is_transparent<I: Allocator>(
    w: SplitMetadata<I>,
    layout: NonZeroLayout,
    m: Map<int, u8>,
    p: int,
    next: SplitMetadata<I>,
)
    ensures
        w.outcome(layout) == w.inside().outcome(layout),
        w.issued(m, layout) == w.inside().issued(m, layout),
        w.live() == w.inside().live(),
        w.region() == w.inside().region(),
        w.budget() == w.inside().budget(),
        w.events() == w.inside().events(),
        w.after_issue(layout, next) ==> w.inside().after_issue(layout, next.inside()),
        w.residue() == w.inside().residue(),
        w.freed(m, p) == w.inside().freed(m, p),
        w.verdict(m, p) == w.inside().verdict(m, p),
        w.after_return(m, p, next) ==> w.inside().after_return(m, p, next.inside()),
        w.usable(p, layout) is None,
        !w.resettable(),
        w.after_issue(layout, next) || w.after_return(m, p, next) ==> next.meta_spec()
            == w.meta_spec(),
{
}

/// The mapping of a wrapper is that of the allocator it wraps, and so are the calls that are
/// made for it.
pub proof fn wrapped_mappings_are_the_same<I: OsBacked>(
    n: NumaLocal<I>,
    s: SplitMetadata<I>,
    h: HugePageAligned<I>,
    addr: usize,
    size: usize,
    flags: ProtectFlags,
)
    ensures
        n.os_base() == n.inside().os_base() && n.os_size() == n.inside().os_size(),
        s.os_base() == s.inside().os_base() && s.os_size() == s.inside().os_size(),
        h.os_base() == h.inside().os_base() && h.os_size() == h.inside().os_size(),
        n.release_call(addr, size) == n.inside().release_call(addr, size),
        s.release_call(addr, size) == s.inside().release_call(addr, size),
        n.protect_call(addr, size, flags) == n.inside().protect_call(addr, size, flags),
        s.protect_call(addr, size, flags) == s.inside().protect_call(addr, size, flags),
        h.protect_call(addr, size, flags) == h.inside().protect_call(addr, size, flags),
{
}

/// A request for huge-page-aligned memory is answered as the wrapped allocator answers a
/// request of the same size whose alignment is the larger of the one asked for and the huge
/// page; where these make no layout it is refused.
pub proof fn huge_alignment_is_asked_for<I: OsBacked>(
    w: HugePageAligned<I>,
    layout: NonZeroLayout,
    raised: NonZeroLayout,
    m: Map<int, u8>,
    p: int,
    next: HugePageAligned<I>,
)
    requires
        raised.size() == layout.size(),
        raised.align() == layout.align() || raised.align() == w.huge_page_size(),
        raised.align() >= layout.align(),
        raised.align() >= w.huge_page_size(),
    ensures
        w.region() == w.inside().region(),
        layout.size() + raised.align() - 1 <= isize::MAX ==> w.outcome(layout)
            == w.inside().outcome(raised),
        layout.size() + raised.align() - 1 > isize::MAX ==> w.outcome(layout) is None,
        w.issued(m, layout) == w.inside().issued(m, raised),
        w.usable(p, layout) == w.inside().usable(p, raised),
        w.freed(m, p) == w.inside().freed(m, p),
        w.verdict(m, p) == w.inside().verdict(m, p),
        w.residue() == w.inside().residue(),
        w.budget() == w.inside().budget(),
        w.events() == w.inside().events(),
        !w.resettable(),
        w.after_issue(layout, next) || w.after_return(m, p, next) ==> next.huge_page_size()
            == w.huge_page_size(),
        w.after_issue(layout, next) && layout.size() + raised.align() - 1 <= isize::MAX
            ==> w.inside().after_issue(raised, next.inside()),
        w.after_issue(layout, next) && layout.size() + raised.align() - 1 > isize::MAX ==> next == w,
        w.after_return(m, p, next) ==> w.inside().after_return(m, p, next.inside()),
{
    layout::lemma_layout_of(layout.size() as int, raised.align() as int);
    layout::lemma_same_layout(
        NonZeroLayout::of(layout.size() as int, raised.align() as int),
        raised,
    );
}

/// Of a range that is to be given back, exactly the huge pages that lie in it as a whole are.
/// Without such a page nothing is.
pub proof fn whole_huge_pages_are_released<I: OsBacked>(
    w: HugePageAligned<I>,
    addr: usize,
    size: usize,
    page: int,
    start: usize,
    len: usize,
)
    requires
        w.wf(),
        addr + size <= usize::MAX,
        addr + w.huge_page_size() <= usize::MAX + 1,
        start as int % w.huge_page_size() as int == 0,
        len as int % w.huge_page_size() as int == 0,
        addr <= start < addr + w.huge_page_size(),
        addr + size < start + len + w.huge_page_size(),
        start + len <= addr + size,
    ensures
        len > 0 ==> w.release_call(addr, size) == w.inside().release_call(start, len),
        len == 0 ==> w.release_call(addr, size) is None,
        page % (w.huge_page_size() as int) == 0 && addr <= page && page + w.huge_page_size() <= addr
            + size ==> start <= page && page + w.huge_page_size() <= start + len,
{
    let hp = w.huge_page_size() as int;
    w.page_size_is_a_power_of_two();
    reveal(is_pow2);
    bits::lemma_round_up(addr as int, hp);
    lemma_same_multiple(addr as int, hp, start as int, bits::round_up(addr as int, hp));
    bits::lemma_round_down(addr + size, hp);
    vstd::arithmetic::div_mod::lemma_add_mod_noop(start as int, len as int, hp);
    vstd::arithmetic::div_mod::lemma_small_mod(0, hp as nat);
    assert((start + len) % hp == 0);
    let down = bits::round_down(addr + size, hp);
    lemma_same_multiple(addr + size - hp + 1, hp, start + len, down);
    if page % hp == 0 && addr <= page && page + hp <= addr + size {
        bits::lemma_round_up_least(addr as int, hp, page);
        vstd::arithmetic::div_mod::lemma_mod_add_multiples_vanish(page, hp);
        lemma_no_multiple_between(down, hp, page + hp);
    }
}

/// A range that reaches the end of the address space has none of its pages given back, nor
/// has one whose first whole page does.
pub proof fn ranges_at_the_end_keep_their_pages<I: OsBacked>(
    w: HugePageAligned<I>,
    addr: usize,
    size: usize,
)
    ensures
        addr + size > usize::MAX ==> w.release_call(addr, size) is None,
        addr + w.huge_page_size() > usize::MAX + 1 ==> w.release_call(addr, size) is None,
{
}

/// Among the `a` numbers from `x` on there is one multiple of `a`.
proof fn lemma_same_multiple(x: int, a: int, u: int, v: int)
    requires
        a > 0,
        u % a == 0,
        v % a == 0,
        x <= u < x + a,
        x <= v < x + a,
    ensures
        u == v,
{
    if u <= v {
        vstd::arithmetic::div_mod::lemma_sub_mod_noop(v, u, a);
        vstd::arithmetic::div_mod::lemma_small_mod((v - u) as nat, a as nat);
    } else {
        vstd::arithmetic::div_mod::lemma_sub_mod_noop(u, v, a);
        vstd::arithmetic::div_mod::lemma_small_mod((u - v) as nat, a as nat);
    }
    vstd::arithmetic::div_mod::lemma_small_mod(0, a as nat);
}

/// A multiple of `a` that is above `d`, a multiple too, is above it by `a`.
proof fn lemma_no_multiple_between(d: int, a: int, u: int)
    requires
        a > 0,
        d % a == 0,
        u % a == 0,
    ensures
        u <= d || u >= d + a,
{
    if d < u < d + a {
        vstd::arithmetic::div_mod::lemma_sub_mod_noop(u, d, a);
        vstd::arithmetic::div_mod::lemma_small_mod((u - d) as nat, a as nat);
        vstd::arithmetic::div_mod::lemma_small_mod(0, a as nat);
    }
}

/// A request for guarded memory asks the wrapped allocator for the bytes in front, the block
/// and a word behind it, aligned to the bytes in front: as many as the alignment, but at
/// least eight. The block starts right behind the bytes in front.
pub proof fn guarded_blocks_sit_between_their_words<I: Allocator>(
    w: Canary<I>,
    layout: NonZeroLayout,
    front: int,
    outer: NonZeroLayout,
    next: Canary<I>,
)
    requires
        front >= 8,
        front >= layout.align(),
        front == 8 || front == layout.align(),
        outer.size() == front + layout.size() + 8,
        outer.align() == front,
    ensures
        outer.size() + front - 1 > isize::MAX ==> w.outcome(layout) is None,
        outer.size() + front - 1 <= isize::MAX && w.inside().outcome(outer) is None ==> w.outcome(
            layout,
        ) is None,
        outer.size() + front - 1 <= isize::MAX && w.inside().outcome(outer) is Some
            && w.inside().outcome(outer)->0.addr + front <= usize::MAX ==> w.outcome(layout) == Some(
            Block {
                addr: (w.inside().outcome(outer)->0.addr + front) as usize,
                len: layout.size(),
            },
        ),
        w.after_issue(layout, next) ==> next.canary_value() == w.canary_value(),
        w.after_issue(layout, next) && outer.size() + front - 1 <= isize::MAX
            ==> w.inside().after_issue(outer, next.inside()),
        w.after_issue(layout, next) && outer.size() + front - 1 > isize::MAX ==> next == w,
        w.usable(0, layout) is None,
        !w.resettable(),
        w.residue() == w.inside().residue(),
        w.budget() == w.inside().budget(),
        w.events() == w.inside().events(),
        w.region() == w.inside().region(),
{
    layout::lemma_layout_of(front + layout.size() + 8, front);
    layout::lemma_same_layout(NonZeroLayout::of(front + layout.size() + 8, front), outer);
}

/// A request that is larger than any layout with its guard words is refused.
pub proof fn oversized_guarded_requests_are_refused<I: Allocator>(
    w: Canary<I>,
    layout: NonZeroLayout,
    next: Canary<I>,
)
    requires
        layout.size() > isize::MAX - 23 || layout.size() + 2 * layout.align() + 7 > isize::MAX,
    ensures
        w.outcome(layout) is None,
        w.after_issue(layout, next) ==> next == w,
{
}

/// Around a block that is issued, the eight bytes below it and the eight bytes behind it hold
/// the guard word, low byte first; the rest of memory is as the wrapped allocator left it.
pub proof fn issued_blocks_are_guarded<I: Allocator>(
    w: Canary<I>,
    m: Map<int, u8>,
    layout: NonZeroLayout,
    front: int,
    outer: NonZeroLayout,
    a: int,
)
    requires
        front >= 8,
        front >= layout.align(),
        front == 8 || front == layout.align(),
        outer.size() == front + layout.size() + 8,
        outer.align() == front,
        w.inside().outcome(outer) is Some,
        w.inside().issued(m, outer).contains_key(a),
    ensures
        ({
            let p = w.inside().outcome(outer)->0.addr + front;
            let bytes = memory::word_bytes(w.canary_value());
            &&& p - 8 <= a < p ==> w.issued(m, layout)[a] == bytes[a - (p - 8)]
            &&& p + layout.size() <= a < p + layout.size() + 8 ==> w.issued(m, layout)[a] == bytes[a
                - (p + layout.size())]
            &&& !(p - 8 <= a < p) && !(p + layout.size() <= a < p + layout.size() + 8) ==> w.issued(
                m,
                layout,
            )[a] == w.inside().issued(m, outer)[a]
            &&& w.issued(m, layout).contains_key(a)
        }),
{
    layout::lemma_layout_of(front + layout.size() + 8, front);
    layout::lemma_same_layout(NonZeroLayout::of(front + layout.size() + 8, front), outer);
}

/// A block is judged by its front word first, then by its back word, then by the wrapped
/// allocator, which gets the block with both words zero; a block with a wrong word is not
/// taken back, and memory stays as it was.
pub proof fn guard_words_decide<I: Allocator>(
    w: Canary<I>,
    m: Map<int, u8>,
    p: int,
    front: int,
    cleared: Map<int, u8>,
    next: Canary<I>,
)
    requires
        front >= 8,
        front >= w.live()[p].layout.align(),
        front == 8 || front == w.live()[p].layout.align(),
        cleared.dom() == m.dom(),
        forall|a: int| #[trigger]
            m.contains_key(a) ==> cleared[a] == if p - 8 <= a < p || p
                + w.live()[p].layout.size() <= a < p + w.live()[p].layout.size() + 8 {
                0
            } else {
                m[a]
            },
    ensures
        ({
            let bytes = memory::word_bytes(w.canary_value());
            let size = w.live()[p].layout.size();
            let fore = forall|i: int| 0 <= i < 8 ==> #[trigger] m[p - 8 + i] == bytes[i];
            let aft = forall|i: int| 0 <= i < 8 ==> #[trigger] m[p + size + i] == bytes[i];
            &&& !fore ==> w.verdict(m, p) == Verdict::Caught(Corruption::PreCanary)
            &&& fore && !aft ==> w.verdict(m, p) == Verdict::Caught(Corruption::PostCanary)
            &&& fore && aft ==> w.verdict(m, p) == w.inside().verdict(cleared, p - front)
            &&& !fore || !aft ==> w.freed(m, p) == m
            &&& fore && aft ==> w.freed(m, p) == w.inside().freed(cleared, p - front)
            &&& w.after_return(m, p, next) ==> next.canary_value() == w.canary_value()
            &&& w.after_return(m, p, next) && !(fore && aft) ==> next == w
            &&& w.after_return(m, p, next) && fore && aft ==> w.inside().after_return(
                cleared,
                p - front,
                next.inside(),
            )
        }),
{
    let v = w.canary_value();
    let bytes = memory::word_bytes(v);
    let size = w.live()[p].layout.size() as int;
    let front_bytes = memory::span_of(m, p - 8, 8);
    let back_bytes = memory::span_of(m, p + size, 8);
    memory::lemma_word_round_trip(v);
    memory::lemma_bytes_round_trip(front_bytes);
    memory::lemma_bytes_round_trip(back_bytes);
    memory::lemma_word_round_trip(0);
    let fore = forall|i: int| 0 <= i < 8 ==> #[trigger] m[p - 8 + i] == bytes[i];
    let aft = forall|i: int| 0 <= i < 8 ==> #[trigger] m[p + size + i] == bytes[i];
    if fore {
        assert(front_bytes =~= bytes);
    } else {
        let i = choose|i: int| 0 <= i < 8 && #[trigger] m[p - 8 + i] != bytes[i];
        assert(front_bytes[i] != bytes[i]);
    }
    if aft {
        assert(back_bytes =~= bytes);
    } else {
        let i = choose|i: int| 0 <= i < 8 && #[trigger] m[p + size + i] != bytes[i];
        assert(back_bytes[i] != bytes[i]);
    }
    assert(0u64 & 0xff == 0 && (0u64 >> 8) & 0xff == 0 && (0u64 >> 16) & 0xff == 0 && (0u64 >> 24)
        & 0xff == 0 && (0u64 >> 32) & 0xff == 0 && (0u64 >> 40) & 0xff == 0 && (0u64 >> 48) & 0xff
        == 0 && (0u64 >> 56) & 0xff == 0) by (bit_vector);
    assert(memory::word_bytes(0) =~= Seq::new(8, |i: int| 0u8));
    assert(crate::hardening::canary::with_guards(m, p, size, 0) =~= cleared);
}

} // verus!
