//! Regions from which blocks are carved front to back: which requests they serve, and where.

use crate::allocator::{Allocator, Block, Deallocator, Residue, Verdict};
use crate::backing::heap::HeapBytes;
use crate::backing::huge_page_backed::HugePageBacked;
use crate::backing::inline::InlineBacked;
use crate::backing::locked_mmap::LockedMmapBacked;
use crate::backing::mmap::MmapBacked;
use crate::backing::static_buf::StaticBacked;
use crate::bits;
use crate::bump::BumpCursor;
use crate::bump_arena::BumpArena;
use crate::capi;
use crate::capi::ForgeBump;
use crate::fixed_range::FixedRange;
use crate::hardening::GuardPage;
use crate::layout;
use crate::layout::NonZeroLayout;
use crate::os_backed::OsBacked;
use vstd::arithmetic::power2::*;
use vstd::prelude::*;

verus! {

/// A region serves a request exactly where a place for it is left, and then at the first.
pub proof fn cursor_serves_what_fits(a: BumpCursor, layout: NonZeroLayout, at: int)
    requires
        a.wf(),
        layout.valid(),
    ensures
        a.outcome(layout) matches Some(b) ==> {
            &&& b.len == layout.size()
            &&& b.addr as int % layout.align() as int == 0
            &&& a.base() + a.used() <= b.addr
            &&& b.addr < a.base() + a.used() + layout.align()
            &&& b.addr + layout.size() <= a.base() + a.limit()
        },
        at % (layout.align() as int) == 0 && a.base() + a.used() <= at && at + layout.size()
            <= a.base()
            + a.limit() && a.base() + a.used() + layout.align() <= usize::MAX + 1
            ==> a.outcome(layout) is Some,
        a.base() + a.used() + layout.align() > usize::MAX + 1 ==> a.outcome(layout) is None,
{
    a.lemma_bounds();
    let align = layout.align() as int;
    layout::lemma_largest_power(layout.align());
    bits::lemma_round_up(a.base() + a.used(), align);
    if at % align == 0 && a.base() + a.used() <= at {
        bits::lemma_round_up_least(a.base() + a.used(), align, at);
    }
}

/// Serving a request moves the cursor to the end of the block, refusing one and giving a
/// block back leave it where it is, and a reset moves it to the front. Memory is not touched.
pub proof fn cursor_moves_past_its_blocks(
    a: BumpCursor,
    layout: NonZeroLayout,
    m: Map<int, u8>,
    p: int,
    next: BumpCursor,
)
    ensures
        a.after_issue(layout, next) ==> next.base() == a.base() && next.limit() == a.limit(),
        a.after_issue(layout, next) && a.outcome(layout) is Some ==> next.used()
            == a.outcome(layout)->0.addr + a.outcome(layout)->0.len - a.base(),
        a.after_issue(layout, next) && a.outcome(layout) is None ==> next.used() == a.used(),
        a.after_return(m, p, next) ==> next.base() == a.base() && next.limit() == a.limit()
            && next.used() == a.used(),
        a.resettable(),
        a.after_reset(next) ==> next.base() == a.base() && next.limit() == a.limit()
            && next.used() == 0,
        a.issued(m, layout) == m,
        a.freed(m, p) == m,
        a.verdict(m, p) is Sound,
        a.events() == 0,
        a.residue() is Kept,
        a.usable(p, layout) is None,
        a.budget() == Some(a.limit()),
{
}

/// An arena whose region makes every part of itself ready serves a request exactly where a
/// place for it is left, and then at the first, whatever the alignment.
pub proof fn arena_serves_what_fits<B: FixedRange>(a: BumpArena<B>, layout: NonZeroLayout, at: int)
    requires
        a.wf(),
        layout.valid(),
        forall|offset: int, len: int|
            0 <= offset && 0 <= len && offset + len <= a.extent() ==> #[trigger] a.commits(
                offset,
                len,
            ),
    ensures
        a.outcome(layout) matches Some(b) ==> {
            &&& b.len == layout.size()
            &&& b.addr as int % layout.align() as int == 0
            &&& a.start() + a.allocated() <= b.addr
            &&& b.addr < a.start() + a.allocated() + layout.align()
            &&& b.addr + layout.size() <= a.start() + a.extent()
        },
        at % (layout.align() as int) == 0 && a.start() + a.allocated() <= at
            && at + layout.size() <= a.start()
            + a.extent() && a.start() + a.allocated() + layout.align() <= usize::MAX + 1
            ==> a.outcome(layout) is Some,
        a.start() + a.allocated() + layout.align() > usize::MAX + 1 ==> a.outcome(layout) is None,
{
    a.serves_its_region();
    let align = layout.align() as int;
    layout::lemma_largest_power(layout.align());
    bits::lemma_round_up(a.start() + a.allocated(), align);
    if at % align == 0 && a.start() + a.allocated() <= at {
        bits::lemma_round_up_least(a.start() + a.allocated(), align, at);
    }
    if let Some(b) = a.inside().outcome(layout) {
        assert(a.commits(b.addr - a.start(), b.len as int));
    }
}

/// A place that the region cannot make ready is not issued, and nothing is issued instead.
pub proof fn arena_asks_its_region<B: FixedRange>(a: BumpArena<B>, layout: NonZeroLayout, at: int)
    requires
        a.wf(),
        layout.valid(),
        at % (layout.align() as int) == 0,
        a.start() + a.allocated() <= at < a.start() + a.allocated() + layout.align(),
    ensures
        a.outcome(layout) is Some ==> a.outcome(layout)->0.addr == at && a.region_owner().commits(
            at - a.start(),
            layout.size() as int,
        ),
        !a.region_owner().commits(at - a.start(), layout.size() as int)
            ==> a.outcome(layout) is None,
        a.region_owner().commits(at - a.start(), layout.size() as int) && at + layout.size()
            <= a.start() + a.extent() && a.start() + a.allocated() + layout.align()
                <= usize::MAX + 1
            ==> a.outcome(layout) is Some,
{
    a.serves_its_region();
    let align = layout.align() as int;
    layout::lemma_largest_power(layout.align());
    let from = a.start() + a.allocated();
    bits::lemma_round_up(from, align);
    bits::lemma_round_up_least(from, align, at);
    let u = bits::round_up(from, align);
    if u != at {
        bits::lemma_round_up_least(u + 1, align, at);
        bits::lemma_round_up(u + 1, align);
        vstd::arithmetic::div_mod::lemma_sub_mod_noop(at, u, align);
        vstd::arithmetic::div_mod::lemma_small_mod((at - u) as nat, align as nat);
    }
}

/// Serving a request counts what lies before the end of the block as issued, refusing one and
/// giving a block back change nothing, and a reset makes the arena empty.
pub proof fn arena_moves_past_its_blocks<B: FixedRange>(
    a: BumpArena<B>,
    layout: NonZeroLayout,
    m: Map<int, u8>,
    p: int,
    next: BumpArena<B>,
)
    ensures
        a.after_issue(layout, next) ==> next.inside().base() == a.inside().base()
            && next.capacity() == a.capacity(),
        a.after_issue(layout, next) && a.outcome(layout) is Some ==> next.allocated()
            == a.outcome(layout)->0.addr + a.outcome(layout)->0.len - a.inside().base(),
        a.after_issue(layout, next) && a.outcome(layout) is None ==> next.allocated()
            == a.allocated(),
        a.after_return(m, p, next) ==> next.inside().base() == a.inside().base()
            && next.capacity() == a.capacity()
            && next.allocated() == a.allocated(),
        a.resettable(),
        a.after_reset(next) ==> next.inside().base() == a.inside().base() && next.capacity()
            == a.capacity() && next.allocated() == 0,
        a.issued(m, layout) == m,
        a.freed(m, p) == m,
        a.verdict(m, p) is Sound,
        a.events() == 0,
        a.residue() is Kept,
        a.usable(p, layout) is None,
        a.budget() == Some(a.capacity()),
        a.after_issue(layout, next) || a.after_return(m, p, next) || a.after_reset(next)
            ==> next.region_owner() == a.region_owner(),
{
}

/// Blocks are carved in order: what is issued later lies behind what was issued before.
pub proof fn arena_carves_in_order<B: FixedRange>(
    a: BumpArena<B>,
    first: NonZeroLayout,
    between: BumpArena<B>,
    second: NonZeroLayout,
)
    requires
        a.wf(),
        between.wf(),
        first.valid(),
        second.valid(),
        a.outcome(first) is Some,
        a.after_issue(first, between),
        between.outcome(second) is Some,
    ensures
        a.outcome(first)->0.addr + first.size() <= between.outcome(second)->0.addr,
        between.outcome(second)->0.addr < a.outcome(first)->0.addr + first.size() + second.align(),
{
    a.serves_its_region();
    between.serves_its_region();
    layout::lemma_largest_power(second.align());
    bits::lemma_round_up(between.inside().base() + between.allocated(), second.align() as int);
}

/// A region made of a buffer, a heap block, inline storage or a mapping is ready as a whole.
pub proof fn backings_are_ready<'a, const N: usize>(
    s: StaticBacked<'a>,
    h: HeapBytes,
    i: InlineBacked<N>,
    m: MmapBacked,
    l: LockedMmapBacked,
    g: HugePageBacked,
    offset: int,
    len: int,
)
    ensures
        s.commits(offset, len),
        h.commits(offset, len),
        i.commits(offset, len),
        m.commits(offset, len),
        l.commits(offset, len),
        g.commits(offset, len),
        s.extent() == s.capacity(),
        h.extent() == h.layout().size(),
        i.extent() == N,
        m.extent() == m.capacity(),
        g.extent() == g.capacity(),
{
}

/// Every region is made of the addresses from its start to its end, and of no other.
pub proof fn regions_are_their_addresses<B: FixedRange, I: OsBacked, const N: usize>(
    cursor: BumpCursor,
    arena: BumpArena<B>,
    storage: InlineBacked<N>,
    mapping: MmapBacked,
    huge: HugePageBacked,
    locked: LockedMmapBacked,
    guarded: GuardPage<I>,
    x: int,
)
    requires
        arena.wf(),
        storage.wf(),
    ensures
        cursor.region().contains(x) <==> cursor.base() <= x < cursor.base() + cursor.limit(),
        arena.region().contains(x) <==> arena.start() <= x < arena.start() + arena.extent(),
        storage.region().contains(x) <==> storage.start() <= x < storage.start() + N,
        mapping.region().contains(x) <==> mapping.start() <= x < mapping.start()
            + mapping.capacity(),
        huge.region().contains(x) <==> huge.start() <= x < huge.start() + huge.capacity(),
        locked.region().contains(x) <==> locked.start() <= x < locked.start() + locked.extent(),
        guarded.region().contains(x) <==> guarded.start() <= x < guarded.start()
            + guarded.extent(),
        storage.budget() == Some(N),
{
    arena.serves_its_region();
    storage.within_its_storage();
}

/// An arena has the range of its region, and makes ready what the region does.
pub proof fn arenas_have_the_range_of_their_region<B: FixedRange>(
    a: BumpArena<B>,
    offset: int,
    len: int,
)
    ensures
        a.start() == a.region_owner().start(),
        a.extent() == a.region_owner().extent(),
        a.commits(offset, len) <==> a.region_owner().commits(offset, len),
{
}

/// The region between two guards is ready for writing throughout.
pub proof fn guarded_regions_are_ready<I: OsBacked>(g: GuardPage<I>, offset: int, len: int)
    ensures
        g.commits(offset, len),
        g.start() == g.inside().base(),
        g.extent() == g.inside().limit(),
{
}

/// Inline storage can be had of any whole number of machine words, and of no other size.
pub proof fn storage_is_made_of_words(n: usize, words: int)
    ensures
        n == words * (usize::BITS as int / 8) ==> crate::backing::inline::whole_words(n),
        words * (usize::BITS as int / 8) < n < (words + 1) * (usize::BITS as int / 8)
            ==> !crate::backing::inline::whole_words(n),
{
    let w = usize::BITS as int / 8;
    vstd::arithmetic::div_mod::lemma_fundamental_div_mod(n as int, w);
    vstd::arithmetic::div_mod::lemma_mod_multiples_basic(words, w);
    if words * w < n < (words + 1) * w && crate::backing::inline::whole_words(n) {
        let q = n as int / w;
        assert(false) by (nonlinear_arith)
            requires
                words * w < w * q,
                w * q < (words + 1) * w,
                w > 0,
        ;
    }
}

/// Inline storage serves a request exactly where a place for it is left and its alignment is
/// no more than 16, and then at the first place.
pub proof fn inline_storage_serves_what_fits<const N: usize>(
    a: InlineBacked<N>,
    layout: NonZeroLayout,
    at: int,
)
    requires
        a.wf(),
        layout.valid(),
    ensures
        a.outcome(layout) matches Some(b) ==> {
            &&& b.len == layout.size()
            &&& b.addr as int % layout.align() as int == 0
            &&& a.start() + a.allocated() <= b.addr
            &&& b.addr < a.start() + a.allocated() + layout.align()
            &&& b.addr + layout.size() <= a.start() + N
        },
        at % (layout.align() as int) == 0 && a.start() + a.allocated() <= at
            && at + layout.size() <= a.start()
            + N && a.start() + a.allocated() + layout.align() <= usize::MAX + 1
                && layout.align() <= 16
            ==> a.outcome(layout) is Some,
        a.start() + a.allocated() + layout.align() > usize::MAX + 1 ==> a.outcome(layout) is None,
        layout.align() > 16 ==> a.outcome(layout) is None,
{
    a.within_its_storage();
    let align = layout.align() as int;
    layout::lemma_largest_power(layout.align());
    bits::lemma_round_up(a.start() + a.allocated(), align);
    if at % align == 0 && a.start() + a.allocated() <= at {
        bits::lemma_round_up_least(a.start() + a.allocated(), align, at);
    }
}

/// Inline storage counts what lies before the end of a block as issued; refusing a request and
/// giving a block back change nothing. Memory is not touched.
pub proof fn inline_storage_moves_past_its_blocks<const N: usize>(
    a: InlineBacked<N>,
    layout: NonZeroLayout,
    m: Map<int, u8>,
    p: int,
    next: InlineBacked<N>,
)
    requires
        a.wf(),
    ensures
        a.after_issue(layout, next) ==> next.start() == a.start() && next.extent() == a.extent(),
        a.after_issue(layout, next) && a.outcome(layout) is Some ==> next.allocated()
            == a.outcome(layout)->0.addr + a.outcome(layout)->0.len - a.start(),
        a.after_issue(layout, next) && a.outcome(layout) is None ==> next.allocated()
            == a.allocated(),
        a.after_return(m, p, next) ==> next.start() == a.start() && next.extent() == a.extent()
            && next.allocated() == a.allocated(),
        !a.resettable(),
        a.issued(m, layout) == m,
        a.freed(m, p) == m,
        a.verdict(m, p) is Sound,
        a.events() == 0,
        a.residue() is Kept,
        a.usable(p, layout) is None,
        a.budget() == Some(a.extent()),
{
    a.within_its_storage();
}

/// A mapping serves a request exactly where a place for it is left, and then at the first.
pub proof fn mapping_serves_what_fits(a: MmapBacked, layout: NonZeroLayout, at: int)
    requires
        a.wf(),
        layout.valid(),
    ensures
        a.outcome(layout) matches Some(b) ==> {
            &&& b.len == layout.size()
            &&& b.addr as int % layout.align() as int == 0
            &&& a.start() + a.allocated() <= b.addr
            &&& b.addr < a.start() + a.allocated() + layout.align()
            &&& b.addr + layout.size() <= a.start() + a.capacity()
        },
        at % (layout.align() as int) == 0 && a.start() + a.allocated() <= at
            && at + layout.size() <= a.start()
            + a.capacity() && a.start() + a.allocated() + layout.align() <= usize::MAX + 1
            ==> a.outcome(layout) is Some,
        a.start() + a.allocated() + layout.align() > usize::MAX + 1 ==> a.outcome(layout) is None,
{
    a.mapping_bounds();
    let align = layout.align() as int;
    layout::lemma_largest_power(layout.align());
    bits::lemma_round_up(a.start() + a.allocated(), align);
    if at % align == 0 && a.start() + a.allocated() <= at {
        bits::lemma_round_up_least(a.start() + a.allocated(), align, at);
    }
}

/// A mapping counts what lies before the end of a block as issued; refusing a request and
/// giving a block back change nothing. Memory is not touched.
pub proof fn mapping_moves_past_its_blocks(
    a: MmapBacked,
    layout: NonZeroLayout,
    m: Map<int, u8>,
    p: int,
    next: MmapBacked,
)
    ensures
        a.after_issue(layout, next) ==> next.start() == a.start() && next.capacity()
            == a.capacity(),
        a.after_issue(layout, next) && a.outcome(layout) is Some ==> next.allocated()
            == a.outcome(layout)->0.addr + a.outcome(layout)->0.len - a.start(),
        a.after_issue(layout, next) && a.outcome(layout) is None ==> next.allocated()
            == a.allocated(),
        a.after_return(m, p, next) ==> next.start() == a.start() && next.capacity() == a.capacity()
            && next.allocated() == a.allocated(),
        !a.resettable(),
        a.issued(m, layout) == m,
        a.freed(m, p) == m,
        a.verdict(m, p) is Sound,
        a.events() == 0,
        a.residue() is Kept,
        a.usable(p, layout) is None,
        a.budget() == Some(a.capacity()),
{
}

/// A mapping of huge pages serves a request exactly where a place for it is left, and then at
/// the first.
pub proof fn huge_mapping_serves_what_fits(a: HugePageBacked, layout: NonZeroLayout, at: int)
    requires
        a.wf(),
        layout.valid(),
    ensures
        a.outcome(layout) matches Some(b) ==> {
            &&& b.len == layout.size()
            &&& b.addr as int % layout.align() as int == 0
            &&& a.start() + a.allocated() <= b.addr
            &&& b.addr < a.start() + a.allocated() + layout.align()
            &&& b.addr + layout.size() <= a.start() + a.capacity()
        },
        at % (layout.align() as int) == 0 && a.start() + a.allocated() <= at
            && at + layout.size() <= a.start()
            + a.capacity() && a.start() + a.allocated() + layout.align() <= usize::MAX + 1
            ==> a.outcome(layout) is Some,
        a.start() + a.allocated() + layout.align() > usize::MAX + 1 ==> a.outcome(layout) is None,
{
    a.mapping_bounds();
    let align = layout.align() as int;
    layout::lemma_largest_power(layout.align());
    bits::lemma_round_up(a.start() + a.allocated(), align);
    if at % align == 0 && a.start() + a.allocated() <= at {
        bits::lemma_round_up_least(a.start() + a.allocated(), align, at);
    }
}

/// A mapping of huge pages counts what lies before the end of a block as issued; refusing a
/// request and giving a block back change nothing. Memory is not touched.
pub proof fn huge_mapping_moves_past_its_blocks(
    a: HugePageBacked,
    layout: NonZeroLayout,
    m: Map<int, u8>,
    p: int,
    next: HugePageBacked,
)
    ensures
        a.after_issue(layout, next) ==> next.start() == a.start() && next.capacity()
            == a.capacity(),
        a.after_issue(layout, next) && a.outcome(layout) is Some ==> next.allocated()
            == a.outcome(layout)->0.addr + a.outcome(layout)->0.len - a.start(),
        a.after_issue(layout, next) && a.outcome(layout) is None ==> next.allocated()
            == a.allocated(),
        a.after_return(m, p, next) ==> next.start() == a.start() && next.capacity() == a.capacity()
            && next.allocated() == a.allocated(),
        !a.resettable(),
        a.issued(m, layout) == m,
        a.freed(m, p) == m,
        a.verdict(m, p) is Sound,
        a.events() == 0,
        a.residue() is Kept,
        a.usable(p, layout) is None,
        a.budget() == Some(a.capacity()),
        a.after_issue(layout, next) || a.after_return(m, p, next) ==> next.huge_page_size()
            == a.huge_page_size(),
{
}

/// A locked mapping serves a request exactly where a place for it is left, and then at the
/// first.
pub proof fn locked_mapping_serves_what_fits(a: LockedMmapBacked, layout: NonZeroLayout, at: int)
    requires
        a.wf(),
        layout.valid(),
    ensures
        a.outcome(layout) matches Some(b) ==> {
            &&& b.len == layout.size()
            &&& b.addr as int % layout.align() as int == 0
            &&& a.start() + a.inside().allocated() <= b.addr
            &&& b.addr < a.start() + a.inside().allocated() + layout.align()
            &&& b.addr + layout.size() <= a.start() + a.extent()
        },
        at % (layout.align() as int) == 0 && a.start() + a.inside().allocated() <= at
            && at + layout.size() <= a.start()
            + a.extent() && a.start() + a.inside().allocated() + layout.align() <= usize::MAX + 1
            ==> a.outcome(layout) is Some,
        a.start() + a.inside().allocated() + layout.align() > usize::MAX + 1
            ==> a.outcome(layout) is None,
{
    a.mapping_bounds();
    let align = layout.align() as int;
    layout::lemma_largest_power(layout.align());
    bits::lemma_round_up(a.start() + a.inside().allocated(), align);
    if at % align == 0 && a.start() + a.inside().allocated() <= at {
        bits::lemma_round_up_least(a.start() + a.inside().allocated(), align, at);
    }
}

/// A locked mapping counts what lies before the end of a block as issued; refusing a request
/// and giving a block back change nothing. Memory is not touched.
pub proof fn locked_mapping_moves_past_its_blocks(
    a: LockedMmapBacked,
    layout: NonZeroLayout,
    m: Map<int, u8>,
    p: int,
    next: LockedMmapBacked,
)
    ensures
        a.after_issue(layout, next) ==> next.start() == a.start() && next.extent() == a.extent(),
        a.after_issue(layout, next) && a.outcome(layout) is Some ==> next.inside().allocated()
            == a.outcome(layout)->0.addr + a.outcome(layout)->0.len - a.start(),
        a.after_issue(layout, next) && a.outcome(layout) is None ==> next.inside().allocated()
            == a.inside().allocated(),
        a.after_return(m, p, next) ==> next.start() == a.start() && next.extent() == a.extent()
            && next.inside().allocated() == a.inside().allocated(),
        !a.resettable(),
        a.issued(m, layout) == m,
        a.freed(m, p) == m,
        a.verdict(m, p) is Sound,
        a.events() == 0,
        a.residue() is Kept,
        a.usable(p, layout) is None,
        a.budget() == Some(a.extent()),
{
}

/// A guarded mapping serves a request exactly where a place for it is left between the first
/// and the last page, and then at the first such place.
pub proof fn guarded_mapping_serves_what_fits<I: OsBacked>(
    a: GuardPage<I>,
    layout: NonZeroLayout,
    at: int,
)
    requires
        a.wf(),
        layout.valid(),
    ensures
        a.outcome(layout) matches Some(b) ==> {
            &&& b.len == layout.size()
            &&& b.addr as int % layout.align() as int == 0
            &&& a.guarded().os_base() + a.page_size() + a.allocated() <= b.addr
            &&& b.addr < a.guarded().os_base() + a.page_size() + a.allocated() + layout.align()
            &&& b.addr + layout.size()
                <= a.guarded().os_base() + a.page_size() + a.guarded().os_size() - 2 * a.page_size()
        },
        at % (layout.align() as int) == 0
            && a.guarded().os_base() + a.page_size() + a.allocated() <= at && at + layout.size()
            <= a.guarded().os_base() + a.page_size()
            + a.guarded().os_size() - 2 * a.page_size()
                && a.guarded().os_base() + a.page_size() + a.allocated() + layout.align()
                <= usize::MAX + 1
            ==> a.outcome(layout) is Some,
        a.guarded().os_base() + a.page_size() + a.allocated() + layout.align() > usize::MAX + 1
            ==> a.outcome(layout) is None,
{
    a.between_its_guards();
    let align = layout.align() as int;
    layout::lemma_largest_power(layout.align());
    bits::lemma_round_up(a.guarded().os_base() + a.page_size() + a.allocated(), align);
    if at % align == 0 && a.guarded().os_base() + a.page_size() + a.allocated() <= at {
        bits::lemma_round_up_least(
            a.guarded().os_base() + a.page_size() + a.allocated(),
            align,
            at,
        );
    }
}

/// A guarded mapping counts what lies before the end of a block as issued; refusing a request
/// and giving a block back change nothing. Memory is not touched.
pub proof fn guarded_mapping_moves_past_its_blocks<I: OsBacked>(
    a: GuardPage<I>,
    layout: NonZeroLayout,
    m: Map<int, u8>,
    p: int,
    next: GuardPage<I>,
)
    ensures
        a.after_issue(layout, next) ==> next.start() == a.start() && next.extent() == a.extent(),
        a.after_issue(layout, next) && a.outcome(layout) is Some ==> next.allocated()
            == a.outcome(layout)->0.addr + a.outcome(layout)->0.len - a.start(),
        a.after_issue(layout, next) && a.outcome(layout) is None ==> next.allocated()
            == a.allocated(),
        a.after_return(m, p, next) ==> next.start() == a.start() && next.extent() == a.extent()
            && next.allocated() == a.allocated(),
        !a.resettable(),
        a.issued(m, layout) == m,
        a.freed(m, p) == m,
        a.verdict(m, p) is Sound,
        a.events() == 0,
        a.residue() is Kept,
        a.usable(p, layout) is None,
        a.budget() == Some(a.extent()),
        a.after_issue(layout, next) || a.after_return(m, p, next) ==> next.guarded() == a.guarded()
            && next.page_size() == a.page_size(),
{
}

/// The C interface answers a request for `size` bytes aligned to `align` with the first
/// place that is left for it, exactly where there is one, the size is not zero, and size and
/// alignment make a layout; else with null.
pub proof fn c_requests_are_served_where_they_fit(h: &ForgeBump, size: usize, align: usize, at: int)
    requires
        h.arena().wf(),
    ensures
        ({
            let from = h.arena().start() + h.arena().allocated();
            let end = h.arena().start() + h.arena().capacity();
            let r = capi::address_or_null(capi::bump_outcome(h, size, align));
            &&& r != 0 ==> {
                &&& size > 0
                &&& is_pow2(align as int)
                &&& size + align - 1 <= isize::MAX
                &&& r as int % align as int == 0
                &&& from <= r < from + align
                &&& r + size <= end
            }
            &&& size > 0 && is_pow2(align as int) && size + align - 1 <= isize::MAX && at % (
            align as int) == 0 && from <= at && at + size <= end && from + align <= usize::MAX + 1
                ==> r != 0
            &&& from + align > usize::MAX + 1 ==> r == 0
        }),
{
    h.arena().serves_its_region();
    if size > 0 && layout::fits(size, align) {
        let l = NonZeroLayout::of(size as int, align as int);
        layout::lemma_layout_of(size as int, align as int);
        let from = h.arena().start() + h.arena().allocated();
        layout::lemma_largest_power(align);
        bits::lemma_round_up(from, align as int);
        if at % (align as int) == 0 && from <= at {
            bits::lemma_round_up_least(from, align as int, at);
        }
        assert(h.arena().inside().outcome(l) matches Some(b) ==> h.arena().outcome(l) is Some);
    }
}

/// A block of the C interface is never null, and no block stands for null.
pub proof fn null_stands_for_no_block(b: Block)
    ensures
        capi::address_or_null(Some(b)) == b.addr,
        capi::address_or_null(None) == 0,
{
}

} // verus!
