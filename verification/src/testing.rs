//! Checks that a region or an allocator keeps its promises.
//!
//! Each check exercises what it is given and reports the first promise that is not kept.
//! For anything that meets the contracts of [`FixedRange`] and [`Allocator`] only a refused
//! request can be reported, or a pair of range and allocator that do not belong together.

use crate::allocator;
use crate::allocator::{Allocator, Block, Corruption, Grant};
use crate::fixed_range;
use crate::fixed_range::FixedRange;
use crate::layout::NonZeroLayout;
use crate::memory;
use crate::memory::Memory;
use vstd::arithmetic::power2::*;
use vstd::prelude::*;

verus! {

/// A promise that is not kept.
#[derive(Clone, Copy, Debug, PartialEq, Eq, Structural)]
pub enum Violation {
    /// The first address of a range changes.
    BaseUnstable,
    /// The size of a range changes.
    SizeUnstable,
    /// A range does not contain its first byte.
    FirstByteOutside,
    /// A range does not contain its last byte.
    LastByteOutside,
    /// A range contains the address just past its end.
    EndInside,
    /// A range contains an address far beyond its end.
    FarInside,
    /// A request was refused.
    Refused,
    /// A block is not aligned as asked.
    Misaligned,
    /// A block is shorter than asked.
    TooShort,
    /// Two blocks overlap.
    Overlap,
    /// A block does not hold what was written to it.
    BytesLost,
    /// A block that should be zero is not.
    NotZero,
    /// A block lies outside the range of its allocator.
    OutsideRange,
    /// A block could not be given back.
    Damaged(Corruption),
}

/// What was seen of a range.
#[derive(Clone, Copy, Debug)]
pub struct RangeReport {
    /// The first address, asked for twice.
    pub bases: (usize, usize),
    /// The size, asked for twice.
    pub sizes: (usize, usize),
    /// Whether the first byte is contained.
    pub first: bool,
    /// Whether the last byte is contained.
    pub last: bool,
    /// Whether the address just past the end is contained.
    pub end: bool,
}

/// The first promise that a range is seen not to keep.
pub open spec fn range_violation(report: RangeReport) -> Option<Violation> {
    if report.bases.0 != report.bases.1 {
        Some(Violation::BaseUnstable)
    } else if report.sizes.0 != report.sizes.1 {
        Some(Violation::SizeUnstable)
    } else if report.sizes.0 > 0 && !report.first {
        Some(Violation::FirstByteOutside)
    } else if report.sizes.0 > 0 && !report.last {
        Some(Violation::LastByteOutside)
    } else if report.end {
        Some(Violation::EndInside)
    } else {
        None
    }
}

/// Judges what was seen of a range.
pub fn judge_range(report: RangeReport) -> (r: Result<(), Violation>)
    ensures
        match range_violation(report) {
            Some(v) => r == Err::<(), Violation>(v),
            None => r is Ok,
        },
{
    if report.bases.0 != report.bases.1 {
        return Err(Violation::BaseUnstable);
    }
    if report.sizes.0 != report.sizes.1 {
        return Err(Violation::SizeUnstable);
    }
    if report.sizes.0 > 0 {
        if !report.first {
            return Err(Violation::FirstByteOutside);
        }
        if !report.last {
            return Err(Violation::LastByteOutside);
        }
    }
    if report.end {
        return Err(Violation::EndInside);
    }
    Ok(())
}

/// Whether `report` holds what a range answers: its first address and its size, each asked
/// for twice, and whether it contains its first byte, its last byte and the address just
/// past its end. Null is past the end of no range and is not asked about.
pub open spec fn observed<R: FixedRange>(range: &R, report: RangeReport) -> bool {
    let last = report.bases.0.wrapping_add(report.sizes.0.wrapping_sub(1));
    let past = report.bases.0.wrapping_add(report.sizes.0);
    &&& call_ensures(R::base, (range,), report.bases.0)
    &&& call_ensures(R::base, (range,), report.bases.1)
    &&& call_ensures(R::size, (range,), report.sizes.0)
    &&& call_ensures(R::size, (range,), report.sizes.1)
    &&& call_ensures(R::contains, (range, report.bases.0), report.first)
    &&& call_ensures(R::contains, (range, last), report.last)
    &&& if past == 0 {
        !report.end
    } else {
        call_ensures(R::contains, (range, past), report.end)
    }
}

/// Checks that a range is stable, contains its first and its last byte, and ends where it
/// says.
pub fn assert_fixed_range_invariants<R: FixedRange>(r: &R) -> (res: Result<(), Violation>)
    ensures
        res is Ok,
        exists|report: RangeReport|
            {
                &&& #[trigger] observed(r, report)
                &&& match range_violation(report) {
                    Some(v) => res == Err::<(), Violation>(v),
                    None => res is Ok,
                }
            },
{
    let b1: usize = r.base();
    let b2: usize = r.base();
    let s1: usize = r.size();
    let s2: usize = r.size();
    let past: usize = b1.wrapping_add(s1);
    let last: usize = b1.wrapping_add(s1.wrapping_sub(1));
    let report = RangeReport {
        bases: (b1, b2),
        sizes: (s1, s2),
        first: r.contains(b1),
        last: r.contains(last),
        end: past != 0 && r.contains(past),
    };
    assert(observed(r, report));
    judge_range(report)
}

/// The byte written at place `i` of a block.
pub open spec fn stamp(i: int) -> u8 {
    0xCCu8 ^ (i as u8)
}

/// The bytes written to a block.
pub open spec fn stamps(n: int) -> Seq<u8> {
    Seq::new(n as nat, |i: int| stamp(i))
}

/// Writes the stamps to 64 bytes from `addr` on.
fn write_stamps<M: Memory>(mem: &mut M, addr: usize)
    requires
        addr + 64 <= usize::MAX + 1,
        memory::accessible(old(mem).view(), addr as int, 64),
    ensures
        final(mem).view() == memory::overlay(old(mem).view(), addr as int, stamps(64)),
{
    let mut i: u8 = 0;
    assert(mem.view() =~= memory::overlay(old(mem).view(), addr as int, stamps(0)));
    while i < 64
        invariant
            i <= 64,
            addr + 64 <= usize::MAX + 1,
            memory::accessible(old(mem).view(), addr as int, 64),
            mem.view() == memory::overlay(old(mem).view(), addr as int, stamps(i as int)),
        decreases 64 - i,
    {
        mem.store(addr + i as usize, 0xCC ^ i);
        i = i + 1;
        assert(mem.view() =~= memory::overlay(old(mem).view(), addr as int, stamps(i as int)));
    }
}

/// Whether 64 bytes from `addr` on hold the stamps.
fn holds_stamps<M: Memory>(mem: &M, addr: usize) -> (r: bool)
    requires
        addr + 64 <= usize::MAX + 1,
        memory::accessible(mem.view(), addr as int, 64),
    ensures
        r <==> forall|i: int| 0 <= i < 64 ==> #[trigger] mem.view()[addr + i] == stamp(i),
{
    let mut i: u8 = 0;
    while i < 64
        invariant
            i <= 64,
            addr + 64 <= usize::MAX + 1,
            memory::accessible(mem.view(), addr as int, 64),
            forall|j: int| 0 <= j < i ==> #[trigger] mem.view()[addr + j] == stamp(j),
        decreases 64 - i,
    {
        if mem.load(addr + i as usize) != 0xCC ^ i {
            assert(mem.view()[addr + i as int] != stamp(i as int));
            return false;
        }
        i = i + 1;
    }
    true
}

/// Whether 64 bytes from `addr` on are zero.
fn holds_zeros<M: Memory>(mem: &M, addr: usize) -> (r: bool)
    requires
        addr + 64 <= usize::MAX + 1,
        memory::accessible(mem.view(), addr as int, 64),
    ensures
        r <==> forall|i: int| 0 <= i < 64 ==> #[trigger] mem.view()[addr + i] == 0,
{
    let mut i: usize = 0;
    while i < 64
        invariant
            i <= 64,
            addr + 64 <= usize::MAX + 1,
            memory::accessible(mem.view(), addr as int, 64),
            forall|j: int| 0 <= j < i ==> #[trigger] mem.view()[addr + j] == 0,
        decreases 64 - i,
    {
        if mem.load(addr + i) != 0 {
            assert(mem.view()[addr + i as int] != 0);
            return false;
        }
        i = i + 1;
    }
    true
}

/// The request used by the checks: 64 bytes with the given alignment.
fn probe_layout(align: usize) -> (r: NonZeroLayout)
    requires
        is_pow2(align as int),
        align <= 512,
    ensures
        r == NonZeroLayout::of(64, align as int),
        r.size() == 64,
        r.align() == align,
        r.valid(),
{
    NonZeroLayout::from_size_align(64, align).unwrap()
}

proof fn lemma_eight()
    ensures
        is_pow2(8),
{
    reveal_with_fuel(is_pow2, 4);
}

/// Whether three requests for `layout`, one after the other, are sure to be served.
pub open spec fn serves_three<A: Allocator>(a: A, layout: NonZeroLayout) -> bool {
    &&& a.outcome(layout) is Some
    &&& forall|b: A| #[trigger]
        a.after_issue(layout, b) ==> b.outcome(layout) is Some && forall|c: A| #[trigger]
            b.after_issue(layout, c) ==> c.outcome(layout) is Some
}

/// What was seen of the blocks held at once, as far as they have been looked at.
#[derive(Clone, Copy, Debug)]
pub struct RoundTripReport {
    /// The first block.
    pub first: Block,
    /// The second block.
    pub second: Option<Block>,
    /// Whether the first block held what was written to it.
    pub kept: Option<bool>,
    /// Whether the block that was asked for zeroed was zero.
    pub zeroed: Option<bool>,
}

/// The first promise that an allocator is seen not to keep, where each block was asked for
/// with 64 bytes and an alignment of 8.
pub open spec fn round_trip_violation(report: RoundTripReport) -> Option<Violation> {
    if report.first.addr % 8 != 0 {
        Some(Violation::Misaligned)
    } else if report.first.len < 64 {
        Some(Violation::TooShort)
    } else if report.second matches Some(b) && b.addr < report.first.addr + 64
        && report.first.addr < b.addr + 64 {
        Some(Violation::Overlap)
    } else if report.kept == Some(false) {
        Some(Violation::BytesLost)
    } else if report.zeroed == Some(false) {
        Some(Violation::NotZero)
    } else {
        None
    }
}

/// Judges what was seen of the blocks.
pub fn judge_round_trip(report: RoundTripReport) -> (r: Result<(), Violation>)
    ensures
        match round_trip_violation(report) {
            Some(v) => r == Err::<(), Violation>(v),
            None => r is Ok,
        },
{
    if report.first.addr % 8 != 0 {
        return Err(Violation::Misaligned);
    }
    if report.first.len < 64 {
        return Err(Violation::TooShort);
    }
    if let Some(b) = report.second {
        let p1: u128 = report.first.addr as u128;
        let p2: u128 = b.addr as u128;
        if !(p1 + 64 <= p2 || p2 + 64 <= p1) {
            return Err(Violation::Overlap);
        }
    }
    if let Some(false) = report.kept {
        return Err(Violation::BytesLost);
    }
    if let Some(false) = report.zeroed {
        return Err(Violation::NotZero);
    }
    Ok(())
}

/// What step `i` of holding three blocks at once comes to, where `run` lists the states of
/// the allocator and its memory: three blocks are issued, each aligned, long enough and
/// clear of the others, the first is stamped once the second is there, the third is cleared,
/// and the three are given back in turn.
pub open spec fn holding_step<A: Allocator>(
    run: Seq<(A, Map<int, u8>)>,
    layout: NonZeroLayout,
    i: int,
) -> bool {
    let (s, m) = run[i];
    let (t, n) = run[i + 1];
    if i < 3 {
        s.outcome(layout) matches Some(b) && {
            &&& allocator::serves(b.addr as int, Grant { layout, len: b.len })
            &&& allocator::clear_of(s.live(), b.addr as int, b.len as int)
            &&& s.after_issue(layout, t)
            &&& t.live() == s.live().insert(b.addr as int, Grant { layout, len: b.len })
            &&& n == if i == 0 {
                s.issued(m, layout)
            } else if i == 1 {
                memory::overlay(
                    s.issued(m, layout),
                    run[0].0.outcome(layout)->Some_0.addr as int,
                    stamps(64),
                )
            } else {
                memory::overlay(s.issued(m, layout), b.addr as int, memory::repeated(0, 64))
            }
        }
    } else {
        let p = run[i - 3].0.outcome(layout)->Some_0.addr as int;
        &&& s.after_return(m, p, t)
        &&& t.live() == s.live().remove(p)
        &&& n == s.freed(m, p)
    }
}

/// Whether `run` lists the states of an allocator and its memory while three blocks are
/// held at once and given back, or the first of these states.
pub open spec fn holds_three<A: Allocator>(
    run: Seq<(A, Map<int, u8>)>,
    layout: NonZeroLayout,
) -> bool {
    &&& 1 <= run.len() <= 7
    &&& forall|i: int| 0 <= i < run.len() - 1 ==> #[trigger] holding_step(run, layout, i)
}

/// Whether holding three blocks at once brings an allocator in state `a` over memory `m` to
/// state `b` over memory `n`. If one of the blocks is refused, that is the end of it.
pub open spec fn round_trip<A: Allocator>(
    a: A,
    m: Map<int, u8>,
    layout: NonZeroLayout,
    b: A,
    n: Map<int, u8>,
    r: Result<(), Violation>,
) -> bool {
    exists|run: Seq<(A, Map<int, u8>)>|
        {
            &&& #[trigger] holds_three(run, layout)
            &&& run.first() == (a, m)
            &&& match r {
                Ok(_) => run.len() == 7 && run.last() == (b, n),
                Err(v) => {
                    &&& v == Violation::Refused
                    &&& run.len() <= 3
                    &&& run.last().0.outcome(layout) is None
                    &&& run.last().0.after_issue(layout, b)
                    &&& b.live() == run.last().0.live()
                    &&& n == run.last().1
                },
            }
        }
}

proof fn lemma_one_more_step<A: Allocator>(
    run: Seq<(A, Map<int, u8>)>,
    layout: NonZeroLayout,
    next: (A, Map<int, u8>),
)
    requires
        holds_three(run, layout),
        run.len() <= 6,
        holding_step(run.push(next), layout, run.len() - 1),
    ensures
        holds_three(run.push(next), layout),
{
    assert forall|i: int| 0 <= i < run.push(next).len() - 1 implies #[trigger] holding_step(
        run.push(next),
        layout,
        i,
    ) by {
        if i < run.len() - 1 {
            assert(holding_step(run, layout, i));
        }
    }
}

/// Checks that blocks are aligned and long enough, do not overlap, hold what is written to
/// them, come zeroed where that is asked for, and can be given back.
pub fn assert_allocator_basic_round_trip<A: Allocator, M: Memory>(a: &mut A, mem: &mut M) -> (r:
    Result<(), Violation>)
    requires
        old(a).wf(),
        allocator::backed(old(a).region(), old(mem).view()),
    ensures
        final(a).wf(),
        final(a).region() == old(a).region(),
        allocator::same_elsewhere(old(a).region(), old(mem).view(), final(mem).view()),
        allocator::same_inside(old(a).live(), old(mem).view(), final(mem).view()),
        serves_three(*old(a), NonZeroLayout::of(64, 8)) ==> r is Ok,
        round_trip(
            *old(a),
            old(mem).view(),
            NonZeroLayout::of(64, 8),
            *final(a),
            final(mem).view(),
            r,
        ),
        r is Err ==> r->Err_0 == Violation::Refused,
        r is Ok ==> final(a).live() == old(a).live(),
        old(a).outcome(NonZeroLayout::of(64, 8)) is None ==> {
            &&& r is Err
            &&& final(a).live() == old(a).live()
            &&& final(mem).view() == old(mem).view()
        },
{
    proof {
        lemma_eight();
    }
    let layout = probe_layout(8);
    let ghost live0 = a.live();
    let ghost mut run = seq![(*a, mem.view())];
    assert(holds_three(run, layout));
    proof {
        a.live_blocks();
    }
    let p1 = match a.allocate(mem, layout) {
        Ok(b) => b,
        Err(_) => {
            return Err(Violation::Refused);
        },
    };
    let ghost live1 = a.live();
    let ghost q1 = p1.addr as int;
    proof {
        a.live_blocks();
        assert(a.live().contains_key(q1));
        assert(!live0.contains_key(q1));
        allocator::lemma_fewer_blocks(live0, live1);
        allocator::lemma_clear_bytes(live0, q1, p1.len as int);
        assert(holding_step(run.push((*a, mem.view())), layout, 0));
        lemma_one_more_step(run, layout, (*a, mem.view()));
        run = run.push((*a, mem.view()));
    }
    let mut report = RoundTripReport { first: p1, second: None, kept: None, zeroed: None };
    if let Err(v) = judge_round_trip(report) {
        return Err(v);
    }
    let p2 = match a.allocate(mem, layout) {
        Ok(b) => b,
        Err(_) => {
            return Err(Violation::Refused);
        },
    };
    let ghost live2 = a.live();
    let ghost q2 = p2.addr as int;
    proof {
        a.live_blocks();
        assert(a.live().contains_key(q1));
        assert(a.live().contains_key(q2));
        assert(!live1.contains_key(q2));
        allocator::lemma_fewer_blocks(live0, live2);
        allocator::lemma_in_block(live2, q1);
    }
    report.second = Some(p2);
    if let Err(v) = judge_round_trip(report) {
        return Err(v);
    }
    let ghost m2 = mem.view();
    write_stamps(mem, p1.addr);
    proof {
        allocator::lemma_overlay_inside(live2, m2, q1, stamps(64), q1);
        assert forall|q: int| #[trigger] live2.contains_key(q) implies a.verdict(mem.view(), q)
            == a.verdict(m2, q) by {
            a.bookkeeping_apart(m2, mem.view(), q);
        }
        assert forall|i: int| 0 <= i < 64 implies #[trigger] mem.view()[p1.addr + i] == stamp(i) by {
            assert(m2.contains_key(p1.addr + i));
        }
        assert(holding_step(run.push((*a, mem.view())), layout, 1));
        lemma_one_more_step(run, layout, (*a, mem.view()));
        run = run.push((*a, mem.view()));
    }
    report.kept = Some(holds_stamps(mem, p1.addr));
    if let Err(v) = judge_round_trip(report) {
        return Err(v);
    }
    assert(live2.contains_key(q1) && live2.contains_key(q2));
    let p3 = match a.allocate_zeroed(mem, layout) {
        Ok(b) => b,
        Err(_) => {
            return Err(Violation::Refused);
        },
    };
    let ghost live3 = a.live();
    let ghost q3 = p3.addr as int;
    proof {
        a.live_blocks();
        assert(a.live().contains_key(q1));
        assert(a.live().contains_key(q2));
        assert(a.live().contains_key(q3));
        assert(!live2.contains_key(q3));
        allocator::lemma_in_block(live3, q3);
        assert forall|i: int| 0 <= i < 64 implies #[trigger] mem.view()[p3.addr + i] == 0 by {
            assert(mem.view().contains_key(p3.addr + i));
        }
        assert(holding_step(run.push((*a, mem.view())), layout, 2));
        lemma_one_more_step(run, layout, (*a, mem.view()));
        run = run.push((*a, mem.view()));
    }
    report.zeroed = Some(holds_zeros(mem, p3.addr));
    if let Err(v) = judge_round_trip(report) {
        return Err(v);
    }
    proof {
        allocator::lemma_fewer_blocks(live0, live3.remove(q1));
        allocator::lemma_fewer_blocks(live0, live3.remove(q1).remove(q2));
        allocator::lemma_fewer_blocks(live0, live3.remove(q1).remove(q2).remove(q3));
        assert(live3.remove(q1).contains_key(q2));
        assert(live3.remove(q1).contains_key(q3));
        assert(live3.remove(q1).remove(q2).contains_key(q3));
        assert(live3.remove(q1).remove(q2).remove(q3) =~= live0);
    }
    if let Err(c) = a.deallocate(mem, p1.addr, layout) {
        return Err(Violation::Damaged(c));
    }
    proof {
        assert(holding_step(run.push((*a, mem.view())), layout, 3));
        lemma_one_more_step(run, layout, (*a, mem.view()));
        run = run.push((*a, mem.view()));
    }
    if let Err(c) = a.deallocate(mem, p2.addr, layout) {
        return Err(Violation::Damaged(c));
    }
    proof {
        assert(holding_step(run.push((*a, mem.view())), layout, 4));
        lemma_one_more_step(run, layout, (*a, mem.view()));
        run = run.push((*a, mem.view()));
    }
    if let Err(c) = a.deallocate(mem, p3.addr, layout) {
        return Err(Violation::Damaged(c));
    }
    proof {
        assert(holding_step(run.push((*a, mem.view())), layout, 5));
        lemma_one_more_step(run, layout, (*a, mem.view()));
        run = run.push((*a, mem.view()));
    }
    Ok(())
}

/// What is wrong with a block at `addr` that was asked for with the given alignment.
pub open spec fn alignment_violation(addr: usize, align: usize) -> Option<Violation> {
    if addr as int % align as int != 0 {
        Some(Violation::Misaligned)
    } else {
        None
    }
}

/// Judges where a block lies that was asked for with the given alignment.
pub fn judge_alignment(addr: usize, align: usize) -> (r: Result<(), Violation>)
    requires
        align > 0,
    ensures
        match alignment_violation(addr, align) {
            Some(v) => r == Err::<(), Violation>(v),
            None => r is Ok,
        },
{
    if addr % align != 0 {
        return Err(Violation::Misaligned);
    }
    Ok(())
}

/// Whether an allocator in state `a` over memory `m` is brought to state `b` over memory `n`
/// by one request, whose block is aligned as asked and given back at once if there is one.
pub open spec fn probed<A: Allocator>(
    a: A,
    m: Map<int, u8>,
    layout: NonZeroLayout,
    b: A,
    n: Map<int, u8>,
) -> bool {
    match a.outcome(layout) {
        Some(p) => {
            &&& alignment_violation(p.addr, layout.align()) is None
            &&& exists|c: A|
                {
                    &&& #[trigger] a.after_issue(layout, c)
                    &&& c.after_return(a.issued(m, layout), p.addr as int, b)
                    &&& n == c.freed(a.issued(m, layout), p.addr as int)
                }
        },
        None => a.after_issue(layout, b) && n == m,
    }
}

/// Whether `run` lists the states of an allocator and its memory before and after such
/// requests for 64 bytes, aligned to 1, 2, 4 and so on.
pub open spec fn probed_in_turn<A: Allocator>(run: Seq<(A, Map<int, u8>)>) -> bool {
    forall|i: int|
        #![trigger run[i]]
        0 <= i < run.len() - 1 ==> probed(
            run[i].0,
            run[i].1,
            NonZeroLayout::of(64, pow2(i as nat) as int),
            run[i + 1].0,
            run[i + 1].1,
        )
}

/// Checks that every block that is issued is aligned as asked, for each power of two from 1
/// to 512. A refused request is passed over, and a block is given back before the next
/// request.
pub fn assert_allocator_respects_alignment<A: Allocator, M: Memory>(a: &mut A, mem: &mut M) -> (r:
    Result<(), Violation>)
    requires
        old(a).wf(),
        allocator::backed(old(a).region(), old(mem).view()),
    ensures
        final(a).wf(),
        final(a).region() == old(a).region(),
        allocator::same_elsewhere(old(a).region(), old(mem).view(), final(mem).view()),
        allocator::same_inside(old(a).live(), old(mem).view(), final(mem).view()),
        r is Ok,
        final(a).live() == old(a).live(),
        exists|run: Seq<(A, Map<int, u8>)>|
            {
                &&& #[trigger] probed_in_turn(run)
                &&& run.len() == 11
                &&& run.first() == (*old(a), old(mem).view())
                &&& run.last() == (*final(a), final(mem).view())
            },
{
    let ghost live0 = a.live();
    let ghost mut run = seq![(*a, mem.view())];
    let mut align: usize = 1;
    let mut step: u32 = 0;
    proof {
        reveal(is_pow2);
        lemma2_to64();
    }
    while step <= 9
        invariant
            step <= 10,
            is_pow2(align as int),
            step < 10 ==> align <= 512,
            align == pow2(step as nat),
            probed_in_turn(run),
            run.len() == step + 1,
            run.first() == (*old(a), old(mem).view()),
            run.last() == (*a, mem.view()),
            a.wf(),
            a.region() == old(a).region(),
            allocator::backed(old(a).region(), old(mem).view()),
            live0 == old(a).live(),
            a.live() == live0,
            allocator::same_elsewhere(old(a).region(), old(mem).view(), mem.view()),
            allocator::same_inside(live0, old(mem).view(), mem.view()),
        decreases 10 - step,
    {
        let layout = probe_layout(align);
        let ghost before = *a;
        let ghost m0 = mem.view();
        proof {
            lemma_pow2_pos(step as nat);
            a.live_blocks();
        }
        match a.allocate(mem, layout) {
            Ok(p) => {
                proof {
                    a.live_blocks();
                    assert(a.live().contains_key(p.addr as int));
                    assert(!live0.contains_key(p.addr as int));
                    assert(a.live().remove(p.addr as int) =~= live0);
                }
                let ghost between = *a;
                if let Err(v) = judge_alignment(p.addr, align) {
                    return Err(v);
                }
                if let Err(c) = a.deallocate(mem, p.addr, layout) {
                    return Err(Violation::Damaged(c));
                }
                assert(before.after_issue(layout, between));
            },
            Err(_) => {},
        }
        proof {
            assert(probed(before, m0, layout, *a, mem.view()));
            run = run.push((*a, mem.view()));
            reveal(is_pow2);
            lemma2_to64();
            lemma_pow2_unfold((step + 1) as nat);
        }
        align = align * 2;
        step = step + 1;
    }
    Ok(())
}

/// Judges what was seen of a block of an allocator with a range: whether the range contains
/// the block, and whether it contains an address far beyond its end.
pub fn judge_block(inside: bool, far_inside: bool) -> (r: Result<(), Violation>)
    ensures
        r == (if !inside {
            Err::<(), Violation>(Violation::OutsideRange)
        } else if far_inside {
            Err(Violation::FarInside)
        } else {
            Ok(())
        }),
{
    if !inside {
        return Err(Violation::OutsideRange);
    }
    if far_inside {
        return Err(Violation::FarInside);
    }
    Ok(())
}

/// An address far beyond the end of a range that starts at `base`.
pub open spec fn far_from(base: usize) -> usize {
    base.wrapping_add(0x100_0000_0000u64 as usize)
}

/// What is wrong with a block at `p` that was issued by an allocator with the given range:
/// the range does not contain it, or contains an address far beyond its end.
pub open spec fn block_violation<R: FixedRange>(range: R, p: usize) -> Option<Violation> {
    let far = far_from(range.start());
    if !fixed_range::in_range(range.start(), range.extent(), p) {
        Some(Violation::OutsideRange)
    } else if usize::MAX > 0x100_0000_0000 && far != 0 && fixed_range::in_range(
        range.start(),
        range.extent(),
        far,
    ) {
        Some(Violation::FarInside)
    } else {
        None
    }
}

/// Whether an allocator is sure to issue its next block from its range, and three more after
/// that block has been given back.
pub open spec fn keeps_to_its_range<A: Allocator + FixedRange>(a: A, layout: NonZeroLayout) -> bool {
    match a.outcome(layout) {
        None => false,
        Some(b) => forall|c: A| #[trigger]
            a.after_issue(layout, c) ==> {
                &&& block_violation(c, b.addr) is None
                &&& forall|m: Map<int, u8>, d: A| #[trigger]
                    c.after_return(m, b.addr as int, d) ==> serves_three(d, layout)
            },
    }
}

/// What issuing a block, holding it against the range, giving it back and holding three
/// blocks at once comes to. A block that is refused, or that does not fit the range, is the
/// end of it.
pub open spec fn combined<A: Allocator + FixedRange>(
    a: A,
    m: Map<int, u8>,
    layout: NonZeroLayout,
    b: A,
    n: Map<int, u8>,
    r: Result<(), Violation>,
) -> bool {
    match a.outcome(layout) {
        None => {
            &&& r == Err::<(), Violation>(Violation::Refused)
            &&& a.after_issue(layout, b)
            &&& b.live() == a.live()
            &&& n == m
        },
        Some(p) => {
            let m1 = a.issued(m, layout);
            exists|c: A|
                {
                    &&& #[trigger] a.after_issue(layout, c)
                    &&& c.live() == a.live().insert(p.addr as int, Grant { layout, len: p.len })
                    &&& match block_violation(c, p.addr) {
                        Some(v) => r == Err::<(), Violation>(v) && b == c && n == m1,
                        None => exists|d: A|
                            {
                                &&& #[trigger] c.after_return(m1, p.addr as int, d)
                                &&& d.live() == a.live()
                                &&& round_trip(d, c.freed(m1, p.addr as int), layout, b, n, r)
                            },
                    }
                }
        },
    }
}

/// Checks that an allocator issues blocks from its range alone, and both as a range and as
/// an allocator keeps its promises.
pub fn assert_combined_invariants<A: Allocator + FixedRange, M: Memory>(a: &mut A, mem: &mut M) -> (r:
    Result<(), Violation>)
    requires
        old(a).wf(),
        allocator::backed(old(a).region(), old(mem).view()),
    ensures
        final(a).wf(),
        final(a).region() == old(a).region(),
        allocator::same_elsewhere(old(a).region(), old(mem).view(), final(mem).view()),
        allocator::same_inside(old(a).live(), old(mem).view(), final(mem).view()),
        r is Ok ==> final(a).live() == old(a).live(),
        combined(
            *old(a),
            old(mem).view(),
            NonZeroLayout::of(64, 8),
            *final(a),
            final(mem).view(),
            r,
        ),
        keeps_to_its_range(*old(a), NonZeroLayout::of(64, 8)) ==> r is Ok,
{
    if let Err(v) = assert_fixed_range_invariants(a) {
        return Err(v);
    }
    proof {
        lemma_eight();
    }
    let layout = probe_layout(8);
    let ghost live0 = a.live();
    proof {
        a.live_blocks();
    }
    let p = match a.allocate(mem, layout) {
        Ok(b) => b,
        Err(_) => {
            return Err(Violation::Refused);
        },
    };
    let ghost issuing = *a;
    proof {
        assert(old(a).after_issue(layout, issuing));
        a.live_blocks();
        assert(a.live().contains_key(p.addr as int));
        assert(!live0.contains_key(p.addr as int));
        assert(a.live().remove(p.addr as int) =~= live0);
    }
    let reach: u64 = 0x100_0000_0000;
    let far: usize = a.base().wrapping_add(reach as usize);
    let far_inside = usize::MAX as u64 > reach && far != 0 && a.contains(far);
    if let Err(v) = judge_block(a.contains(p.addr), far_inside) {
        return Err(v);
    }
    if let Err(c) = a.deallocate(mem, p.addr, layout) {
        return Err(Violation::Damaged(c));
    }
    assert(issuing.after_return(
        old(a).issued(old(mem).view(), layout),
        p.addr as int,
        *a,
    ));
    assert_allocator_basic_round_trip(a, mem)
}

} // verus!
