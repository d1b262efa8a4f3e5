//! The checks of the testing module: what each of them reports.

use crate::allocator::{Allocator, Block, Grant};
use crate::fixed_range;
use crate::fixed_range::FixedRange;
use crate::layout::NonZeroLayout;
use crate::memory;
use crate::testing;
use crate::testing::{RangeReport, RoundTripReport, Violation};
use vstd::arithmetic::power2::*;
use vstd::prelude::*;

verus! {

/// A range is found fault with exactly where its start or its size changed, where its first
/// or last byte is not in it though it has one, or where it holds the address past its end;
/// the first of these is what is reported.
pub proof fn range_faults(report: RangeReport)
    ensures
        ({
            let moved = report.bases.0 != report.bases.1;
            let resized = report.sizes.0 != report.sizes.1;
            let some = report.sizes.0 != 0;
            let found = testing::range_violation(report);
            &&& found is None <==> !moved && !resized && (some ==> report.first && report.last)
                && !report.end
            &&& found == Some(Violation::BaseUnstable) <==> moved
            &&& found == Some(Violation::SizeUnstable) <==> !moved && resized
            &&& found == Some(Violation::FirstByteOutside) <==> !moved && !resized && some
                && !report.first
            &&& found == Some(Violation::LastByteOutside) <==> !moved && !resized && some
                && report.first && !report.last
            &&& found == Some(Violation::EndInside) <==> !moved && !resized && (some
                ==> report.first && report.last) && report.end
        }),
{
}

/// Blocks of 64 bytes aligned to 8 are found fault with exactly where the first is not
/// aligned or too short, where two of them share an address, or where bytes were lost or not
/// zero; the first of these is what is reported.
pub proof fn round_trip_faults(report: RoundTripReport, a: int)
    ensures
        ({
            let misaligned = report.first.addr % 8 != 0;
            let short = report.first.len < 64;
            let found = testing::round_trip_violation(report);
            &&& misaligned <==> found == Some(Violation::Misaligned)
            &&& !misaligned && short <==> found == Some(Violation::TooShort)
            &&& !misaligned && !short && report.second is Some && report.first.addr <= a
                < report.first.addr + 64 && report.second->0.addr <= a < report.second->0.addr + 64
                ==> found == Some(Violation::Overlap)
            &&& found == Some(Violation::Overlap) ==> !misaligned && !short && report.second is Some
                && exists|b: int|
                report.first.addr <= b < report.first.addr + 64 && #[trigger] shared(
                    report.second->0,
                    b,
                )
            &&& found == Some(Violation::BytesLost) ==> report.kept == Some(false)
            &&& found == Some(Violation::NotZero) ==> report.zeroed == Some(false) && report.kept
                != Some(false)
            &&& report.kept == Some(false) || report.zeroed == Some(false) ==> found is Some
            &&& found is None ==> report.kept != Some(false) && report.zeroed != Some(false)
            &&& found is Some && found != Some(Violation::Misaligned) && found != Some(
                Violation::TooShort,
            ) && found != Some(Violation::Overlap) ==> found == Some(Violation::BytesLost) || found
                == Some(Violation::NotZero)
        }),
{
    if testing::round_trip_violation(report) == Some(Violation::Overlap) {
        let second = report.second->0;
        let b: int = if report.first.addr >= second.addr {
            report.first.addr as int
        } else {
            second.addr as int
        };
        assert(report.first.addr <= b < report.first.addr + 64 && shared(second, b));
    }
}

/// Whether the first 64 bytes of a block hold an address.
pub open spec fn shared(b: Block, a: int) -> bool {
    b.addr <= a < b.addr + 64
}

/// An address is found fault with exactly where it is no multiple of the alignment.
pub proof fn alignment_faults(addr: usize, align: usize, k: int)
    requires
        align > 0,
    ensures
        addr == k * align ==> testing::alignment_violation(addr, align) is None,
        k * align < addr < (k + 1) * align ==> testing::alignment_violation(addr, align) == Some(
            Violation::Misaligned,
        ),
{
    let a = align as int;
    vstd::arithmetic::div_mod::lemma_fundamental_div_mod(addr as int, a);
    vstd::arithmetic::div_mod::lemma_mod_multiples_basic(k, a);
    if k * a < addr < (k + 1) * a && addr as int % a == 0 {
        let q = addr as int / a;
        assert(false) by (nonlinear_arith)
            requires
                k * a < a * q,
                a * q < (k + 1) * a,
                a > 0,
        ;
    }
}

/// The bytes written to a block differ from place to place.
pub proof fn stamps_tell_places_apart(i: u8, j: u8, n: nat, k: int)
    ensures
        testing::stamp(i as int) ^ 0xCC == i,
        i != j ==> testing::stamp(i as int) != testing::stamp(j as int),
        testing::stamps(n as int).len() == n,
        0 <= k < n ==> testing::stamps(n as int)[k] == testing::stamp(k),
{
    let s: u8 = 0xCCu8 ^ i;
    assert(s ^ 0xCC == i) by (bit_vector)
        requires
            s == 0xCCu8 ^ i,
    ;
    let t: u8 = 0xCCu8 ^ j;
    assert(i != j ==> s != t) by (bit_vector)
        requires
            s == 0xCCu8 ^ i,
            t == 0xCCu8 ^ j,
    ;
    assert((i as int) as u8 == i);
    assert((j as int) as u8 == j);
}

/// A block of an allocator with a range of at most a tebibyte is found fault with exactly
/// where it starts outside the range.
pub proof fn block_faults<R: FixedRange>(range: R, p: usize)
    requires
        range.start() + range.extent() <= usize::MAX + 1,
        range.extent() <= 0x100_0000_0000,
    ensures
        range.start() <= p < range.start() + range.extent() ==> testing::block_violation(range, p)
            is None,
        p < range.start() || range.start() + range.extent() <= p ==> testing::block_violation(
            range,
            p,
        ) == Some(Violation::OutsideRange),
{
    if usize::MAX > 0x100_0000_0000 {
        let reach = 0x100_0000_0000u64 as usize;
        assert(reach == 0x100_0000_0000);
        assert(testing::far_from(range.start()) == if range.start() + reach <= usize::MAX {
            (range.start() + reach) as usize
        } else {
            (range.start() + reach - usize::MAX - 1) as usize
        });
    }
}

/// A range that holds the address a tebibyte past its start is found fault with, unless that
/// address is null or the block lies outside the range already.
pub proof fn far_reaching_ranges_are_faulty<R: FixedRange>(range: R, p: usize, far: usize)
    requires
        usize::MAX > 0x100_0000_0000,
        far == (range.start() + 0x100_0000_0000) % (usize::MAX + 1),
    ensures
        fixed_range::in_range(range.start(), range.extent(), p) ==> {
            &&& far != 0 && fixed_range::in_range(range.start(), range.extent(), far)
                ==> testing::block_violation(range, p) == Some(Violation::FarInside)
            &&& far == 0 || !fixed_range::in_range(range.start(), range.extent(), far)
                ==> testing::block_violation(range, p) is None
        },
        !fixed_range::in_range(range.start(), range.extent(), p) ==> testing::block_violation(
            range,
            p,
        ) == Some(Violation::OutsideRange),
{
    let reach = 0x100_0000_0000u64 as usize;
    let top = usize::MAX + 1;
    let sum = range.start() + reach;
    assert(reach == 0x100_0000_0000);
    if sum < top {
        vstd::arithmetic::div_mod::lemma_small_mod(sum as nat, top as nat);
    } else {
        vstd::arithmetic::div_mod::lemma_mod_sub_multiples_vanish(sum, top);
        vstd::arithmetic::div_mod::lemma_small_mod((sum - top) as nat, top as nat);
    }
    assert(testing::far_from(range.start()) == far);
}

/// An allocator that is sure to keep to its range serves the next request from it.
pub proof fn kept_ranges_hold_the_next_block<A: Allocator + FixedRange>(
    a: A,
    layout: NonZeroLayout,
    c: A,
    m: Map<int, u8>,
    d: A,
)
    requires
        testing::keeps_to_its_range(a, layout),
    ensures
        a.outcome(layout) is Some,
        a.after_issue(layout, c) ==> fixed_range::in_range(
            c.start(),
            c.extent(),
            a.outcome(layout)->0.addr,
        ),
        a.after_issue(layout, c) && c.after_return(m, a.outcome(layout)->0.addr as int, d)
            ==> d.outcome(layout) is Some,
{
}

/// An allocator that is sure to serve three requests serves the first, the one after it, and
/// the one after that, and only such an allocator does.
pub proof fn three_requests_are_served<A: Allocator>(a: A, b: A, c: A, layout: NonZeroLayout)
    ensures
        testing::serves_three(a, layout) ==> a.outcome(layout) is Some,
        testing::serves_three(a, layout) && a.after_issue(layout, b) ==> b.outcome(layout) is Some,
        testing::serves_three(a, layout) && a.after_issue(layout, b) && b.after_issue(layout, c)
            ==> c.outcome(layout) is Some,
        a.outcome(layout) is Some && (forall|s: A, t: A|
            #![trigger a.after_issue(layout, s), s.after_issue(layout, t)]
            a.after_issue(layout, s) ==> s.outcome(layout) is Some && (s.after_issue(layout, t)
                ==> t.outcome(layout) is Some)) && (forall|s: A| #[trigger]
            a.after_issue(layout, s) ==> s.outcome(layout) is Some) ==> testing::serves_three(
            a,
            layout,
        ),
{
}

/// A run that holds three blocks at once issues three blocks that meet no block in use, in
/// that order, and gives them back in the same order.
pub proof fn held_blocks_are_given_back<A: Allocator>(
    run: Seq<(A, Map<int, u8>)>,
    layout: NonZeroLayout,
    q: int,
)
    requires
        testing::holds_three(run, layout),
        run.len() == 7,
    ensures
        ({
            let p0 = run[0].0.outcome(layout)->Some_0.addr as int;
            let p1 = run[1].0.outcome(layout)->Some_0.addr as int;
            let p2 = run[2].0.outcome(layout)->Some_0.addr as int;
            &&& run[0].0.outcome(layout) is Some
            &&& run[1].0.outcome(layout) is Some
            &&& run[2].0.outcome(layout) is Some
            &&& p0 % layout.align() as int == 0
            &&& p1 % layout.align() as int == 0
            &&& p2 % layout.align() as int == 0
            &&& run[0].0.outcome(layout)->Some_0.len >= layout.size()
            &&& run[1].0.outcome(layout)->Some_0.len >= layout.size()
            &&& run[2].0.outcome(layout)->Some_0.len >= layout.size()
            &&& run[0].0.live().contains_key(q) ==> p0 + run[0].0.outcome(layout)->Some_0.len <= q
                || q + run[0].0.live()[q].len <= p0
            &&& run[0].0.after_issue(layout, run[1].0)
            &&& run[1].0.after_issue(layout, run[2].0)
            &&& run[2].0.after_issue(layout, run[3].0)
            &&& run[3].0.after_return(run[3].1, p0, run[4].0)
            &&& run[4].0.after_return(run[4].1, p1, run[5].0)
            &&& run[5].0.after_return(run[5].1, p2, run[6].0)
            &&& run[1].1 == run[0].0.issued(run[0].1, layout)
            &&& run[2].1 == memory::overlay(
                run[1].0.issued(run[1].1, layout),
                p0,
                testing::stamps(64),
            )
            &&& run[3].1 == memory::overlay(
                run[2].0.issued(run[2].1, layout),
                p2,
                memory::repeated(0, 64),
            )
            &&& run[4].1 == run[3].0.freed(run[3].1, p0)
            &&& run[5].1 == run[4].0.freed(run[4].1, p1)
            &&& run[6].1 == run[5].0.freed(run[5].1, p2)
            &&& run[6].0.live() == run[3].0.live().remove(p0).remove(p1).remove(p2)
        }),
{
    assert(testing::holding_step(run, layout, 0));
    assert(testing::holding_step(run, layout, 1));
    assert(testing::holding_step(run, layout, 2));
    assert(testing::holding_step(run, layout, 3));
    assert(testing::holding_step(run, layout, 4));
    assert(testing::holding_step(run, layout, 5));
}

/// What is seen of a range that keeps its promises has no fault, whatever the range is.
pub proof fn kept_promises_have_no_fault<R: FixedRange>(range: &R, report: RangeReport)
    requires
        testing::observed(range, report),
    ensures
        report.bases == (range.start(), range.start()),
        report.sizes == (range.extent(), range.extent()),
        range.extent() > 0 ==> report.first && report.last,
        !report.end,
        testing::range_violation(report) is None,
{
}

/// A range is asked about the address just past its end, unless that is null.
pub proof fn ends_are_asked_about<R: FixedRange>(range: &R, report: RangeReport, past: usize)
    requires
        testing::observed(range, report),
        past == (range.start() + range.extent()) % (usize::MAX + 1),
    ensures
        past != 0 ==> call_ensures(R::contains, (range, past), report.end),
        past == 0 ==> !report.end,
        call_ensures(R::contains, (range, range.start()), report.first),
{
    let top = usize::MAX + 1;
    let sum = range.start() + range.extent();
    if sum < top {
        vstd::arithmetic::div_mod::lemma_small_mod(sum as nat, top as nat);
    } else {
        vstd::arithmetic::div_mod::lemma_mod_sub_multiples_vanish(sum, top);
        vstd::arithmetic::div_mod::lemma_small_mod((sum - top) as nat, top as nat);
    }
    assert(report.bases.0.wrapping_add(report.sizes.0) == past);
}

/// A run that has not begun holds nothing yet.
pub proof fn runs_begin_empty<A: Allocator>(
    run: Seq<(A, Map<int, u8>)>,
    layout: NonZeroLayout,
)
    ensures
        run.len() == 1 ==> testing::holds_three(run, layout),
        run.len() == 0 || run.len() > 7 ==> !testing::holds_three(run, layout),
{
}

/// Holding three blocks at once ends well exactly where six steps were made; where it does
/// not, a request was refused, and the allocator is as the refusal left it.
pub proof fn round_trips_end_well_or_are_refused<A: Allocator>(
    a: A,
    m: Map<int, u8>,
    layout: NonZeroLayout,
    b: A,
    n: Map<int, u8>,
    r: Result<(), Violation>,
)
    requires
        testing::round_trip(a, m, layout, b, n, r),
    ensures
        r is Ok ==> exists|run: Seq<(A, Map<int, u8>)>|
            {
                &&& #[trigger] testing::holds_three(run, layout)
                &&& run.len() == 7
                &&& run[0] == (a, m)
                &&& run[6] == (b, n)
            },
        r is Err ==> r == Err::<(), Violation>(Violation::Refused) && exists|
            run: Seq<(A, Map<int, u8>)>,
        |
            {
                &&& #[trigger] testing::holds_three(run, layout)
                &&& 1 <= run.len() <= 3
                &&& run[0] == (a, m)
                &&& run.last().0.outcome(layout) is None
                &&& run.last().0.after_issue(layout, b)
                &&& b.live() == run.last().0.live()
                &&& n == run.last().1
            },
{
}

/// The combined check is refused where the first request is, reports a block that does not
/// fit the range and leaves it in use, and else gives it back and holds three blocks at once.
pub proof fn combined_checks_go_in_order<A: Allocator + FixedRange>(
    a: A,
    m: Map<int, u8>,
    layout: NonZeroLayout,
    b: A,
    n: Map<int, u8>,
    r: Result<(), Violation>,
)
    requires
        testing::combined(a, m, layout, b, n, r),
    ensures
        a.outcome(layout) is None ==> {
            &&& r == Err::<(), Violation>(Violation::Refused)
            &&& a.after_issue(layout, b)
            &&& b.live() == a.live()
            &&& n == m
        },
        a.outcome(layout) is Some ==> {
            let p = a.outcome(layout)->0;
            let m1 = a.issued(m, layout);
            exists|c: A|
                {
                    &&& #[trigger] a.after_issue(layout, c)
                    &&& c.live() == a.live().insert(p.addr as int, Grant { layout, len: p.len })
                    &&& !fixed_range::in_range(c.start(), c.extent(), p.addr) ==> r == Err::<
                        (),
                        Violation,
                    >(Violation::OutsideRange)
                    &&& testing::block_violation(c, p.addr) is Some ==> r == Err::<(), Violation>(
                        testing::block_violation(c, p.addr)->0,
                    ) && b == c && n == m1
                    &&& testing::block_violation(c, p.addr) is None ==> exists|d: A|
                        {
                            &&& #[trigger] c.after_return(m1, p.addr as int, d)
                            &&& d.live() == a.live()
                            &&& testing::round_trip(
                                d,
                                c.freed(m1, p.addr as int),
                                layout,
                                b,
                                n,
                                r,
                            )
                        }
                }
        },
{
}

/// Probes go through the powers of two in turn, each from where the one before it ended.
pub proof fn probes_double_the_alignment<A: Allocator>(run: Seq<(A, Map<int, u8>)>, i: nat)
    ensures
        testing::probed_in_turn(run) && i + 1 < run.len() ==> testing::probed(
            run[i as int].0,
            run[i as int].1,
            NonZeroLayout::of(64, pow2(i) as int),
            run[i as int + 1].0,
            run[i as int + 1].1,
        ),
        run.len() <= 1 ==> testing::probed_in_turn(run),
{
    if testing::probed_in_turn(run) && i + 1 < run.len() {
        assert(run[i as int] == run[i as int]);
    }
}

/// Probing leaves an allocator that refuses as the refusal left it; a block is aligned as
/// asked and given back at once.
pub proof fn probes_give_back<A: Allocator>(
    a: A,
    m: Map<int, u8>,
    layout: NonZeroLayout,
    b: A,
    n: Map<int, u8>,
)
    requires
        testing::probed(a, m, layout, b, n),
    ensures
        a.outcome(layout) is None ==> a.after_issue(layout, b) && n == m,
        a.outcome(layout) is Some ==> {
            let p = a.outcome(layout)->0.addr as int;
            &&& p % layout.align() as int == 0
            &&& exists|c: A|
                {
                    &&& #[trigger] a.after_issue(layout, c)
                    &&& c.after_return(a.issued(m, layout), p, b)
                    &&& n == c.freed(a.issued(m, layout), p)
                }
        },
{
}

} // verus!
