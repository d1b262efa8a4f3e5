//! Counters and fault policies over any number of requests.

use crate::alloc_fault_policy::{
    AllocFaultPolicy, AlwaysFail, FailAfter, FailEveryNth, FailOnSize, NeverFail,
};
use crate::allocator::{Allocator, Deallocator};
use crate::hardening::{Faulty, Statistics};
use crate::layout::NonZeroLayout;
use vstd::prelude::*;

verus! {

/// A request that is served adds one to the requests served and its size to the bytes in use,
/// counted round the machine word, and touches no other count but the peak. The peak rises to
/// the bytes in use where they exceed it, and never falls.
pub proof fn served_requests_are_counted<I: Allocator>(
    s: Statistics<I>,
    layout: NonZeroLayout,
    next: Statistics<I>,
)
    requires
        s.after_issue(layout, next),
        s.outcome(layout) is Some,
    ensures
        next.counts().allocations == (s.counts().allocations + 1) % (usize::MAX + 1),
        next.counts().bytes == (s.counts().bytes + layout.size()) % (usize::MAX + 1),
        next.counts().deallocations == s.counts().deallocations,
        next.counts().failures == s.counts().failures,
        next.counts().peak >= s.counts().peak,
        s.counts().bytes + layout.size() <= s.counts().peak ==> next.counts().peak
            == s.counts().peak,
        s.counts().peak < s.counts().bytes + layout.size() <= usize::MAX ==> next.counts().peak
            == s.counts().bytes + layout.size(),
        s.counts().bytes + layout.size() > usize::MAX ==> next.counts().peak == usize::MAX,
{
    lemma_round(s.counts().allocations as int + 1);
    lemma_round(s.counts().bytes + layout.size());
}

proof fn lemma_round(x: int)
    requires
        0 <= x <= 2 * usize::MAX,
    ensures
        x % (usize::MAX + 1) == if x <= usize::MAX {
            x
        } else {
            x - (usize::MAX + 1)
        },
{
    let top = usize::MAX + 1;
    if x < top {
        vstd::arithmetic::div_mod::lemma_small_mod(x as nat, top as nat);
    } else {
        vstd::arithmetic::div_mod::lemma_mod_sub_multiples_vanish(x, top);
        vstd::arithmetic::div_mod::lemma_small_mod((x - top) as nat, top as nat);
    }
}

/// A request that is refused adds one to the failures, counted round the machine word, and
/// touches no other count.
pub proof fn refused_requests_are_counted<I: Allocator>(
    s: Statistics<I>,
    layout: NonZeroLayout,
    next: Statistics<I>,
)
    requires
        s.after_issue(layout, next),
        s.outcome(layout) is None,
    ensures
        next.counts().failures == (s.counts().failures + 1) % (usize::MAX + 1),
        next.counts().allocations == s.counts().allocations,
        next.counts().deallocations == s.counts().deallocations,
        next.counts().bytes == s.counts().bytes,
        next.counts().peak == s.counts().peak,
{
    lemma_round(s.counts().failures as int + 1);
}

/// A block that is handed in adds one to the blocks given back and takes its size off the
/// bytes in use, counted round the machine word, and touches no other count.
pub proof fn returned_blocks_are_counted<I: Allocator>(
    s: Statistics<I>,
    m: Map<int, u8>,
    p: int,
    next: Statistics<I>,
)
    requires
        s.after_return(m, p, next),
    ensures
        next.counts().deallocations == (s.counts().deallocations + 1) % (usize::MAX + 1),
        s.counts().bytes == (next.counts().bytes + s.live()[p].layout.size()) % (usize::MAX + 1),
        next.counts().allocations == s.counts().allocations,
        next.counts().failures == s.counts().failures,
        next.counts().peak == s.counts().peak,
{
    lemma_round(s.counts().deallocations as int + 1);
    lemma_round(next.counts().bytes + s.live()[p].layout.size());
}

/// The damage count that is mirrored is the largest that was seen, as far as it fits: after a
/// request that of the wrapped allocator afterwards, before a block is handed in that of the
/// wrapped allocator before.
pub proof fn damage_is_mirrored<I: Allocator>(
    s: Statistics<I>,
    layout: NonZeroLayout,
    m: Map<int, u8>,
    p: int,
    next: Statistics<I>,
)
    ensures
        s.after_issue(layout, next) ==> {
            &&& next.counts().events >= s.counts().events
            &&& next.counts().events == s.counts().events || next.counts().events == next.events()
                || (next.events() > usize::MAX && next.counts().events == usize::MAX)
            &&& next.events() <= next.counts().events || next.counts().events == usize::MAX
        },
        s.after_return(m, p, next) ==> {
            &&& next.counts().events >= s.counts().events
            &&& next.counts().events == s.counts().events || next.counts().events == s.events() || (
            s.events() > usize::MAX && next.counts().events == usize::MAX)
            &&& s.events() <= next.counts().events || next.counts().events == usize::MAX
        },
        s.events() == s.inside().events(),
{
}

/// Counting changes nothing else: requests, memory and verdicts are those of the wrapped
/// allocator.
pub proof fn counting_is_transparent<I: Allocator>(
    s: Statistics<I>,
    layout: NonZeroLayout,
    m: Map<int, u8>,
    p: int,
    next: Statistics<I>,
)
    ensures
        s.outcome(layout) == s.inside().outcome(layout),
        s.issued(m, layout) == s.inside().issued(m, layout),
        s.freed(m, p) == s.inside().freed(m, p),
        s.verdict(m, p) == s.inside().verdict(m, p),
        s.residue() == s.inside().residue(),
        s.budget() == s.inside().budget(),
        s.region() == s.inside().region(),
        s.usable(p, layout) is None,
        !s.resettable(),
        s.after_issue(layout, next) ==> s.inside().after_issue(layout, next.inside()),
        s.after_return(m, p, next) ==> s.inside().after_return(m, p, next.inside()),
        s.after_issue(layout, next) ==> (next.exact() <==> s.exact()),
        s.after_return(m, p, next) && s.verdict(m, p) is Sound ==> (next.exact() <==> s.exact()),
{
}

/// Of the first `n` requests of a run, how many are refused.
pub open spec fn refusals<I: Allocator>(
    run: Seq<Statistics<I>>,
    asked: Seq<NonZeroLayout>,
    n: nat,
) -> nat
    decreases n,
{
    if n == 0 {
        0
    } else {
        let before = refusals(run, asked, (n - 1) as nat);
        if run[n - 1].outcome(asked[n - 1]) is None {
            before + 1
        } else {
            before
        }
    }
}

/// Over any run of requests, the failures rise by the number of requests that are refused,
/// and the requests served by the number of the others.
pub proof fn every_request_is_counted_once<I: Allocator>(
    run: Seq<Statistics<I>>,
    asked: Seq<NonZeroLayout>,
    n: nat,
)
    requires
        n < run.len(),
        n <= asked.len(),
        forall|i: int| 0 <= i < n ==> #[trigger] run[i].after_issue(asked[i], run[i + 1]),
    ensures
        refusals(run, asked, n) <= n,
        run[n as int].counts().failures == (run[0].counts().failures + refusals(run, asked, n)) % (
        usize::MAX + 1),
        run[n as int].counts().allocations == (run[0].counts().allocations + (n - refusals(
            run,
            asked,
            n,
        ))) % (usize::MAX + 1),
        run[n as int].counts().deallocations == run[0].counts().deallocations,
    decreases n,
{
    let top = usize::MAX + 1;
    if n == 0 {
        lemma_round(run[0].counts().failures as int);
        lemma_round(run[0].counts().allocations as int);
    } else {
        let k = (n - 1) as nat;
        every_request_is_counted_once(run, asked, k);
        let s = run[k as int];
        assert(s.after_issue(asked[k as int], run[k as int + 1]));
        let f = run[0].counts().failures + refusals(run, asked, k);
        let t = run[0].counts().allocations + (k - refusals(run, asked, k));
        vstd::arithmetic::div_mod::lemma_add_mod_noop(f, 1, top);
        vstd::arithmetic::div_mod::lemma_add_mod_noop(t, 1, top);
        lemma_round(1);
        if s.outcome(asked[k as int]) is None {
            refused_requests_are_counted(s, asked[k as int], run[k as int + 1]);
        } else {
            served_requests_are_counted(s, asked[k as int], run[k as int + 1]);
        }
    }
}

/// `n` refusals in a row, from counters at zero, count as `n` failures.
pub proof fn refusals_in_a_row_are_all_counted<I: Allocator>(
    run: Seq<Statistics<I>>,
    asked: Seq<NonZeroLayout>,
    n: nat,
)
    requires
        n < run.len(),
        n <= asked.len(),
        n <= usize::MAX,
        forall|i: int| 0 <= i < n ==> #[trigger] run[i].after_issue(asked[i], run[i + 1]),
        forall|i: int| 0 <= i < n ==> (#[trigger] run[i]).outcome(asked[i]) is None,
        run[0].counts().failures == 0,
    ensures
        run[n as int].counts().failures == n,
        run[n as int].counts().allocations == run[0].counts().allocations,
        run[n as int].counts().deallocations == run[0].counts().deallocations,
        run[n as int].counts().bytes == run[0].counts().bytes,
        run[n as int].counts().peak == run[0].counts().peak,
    decreases n,
{
    if n > 0 {
        let k = (n - 1) as nat;
        refusals_in_a_row_are_all_counted(run, asked, k);
        assert(run[k as int].after_issue(asked[k as int], run[k as int + 1]));
        assert(run[k as int].outcome(asked[k as int]) is None);
        refused_requests_are_counted(run[k as int], asked[k as int], run[k as int + 1]);
        lemma_round(n as int);
    }
}

/// A policy lets exactly as many requests through as it was made for, and then none, whatever
/// the requests are.
pub proof fn fail_after_counts_requests(run: Seq<FailAfter>, asked: Seq<NonZeroLayout>, k: nat)
    requires
        k < run.len(),
        k < asked.len(),
        forall|i: int| 0 <= i < k ==> #[trigger] run[i].after_request(asked[i], run[i + 1]),
    ensures
        run[k as int].fails(asked[k as int]) <==> k >= run[0].remaining(),
        k <= run[0].remaining() ==> run[k as int].remaining() == run[0].remaining() - k,
        k > run[0].remaining() ==> run[k as int].remaining() == 0,
    decreases k,
{
    if k > 0 {
        fail_after_counts_requests(run, asked, (k - 1) as nat);
        assert(run[k - 1].after_request(asked[k - 1], run[k - 1 + 1]));
    }
}

/// Of the requests that follow the making of a policy, those whose number, counted from one,
/// is a multiple of the period fail, and no others, whatever the requests are.
pub proof fn fail_every_nth_counts_requests(
    run: Seq<FailEveryNth>,
    asked: Seq<NonZeroLayout>,
    k: nat,
)
    requires
        k < run.len(),
        k < asked.len(),
        k <= usize::MAX,
        run[0].count() == 0,
        run[0].period() >= 1,
        forall|i: int| 0 <= i < k ==> #[trigger] run[i].after_request(asked[i], run[i + 1]),
    ensures
        run[k as int].fails(asked[k as int]) <==> (k as int + 1) % (run[0].period() as int) == 0,
        run[k as int].period() == run[0].period(),
        run[k as int].count() == k,
    decreases k,
{
    if k > 0 {
        fail_every_nth_counts_requests(run, asked, (k - 1) as nat);
        assert(run[k - 1].after_request(asked[k - 1], run[k - 1 + 1]));
    }
    crate::alloc_fault_policy::fail_every_nth_cadence(run[0].period(), k as usize);
}

/// Policies without a memory: one lets everything through, one nothing, and one exactly what
/// is smaller than its limit. None of them changes.
pub proof fn plain_policies(
    never: NeverFail,
    always: AlwaysFail,
    limit: FailOnSize,
    layout: NonZeroLayout,
    never2: NeverFail,
    always2: AlwaysFail,
    limit2: FailOnSize,
)
    ensures
        !never.fails(layout),
        always.fails(layout),
        layout.size() < limit.min_fail_bytes <==> !limit.fails(layout),
        never.after_request(layout, never2) ==> never2 == never,
        always.after_request(layout, always2) ==> always2 == always,
        limit.after_request(layout, limit2) ==> limit2.min_fail_bytes == limit.min_fail_bytes,
{
}

/// A request that the policy fails is refused and never reaches the wrapped allocator; any
/// other is answered by it. The policy is asked about every request, once, and about nothing
/// else.
pub proof fn policies_decide_requests<I: Allocator, P: AllocFaultPolicy>(
    f: Faulty<I, P>,
    layout: NonZeroLayout,
    m: Map<int, u8>,
    p: int,
    next: Faulty<I, P>,
)
    ensures
        f.policy_spec().fails(layout) ==> f.outcome(layout) is None,
        !f.policy_spec().fails(layout) ==> f.outcome(layout) == f.inside().outcome(layout),
        f.after_issue(layout, next) ==> f.policy_spec().after_request(layout, next.policy_spec()),
        f.after_issue(layout, next) && f.policy_spec().fails(layout) ==> next.inside()
            == f.inside(),
        f.after_issue(layout, next) && !f.policy_spec().fails(layout) ==> f.inside().after_issue(
            layout,
            next.inside(),
        ),
        f.after_return(m, p, next) ==> next.policy_spec() == f.policy_spec()
            && f.inside().after_return(m, p, next.inside()),
        f.after_reset(next) ==> next.policy_spec() == f.policy_spec() && f.inside().after_reset(
            next.inside(),
        ),
        f.resettable() == f.inside().resettable(),
        f.issued(m, layout) == f.inside().issued(m, layout),
        f.freed(m, p) == f.inside().freed(m, p),
        f.verdict(m, p) == f.inside().verdict(m, p),
        f.residue() == f.inside().residue(),
        f.budget() == f.inside().budget(),
        f.events() == f.inside().events(),
        f.live() == f.inside().live(),
        f.region() == f.inside().region(),
        f.usable(p, layout) == f.inside().usable(p, layout),
{
}

/// Behind a policy that lets `n` requests through, the first `n` requests are answered by the
/// wrapped allocator and all that follow are refused.
pub proof fn faults_begin_after_n_requests<I: Allocator>(
    run: Seq<Faulty<I, FailAfter>>,
    asked: Seq<NonZeroLayout>,
    k: nat,
)
    requires
        k < run.len(),
        k < asked.len(),
        forall|i: int| 0 <= i < k ==> #[trigger] run[i].after_issue(asked[i], run[i + 1]),
    ensures
        k >= run[0].policy_spec().remaining() ==> run[k as int].outcome(asked[k as int]) is None,
        k < run[0].policy_spec().remaining() ==> run[k as int].outcome(asked[k as int])
            == run[k as int].inside().outcome(asked[k as int]),
{
    let policies = run.map_values(|f: Faulty<I, FailAfter>| f.policy_spec());
    assert forall|i: int| 0 <= i < k implies #[trigger] policies[i].after_request(
        asked[i],
        policies[i + 1],
    ) by {
        assert(run[i].after_issue(asked[i], run[i + 1]));
    }
    fail_after_counts_requests(policies, asked, k);
}

} // verus!
