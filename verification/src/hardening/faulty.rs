//! `Faulty`: allocations made to fail on purpose, for tests.

use crate::alloc_fault_policy::{AllocFaultPolicy, AlwaysFail, NeverFail};
use crate::allocator::{Allocator, Block, Corruption, Deallocator, Grant, Residue, Verdict};
use crate::fixed_range::FixedRange;
use crate::layout::{AllocError, NonZeroLayout};
use crate::memory::Memory;
use vstd::prelude::*;

verus! {

/// Makes allocations fail as a policy says. A request that the policy fails never reaches
/// the wrapped allocator; giving blocks back never fails.
pub struct Faulty<I, P> {
    inner: I,
    policy: P,
}

impl<I, P> Faulty<I, P> {
    /// The wrapped allocator.
    pub closed spec fn inside(&self) -> I {
        self.inner
    }

    /// The policy.
    pub closed spec fn policy_spec(&self) -> P {
        self.policy
    }

    /// Wraps `inner` with `policy`.
    pub fn new(inner: I, policy: P) -> (r: Self)
        ensures
            r.inside() == inner,
            r.policy_spec() == policy,
    {
        Faulty { inner, policy }
    }

    /// The wrapped allocator.
    pub fn inner(&self) -> (r: &I)
        ensures
            *r == self.inside(),
    {
        &self.inner
    }

    /// The policy.
    pub fn policy(&self) -> (r: &P)
        ensures
            *r == self.policy_spec(),
    {
        &self.policy
    }

    /// Takes the wrapper apart.
    pub fn into_parts(self) -> (r: (I, P))
        ensures
            r.0 == self.inside(),
            r.1 == self.policy_spec(),
    {
        (self.inner, self.policy)
    }
}

impl<I: Allocator, P: AllocFaultPolicy> Deallocator for Faulty<I, P> {
    open spec fn wf(&self) -> bool {
        self.inside().wf()
    }

    open spec fn region(&self) -> Set<int> {
        self.inside().region()
    }

    open spec fn live(&self) -> Map<int, Grant> {
        self.inside().live()
    }

    open spec fn budget(&self) -> Option<usize> {
        self.inside().budget()
    }

    open spec fn events(&self) -> u64 {
        self.inside().events()
    }

    open spec fn residue(&self) -> Residue {
        self.inside().residue()
    }

    open spec fn verdict(&self, m: Map<int, u8>, p: int) -> Verdict {
        self.inside().verdict(m, p)
    }

    open spec fn freed(&self, m: Map<int, u8>, p: int) -> Map<int, u8> {
        self.inside().freed(m, p)
    }

    open spec fn after_return(&self, m: Map<int, u8>, p: int, next: Self) -> bool {
        &&& next.policy_spec() == self.policy_spec()
        &&& self.inside().after_return(m, p, next.inside())
    }

    proof fn live_blocks(&self) {
        self.inner.live_blocks();
    }

    proof fn bookkeeping_apart(&self, m1: Map<int, u8>, m2: Map<int, u8>, p: int) {
        self.inner.bookkeeping_apart(m1, m2, p);
    }

    fn deallocate<M: Memory>(&mut self, mem: &mut M, ptr: usize, layout: NonZeroLayout) -> (r:
        Result<(), Corruption>)
    {
        self.inner.deallocate(mem, ptr, layout)
    }
}

impl<I: Allocator, P: AllocFaultPolicy> Allocator for Faulty<I, P> {
    open spec fn outcome(&self, layout: NonZeroLayout) -> Option<Block> {
        if self.policy_spec().fails(layout) {
            None
        } else {
            self.inside().outcome(layout)
        }
    }

    open spec fn issued(&self, m: Map<int, u8>, layout: NonZeroLayout) -> Map<int, u8> {
        self.inside().issued(m, layout)
    }

    open spec fn usable(&self, p: int, layout: NonZeroLayout) -> Option<usize> {
        self.inside().usable(p, layout)
    }

    open spec fn resettable(&self) -> bool {
        self.inside().resettable()
    }

    open spec fn after_issue(&self, layout: NonZeroLayout, next: Self) -> bool {
        &&& self.policy_spec().after_request(layout, next.policy_spec())
        &&& if self.policy_spec().fails(layout) {
            next.inside() == self.inside()
        } else {
            self.inside().after_issue(layout, next.inside())
        }
    }

    open spec fn after_reset(&self, next: Self) -> bool {
        &&& next.policy_spec() == self.policy_spec()
        &&& self.inside().after_reset(next.inside())
    }

    fn allocate<M: Memory>(&mut self, mem: &mut M, layout: NonZeroLayout) -> (r: Result<
        Block,
        AllocError,
    >)
    {
        if self.policy.should_fail(layout) {
            return Err(AllocError);
        }
        self.inner.allocate(mem, layout)
    }

    fn reset(&mut self) -> (r: Result<(), AllocError>) {
        self.inner.reset()
    }

    fn usable_size(&self, ptr: usize, layout: NonZeroLayout) -> (r: Option<usize>) {
        self.inner.usable_size(ptr, layout)
    }

    fn capacity_bytes(&self) -> (r: Option<usize>) {
        self.inner.capacity_bytes()
    }

    fn corruption_events(&self) -> (r: u64) {
        self.inner.corruption_events()
    }
}

impl<I: FixedRange, P> FixedRange for Faulty<I, P> {
    open spec fn start(&self) -> usize {
        self.inside().start()
    }

    open spec fn extent(&self) -> usize {
        self.inside().extent()
    }

    open spec fn commits(&self, offset: int, len: int) -> bool {
        self.inside().commits(offset, len)
    }

    fn base(&self) -> (r: usize) {
        self.inner.base()
    }

    fn size(&self) -> (r: usize) {
        self.inner.size()
    }

    fn commit(&self, offset: usize, len: usize) -> (r: Result<(), AllocError>) {
        self.inner.commit(offset, len)
    }
}

/// A policy that never fails makes no difference, and one that always fails refuses
/// everything.
pub proof fn extreme_policies<I: Allocator>(
    clear: Faulty<I, NeverFail>,
    blocked: Faulty<I, AlwaysFail>,
    layout: NonZeroLayout,
)
    ensures
        clear.outcome(layout) == clear.inside().outcome(layout),
        blocked.outcome(layout) is None,
{
}

} // verus!
