//! `NumaLocal`: memory tied to nodes of the machine.

use crate::allocator::{Allocator, Block, Corruption, Deallocator, Grant, Residue, Verdict};
use crate::fixed_range::FixedRange;
use crate::layout::{AllocError, NonZeroLayout};
use crate::memory::Memory;
use crate::os::{mmap_record_os_error, OsCall, OsErrorSlot, Target};
use crate::os_backed::{OsBacked, ProtectFlags};
use vstd::prelude::*;

verus! {

/// A set of memory nodes, numbered from 0 to 63.
#[derive(Clone, Copy, Debug, PartialEq, Eq, Structural)]
pub struct NodeSet {
    mask: u64,
}

/// Whether bit `node` of a mask is set.
pub open spec fn bit_set(mask: u64, node: u32) -> bool {
    (mask >> node) & 1 == 1
}

impl NodeSet {
    pub closed spec fn mask_spec(&self) -> u64 {
        self.mask
    }

    /// Whether a node is in the set.
    pub open spec fn has(&self, node: u32) -> bool {
        node < 64 && bit_set(self.mask(), node)
    }

    /// No node.
    pub fn empty() -> (r: Self)
        ensures
            r.mask() == 0,
            forall|n: u32| !r.has(n),
    {
        proof {
            assert forall|n: u32| n < 64 implies !#[trigger] bit_set(0, n) by {
                assert((0u64 >> n) & 1 == 0) by (bit_vector);
            }
        }
        NodeSet { mask: 0 }
    }

    /// One node, or `None` if there is no such node.
    pub fn single(node: u32) -> (r: Option<Self>)
        ensures
            r is Some <==> node < 64,
            r matches Some(s) ==> s.mask() == 1u64 << node && s.mask() != 0 && forall|n: u32|
                s.has(n) <==> n == node,
    {
        if node >= 64 {
            return None;
        }
        proof {
            lemma_add_bit(0, node);
            assert forall|n: u32| n < 64 implies !#[trigger] bit_set(0, n) by {
                assert((0u64 >> n) & 1 == 0) by (bit_vector);
            }
            assert(0u64 | (1u64 << node) == 1u64 << node) by (bit_vector);
        }
        Some(NodeSet { mask: 1u64 << node })
    }

    /// The set with a node added, or `None` if there is no such node.
    pub fn with(self, node: u32) -> (r: Option<Self>)
        ensures
            r is Some <==> node < 64,
            r matches Some(s) ==> s.mask() == self.mask() | (1u64 << node) && s.mask() != 0
                && forall|n: u32| s.has(n) <==> self.has(n) || n == node,
    {
        if node >= 64 {
            return None;
        }
        proof {
            lemma_add_bit(self.mask, node);
        }
        Some(NodeSet { mask: self.mask | (1u64 << node) })
    }

    /// The set as a bit mask.
    #[verifier::when_used_as_spec(mask_spec)]
    pub fn mask(&self) -> (r: u64)
        ensures
            r == self.mask(),
    {
        self.mask
    }

    /// Whether no node is in the set.
    pub fn is_empty(&self) -> (r: bool)
        ensures
            r == (self.mask() == 0),
            r <==> forall|n: u32| !self.has(n),
    {
        proof {
            lemma_some_bit(self.mask);
            if self.mask != 0 {
                let n = choose|n: u32| n < 64 && #[trigger] bit_set(self.mask, n);
                assert(self.has(n));
            }
        }
        self.mask == 0
    }

    /// One more than the largest node in the set, or zero for the empty set.
    pub fn max_node_plus_one(&self) -> (r: u32)
        ensures
            r <= 64,
            r == 0 <==> self.mask() == 0,
            r > 0 ==> self.has((r - 1) as u32),
            forall|n: u32| self.has(n) ==> n < r,
    {
        if self.mask == 0 {
            proof {
                lemma_some_bit(self.mask);
            }
            0
        } else {
            let zeros: u32 = self.mask.leading_zeros();
            proof {
                lemma_top_bit(self.mask);
            }
            64 - zeros
        }
    }

    /// The width of the mask that is handed to the system.
    pub fn mbind_maxnode(&self) -> (r: u32)
        ensures
            r == 64,
    {
        64
    }
}

proof fn lemma_add_bit(mask: u64, node: u32)
    requires
        node < 64,
    ensures
        forall|n: u32|
            n < 64 ==> (#[trigger] bit_set(mask | (1u64 << node), n) <==> bit_set(mask, n) || n
                == node),
        mask | (1u64 << node) != 0,
{
    assert forall|n: u32| n < 64 implies (#[trigger] bit_set(mask | (1u64 << node), n) <==> bit_set(
        mask,
        n,
    ) || n == node) by {
        assert(((mask | (1u64 << node)) >> n) & 1 == 1 <==> (mask >> n) & 1 == 1 || n == node)
            by (bit_vector)
            requires
                node < 64,
                n < 64,
        ;
    }
    assert(mask | (1u64 << node) != 0) by (bit_vector)
        requires
            node < 64,
    ;
}

proof fn lemma_top_bit(mask: u64)
    requires
        mask != 0,
    ensures
        vstd::std_specs::bits::u64_leading_zeros(mask) < 64,
        bit_set(mask, (63 - vstd::std_specs::bits::u64_leading_zeros(mask)) as u32),
        forall|n: u32|
            63 - vstd::std_specs::bits::u64_leading_zeros(mask) < n < 64 ==> !#[trigger] bit_set(
                mask,
                n,
            ),
{
    vstd::std_specs::bits::axiom_u64_leading_zeros(mask);
    let z = vstd::std_specs::bits::u64_leading_zeros(mask) as u32;
    let t: u32 = (63 - z) as u32;
    let s: u64 = (63 - z) as u64;
    assert((mask >> t) & 1 == (mask >> s) & 1) by (bit_vector)
        requires
            t as u64 == s,
    ;
    assert((mask >> s) & 1 == 0 || (mask >> s) & 1 == 1) by (bit_vector);
}

proof fn lemma_some_bit(mask: u64)
    ensures
        mask == 0 <==> forall|n: u32| n < 64 ==> !#[trigger] bit_set(mask, n),
{
    if mask == 0 {
        assert forall|n: u32| n < 64 implies !#[trigger] bit_set(mask, n) by {
            assert((0u64 >> n) & 1 == 0) by (bit_vector);
        }
    } else {
        lemma_top_bit(mask);
    }
}

/// How a region is tied to nodes.
#[derive(Clone, Copy, Debug, PartialEq, Eq, Structural)]
pub enum NumaPolicy {
    /// Only these nodes.
    Bind(NodeSet),
    /// This node, or another where it has no room.
    Preferred(u32),
    /// These nodes in turn.
    Interleaved(NodeSet),
}

/// The mode for a preferred node.
pub const MPOL_PREFERRED: i32 = 1;

/// The mode for bound nodes.
pub const MPOL_BIND: i32 = 2;

/// The mode for interleaved nodes.
pub const MPOL_INTERLEAVE: i32 = 3;

/// Whether a policy names a node that there can be.
pub open spec fn names_nodes(policy: NumaPolicy) -> bool {
    match policy {
        NumaPolicy::Bind(s) => s.mask() != 0,
        NumaPolicy::Interleaved(s) => s.mask() != 0,
        NumaPolicy::Preferred(n) => n < 64,
    }
}

/// The mode and the mask for a policy.
pub open spec fn bind_mode(policy: NumaPolicy) -> (i32, u64) {
    match policy {
        NumaPolicy::Bind(s) => (MPOL_BIND, s.mask()),
        NumaPolicy::Interleaved(s) => (MPOL_INTERLEAVE, s.mask()),
        NumaPolicy::Preferred(n) => (MPOL_PREFERRED, 1u64 << n),
    }
}

/// The mode, the mask and the mask's width for a policy, or an error if it names no node.
pub fn mbind_args(policy: &NumaPolicy) -> (r: Result<(i32, u64, u32), AllocError>)
    ensures
        r is Ok <==> names_nodes(*policy),
        r matches Ok(args) ==> (args.0, args.1) == bind_mode(*policy) && args.1 != 0 && args.2 == 64,
{
    match policy {
        NumaPolicy::Bind(s) => if s.is_empty() {
            Err(AllocError)
        } else {
            Ok((MPOL_BIND, s.mask(), s.mbind_maxnode()))
        },
        NumaPolicy::Interleaved(s) => if s.is_empty() {
            Err(AllocError)
        } else {
            Ok((MPOL_INTERLEAVE, s.mask(), s.mbind_maxnode()))
        },
        NumaPolicy::Preferred(n) => match NodeSet::single(*n) {
            Some(s) => Ok((MPOL_PREFERRED, s.mask(), s.mbind_maxnode())),
            None => Err(AllocError),
        },
    }
}

/// The node that the calling thread runs on, given what the system reports: a return code,
/// and the node if the code is zero. Only Linux reports it.
pub fn current_numa_node(target: Target, code: i64, node: u32) -> (r: Option<u32>)
    ensures
        r == if target == Target::Linux && code == 0 {
            Some(node)
        } else {
            None
        },
{
    if target != Target::Linux || code != 0 {
        None
    } else {
        Some(node)
    }
}

/// Ties the region of an allocator to memory nodes.
pub struct NumaLocal<I> {
    inner: I,
    policy: NumaPolicy,
}

impl<I> NumaLocal<I> {
    /// The wrapped allocator.
    pub closed spec fn inside(&self) -> I {
        self.inner
    }

    /// The policy.
    pub closed spec fn policy_spec(&self) -> NumaPolicy {
        self.policy
    }

    /// The wrapped allocator.
    pub fn inner(&self) -> (r: &I)
        ensures
            *r == self.inside(),
    {
        &self.inner
    }

    /// The policy.
    pub fn policy(&self) -> (r: &NumaPolicy)
        ensures
            *r == self.policy_spec(),
    {
        &self.policy
    }
}

impl<I: OsBacked> NumaLocal<I> {
    /// The call that ties the region of `inner` to nodes: none outside Linux, and none for
    /// a policy that names no node.
    pub fn bind_request(inner: &I, policy: &NumaPolicy, target: Target) -> (r: Option<OsCall>)
        requires
            inner.wf(),
        ensures
            r == (if names_nodes(*policy) && target == Target::Linux {
                Some(
                    OsCall::Bind {
                        addr: inner.os_base(),
                        len: inner.os_size(),
                        mode: bind_mode(*policy).0,
                        mask: bind_mode(*policy).1,
                        maxnode: 64,
                    },
                )
            } else {
                None
            }),
    {
        match mbind_args(policy) {
            Ok((mode, mask, maxnode)) => if target == Target::Linux {
                Some(
                    OsCall::Bind {
                        addr: inner.base_ptr(),
                        len: inner.region_size(),
                        mode,
                        mask,
                        maxnode,
                    },
                )
            } else {
                None
            },
            Err(_) => None,
        }
    }

    /// What the answer to the call of [`Self::bind_request`] comes to. Outside Linux there
    /// is no call, and the answer is not looked at.
    fn apply_policy(target: Target, reply: Result<(), i32>, slot: &mut OsErrorSlot) -> (r: Result<
        (),
        AllocError,
    >)
        ensures
            r is Err <==> target == Target::Linux && reply is Err,
            r is Err ==> final(slot).code == Some(reply->Err_0),
            r is Ok ==> *final(slot) == *old(slot),
    {
        if target != Target::Linux {
            return Ok(());
        }
        match reply {
            Ok(_) => Ok(()),
            Err(code) => {
                mmap_record_os_error(slot, Some(code));
                Err(AllocError)
            },
        }
    }

    /// Ties the region of `inner` to nodes. `reply` is the answer to the call of
    /// [`Self::bind_request`].
    pub fn new(
        inner: I,
        policy: NumaPolicy,
        target: Target,
        reply: Result<(), i32>,
        slot: &mut OsErrorSlot,
    ) -> (r: Result<Self, AllocError>)
        requires
            inner.wf(),
        ensures
            r is Ok <==> names_nodes(policy) && (target == Target::Linux ==> reply is Ok),
            r matches Ok(n) ==> n.wf() && n.inside() == inner && n.policy_spec() == policy,
            names_nodes(policy) && target == Target::Linux && reply is Err ==> final(slot).code
                == Some(reply->Err_0),
            !(names_nodes(policy) && target == Target::Linux && reply is Err) ==> *final(slot)
                == *old(slot),
    {
        if mbind_args(&policy).is_err() {
            return Err(AllocError);
        }
        match Self::apply_policy(target, reply, slot) {
            Ok(_) => Ok(NumaLocal { inner, policy }),
            Err(e) => Err(e),
        }
    }
}

impl<I: OsBacked> Deallocator for NumaLocal<I> {
    open spec fn wf(&self) -> bool {
        self.inside().wf()
    }

    open spec fn region(&self) -> Set<int> {
        self.inside().region()
    }

    open spec fn live(&self) -> Map<int, Grant> {
        self.inside().live()
    }

    open spec fn budget(&self) -> Option<usize> {
        self.inside().budget()
    }

    open spec fn events(&self) -> u64 {
        self.inside().events()
    }

    open spec fn residue(&self) -> Residue {
        self.inside().residue()
    }

    open spec fn verdict(&self, m: Map<int, u8>, p: int) -> Verdict {
        self.inside().verdict(m, p)
    }

    open spec fn freed(&self, m: Map<int, u8>, p: int) -> Map<int, u8> {
        self.inside().freed(m, p)
    }

    open spec fn after_return(&self, m: Map<int, u8>, p: int, next: Self) -> bool {
        &&& next.policy_spec() == self.policy_spec()
        &&& self.inside().after_return(m, p, next.inside())
    }

    proof fn live_blocks(&self) {
        self.inner.live_blocks();
    }

    proof fn bookkeeping_apart(&self, m1: Map<int, u8>, m2: Map<int, u8>, p: int) {
        self.inner.bookkeeping_apart(m1, m2, p);
    }

    fn deallocate<M: Memory>(&mut self, mem: &mut M, ptr: usize, layout: NonZeroLayout) -> (r:
        Result<(), Corruption>)
    {
        self.inner.deallocate(mem, ptr, layout)
    }
}

impl<I: OsBacked> Allocator for NumaLocal<I> {
    open spec fn outcome(&self, layout: NonZeroLayout) -> Option<Block> {
        self.inside().outcome(layout)
    }

    open spec fn issued(&self, m: Map<int, u8>, layout: NonZeroLayout) -> Map<int, u8> {
        self.inside().issued(m, layout)
    }

    open spec fn usable(&self, p: int, layout: NonZeroLayout) -> Option<usize> {
        None
    }

    open spec fn resettable(&self) -> bool {
        false
    }

    open spec fn after_issue(&self, layout: NonZeroLayout, next: Self) -> bool {
        &&& next.policy_spec() == self.policy_spec()
        &&& self.inside().after_issue(layout, next.inside())
    }

    open spec fn after_reset(&self, next: Self) -> bool {
        false
    }

    fn allocate<M: Memory>(&mut self, mem: &mut M, layout: NonZeroLayout) -> (r: Result<
        Block,
        AllocError,
    >)
    {
        self.inner.allocate(mem, layout)
    }

    fn reset(&mut self) -> (r: Result<(), AllocError>) {
        Err(AllocError)
    }

    fn usable_size(&self, ptr: usize, layout: NonZeroLayout) -> (r: Option<usize>) {
        None
    }

    fn capacity_bytes(&self) -> (r: Option<usize>) {
        self.inner.capacity_bytes()
    }

    fn corruption_events(&self) -> (r: u64) {
        self.inner.corruption_events()
    }
}

impl<I: OsBacked> OsBacked for NumaLocal<I> {
    open spec fn os_base(&self) -> usize {
        self.inside().os_base()
    }

    open spec fn os_size(&self) -> usize {
        self.inside().os_size()
    }

    open spec fn release_call(&self, addr: usize, size: usize) -> Option<OsCall> {
        self.inside().release_call(addr, size)
    }

    open spec fn protect_call(&self, addr: usize, size: usize, flags: ProtectFlags) -> OsCall {
        self.inside().protect_call(addr, size, flags)
    }

    proof fn mapping_bounds(&self) {
        self.inner.mapping_bounds();
    }

    fn base_ptr(&self) -> (r: usize) {
        self.inner.base_ptr()
    }

    fn region_size(&self) -> (r: usize) {
        self.inner.region_size()
    }

    fn release_pages(&self, addr: usize, size: usize) -> (r: Option<OsCall>) {
        self.inner.release_pages(addr, size)
    }

    fn protect(&self, addr: usize, size: usize, flags: ProtectFlags) -> (r: OsCall) {
        self.inner.protect(addr, size, flags)
    }
}

impl<I: FixedRange> FixedRange for NumaLocal<I> {
    open spec fn start(&self) -> usize {
        self.inside().start()
    }

    open spec fn extent(&self) -> usize {
        self.inside().extent()
    }

    open spec fn commits(&self, offset: int, len: int) -> bool {
        self.inside().commits(offset, len)
    }

    fn base(&self) -> (r: usize) {
        self.inner.base()
    }

    fn size(&self) -> (r: usize) {
        self.inner.size()
    }

    fn commit(&self, offset: usize, len: usize) -> (r: Result<(), AllocError>) {
        self.inner.commit(offset, len)
    }
}

} // verus!
