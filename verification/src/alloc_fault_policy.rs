//! When an allocation should be made to fail.

use crate::layout::NonZeroLayout;
use vstd::prelude::*;

verus! {

/// Decides, request by request, whether an allocation is made to fail.
pub trait AllocFaultPolicy: Sized {
    /// Whether the next request fails.
    spec fn fails(&self, layout: NonZeroLayout) -> bool;

    /// Whether `next` is what the policy becomes when it has been asked about a request.
    spec fn after_request(&self, layout: NonZeroLayout, next: Self) -> bool;

    /// Whether this request fails; the policy may count it.
    fn should_fail(&mut self, layout: NonZeroLayout) -> (r: bool)
        ensures
            r == old(self).fails(layout),
            old(self).after_request(layout, *final(self)),
    ;
}

/// Lets every request through.
#[derive(Clone, Copy, Debug)]
pub struct NeverFail;

impl Default for NeverFail {
    fn default() -> (r: Self)
        ensures
            r == NeverFail,
    {
        NeverFail
    }
}

impl AllocFaultPolicy for NeverFail {
    open spec fn fails(&self, layout: NonZeroLayout) -> bool {
        false
    }

    open spec fn after_request(&self, layout: NonZeroLayout, next: Self) -> bool {
        next == *self
    }

    fn should_fail(&mut self, layout: NonZeroLayout) -> (r: bool) {
        false
    }
}

/// Fails every request.
#[derive(Clone, Copy, Debug)]
pub struct AlwaysFail;

impl Default for AlwaysFail {
    fn default() -> (r: Self)
        ensures
            r == AlwaysFail,
    {
        AlwaysFail
    }
}

impl AllocFaultPolicy for AlwaysFail {
    open spec fn fails(&self, layout: NonZeroLayout) -> bool {
        true
    }

    open spec fn after_request(&self, layout: NonZeroLayout, next: Self) -> bool {
        next == *self
    }

    fn should_fail(&mut self, layout: NonZeroLayout) -> (r: bool) {
        true
    }
}

/// Lets a number of requests through and fails all that follow.
#[derive(Debug)]
pub struct FailAfter {
    successes_left: usize,
}

impl FailAfter {
    pub closed spec fn remaining_spec(&self) -> usize {
        self.successes_left
    }

    /// Lets the first `successes` requests through.
    pub fn new(successes: usize) -> (r: Self)
        ensures
            r.remaining() == successes,
    {
        FailAfter { successes_left: successes }
    }

    /// The requests that are still let through.
    #[verifier::when_used_as_spec(remaining_spec)]
    pub fn remaining(&self) -> (r: usize)
        ensures
            r == self.remaining(),
    {
        self.successes_left
    }
}

/// What is left of `n` successes after one request.
pub open spec fn one_fewer(n: usize) -> usize {
    if n > 0 {
        (n - 1) as usize
    } else {
        0
    }
}

impl AllocFaultPolicy for FailAfter {
    open spec fn fails(&self, layout: NonZeroLayout) -> bool {
        self.remaining() == 0
    }

    open spec fn after_request(&self, layout: NonZeroLayout, next: Self) -> bool {
        next.remaining() == one_fewer(self.remaining())
    }

    fn should_fail(&mut self, layout: NonZeroLayout) -> (r: bool)
        ensures
            final(self).remaining() == one_fewer(old(self).remaining()),
    {
        match self.successes_left.checked_sub(1) {
            Some(n) => {
                self.successes_left = n;
                false
            },
            None => true,
        }
    }
}

/// What is left of `n` successes after `k` requests.
pub open spec fn left_after(n: usize, k: nat) -> usize
    decreases k,
{
    if k == 0 {
        n
    } else {
        one_fewer(left_after(n, (k - 1) as nat))
    }
}

/// Of the requests made of a [`FailAfter`] with `n` successes, exactly the first `n` are
/// let through: once it fails, it fails for good.
pub proof fn fail_after_never_recovers(n: usize, k: nat)
    ensures
        left_after(n, k) == 0 <==> k >= n,
        left_after(n, k) == if k < n {
            n - k
        } else {
            0
        },
    decreases k,
{
    if k > 0 {
        fail_after_never_recovers(n, (k - 1) as nat);
    }
}

/// Fails every `period`-th request.
#[derive(Debug)]
pub struct FailEveryNth {
    period: usize,
    count: usize,
}

impl FailEveryNth {
    #[verifier::type_invariant]
    closed spec fn inv(&self) -> bool {
        self.period > 0
    }

    /// The requests between failures, the failing one counted.
    pub closed spec fn period(&self) -> usize {
        self.period
    }

    /// The requests made so far, counted round the machine word.
    pub closed spec fn count(&self) -> usize {
        self.count
    }

    /// Fails every `period`-th request.
    pub fn new(period: usize) -> (r: Self)
        requires
            period >= 1,
        ensures
            r.period() == period,
            r.count() == 0,
    {
        FailEveryNth { period, count: 0 }
    }
}

/// Whether the request that follows `count` others fails.
pub open spec fn at_period(period: usize, count: usize) -> bool {
    count as int % period as int == period - 1
}

impl AllocFaultPolicy for FailEveryNth {
    open spec fn fails(&self, layout: NonZeroLayout) -> bool {
        at_period(self.period(), self.count())
    }

    open spec fn after_request(&self, layout: NonZeroLayout, next: Self) -> bool {
        &&& next.period() == self.period()
        &&& next.count() == self.count().wrapping_add(1)
    }

    fn should_fail(&mut self, layout: NonZeroLayout) -> (r: bool)
        ensures
            final(self).period() == old(self).period(),
            final(self).count() == old(self).count().wrapping_add(1),
    {
        proof {
            use_type_invariant(&*self);
        }
        let prev: usize = self.count;
        self.count = prev.wrapping_add(1);
        prev % self.period == self.period - 1
    }
}

/// The requests that fail are the multiples of the period, counted from one; with a period
/// of one every request fails.
pub proof fn fail_every_nth_cadence(period: usize, count: usize)
    requires
        period >= 1,
    ensures
        at_period(period, count) <==> (count + 1) % (period as int) == 0,
        period == 1 ==> at_period(period, count),
{
    let p = period as int;
    let c = count as int;
    vstd::arithmetic::div_mod::lemma_add_mod_noop(c, 1, p);
    if p > 1 {
        vstd::arithmetic::div_mod::lemma_small_mod(1, p as nat);
        let r = c % p;
        if r + 1 < p {
            vstd::arithmetic::div_mod::lemma_small_mod((r + 1) as nat, p as nat);
        } else {
            vstd::arithmetic::div_mod::lemma_mod_self_0(p);
        }
    }
}

/// Fails every request of at least a given size.
#[derive(Clone, Copy, Debug)]
pub struct FailOnSize {
    /// The smallest size that fails.
    pub min_fail_bytes: usize,
}

impl FailOnSize {
    /// Fails every request of at least `min_fail_bytes` bytes.
    pub fn new(min_fail_bytes: usize) -> (r: Self)
        ensures
            r.min_fail_bytes == min_fail_bytes,
    {
        FailOnSize { min_fail_bytes }
    }
}

impl AllocFaultPolicy for FailOnSize {
    open spec fn fails(&self, layout: NonZeroLayout) -> bool {
        layout.size() >= self.min_fail_bytes
    }

    open spec fn after_request(&self, layout: NonZeroLayout, next: Self) -> bool {
        next == *self
    }

    fn should_fail(&mut self, layout: NonZeroLayout) -> (r: bool)
        ensures
            *final(self) == *old(self),
    {
        layout.size() >= self.min_fail_bytes
    }
}

} // verus!
