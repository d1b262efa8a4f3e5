//! `Canary`: guard words around every block, checked when it is given back.

use crate::allocator;
use crate::allocator::{Allocator, Block, Corruption, Deallocator, Grant, Residue, Verdict};
use crate::bits;
use crate::fixed_range::FixedRange;
use crate::layout;
use crate::layout::{AllocError, NonZeroLayout};
use crate::memory;
use crate::memory::{load_word, store_word, Memory};
use crate::outside::{ct_eq_u64, fresh_random_state, random_hash};
use vstd::arithmetic::power2::*;
use vstd::prelude::*;

verus! {

/// What a zero seed is replaced with: zero is what fresh memory holds, and would make a
/// weak guard.
pub const ZERO_SEED_CANARY: u64 = 0xCAFE_BABE_DEAD_BEEF;

/// The bytes kept in front of a block of the given alignment.
pub open spec fn front(align: int) -> int {
    if align < 8 {
        8
    } else {
        align
    }
}

/// The request that is made of the wrapped allocator for `layout`.
pub open spec fn guarded(layout: NonZeroLayout) -> NonZeroLayout {
    NonZeroLayout::of(
        front(layout.align() as int) + layout.size() + 8,
        front(layout.align() as int),
    )
}

/// Whether the request for `layout` still makes a layout with the guard words added.
pub open spec fn guardable(layout: NonZeroLayout) -> bool {
    front(layout.align() as int) + layout.size() + 8 <= isize::MAX - (front(layout.align() as int)
        - 1)
}

/// `m` with both guard words of a block of `size` bytes at `p` set to `v`.
pub open spec fn with_guards(m: Map<int, u8>, p: int, size: int, v: u64) -> Map<int, u8> {
    memory::put_word(memory::put_word(m, p - 8, v), p + size, v)
}

/// Puts a secret word in front of and behind every block, and checks both when the block is
/// given back.
///
/// A block of `size` bytes and alignment `align` takes `max(8, align) + size + 8` bytes of
/// the wrapped allocator. The front word sits right below the block, the back word right
/// above it.
pub struct Canary<I> {
    inner: I,
    value: u64,
    live: Ghost<Map<int, Grant>>,
}

impl<I> Canary<I> {
    /// The wrapped allocator.
    pub closed spec fn inside(&self) -> I {
        self.inner
    }

    pub closed spec fn value_spec(&self) -> u64 {
        self.value
    }

    /// The wrapped allocator.
    pub fn inner(&self) -> (r: &I)
        ensures
            *r == self.inside(),
    {
        &self.inner
    }

    /// The guard word.
    #[verifier::when_used_as_spec(value_spec)]
    pub fn canary_value(&self) -> (r: u64)
        ensures
            r == self.canary_value(),
    {
        self.value
    }

    /// Forgets the guard word, so that it does not outlive the wrapper.
    pub fn wipe(&mut self)
        ensures
            final(self).canary_value() == 0,
            final(self).inside() == old(self).inside(),
    {
        self.value = 0;
    }
}

/// The bytes kept in front of a block of the given alignment: `max(8, align)`.
fn pre_pad(align: usize) -> (r: usize)
    ensures
        r == front(align as int),
{
    if align < 8 {
        8
    } else {
        align
    }
}

/// Eight is a power of two, so the larger of it and an alignment is one too.
proof fn lemma_front(layout: NonZeroLayout)
    requires
        layout.valid(),
    ensures
        is_pow2(front(layout.align() as int)),
        front(layout.align() as int) % (layout.align() as int) == 0,
        0 < layout.align() <= front(layout.align() as int) <= isize::MAX + 1,
{
    assert(is_pow2(8)) by {
        reveal_with_fuel(is_pow2, 4);
    }
    layout::lemma_largest_power(layout.align());
    let f = front(layout.align() as int) as usize;
    bits::lemma_divides(f, layout.align());
}

/// The request that is made of the wrapped allocator for `layout`, or an error if it is too
/// large.
fn inner_layout(layout: NonZeroLayout) -> (r: Result<NonZeroLayout, AllocError>)
    ensures
        r is Ok <==> guardable(layout),
        r matches Ok(l) ==> l == guarded(layout) && l.valid() && l.size() == front(
            layout.align() as int,
        ) + layout.size() + 8 && l.align() == front(layout.align() as int),
{
    let align: usize = layout.align();
    let pre: usize = pre_pad(align);
    let size: usize = layout.size();
    proof {
        lemma_front(layout);
    }
    let sum: usize = match pre.checked_add(size) {
        Some(v) => v,
        None => {
            return Err(AllocError);
        },
    };
    let total: usize = match sum.checked_add(8) {
        Some(v) => v,
        None => {
            return Err(AllocError);
        },
    };
    match NonZeroLayout::from_size_align(total, pre) {
        Ok(l) => Ok(l),
        Err(_) => Err(AllocError),
    }
}

impl<I: Allocator> Canary<I> {
    /// Wraps `inner` with the guard word `seed`, which should be unpredictable.
    pub fn new_with_seed(inner: I, seed: u64) -> (r: Self)
        requires
            inner.wf(),
        ensures
            r.wf(),
            r.inside() == inner,
            r.canary_value() == if seed == 0 {
                ZERO_SEED_CANARY
            } else {
                seed
            },
            r.live() == Map::<int, Grant>::empty(),
    {
        let value: u64 = if seed == 0 {
            ZERO_SEED_CANARY
        } else {
            seed
        };
        Canary { inner, value, live: Ghost(Map::empty()) }
    }

    /// Wraps `inner` with a guard word drawn by the operating system.
    pub fn new(inner: I) -> (r: Self)
        requires
            inner.wf(),
        ensures
            r.wf(),
            r.inside() == inner,
            r.canary_value() != 0,
            r.live() == Map::<int, Grant>::empty(),
    {
        let state = fresh_random_state();
        let seed: u64 = random_hash(&state, 0);
        Self::new_with_seed(inner, seed)
    }

    /// Whether the guard word at `addr` is intact.
    fn verify<M: Memory>(&self, mem: &M, addr: usize) -> (r: bool)
        requires
            addr + 8 <= usize::MAX + 1,
            memory::accessible(mem.view(), addr as int, 8),
        ensures
            r == (memory::word_at(mem.view(), addr as int) == self.canary_value()),
    {
        let actual: u64 = load_word(mem, addr);
        ct_eq_u64(actual, self.value)
    }

    /// Where the wrapped allocator's block for the block at `p` starts.
    spec fn root(&self, p: int) -> int {
        p - front(self.live@[p].layout.align() as int)
    }

    /// The block at `p` with its guard words lies in the wrapped allocator's block.
    proof fn lemma_root(&self, p: int)
        requires
            self.wf(),
            self.live@.contains_key(p),
        ensures
            self.inner.live().contains_key(self.root(p)),
            self.inner.live()[self.root(p)].layout == guarded(self.live@[p].layout),
            self.root(p) > 0,
            self.root(p) <= p - 8,
            self.live@[p].len == self.live@[p].layout.size(),
            self.live@[p].layout.valid(),
            p + self.live@[p].len + 8 <= self.root(p) + self.inner.live()[self.root(p)].len,
            self.root(p) + self.inner.live()[self.root(p)].len <= usize::MAX + 1,
            forall|a: int|
                self.root(p) <= a < self.root(p) + self.inner.live()[self.root(p)].len
                    ==> self.inner.region().contains(a),
            p % (self.live@[p].layout.align() as int) == 0,
            guardable(self.live@[p].layout),
    {
        let g = self.live@[p];
        let q = self.root(p);
        self.inner.live_blocks();
        lemma_front(g.layout);
        assert(self.inner.live().contains_key(q));
        layout::lemma_layout_of(
            front(g.layout.align() as int) + g.layout.size() + 8,
            front(g.layout.align() as int),
        );
        allocator::lemma_in_block(self.inner.live(), q);
        let f = front(g.layout.align() as int);
        let al = g.layout.align() as int;
        assert(q % f == 0);
        bits::lemma_aligned_weaker(q, f as usize, g.layout.align());
        vstd::arithmetic::div_mod::lemma_add_mod_noop(q, f, al);
        vstd::arithmetic::div_mod::lemma_small_mod(0, al as nat);
    }

    /// What lies in one block's share of the wrapped allocator lies in no other block.
    proof fn lemma_separate(&self, p: int, r: int)
        requires
            self.wf(),
            self.live@.contains_key(p),
            self.live@.contains_key(r),
            p != r,
        ensures
            self.root(p) + self.inner.live()[self.root(p)].len <= self.root(r) || self.root(r)
                + self.inner.live()[self.root(r)].len <= self.root(p),
            self.root(p) != self.root(r),
    {
        self.lemma_root(p);
        self.lemma_root(r);
        self.inner.live_blocks();
        assert(self.inner.live().contains_key(self.root(p)));
        assert(self.inner.live().contains_key(self.root(r)));
    }

    /// No byte of a block's share, other than its own, lies in a block.
    proof fn lemma_margins(&self, p: int)
        requires
            self.wf(),
            self.live@.contains_key(p),
        ensures
            forall|a: int|
                self.root(p) <= a < self.root(p) + self.inner.live()[self.root(p)].len && !(p <= a
                    < p + self.live@[p].len) ==> !allocator::in_blocks(self.live@, a),
            forall|a: int| allocator::in_blocks(self.live@, a) ==> allocator::in_blocks(
                self.inner.live(),
                a,
            ),
            forall|a: int|
                self.root(p) <= a < self.root(p) + self.inner.live()[self.root(p)].len
                    ==> !allocator::in_blocks(self.live@.remove(p), a),
    {
        self.lemma_root(p);
        assert forall|a: int|
            self.root(p) <= a < self.root(p) + self.inner.live()[self.root(p)].len
            implies !allocator::in_blocks(self.live@.remove(p), a) by {
            if allocator::in_blocks(self.live@.remove(p), a) {
                let r = choose|r: int| #[trigger]
                    self.live@.remove(p).contains_key(r) && r <= a < r + self.live@.remove(p)[r].len;
                self.lemma_root(r);
                self.lemma_separate(p, r);
            }
        }
        assert forall|a: int|
            self.root(p) <= a < self.root(p) + self.inner.live()[self.root(p)].len && !(p <= a < p
                + self.live@[p].len) implies !allocator::in_blocks(self.live@, a) by {
            if allocator::in_blocks(self.live@, a) {
                let r = choose|r: int| #[trigger]
                    self.live@.contains_key(r) && r <= a < r + self.live@[r].len;
                assert(self.live@.remove(p).contains_key(r));
                assert(allocator::in_blocks(self.live@.remove(p), a));
            }
        }
        assert forall|a: int| allocator::in_blocks(self.live@, a) implies allocator::in_blocks(
            self.inner.live(),
            a,
        ) by {
            let r = choose|r: int| #[trigger]
                self.live@.contains_key(r) && r <= a < r + self.live@[r].len;
            self.lemma_root(r);
        }
    }

    /// Setting the guard words of one block leaves the wrapped allocator's verdict on any
    /// block alone.
    proof fn lemma_guards_inside(&self, m: Map<int, u8>, p: int, v: u64, q: int)
        requires
            self.wf(),
            self.live@.contains_key(p),
            allocator::backed(self.inner.region(), m),
            self.inner.live().contains_key(q),
        ensures
            self.inner.verdict(
                with_guards(m, p, self.live@[p].layout.size() as int, v),
                q,
            ) == self.inner.verdict(m, q),
            with_guards(m, p, self.live@[p].layout.size() as int, v).dom() == m.dom(),
    {
        self.lemma_root(p);
        let size = self.live@[p].layout.size() as int;
        allocator::lemma_verdict_kept(&self.inner, m, p - 8, memory::word_bytes(v), self.root(p), q);
        allocator::lemma_verdict_kept(
            &self.inner,
            memory::put_word(m, p - 8, v),
            p + size,
            memory::word_bytes(v),
            self.root(p),
            q,
        );
    }
}

impl<I: Allocator> Canary<I> {
    /// A block whose share of memory is untouched, and on which the wrapped allocator has
    /// not changed its mind, meets with the same verdict as before.
    proof fn lemma_kept(&self, after: &Self, m: Map<int, u8>, m2: Map<int, u8>, r: int)
        requires
            self.wf(),
            after.wf(),
            self.live@.contains_key(r),
            after.live@.contains_key(r),
            after.live@[r] == self.live@[r],
            after.inner.live()[self.root(r)] == self.inner.live()[self.root(r)],
            after.value == self.value,
            after.inner.region() == self.inner.region(),
            allocator::backed(self.inner.region(), m),
            m2.dom() == m.dom(),
            forall|a: int|
                #![trigger m2[a]]
                self.root(r) <= a < self.root(r) + self.inner.live()[self.root(r)].len ==> m2[a]
                    == m[a],
            after.inner.verdict(m2, self.root(r)) == self.inner.verdict(m, self.root(r)),
        ensures
            after.verdict(m2, r) == self.verdict(m, r),
    {
        let size = self.live@[r].layout.size() as int;
        self.lemma_root(r);
        after.lemma_root(r);
        memory::lemma_word_frame(m, m2, r - 8);
        memory::lemma_word_frame(m, m2, r + size);
        self.lemma_guards_inside(m, r, 0, self.root(r));
        after.lemma_guards_inside(m2, r, 0, self.root(r));
    }

    /// What holds once the wrapped allocator has been given back the share of the block at
    /// `p`, the guard words of which were cleared first.
    proof fn lemma_after_free(
        &self,
        after: &Self,
        m: Map<int, u8>,
        m1: Map<int, u8>,
        m2: Map<int, u8>,
        p: int,
    )
        requires
            self.wf(),
            self.live@.contains_key(p),
            allocator::backed(self.inner.region(), m),
            m1 == with_guards(m, p, self.live@[p].layout.size() as int, 0),
            after.inner.wf(),
            after.inner.region() == self.inner.region(),
            after.value == self.value,
            allocator::same_elsewhere(self.inner.region(), m1, m2),
            allocator::same_inside(self.inner.live().remove(self.root(p)), m1, m2),
            forall|q: int| #[trigger]
                self.inner.live().remove(self.root(p)).contains_key(q) ==> after.inner.verdict(
                    m2,
                    q,
                ) == self.inner.verdict(m1, q),
            ({
                &&& after.live@ == self.live@.remove(p)
                &&& after.inner.live() == self.inner.live().remove(self.root(p))
            }) || ({
                &&& after.live@ == self.live@
                &&& after.inner.live() == self.inner.live()
            }),
        ensures
            after.wf(),
            allocator::same_elsewhere(self.inner.region(), m, m2),
            allocator::same_inside(self.live@.remove(p), m, m2),
            forall|r: int| #[trigger]
                self.live@.remove(p).contains_key(r) ==> after.verdict(m2, r) == self.verdict(
                    m,
                    r,
                ),
    {
        let rest = self.live@.remove(p);
        let inner_rest = self.inner.live().remove(self.root(p));
        let size = self.live@[p].layout.size() as int;
        self.lemma_root(p);
        self.lemma_margins(p);
        assert(m1.dom() =~= m.dom());
        assert forall|r: int| #[trigger] after.live@.contains_key(r) implies {
            &&& after.inner.live().contains_key(after.root(r))
            &&& after.inner.live()[after.root(r)].layout == guarded(after.live@[r].layout)
        } by {
            assert(self.live@.contains_key(r));
            if r != p {
                self.lemma_separate(p, r);
            }
        }
        assert(after.wf());
        assert forall|r: int| #[trigger] rest.contains_key(r) implies after.verdict(m2, r)
            == self.verdict(m, r) && forall|a: int|
            #![trigger m2[a]]
            self.root(r) <= a < self.root(r) + self.inner.live()[self.root(r)].len ==> m2[a]
                == m[a] by {
            self.lemma_root(r);
            self.lemma_separate(p, r);
            assert(inner_rest.contains_key(self.root(r)));
            allocator::lemma_in_block(inner_rest, self.root(r));
            self.lemma_guards_inside(m, p, 0, self.root(r));
            self.lemma_kept(after, m, m2, r);
        }
        assert forall|a: int|
            #![trigger m2[a]]
            m.contains_key(a) && allocator::in_blocks(rest, a) implies m[a] == m2[a] by {
            let r = choose|r: int| #[trigger] rest.contains_key(r) && r <= a < r + rest[r].len;
            self.lemma_root(r);
        }
    }

    /// What holds once the wrapped allocator has issued a block at `q`, around whose share
    /// for `layout` the guard words were set.
    proof fn lemma_after_issue(
        &self,
        after: &Self,
        m: Map<int, u8>,
        m1: Map<int, u8>,
        m2: Map<int, u8>,
        b: Block,
        layout: NonZeroLayout,
    )
        requires
            self.wf(),
            allocator::backed(self.inner.region(), m),
            layout.valid(),
            guardable(layout),
            after.inner.wf(),
            after.inner.region() == self.inner.region(),
            after.value == self.value,
            allocator::clear_of(self.inner.live(), b.addr as int, b.len as int),
            after.inner.live() == self.inner.live().insert(
                b.addr as int,
                Grant { layout: guarded(layout), len: b.len },
            ),
            allocator::same_elsewhere(self.inner.region(), m, m1),
            allocator::same_inside(self.inner.live(), m, m1),
            forall|q: int| #[trigger]
                self.inner.live().contains_key(q) ==> after.inner.verdict(m1, q)
                    == self.inner.verdict(m, q),
            after.inner.verdict(m1, b.addr as int) is Sound,
            after.live@ == self.live@.insert(
                b.addr + front(layout.align() as int),
                Grant { layout, len: layout.size() },
            ),
            m2 == with_guards(
                m1,
                b.addr + front(layout.align() as int),
                layout.size() as int,
                self.value,
            ),
        ensures
            after.wf(),
            allocator::same_elsewhere(self.inner.region(), m, m2),
            allocator::same_inside(self.live@, m, m2),
            allocator::clear_of(
                self.live@,
                b.addr + front(layout.align() as int),
                layout.size() as int,
            ),
            forall|r: int| #[trigger]
                self.live@.contains_key(r) ==> after.verdict(m2, r) == self.verdict(m, r),
            after.verdict(m2, b.addr + front(layout.align() as int)) is Sound,
    {
        let f = front(layout.align() as int);
        let p = b.addr + f;
        let size = layout.size() as int;
        lemma_front(layout);
        layout::lemma_layout_of(f + size + 8, f);
        after.inner.live_blocks();
        assert(after.inner.live().contains_key(b.addr as int));
        allocator::lemma_in_block(after.inner.live(), b.addr as int);
        assert(m1.dom() =~= m.dom());
        assert(m2.dom() =~= m.dom());
        assert forall|r: int| #[trigger] self.live@.contains_key(r) implies self.root(r) + self.inner.live()[self.root(r)].len
            <= b.addr || b.addr + b.len <= self.root(r) by {
            self.lemma_root(r);
        }
        assert(!self.live@.contains_key(p)) by {
            if self.live@.contains_key(p) {
                self.lemma_root(p);
            }
        }
        assert forall|r: int| #[trigger] after.live@.contains_key(r) implies {
            &&& after.inner.live().contains_key(after.root(r))
            &&& after.inner.live()[after.root(r)].layout == guarded(after.live@[r].layout)
        } by {
            if r != p {
                self.lemma_root(r);
            }
        }
        assert forall|r1: int, r2: int| #[trigger]
            after.live@.contains_key(r1) && #[trigger] after.live@.contains_key(r2) && r1
                != r2 implies after.root(r1) != after.root(r2) by {
            if r1 != p {
                self.lemma_root(r1);
            }
            if r2 != p {
                self.lemma_root(r2);
            }
        }
        assert(after.wf());
        assert forall|r: int| #[trigger] self.live@.contains_key(r) implies after.verdict(m2, r)
            == self.verdict(m, r) && forall|a: int|
            #![trigger m2[a]]
            self.root(r) <= a < self.root(r) + self.inner.live()[self.root(r)].len ==> m2[a]
                == m[a] by {
            self.lemma_root(r);
            allocator::lemma_in_block(self.inner.live(), self.root(r));
            after.lemma_guards_inside(m1, p, self.value, self.root(r));
            self.lemma_kept(after, m, m2, r);
        }
        assert forall|a: int|
            #![trigger m2[a]]
            m.contains_key(a) && allocator::in_blocks(self.live@, a) implies m[a] == m2[a] by {
            let r = choose|r: int| #[trigger]
                self.live@.contains_key(r) && r <= a < r + self.live@[r].len;
            self.lemma_root(r);
        }
        assert forall|r: int| #[trigger] self.live@.contains_key(r) implies p + size <= r || r
            + self.live@[r].len <= p by {
            self.lemma_root(r);
        }
        after.lemma_guards_inside(m1, p, self.value, b.addr as int);
        after.lemma_guards_inside(m2, p, 0, b.addr as int);
        assert(memory::word_at(m2, p - 8) == self.value) by {
            memory::lemma_put_word(m1, p - 8, self.value);
            memory::lemma_word_frame(memory::put_word(m1, p - 8, self.value), m2, p - 8);
        }
        assert(memory::word_at(m2, p + size) == self.value) by {
            memory::lemma_put_word(memory::put_word(m1, p - 8, self.value), p + size, self.value);
        }
    }
}

impl<I: Allocator> Deallocator for Canary<I> {
    closed spec fn wf(&self) -> bool {
        &&& self.inner.wf()
        &&& self.value != 0
        &&& forall|p: int| #[trigger]
            self.live@.contains_key(p) ==> {
                &&& self.live@[p].layout.valid()
                &&& guardable(self.live@[p].layout)
                &&& self.live@[p].len == self.live@[p].layout.size()
                &&& self.inner.live().contains_key(self.root(p))
                &&& self.inner.live()[self.root(p)].layout == guarded(self.live@[p].layout)
            }
        &&& forall|p: int, r: int| #[trigger]
            self.live@.contains_key(p) && #[trigger] self.live@.contains_key(r) && p != r
                ==> self.root(p) != self.root(r)
    }

    open spec fn region(&self) -> Set<int> {
        self.inside().region()
    }

    closed spec fn live(&self) -> Map<int, Grant> {
        self.live@
    }

    open spec fn budget(&self) -> Option<usize> {
        self.inside().budget()
    }

    open spec fn residue(&self) -> Residue {
        self.inside().residue()
    }

    open spec fn events(&self) -> u64 {
        self.inside().events()
    }

    /// The front word is looked at first, then the back word, then the wrapped allocator
    /// has its say on what it gets back, with both words cleared.
    open spec fn verdict(&self, m: Map<int, u8>, p: int) -> Verdict {
        let layout = self.live()[p].layout;
        let size = layout.size() as int;
        if memory::word_at(m, p - 8) != self.canary_value() {
            Verdict::Caught(Corruption::PreCanary)
        } else if memory::word_at(m, p + size) != self.canary_value() {
            Verdict::Caught(Corruption::PostCanary)
        } else {
            self.inside().verdict(with_guards(m, p, size, 0), p - front(layout.align() as int))
        }
    }

    open spec fn freed(&self, m: Map<int, u8>, p: int) -> Map<int, u8> {
        let layout = self.live()[p].layout;
        let size = layout.size() as int;
        if memory::word_at(m, p - 8) != self.canary_value() || memory::word_at(m, p + size)
            != self.canary_value() {
            m
        } else {
            self.inside().freed(with_guards(m, p, size, 0), p - front(layout.align() as int))
        }
    }

    open spec fn after_return(&self, m: Map<int, u8>, p: int, next: Self) -> bool {
        let layout = self.live()[p].layout;
        let size = layout.size() as int;
        &&& next.canary_value() == self.canary_value()
        &&& if memory::word_at(m, p - 8) != self.canary_value() || memory::word_at(m, p + size)
            != self.canary_value() {
            next == *self
        } else {
            self.inside().after_return(
                with_guards(m, p, size, 0),
                p - front(layout.align() as int),
                next.inside(),
            )
        }
    }

    proof fn live_blocks(&self) {
        assert forall|p: int| #[trigger] self.live().contains_key(p) implies allocator::serves(
            p,
            self.live()[p],
        ) by {
            self.lemma_root(p);
        }
        assert forall|p: int, q: int| #[trigger]
            self.live().contains_key(p) && #[trigger] self.live().contains_key(q) && p
                != q implies p + self.live()[p].len <= q || q + self.live()[q].len <= p by {
            self.lemma_root(p);
            self.lemma_root(q);
            self.lemma_separate(p, q);
        }
        assert forall|a: int| allocator::in_blocks(
            self.live(),
            a,
        ) implies self.region().contains(a) by {
            let r = choose|r: int| #[trigger]
                self.live@.contains_key(r) && r <= a < r + self.live@[r].len;
            self.lemma_root(r);
        }
    }

    proof fn bookkeeping_apart(&self, m1: Map<int, u8>, m2: Map<int, u8>, p: int) {
        let size = self.live@[p].layout.size() as int;
        self.lemma_root(p);
        self.lemma_margins(p);
        memory::lemma_word_frame(m1, m2, p - 8);
        memory::lemma_word_frame(m1, m2, p + size);
        let z1 = with_guards(m1, p, size, 0);
        let z2 = with_guards(m2, p, size, 0);
        assert(z1.dom() =~= m1.dom());
        assert(z2.dom() =~= m2.dom());
        self.inner.bookkeeping_apart(z1, z2, self.root(p));
    }

    fn deallocate<M: Memory>(&mut self, mem: &mut M, ptr: usize, layout: NonZeroLayout) -> (r:
        Result<(), Corruption>)
    {
        let ghost p = ptr as int;
        let ghost m0 = mem.view();
        let ghost s0 = *self;
        proof {
            self.lemma_root(p);
            self.lemma_margins(p);
        }
        let size: usize = layout.size();
        let pre: usize = pre_pad(layout.align());
        if !self.verify(mem, ptr - 8) {
            return Err(Corruption::PreCanary);
        }
        if !self.verify(mem, ptr + size) {
            return Err(Corruption::PostCanary);
        }
        store_word(mem, ptr - 8, 0);
        store_word(mem, ptr + size, 0);
        let ghost m1 = mem.view();
        proof {
            self.lemma_guards_inside(m0, p, 0, self.root(p));
        }
        let inner_ptr: usize = ptr - pre;
        match inner_layout(layout) {
            Ok(l) => {
                match self.inner.deallocate(mem, inner_ptr, l) {
                    Ok(_) => {
                        self.live = Ghost(self.live@.remove(p));
                        proof {
                            s0.lemma_after_free(self, m0, m1, mem.view(), p);
                        }
                        Ok(())
                    },
                    Err(c) => {
                        proof {
                            s0.lemma_after_free(self, m0, m1, mem.view(), p);
                        }
                        Err(c)
                    },
                }
            },
            Err(_) => {
                assert(false);
                Err(Corruption::PreCanary)
            },
        }
    }
}

impl<I: Allocator> Allocator for Canary<I> {
    open spec fn outcome(&self, layout: NonZeroLayout) -> Option<Block> {
        if guardable(layout) {
            match self.inside().outcome(guarded(layout)) {
                Some(b) => Some(
                    Block {
                        addr: (b.addr + front(layout.align() as int)) as usize,
                        len: layout.size(),
                    },
                ),
                None => None,
            }
        } else {
            None
        }
    }

    open spec fn issued(&self, m: Map<int, u8>, layout: NonZeroLayout) -> Map<int, u8> {
        let b = self.inside().outcome(guarded(layout))->0;
        with_guards(
            self.inside().issued(m, guarded(layout)),
            b.addr + front(layout.align() as int),
            layout.size() as int,
            self.canary_value(),
        )
    }

    open spec fn usable(&self, p: int, layout: NonZeroLayout) -> Option<usize> {
        None
    }

    open spec fn resettable(&self) -> bool {
        false
    }

    open spec fn after_issue(&self, layout: NonZeroLayout, next: Self) -> bool {
        &&& next.canary_value() == self.canary_value()
        &&& if guardable(layout) {
            self.inside().after_issue(guarded(layout), next.inside())
        } else {
            next == *self
        }
    }

    open spec fn after_reset(&self, next: Self) -> bool {
        false
    }

    fn allocate<M: Memory>(&mut self, mem: &mut M, layout: NonZeroLayout) -> (r: Result<
        Block,
        AllocError,
    >)
        ensures
            final(self).canary_value() == old(self).canary_value(),
            r matches Ok(b) ==> {
                &&& memory::word_at(final(mem).view(), b.addr - 8) == old(self).canary_value()
                &&& memory::word_at(final(mem).view(), b.addr + b.len) == old(self).canary_value()
            },
    {
        let ghost s0 = *self;
        let ghost m0 = mem.view();
        let pre: usize = pre_pad(layout.align());
        let size: usize = layout.size();
        let l = match inner_layout(layout) {
            Ok(l) => l,
            Err(e) => {
                return Err(e);
            },
        };
        let block = match self.inner.allocate(mem, l) {
            Ok(b) => b,
            Err(e) => {
                proof {
                    assert forall|r: int| #[trigger] s0.live@.contains_key(r) implies self.verdict(
                        m0,
                        r,
                    ) == s0.verdict(m0, r) by {
                        s0.lemma_root(r);
                        s0.lemma_kept(self, m0, m0, r);
                    }
                }
                return Err(e);
            },
        };
        let ghost m1 = mem.view();
        proof {
            self.inner.live_blocks();
            lemma_front(layout);
            assert(self.inner.live().contains_key(block.addr as int));
            allocator::lemma_in_block(self.inner.live(), block.addr as int);
        }
        let user: usize = block.addr + pre;
        store_word(mem, user - 8, self.value);
        store_word(mem, user + size, self.value);
        self.live = Ghost(self.live@.insert(user as int, Grant { layout, len: size }));
        proof {
            s0.lemma_after_issue(self, m0, m1, mem.view(), block, layout);
        }
        Ok(Block { addr: user, len: size })
    }

    fn reset(&mut self) -> (r: Result<(), AllocError>) {
        Err(AllocError)
    }

    fn usable_size(&self, ptr: usize, layout: NonZeroLayout) -> (r: Option<usize>) {
        None
    }

    fn capacity_bytes(&self) -> (r: Option<usize>) {
        self.inner.capacity_bytes()
    }

    fn corruption_events(&self) -> (r: u64) {
        self.inner.corruption_events()
    }
}

impl<I: FixedRange> FixedRange for Canary<I> {
    open spec fn start(&self) -> usize {
        self.inside().start()
    }

    open spec fn extent(&self) -> usize {
        self.inside().extent()
    }

    open spec fn commits(&self, offset: int, len: int) -> bool {
        self.inside().commits(offset, len)
    }

    fn base(&self) -> (r: usize) {
        self.inner.base()
    }

    fn size(&self) -> (r: usize) {
        self.inner.size()
    }

    fn commit(&self, offset: usize, len: usize) -> (r: Result<(), AllocError>) {
        self.inner.commit(offset, len)
    }
}

impl<I: Allocator> Canary<I> {
    /// A block whose guard words were written to, in whatever byte and with whatever other
    /// value, is not taken back.
    pub proof fn overwritten_guard_is_caught(&self, m: Map<int, u8>, p: int, i: int)
        requires
            self.wf(),
            self.live().contains_key(p),
            0 <= i < 8,
        ensures
            m[p - 8 + i] != memory::word_bytes(self.canary_value())[i] ==> self.verdict(m, p)
                == Verdict::Caught(Corruption::PreCanary),
            m[p + self.live()[p].layout.size() + i] != memory::word_bytes(self.canary_value())[i]
                ==> self.verdict(m, p) is Caught,
    {
        let size = self.live()[p].layout.size() as int;
        let front_bytes = memory::span_of(m, p - 8, 8);
        let back_bytes = memory::span_of(m, p + size, 8);
        memory::lemma_bytes_round_trip(front_bytes);
        memory::lemma_bytes_round_trip(back_bytes);
        assert(front_bytes[i] == m[p - 8 + i]);
        assert(back_bytes[i] == m[p + size + i]);
    }

    /// Writing to blocks in use, and to nothing else, never makes a block look damaged.
    pub proof fn writes_inside_blocks_are_harmless(&self, m1: Map<int, u8>, m2: Map<int, u8>, p: int)
        requires
            self.wf(),
            self.live().contains_key(p),
            allocator::backed(self.region(), m1),
            allocator::same_outside(self.live(), m1, m2),
            self.verdict(m1, p) is Sound,
        ensures
            self.verdict(m2, p) is Sound,
    {
        self.bookkeeping_apart(m1, m2, p);
    }

    /// The guard word does not linger in memory that was given back: the wrapped allocator
    /// gets the block with both guard words cleared.
    pub proof fn guard_words_are_cleared(&self, m: Map<int, u8>, p: int)
        requires
            self.wf(),
            self.live().contains_key(p),
            allocator::backed(self.region(), m),
            self.verdict(m, p) is Sound,
        ensures
            ({
                let layout = self.live()[p].layout;
                let size = layout.size() as int;
                let cleared = with_guards(m, p, size, 0);
                &&& self.freed(m, p) == self.inside().freed(
                    cleared,
                    p - front(layout.align() as int),
                )
                &&& memory::word_at(cleared, p - 8) == 0
                &&& memory::word_at(cleared, p + size) == 0
            }),
    {
        let size = self.live@[p].layout.size() as int;
        self.lemma_root(p);
        let half = memory::put_word(m, p - 8, 0);
        memory::lemma_put_word(m, p - 8, 0);
        memory::lemma_put_word(half, p + size, 0);
        memory::lemma_word_frame(half, with_guards(m, p, size, 0), p - 8);
    }

    /// The guard word is never zero.
    pub proof fn guard_word_is_not_zero(&self)
        requires
            self.wf(),
        ensures
            self.canary_value() != 0,
    {
    }
}

} // verus!
