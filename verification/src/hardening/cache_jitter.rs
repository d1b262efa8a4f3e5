//! `CacheJitter`: blocks displaced by a random number of cache lines.
//!
//! An allocator that always returns addresses of the same alignment crowds its blocks into
//! the same cache sets. Shifting each block by a random multiple of the cache line spreads
//! them. The displacement is kept, authenticated, right below the block, so that the block
//! can be given back.

use crate::allocator;
use crate::allocator::{Allocator, Block, Corruption, Deallocator, Grant, Residue, Verdict};
use crate::bits;
use crate::fixed_range::FixedRange;
use crate::layout;
use crate::layout::{AllocError, NonZeroLayout};
use crate::memory;
use crate::memory::{load_word, store_word, Memory};
use crate::outside::{ct_eq_u64, fresh_random_state, random_hash};
use crate::placement;
use vstd::arithmetic::power2::*;
use vstd::prelude::*;

verus! {

/// The bytes of the header that lies right below a displaced block.
pub const JITTER_HEADER_SIZE: usize = 8;

/// The width of the displacement in the header.
pub const HEADER_DISP_BITS: u64 = 16;

/// The bits of the header that hold the displacement, counted in cache lines.
pub const HEADER_DISP_MASK: u64 = 0xFFFF;

/// The largest number of cache lines whose displacements all fit the header.
pub const MAX_ASSOCIATIVITY: usize = 0xFFFF;

/// What a zero seed is replaced with: the generator never leaves zero.
pub const ZERO_SEED_JITTER: u64 = 0x9E37_79B9_7F4A_7C15;

/// The seed that is used where `seed` is asked for.
pub open spec fn effective_seed(seed: u64) -> u64 {
    if seed == 0 {
        ZERO_SEED_JITTER
    } else {
        seed
    }
}

/// The key that authenticates headers, two mixing steps away from the seed.
pub open spec fn key_of(seed: u64) -> u64 {
    let x0 = seed.wrapping_add(0x9E37_79B9_7F4A_7C15);
    let x1 = (x0 ^ (x0 >> 30)).wrapping_mul(0xBF58_476D_1CE4_E5B9);
    let x2 = (x1 ^ (x1 >> 27)).wrapping_mul(0x94D0_49BB_1331_11EB);
    x2 ^ (x2 >> 31)
}

/// One step of the xorshift generator.
pub open spec fn next_state(x: u64) -> u64 {
    let x1 = x ^ (x << 13);
    let x2 = x1 ^ (x1 >> 7);
    x2 ^ (x2 << 17)
}

/// The displacement in cache lines that a generator output selects: its place among
/// `associativity` equal parts of the range of `u64`.
pub open spec fn lines_for(x: u64, associativity: int) -> int {
    (x * associativity) / 0x1_0000_0000_0000_0000
}

/// The keyed mix of an address and a displacement.
pub open spec fn mix(key: u64, addr: u64, lines: u64) -> u64 {
    let x0 = (key ^ addr).wrapping_mul(0x9E37_79B9_7F4A_7C15);
    let x1 = x0 ^ ((x0 << 31) | (x0 >> 33));
    let x2 = (x1 ^ lines).wrapping_mul(0xBF58_476D_1CE4_E5B9);
    let x3 = (x2 ^ (x2 >> 27)).wrapping_mul(0x94D0_49BB_1331_11EB);
    x3 ^ (x3 >> 31)
}

/// The header of a block at `addr` that is displaced by `lines` cache lines: the
/// displacement in the low 16 bits, the high 48 bits of the mix above them.
pub open spec fn header(key: u64, addr: u64, lines: u64) -> u64 {
    ((mix(key, addr, lines) >> 16) << 16) | (lines & 0xFFFF)
}

/// The displacement in bytes that a header found below `addr` stands for, or `None` where
/// it does not authenticate or is out of range.
pub open spec fn displacement_in(
    key: u64,
    line: int,
    associativity: int,
    addr: u64,
    found: u64,
) -> Option<int> {
    let lines = found & 0xFFFF;
    let bytes = (lines * line) % (usize::MAX + 1);
    if found >> 16 == mix(key, addr, lines) >> 16 && bytes < associativity * line {
        Some(bytes)
    } else {
        None
    }
}

/// The generator never gets stuck.
pub proof fn generator_stays_nonzero(x: u64)
    requires
        x != 0,
    ensures
        next_state(x) != 0,
{
    assert(({
        let x1 = x ^ (x << 13);
        let x2 = x1 ^ (x1 >> 7);
        x2 ^ (x2 << 17)
    }) != 0) by (bit_vector)
        requires
            x != 0,
    ;
}

/// Every displacement is below the associativity.
pub proof fn displacement_in_window(x: u64, associativity: int)
    requires
        associativity > 0,
    ensures
        0 <= lines_for(x, associativity) < associativity,
{
    let top = 0x1_0000_0000_0000_0000int;
    assert(0 <= x * associativity < top * associativity) by (nonlinear_arith)
        requires
            associativity > 0,
            0 <= x < top,
            top == 0x1_0000_0000_0000_0000int,
    ;
    vstd::arithmetic::div_mod::lemma_div_is_ordered(0, x * associativity, top);
    assert(lines_for(x, associativity) < associativity) by (nonlinear_arith)
        requires
            lines_for(x, associativity) == (x * associativity) / top,
            x * associativity < top * associativity,
            top > 0,
    ;
}

/// A header is accepted below the address it was made for, and gives back the displacement
/// it was made with.
pub proof fn header_round_trip(key: u64, line: int, associativity: int, addr: u64, lines: u64)
    requires
        0 < line,
        lines < associativity <= MAX_ASSOCIATIVITY,
        line * associativity <= usize::MAX,
    ensures
        displacement_in(key, line, associativity, addr, header(key, addr, lines)) == Some(
            lines * line,
        ),
{
    let v = mix(key, addr, lines);
    let h = header(key, addr, lines);
    assert(h & 0xFFFF == lines && h >> 16 == v >> 16) by (bit_vector)
        requires
            h == ((v >> 16) << 16) | (lines & 0xFFFF),
            lines < 0xFFFF,
    ;
    assert(lines * line < associativity * line && lines * line >= 0) by (nonlinear_arith)
        requires
            0 <= lines < associativity,
            0 < line,
    ;
    assert(line * associativity == associativity * line) by (nonlinear_arith);
    vstd::arithmetic::div_mod::lemma_small_mod((lines * line) as nat, (usize::MAX + 1) as nat);
}

/// A header whose displacement is left as it was, but whose mix is changed in any bit, is
/// rejected.
pub proof fn tampered_mix_is_rejected(
    key: u64,
    line: int,
    associativity: int,
    addr: u64,
    lines: u64,
    found: u64,
)
    requires
        lines <= 0xFFFF,
        found & 0xFFFF == lines,
        found != header(key, addr, lines),
    ensures
        displacement_in(key, line, associativity, addr, found) is None,
{
    let v = mix(key, addr, lines);
    assert(found >> 16 != v >> 16) by (bit_vector)
        requires
            lines <= 0xFFFF,
            found & 0xFFFF == lines,
            found != ((v >> 16) << 16) | (lines & 0xFFFF),
    ;
}

/// The request that is made of the wrapped allocator for a displaced block: room for the
/// header's line and for every displacement.
pub open spec fn jittered(layout: NonZeroLayout, line: int, associativity: int) -> NonZeroLayout {
    NonZeroLayout::of(layout.size() + associativity * line, line)
}

/// Whether the request for a displaced block makes a layout.
pub open spec fn jitterable(layout: NonZeroLayout, line: int, associativity: int) -> bool {
    layout.size() + associativity * line <= isize::MAX - (line - 1)
}

/// Displaces every block by a random number of cache lines.
///
/// A request aligned to more than a cache line is passed on as it is: a displacement would
/// break its alignment.
pub struct CacheJitter<I> {
    inner: I,
    cache_line_size: usize,
    associativity: usize,
    mac_key: u64,
    rng: u64,
    live: Ghost<Map<int, Grant>>,
    roots: Ghost<Map<int, int>>,
}

impl<I> CacheJitter<I> {
    /// The wrapped allocator.
    pub closed spec fn inside(&self) -> I {
        self.inner
    }

    pub closed spec fn line_spec(&self) -> usize {
        self.cache_line_size
    }

    pub closed spec fn associativity_spec(&self) -> usize {
        self.associativity
    }

    /// The key that authenticates headers.
    pub closed spec fn key(&self) -> u64 {
        self.mac_key
    }

    /// The state of the generator.
    pub closed spec fn state(&self) -> u64 {
        self.rng
    }

    /// Where the wrapped allocator's block for the block at `p` starts.
    pub closed spec fn root(&self, p: int) -> int {
        self.roots@[p]
    }

    /// Whether a request is displaced.
    pub open spec fn displaces(&self, layout: NonZeroLayout) -> bool {
        layout.align() <= self.cache_line_size()
    }

    /// The displacement of the next block, in cache lines.
    pub open spec fn next_lines(&self) -> int {
        lines_for(next_state(self.state()), self.associativity() as int)
    }

    /// The parameters that construction accepts.
    spec fn params_ok(&self) -> bool {
        &&& is_pow2(self.cache_line_size as int)
        &&& self.cache_line_size >= 8
        &&& 1 <= self.associativity <= MAX_ASSOCIATIVITY
        &&& self.cache_line_size * self.associativity <= usize::MAX
        &&& self.rng != 0
    }

    /// The wrapped allocator.
    pub fn inner(&self) -> (r: &I)
        ensures
            *r == self.inside(),
    {
        &self.inner
    }

    /// The cache line size in bytes.
    #[verifier::when_used_as_spec(line_spec)]
    pub fn cache_line_size(&self) -> (r: usize)
        ensures
            r == self.cache_line_size(),
    {
        self.cache_line_size
    }

    /// The number of cache lines over which blocks are spread.
    #[verifier::when_used_as_spec(associativity_spec)]
    pub fn associativity(&self) -> (r: usize)
        ensures
            r == self.associativity(),
    {
        self.associativity
    }

    /// Forgets the key and the state of the generator, so that they do not outlive the
    /// wrapper.
    pub fn wipe(&mut self)
        ensures
            final(self).key() == 0,
            final(self).state() == 0,
            final(self).inside() == old(self).inside(),
            final(self).cache_line_size() == old(self).cache_line_size(),
            final(self).associativity() == old(self).associativity(),
    {
        self.mac_key = 0;
        self.rng = 0;
    }

    /// The largest displacement, in bytes.
    fn max_displacement(&self) -> (r: usize)
        requires
            self.params_ok(),
        ensures
            r == (self.associativity - 1) * self.cache_line_size,
    {
        assert((self.associativity - 1) * self.cache_line_size <= self.cache_line_size
            * self.associativity) by (nonlinear_arith)
            requires
                self.associativity >= 1,
        ;
        (self.associativity - 1) * self.cache_line_size
    }

    /// The bytes in front of every displaced block, at its largest displacement.
    fn jitter_prefix(&self) -> (r: usize)
        requires
            self.params_ok(),
        ensures
            r == self.associativity * self.cache_line_size,
    {
        assert((self.associativity - 1) * self.cache_line_size + self.cache_line_size
            == self.associativity * self.cache_line_size && self.cache_line_size
            * self.associativity == self.associativity * self.cache_line_size) by (nonlinear_arith);
        self.cache_line_size + self.max_displacement()
    }

    /// Steps the generator and returns its output.
    fn next_rng(&mut self) -> (r: u64)
        ensures
            r == next_state(old(self).rng),
            *final(self) == (CacheJitter { rng: r, ..*old(self) }),
    {
        let mut x: u64 = self.rng;
        x = x ^ (x << 13);
        x = x ^ (x >> 7);
        x = x ^ (x << 17);
        self.rng = x;
        x
    }

    /// Steps the generator and returns a displacement in bytes.
    fn next_displacement(&mut self) -> (r: usize)
        requires
            old(self).params_ok(),
        ensures
            r == lines_for(next_state(old(self).rng), old(self).associativity as int) * old(
                self,
            ).cache_line_size,
            r <= (old(self).associativity - 1) * old(self).cache_line_size,
            *final(self) == (CacheJitter { rng: next_state(old(self).rng), ..*old(self) }),
    {
        let x: u64 = self.next_rng();
        let assoc: u128 = self.associativity as u128;
        assert(x * assoc <= u128::MAX) by (nonlinear_arith)
            requires
                0 <= x <= u64::MAX,
                0 <= assoc <= u64::MAX,
        ;
        let product: u128 = x as u128 * assoc;
        proof {
            assert(product >> 64 == product / 0x1_0000_0000_0000_0000) by (bit_vector);
            displacement_in_window(x, self.associativity as int);
            let n = lines_for(x, self.associativity as int);
            assert(0 <= n * self.cache_line_size <= (self.associativity - 1)
                * self.cache_line_size <= self.cache_line_size * self.associativity)
                by (nonlinear_arith)
                requires
                    0 <= n <= self.associativity - 1,
            ;
        }
        let lines: usize = (product >> 64) as usize;
        lines * self.cache_line_size
    }

    /// The keyed mix of an address and a displacement.
    fn header_mix(&self, addr: usize, lines: u64) -> (r: u64)
        ensures
            r == mix(self.mac_key, addr as u64, lines),
    {
        let mut x: u64 = self.mac_key ^ (addr as u64);
        x = x.wrapping_mul(0x9E37_79B9_7F4A_7C15);
        x = x ^ ((x << 31) | (x >> 33));
        x = x ^ lines;
        x = x.wrapping_mul(0xBF58_476D_1CE4_E5B9);
        x = x ^ (x >> 27);
        x = x.wrapping_mul(0x94D0_49BB_1331_11EB);
        x ^ (x >> 31)
    }

    /// The header for a block at `addr` displaced by `bytes`.
    fn pack_header(&self, addr: usize, bytes: usize) -> (r: u64)
        requires
            self.cache_line_size > 0,
        ensures
            r == header(self.mac_key, addr as u64, (bytes / self.cache_line_size) as u64),
    {
        let lines: u64 = (bytes / self.cache_line_size) as u64;
        let mac: u64 = self.header_mix(addr, lines) >> HEADER_DISP_BITS;
        (mac << HEADER_DISP_BITS) | (lines & HEADER_DISP_MASK)
    }

    /// The displacement in bytes that the header found below `addr` stands for, or an error
    /// if it does not authenticate or is out of range.
    fn unpack_header(&self, addr: usize, found: u64) -> (r: Result<usize, ()>)
        requires
            self.params_ok(),
        ensures
            match displacement_in(
                self.mac_key,
                self.cache_line_size as int,
                self.associativity as int,
                addr as u64,
                found,
            ) {
                Some(d) => r is Ok && r->Ok_0 == d,
                None => r is Err,
            },
    {
        let lines: u64 = found & HEADER_DISP_MASK;
        let expected: u64 = self.header_mix(addr, lines) >> HEADER_DISP_BITS;
        let stored: u64 = found >> HEADER_DISP_BITS;
        if !ct_eq_u64(stored, expected) {
            return Err(());
        }
        proof {
            assert(lines <= 0xFFFF) by (bit_vector)
                requires
                    lines == found & 0xFFFF,
            ;
            assert(self.cache_line_size * self.associativity == self.associativity
                * self.cache_line_size) by (nonlinear_arith);
        }
        let bytes: usize = (lines as usize).wrapping_mul(self.cache_line_size);
        if bytes >= self.associativity * self.cache_line_size {
            return Err(());
        }
        Ok(bytes)
    }
}

/// The request to make of the wrapped allocator for `layout`, or `None` if the request is
/// not displaced.
fn inner_layout_for(layout: NonZeroLayout, cache_line_size: usize, prefix: usize) -> (r: Option<
    Result<NonZeroLayout, AllocError>,
>)
    requires
        is_pow2(cache_line_size as int),
    ensures
        r is None <==> layout.align() > cache_line_size,
        r matches Some(made) ==> {
            &&& made is Ok <==> layout.size() + prefix <= isize::MAX - (cache_line_size - 1)
            &&& made matches Ok(l) ==> l == NonZeroLayout::of(
                layout.size() + prefix,
                cache_line_size as int,
            ) && l.valid() && l.size() == layout.size() + prefix && l.align() == cache_line_size
        },
{
    if layout.align() > cache_line_size {
        return None;
    }
    proof {
        layout::lemma_largest_power(cache_line_size);
    }
    let total: usize = match layout.size().checked_add(prefix) {
        Some(t) => t,
        None => {
            return Some(Err(AllocError));
        },
    };
    match NonZeroLayout::from_size_align(total, cache_line_size) {
        Ok(l) => Some(Ok(l)),
        Err(_) => Some(Err(AllocError)),
    }
}

impl<I: Allocator> CacheJitter<I> {
    /// Wraps `inner` with the given cache parameters and seed.
    ///
    /// `None` if `cache_line_size` is not a power of two of at least 8, if `associativity`
    /// is zero or does not fit the header, or if their product overflows.
    pub fn with_params(inner: I, cache_line_size: usize, associativity: usize, seed: u64) -> (r:
        Option<Self>)
        requires
            inner.wf(),
        ensures
            r is Some <==> {
                &&& is_pow2(cache_line_size as int)
                &&& cache_line_size >= 8
                &&& 1 <= associativity <= MAX_ASSOCIATIVITY
                &&& cache_line_size * associativity <= usize::MAX
            },
            r matches Some(c) ==> {
                &&& c.wf()
                &&& c.inside() == inner
                &&& c.cache_line_size() == cache_line_size
                &&& c.associativity() == associativity
                &&& c.state() == effective_seed(seed)
                &&& c.key() == key_of(effective_seed(seed))
                &&& c.live() == Map::<int, Grant>::empty()
            },
    {
        if !bits::is_power_of_two(cache_line_size) || cache_line_size < 8 {
            return None;
        }
        if associativity == 0 || associativity > MAX_ASSOCIATIVITY {
            return None;
        }
        if cache_line_size.checked_mul(associativity).is_none() {
            return None;
        }
        let seed: u64 = if seed == 0 {
            ZERO_SEED_JITTER
        } else {
            seed
        };
        let mut x: u64 = seed.wrapping_add(0x9E37_79B9_7F4A_7C15);
        x = (x ^ (x >> 30)).wrapping_mul(0xBF58_476D_1CE4_E5B9);
        x = (x ^ (x >> 27)).wrapping_mul(0x94D0_49BB_1331_11EB);
        let mac_key: u64 = x ^ (x >> 31);
        Some(
            CacheJitter {
                inner,
                cache_line_size,
                associativity,
                mac_key,
                rng: seed,
                live: Ghost(Map::empty()),
                roots: Ghost(Map::empty()),
            },
        )
    }

    /// Wraps `inner` with a seed drawn by the operating system.
    pub fn new(inner: I, cache_line_size: usize, associativity: usize) -> (r: Option<Self>)
        requires
            inner.wf(),
        ensures
            r is Some <==> {
                &&& is_pow2(cache_line_size as int)
                &&& cache_line_size >= 8
                &&& 1 <= associativity <= MAX_ASSOCIATIVITY
                &&& cache_line_size * associativity <= usize::MAX
            },
            r matches Some(c) ==> {
                &&& c.wf()
                &&& c.inside() == inner
                &&& c.cache_line_size() == cache_line_size
                &&& c.associativity() == associativity
                &&& c.state() != 0
                &&& c.key() == key_of(c.state())
                &&& c.live() == Map::<int, Grant>::empty()
            },
    {
        let state = fresh_random_state();
        let seed: u64 = random_hash(&state, 0);
        Self::with_params(inner, cache_line_size, associativity, seed)
    }

    /// What holds of a block and of the wrapped allocator's block around it.
    proof fn lemma_share(&self, p: int)
        requires
            self.wf(),
            self.live@.contains_key(p),
        ensures
            self.inner.live().contains_key(self.roots@[p]),
            0 < self.roots@[p] <= p,
            self.live@[p].layout.valid(),
            self.live@[p].len >= self.live@[p].layout.size(),
            p + self.live@[p].len <= self.roots@[p] + self.inner.live()[self.roots@[p]].len,
            self.roots@[p] + self.inner.live()[self.roots@[p]].len <= usize::MAX + 1,
            forall|a: int|
                placement::in_share(self.roots@, self.inner.live(), p, a)
                    ==> self.inner.region().contains(a),
            p % (self.live@[p].layout.align() as int) == 0,
            self.displaces(self.live@[p].layout) ==> self.roots@[p] + self.cache_line_size <= p,
            self.displaces(self.live@[p].layout) ==> p - self.roots@[p] <= self.associativity
                * self.cache_line_size,
            self.cache_line_size >= 8,
    {
        let g = self.live@[p];
        let q = self.roots@[p];
        self.inner.live_blocks();
        assert(self.inner.live().contains_key(q));
        allocator::lemma_in_block(self.inner.live(), q);
        if self.displaces(g.layout) {
            let line = self.cache_line_size as int;
            let d = p - q - line;
            layout::lemma_layout_of(g.layout.size() + self.associativity * line, line);
            assert(self.inner.live()[q].layout.align() == line) by {
                assert(self.associativity * line == line * self.associativity) by (nonlinear_arith);
                assert(0 <= self.associativity * line) by (nonlinear_arith)
                    requires
                        line >= 0,
                ;
            }
            assert(q % line == 0);
            vstd::arithmetic::div_mod::lemma_mod_add_multiples_vanish(q, line);
            vstd::arithmetic::div_mod::lemma_add_mod_noop(q + line, d, line);
            vstd::arithmetic::div_mod::lemma_small_mod(0, line as nat);
            assert(p % line == 0);
            bits::lemma_aligned_weaker(p, self.cache_line_size, g.layout.align());
        }
    }

    /// A block whose share of memory is untouched, and on which the wrapped allocator has
    /// not changed its mind, meets with the same verdict as before.
    proof fn lemma_kept(&self, after: &Self, m: Map<int, u8>, m2: Map<int, u8>, r: int)
        requires
            self.wf(),
            self.live@.contains_key(r),
            after.live@[r] == self.live@[r],
            after.roots@[r] == self.roots@[r],
            after.mac_key == self.mac_key,
            after.cache_line_size == self.cache_line_size,
            after.associativity == self.associativity,
            forall|a: int|
                #![trigger m2[a]]
                placement::in_share(self.roots@, self.inner.live(), r, a) ==> m2[a] == m[a],
            after.inner.verdict(m2, self.roots@[r]) == self.inner.verdict(m, self.roots@[r]),
        ensures
            after.verdict(m2, r) == self.verdict(m, r),
    {
        self.lemma_share(r);
        if self.displaces(self.live@[r].layout) {
            assert forall|a: int| r - 8 <= a < r + 8 - 8 implies m[a] == m2[a] by {
                assert(placement::in_share(self.roots@, self.inner.live(), r, a));
            }
            memory::lemma_word_frame(m, m2, r - 8);
        }
    }

    /// What holds once the wrapped allocator has been given back, or has refused to take
    /// back, the share of the block at `p`.
    proof fn lemma_after_free(&self, after: &Self, m: Map<int, u8>, m2: Map<int, u8>, p: int)
        requires
            self.wf(),
            self.live@.contains_key(p),
            allocator::backed(self.inner.region(), m),
            after.inner.wf(),
            after.inner.region() == self.inner.region(),
            after.mac_key == self.mac_key,
            after.cache_line_size == self.cache_line_size,
            after.associativity == self.associativity,
            after.rng == self.rng,
            after.roots@ == self.roots@,
            allocator::same_elsewhere(self.inner.region(), m, m2),
            allocator::same_inside(self.inner.live().remove(self.roots@[p]), m, m2),
            forall|q: int| #[trigger]
                self.inner.live().remove(self.roots@[p]).contains_key(q) ==> after.inner.verdict(
                    m2,
                    q,
                ) == self.inner.verdict(m, q),
            ({
                &&& after.live@ == self.live@.remove(p)
                &&& after.inner.live() == self.inner.live().remove(self.roots@[p])
            }) || ({
                &&& after.live@ == self.live@
                &&& after.inner.live() == self.inner.live()
            }),
        ensures
            after.wf(),
            allocator::same_inside(self.live@.remove(p), m, m2),
            forall|r: int| #[trigger]
                self.live@.remove(p).contains_key(r) ==> after.verdict(m2, r) == self.verdict(
                    m,
                    r,
                ),
    {
        let rest = self.live@.remove(p);
        let inner_rest = self.inner.live().remove(self.roots@[p]);
        self.inner.live_blocks();
        self.lemma_share(p);
        placement::lemma_placed(self.live@, self.roots@, self.inner.live());
        placement::lemma_placed_free(self.live@, self.roots@, self.inner.live(), p);
        assert(after.wf());
        assert forall|r: int| #[trigger] rest.contains_key(r) implies after.verdict(m2, r)
            == self.verdict(m, r) && forall|a: int|
            #![trigger m2[a]]
            placement::in_share(self.roots@, self.inner.live(), r, a) ==> m2[a] == m[a] by {
            self.lemma_share(r);
            assert(inner_rest.contains_key(self.roots@[r]));
            allocator::lemma_in_block(inner_rest, self.roots@[r]);
            self.lemma_kept(after, m, m2, r);
        }
        assert forall|a: int|
            #![trigger m2[a]]
            m.contains_key(a) && allocator::in_blocks(rest, a) implies m[a] == m2[a] by {
            let r = choose|r: int| #[trigger] rest.contains_key(r) && r <= a < r + rest[r].len;
            self.lemma_share(r);
            assert(placement::in_share(self.roots@, self.inner.live(), r, a));
        }
    }

    /// What holds once the wrapped allocator has issued `b`, in which a block at `p` was
    /// placed, and bytes of `b` in front of `p` were written.
    proof fn lemma_after_issue(
        &self,
        after: &Self,
        m: Map<int, u8>,
        m1: Map<int, u8>,
        m2: Map<int, u8>,
        b: Block,
        outer: Grant,
        p: int,
        grant: Grant,
    )
        requires
            self.wf(),
            allocator::backed(self.inner.region(), m),
            after.inner.wf(),
            after.inner.region() == self.inner.region(),
            after.mac_key == self.mac_key,
            after.cache_line_size == self.cache_line_size,
            after.associativity == self.associativity,
            after.rng != 0,
            allocator::clear_of(self.inner.live(), b.addr as int, b.len as int),
            outer.len == b.len,
            after.inner.live() == self.inner.live().insert(b.addr as int, outer),
            allocator::same_elsewhere(self.inner.region(), m, m1),
            allocator::same_inside(self.inner.live(), m, m1),
            forall|q: int| #[trigger]
                self.inner.live().contains_key(q) ==> after.inner.verdict(m1, q)
                    == self.inner.verdict(m, q),
            after.live@ == self.live@.insert(p, grant),
            after.roots@ == self.roots@.insert(p, b.addr as int),
            grant.layout.valid(),
            grant.len >= grant.layout.size(),
            b.addr <= p,
            p + grant.len <= b.addr + b.len,
            !self.displaces(grant.layout) ==> p == b.addr && outer == grant && m2 == m1,
            self.displaces(grant.layout) ==> {
                &&& jitterable(
                    grant.layout,
                    self.cache_line_size as int,
                    self.associativity as int,
                )
                &&& outer.layout == jittered(
                    grant.layout,
                    self.cache_line_size as int,
                    self.associativity as int,
                )
                &&& grant.len == grant.layout.size()
                &&& b.addr + self.cache_line_size <= p
                &&& (p - b.addr - self.cache_line_size) % (self.cache_line_size as int) == 0
                &&& p - b.addr <= self.associativity * self.cache_line_size
                &&& m2 == memory::put_word(m1, p - 8, memory::word_at(m2, p - 8))
            },
        ensures
            after.wf(),
            allocator::same_elsewhere(self.inner.region(), m, m2),
            allocator::same_inside(self.live@, m, m2),
            allocator::clear_of(self.live@, p, grant.len as int),
            forall|r: int| #[trigger]
                self.live@.contains_key(r) ==> after.verdict(m2, r) == self.verdict(m, r),
            after.inner.verdict(m2, b.addr as int) == after.inner.verdict(m1, b.addr as int),
    {
        self.inner.live_blocks();
        after.inner.live_blocks();
        assert(after.inner.live().contains_key(b.addr as int));
        allocator::lemma_in_block(after.inner.live(), b.addr as int);
        assert(m2.dom() =~= m.dom());
        placement::lemma_placed(self.live@, self.roots@, self.inner.live());
        placement::lemma_placed_issue(
            self.live@,
            self.roots@,
            self.inner.live(),
            b,
            outer,
            p,
            grant,
        );
        assert(after.wf());
        let w = memory::word_bytes(memory::word_at(m2, p - 8));
        if self.displaces(grant.layout) {
            allocator::lemma_verdict_kept(
                &after.inner,
                m1,
                p - 8,
                w,
                b.addr as int,
                b.addr as int,
            );
        }
        assert forall|r: int| #[trigger] self.live@.contains_key(r) implies after.verdict(m2, r)
            == self.verdict(m, r) && forall|a: int|
            #![trigger m2[a]]
            placement::in_share(self.roots@, self.inner.live(), r, a) ==> m2[a] == m[a] by {
            self.lemma_share(r);
            allocator::lemma_in_block(self.inner.live(), self.roots@[r]);
            if self.displaces(grant.layout) {
                allocator::lemma_verdict_kept(
                    &after.inner,
                    m1,
                    p - 8,
                    w,
                    b.addr as int,
                    self.roots@[r],
                );
            }
            self.lemma_kept(after, m, m2, r);
        }
        assert forall|a: int|
            #![trigger m2[a]]
            m.contains_key(a) && allocator::in_blocks(self.live@, a) implies m[a] == m2[a] by {
            let r = choose|r: int| #[trigger]
                self.live@.contains_key(r) && r <= a < r + self.live@[r].len;
            self.lemma_share(r);
            assert(placement::in_share(self.roots@, self.inner.live(), r, a));
        }
    }
}

impl<I: Allocator> Deallocator for CacheJitter<I> {
    closed spec fn wf(&self) -> bool {
        &&& self.inner.wf()
        &&& self.params_ok()
        &&& placement::placed(self.live@, self.roots@, self.inner.live())
        &&& forall|p: int| #[trigger]
            self.live@.contains_key(p) ==> {
                let g = self.live@[p];
                let q = self.roots@[p];
                &&& g.layout.valid()
                &&& g.len >= g.layout.size()
                &&& !self.displaces(g.layout) ==> q == p && self.inner.live()[q] == g
                &&& self.displaces(g.layout) ==> {
                    &&& jitterable(
                        g.layout,
                        self.cache_line_size as int,
                        self.associativity as int,
                    )
                    &&& g.len == g.layout.size()
                    &&& self.inner.live()[q].layout == jittered(
                        g.layout,
                        self.cache_line_size as int,
                        self.associativity as int,
                    )
                    &&& q + self.cache_line_size <= p
                    &&& (p - q - self.cache_line_size) % (self.cache_line_size as int) == 0
                    &&& p - q <= self.associativity * self.cache_line_size
                }
            }
    }

    open spec fn region(&self) -> Set<int> {
        self.inside().region()
    }

    closed spec fn live(&self) -> Map<int, Grant> {
        self.live@
    }

    open spec fn budget(&self) -> Option<usize> {
        self.inside().budget()
    }

    open spec fn residue(&self) -> Residue {
        self.inside().residue()
    }

    open spec fn events(&self) -> u64 {
        self.inside().events()
    }

    /// The header is checked first; where it names the block's own displacement, the
    /// wrapped allocator has its say on what it gets back.
    open spec fn verdict(&self, m: Map<int, u8>, p: int) -> Verdict {
        if !self.displaces(self.live()[p].layout) {
            self.inside().verdict(m, self.root(p))
        } else {
            match displacement_in(
                self.key(),
                self.cache_line_size() as int,
                self.associativity() as int,
                p as u64,
                memory::word_at(m, p - 8),
            ) {
                None => Verdict::Caught(Corruption::JitterHeader),
                Some(d) => if p - (self.cache_line_size() + d) == self.root(p) {
                    self.inside().verdict(m, self.root(p))
                } else {
                    Verdict::Forged
                },
            }
        }
    }

    open spec fn freed(&self, m: Map<int, u8>, p: int) -> Map<int, u8> {
        if self.displaces(self.live()[p].layout) && displacement_in(
            self.key(),
            self.cache_line_size() as int,
            self.associativity() as int,
            p as u64,
            memory::word_at(m, p - 8),
        ) is None {
            m
        } else {
            self.inside().freed(m, self.root(p))
        }
    }

    open spec fn after_return(&self, m: Map<int, u8>, p: int, next: Self) -> bool {
        &&& next.key() == self.key()
        &&& next.state() == self.state()
        &&& next.cache_line_size() == self.cache_line_size()
        &&& next.associativity() == self.associativity()
        &&& forall|q: int| #[trigger] self.live().contains_key(q) ==> next.root(q) == self.root(q)
        &&& if self.displaces(self.live()[p].layout) && displacement_in(
            self.key(),
            self.cache_line_size() as int,
            self.associativity() as int,
            p as u64,
            memory::word_at(m, p - 8),
        ) is None {
            next == *self
        } else {
            self.inside().after_return(m, self.root(p), next.inside())
        }
    }

    proof fn live_blocks(&self) {
        self.inner.live_blocks();
        placement::lemma_placed(self.live@, self.roots@, self.inner.live());
        assert forall|p: int| #[trigger] self.live().contains_key(p) implies allocator::serves(
            p,
            self.live()[p],
        ) by {
            self.lemma_share(p);
        }
    }

    proof fn bookkeeping_apart(&self, m1: Map<int, u8>, m2: Map<int, u8>, p: int) {
        self.inner.live_blocks();
        self.lemma_share(p);
        placement::lemma_placed(self.live@, self.roots@, self.inner.live());
        if self.displaces(self.live@[p].layout) {
            assert forall|a: int| p - 8 <= a < p - 8 + 8 implies m1[a] == m2[a] by {
                assert(placement::in_share(self.roots@, self.inner.live(), p, a));
            }
            memory::lemma_word_frame(m1, m2, p - 8);
        }
        self.inner.bookkeeping_apart(m1, m2, self.roots@[p]);
    }

    fn deallocate<M: Memory>(&mut self, mem: &mut M, ptr: usize, layout: NonZeroLayout) -> (r:
        Result<(), Corruption>)
    {
        let ghost p = ptr as int;
        let ghost m0 = mem.view();
        let ghost s0 = *self;
        proof {
            self.lemma_share(p);
            self.inner.live_blocks();
            placement::lemma_placed(self.live@, self.roots@, self.inner.live());
        }
        let inner_layout = match inner_layout_for(
            layout,
            self.cache_line_size,
            self.jitter_prefix(),
        ) {
            None => {
                return match self.inner.deallocate(mem, ptr, layout) {
                    Ok(_) => {
                        self.live = Ghost(self.live@.remove(p));
                        proof {
                            s0.lemma_after_free(self, m0, mem.view(), p);
                        }
                        Ok(())
                    },
                    Err(c) => {
                        proof {
                            s0.lemma_after_free(self, m0, mem.view(), p);
                        }
                        Err(c)
                    },
                };
            },
            Some(Ok(l)) => l,
            Some(Err(_)) => {
                assert(false);
                return Err(Corruption::JitterHeader);
            },
        };
        assert forall|a: int| p - 8 <= a < p - 8 + 8 implies #[trigger] mem.view().contains_key(a) by {
            assert(placement::in_share(self.roots@, self.inner.live(), p, a));
        }
        let found: u64 = load_word(mem, ptr - JITTER_HEADER_SIZE);
        let displacement: usize = match self.unpack_header(ptr, found) {
            Ok(d) => d,
            Err(_) => {
                return Err(Corruption::JitterHeader);
            },
        };
        let inner_ptr: usize = ptr - (self.cache_line_size + displacement);
        match self.inner.deallocate(mem, inner_ptr, inner_layout) {
            Ok(_) => {
                self.live = Ghost(self.live@.remove(p));
                proof {
                    s0.lemma_after_free(self, m0, mem.view(), p);
                }
                Ok(())
            },
            Err(c) => {
                proof {
                    s0.lemma_after_free(self, m0, mem.view(), p);
                }
                Err(c)
            },
        }
    }
}

impl<I: Allocator> Allocator for CacheJitter<I> {
    open spec fn outcome(&self, layout: NonZeroLayout) -> Option<Block> {
        let line = self.cache_line_size() as int;
        let assoc = self.associativity() as int;
        if !self.displaces(layout) {
            self.inside().outcome(layout)
        } else if jitterable(layout, line, assoc) {
            match self.inside().outcome(jittered(layout, line, assoc)) {
                Some(b) => Some(
                    Block {
                        addr: (b.addr + line + self.next_lines() * line) as usize,
                        len: layout.size(),
                    },
                ),
                None => None,
            }
        } else {
            None
        }
    }

    open spec fn issued(&self, m: Map<int, u8>, layout: NonZeroLayout) -> Map<int, u8> {
        let line = self.cache_line_size() as int;
        let assoc = self.associativity() as int;
        if !self.displaces(layout) {
            self.inside().issued(m, layout)
        } else {
            let b = self.inside().outcome(jittered(layout, line, assoc))->0;
            let addr = b.addr + line + self.next_lines() * line;
            memory::put_word(
                self.inside().issued(m, jittered(layout, line, assoc)),
                addr - 8,
                header(self.key(), addr as u64, self.next_lines() as u64),
            )
        }
    }

    open spec fn usable(&self, p: int, layout: NonZeroLayout) -> Option<usize> {
        None
    }

    open spec fn resettable(&self) -> bool {
        false
    }

    open spec fn after_issue(&self, layout: NonZeroLayout, next: Self) -> bool {
        let line = self.cache_line_size() as int;
        let assoc = self.associativity() as int;
        &&& next.key() == self.key()
        &&& next.cache_line_size() == self.cache_line_size()
        &&& next.associativity() == self.associativity()
        &&& next.state() == if self.outcome(layout) is Some && self.displaces(layout) {
            next_state(self.state())
        } else {
            self.state()
        }
        &&& forall|q: int| #[trigger] self.live().contains_key(q) ==> next.root(q) == self.root(q)
        &&& if !self.displaces(layout) {
            &&& self.inside().after_issue(layout, next.inside())
            &&& self.outcome(layout) matches Some(b) ==> next.root(b.addr as int) == b.addr
        } else if jitterable(layout, line, assoc) {
            let inner = jittered(layout, line, assoc);
            &&& self.inside().after_issue(inner, next.inside())
            &&& self.outcome(layout) matches Some(b) ==> next.root(b.addr as int)
                == self.inside().outcome(inner)->0.addr
        } else {
            next == *self
        }
    }

    open spec fn after_reset(&self, next: Self) -> bool {
        false
    }

    fn allocate<M: Memory>(&mut self, mem: &mut M, layout: NonZeroLayout) -> (r: Result<
        Block,
        AllocError,
    >)
    {
        let ghost s0 = *self;
        let ghost m0 = mem.view();
        let size: usize = layout.size();
        let inner_layout = match inner_layout_for(
            layout,
            self.cache_line_size,
            self.jitter_prefix(),
        ) {
            None => {
                return match self.inner.allocate(mem, layout) {
                    Ok(b) => {
                        let ghost grant = Grant { layout, len: b.len };
                        self.live = Ghost(self.live@.insert(b.addr as int, grant));
                        self.roots = Ghost(self.roots@.insert(b.addr as int, b.addr as int));
                        proof {
                            self.inner.live_blocks();
                            assert(self.inner.live().contains_key(b.addr as int));
                            s0.lemma_after_issue(
                                self,
                                m0,
                                mem.view(),
                                mem.view(),
                                b,
                                grant,
                                b.addr as int,
                                grant,
                            );
                        }
                        Ok(b)
                    },
                    Err(e) => {
                        proof {
                            s0.lemma_refused(self, m0);
                        }
                        Err(e)
                    },
                };
            },
            Some(Ok(l)) => l,
            Some(Err(e)) => {
                return Err(e);
            },
        };
        let block = match self.inner.allocate(mem, inner_layout) {
            Ok(b) => b,
            Err(e) => {
                proof {
                    s0.lemma_refused(self, m0);
                }
                return Err(e);
            },
        };
        let ghost m1 = mem.view();
        proof {
            self.inner.live_blocks();
            assert(self.inner.live().contains_key(block.addr as int));
            allocator::lemma_in_block(self.inner.live(), block.addr as int);
            displacement_in_window(next_state(self.rng), self.associativity as int);
            let line = self.cache_line_size as int;
            assert(line + (self.associativity - 1) * line == self.associativity * line)
                by (nonlinear_arith);
            vstd::arithmetic::div_mod::lemma_mod_multiples_basic(s0.next_lines(), line);
            vstd::arithmetic::div_mod::lemma_div_by_multiple(s0.next_lines(), line);
        }
        let displacement: usize = self.next_displacement();
        let user: usize = block.addr + self.cache_line_size + displacement;
        let head: u64 = self.pack_header(user, displacement);
        store_word(mem, user - JITTER_HEADER_SIZE, head);
        let ghost grant = Grant { layout, len: size };
        self.live = Ghost(self.live@.insert(user as int, grant));
        self.roots = Ghost(self.roots@.insert(user as int, block.addr as int));
        proof {
            let line = self.cache_line_size as int;
            memory::lemma_put_word(m1, user - 8, head);
            generator_stays_nonzero(s0.rng);
            s0.lemma_after_issue(
                self,
                m0,
                m1,
                mem.view(),
                block,
                Grant { layout: inner_layout, len: block.len },
                user as int,
                grant,
            );
            header_round_trip(
                self.mac_key,
                line,
                self.associativity as int,
                user as u64,
                s0.next_lines() as u64,
            );
        }
        Ok(Block { addr: user, len: size })
    }

    fn reset(&mut self) -> (r: Result<(), AllocError>) {
        Err(AllocError)
    }

    fn usable_size(&self, ptr: usize, layout: NonZeroLayout) -> (r: Option<usize>) {
        None
    }

    fn capacity_bytes(&self) -> (r: Option<usize>) {
        self.inner.capacity_bytes()
    }

    fn corruption_events(&self) -> (r: u64) {
        self.inner.corruption_events()
    }
}

impl<I: Allocator> CacheJitter<I> {
    /// A request that the wrapped allocator refuses changes nothing.
    proof fn lemma_refused(&self, after: &Self, m: Map<int, u8>)
        requires
            self.wf(),
            after.inner.wf(),
            after.inner.region() == self.inner.region(),
            after.inner.live() == self.inner.live(),
            after.mac_key == self.mac_key,
            after.cache_line_size == self.cache_line_size,
            after.associativity == self.associativity,
            after.rng == self.rng,
            after.live@ == self.live@,
            after.roots@ == self.roots@,
            forall|q: int| #[trigger]
                self.inner.live().contains_key(q) ==> after.inner.verdict(m, q)
                    == self.inner.verdict(m, q),
        ensures
            after.wf(),
            forall|r: int| #[trigger]
                self.live@.contains_key(r) ==> after.verdict(m, r) == self.verdict(m, r),
    {
        assert(after.wf());
        assert forall|r: int| #[trigger] self.live@.contains_key(r) implies after.verdict(m, r)
            == self.verdict(m, r) by {
            self.lemma_share(r);
            self.lemma_kept(after, m, m, r);
        }
    }
}

impl<I: FixedRange> FixedRange for CacheJitter<I> {
    open spec fn start(&self) -> usize {
        self.inside().start()
    }

    open spec fn extent(&self) -> usize {
        self.inside().extent()
    }

    open spec fn commits(&self, offset: int, len: int) -> bool {
        true
    }

    fn base(&self) -> (r: usize) {
        self.inner.base()
    }

    fn size(&self) -> (r: usize) {
        self.inner.size()
    }

    fn commit(&self, offset: usize, len: usize) -> (r: Result<(), AllocError>) {
        Ok(())
    }
}

impl<I: Allocator> CacheJitter<I> {
    /// Two wrappers with the same parameters and generator state, over allocators that
    /// answer alike, place the next block alike.
    pub proof fn same_seed_same_places(c1: &Self, c2: &Self, layout: NonZeroLayout)
        requires
            c1.cache_line_size() == c2.cache_line_size(),
            c1.associativity() == c2.associativity(),
            c1.state() == c2.state(),
            forall|l: NonZeroLayout| #[trigger]
                c1.inside().outcome(l) == c2.inside().outcome(l),
        ensures
            c1.outcome(layout) == c2.outcome(layout),
    {
    }

    /// The parameters are those that construction accepts, and the generator is never stuck.
    pub proof fn parameters_are_kept(&self)
        requires
            self.wf(),
        ensures
            is_pow2(self.cache_line_size() as int),
            self.cache_line_size() >= 8,
            1 <= self.associativity() <= 0xFFFF,
            self.cache_line_size() * self.associativity() <= usize::MAX,
            self.state() != 0,
    {
    }

    /// Every displaced block lies past its header's line by a whole number of lines, fewer
    /// than the associativity.
    pub proof fn displacement_is_bounded(&self, p: int)
        requires
            self.wf(),
            self.live().contains_key(p),
            self.displaces(self.live()[p].layout),
        ensures
            ({
                let d = p - self.root(p) - self.cache_line_size();
                &&& 0 <= d <= (self.associativity() - 1) * self.cache_line_size()
                &&& d % (self.cache_line_size() as int) == 0
            }),
    {
        assert((self.associativity - 1) * self.cache_line_size + self.cache_line_size
            == self.associativity * self.cache_line_size) by (nonlinear_arith);
    }
}

} // verus!
