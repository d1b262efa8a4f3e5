//! Bytes, words, ranges and blocks: what the words that contracts use come to, address by
//! address.

use crate::allocator;
use crate::allocator::{Grant, Residue};
use crate::fixed_range;
use crate::memory;
use vstd::arithmetic::power2::*;
use vstd::prelude::*;

verus! {

/// Writing bytes to memory changes the bytes written and nothing else, and makes no address
/// accessible or inaccessible.
pub proof fn writes_land_where_they_say(m: Map<int, u8>, at: int, s: Seq<u8>, a: int)
    ensures
        memory::overlay(m, at, s).contains_key(a) <==> m.contains_key(a),
        m.contains_key(a) && at <= a && a - at < s.len() ==> memory::overlay(m, at, s)[a] == s[a
            - at],
        m.contains_key(a) && (a < at || s.len() <= a - at) ==> memory::overlay(m, at, s)[a]
            == m[a],
{
}

/// What is written is what is read, and reading what is there and writing it back changes
/// nothing.
pub proof fn reads_give_back_writes(m: Map<int, u8>, at: int, s: Seq<u8>)
    requires
        memory::accessible(m, at, s.len() as int),
    ensures
        memory::span_of(memory::overlay(m, at, s), at, s.len() as int) == s,
        memory::overlay(m, at, memory::span_of(m, at, s.len() as int)) == m,
{
    assert(memory::span_of(memory::overlay(m, at, s), at, s.len() as int) =~= s);
    assert(memory::overlay(m, at, memory::span_of(m, at, s.len() as int)) =~= m);
}

/// Every byte read is the one at its address, and a run of copies holds nothing but copies.
pub proof fn runs_hold_their_bytes(m: Map<int, u8>, at: int, n: nat, b: u8, i: int)
    ensures
        memory::span_of(m, at, n as int).len() == n,
        memory::repeated(b, n as int).len() == n,
        0 <= i < n ==> memory::span_of(m, at, n as int)[i] == m[at + i],
        0 <= i < n ==> memory::repeated(b, n as int)[i] == b,
        memory::accessible(m, at, n as int) && 0 <= i < n ==> m.contains_key(at + i),
        !m.contains_key(at + i) && 0 <= i < n ==> !memory::accessible(m, at, n as int),
{
}

/// A word is stored low byte first: byte `i` is the digit for 256 to the power of `i`.
pub proof fn words_are_stored_low_byte_first(v: u64)
    ensures
        memory::word_bytes(v).len() == 8,
        memory::word_bytes(v)[0] as int + memory::word_bytes(v)[1] * 0x100
            + memory::word_bytes(v)[2] * 0x1_0000 + memory::word_bytes(v)[3] * 0x100_0000
            + memory::word_bytes(v)[4] * 0x1_0000_0000 + memory::word_bytes(v)[5]
            * 0x100_0000_0000 + memory::word_bytes(v)[6] * 0x1_0000_0000_0000
            + memory::word_bytes(v)[7] * 0x100_0000_0000_0000 == v,
        memory::bytes_word(memory::word_bytes(v)) == v,
{
    memory::lemma_word_round_trip(v);
    let b0: u8 = (v & 0xff) as u8;
    let b1: u8 = ((v >> 8) & 0xff) as u8;
    let b2: u8 = ((v >> 16) & 0xff) as u8;
    let b3: u8 = ((v >> 24) & 0xff) as u8;
    let b4: u8 = ((v >> 32) & 0xff) as u8;
    let b5: u8 = ((v >> 40) & 0xff) as u8;
    let b6: u8 = ((v >> 48) & 0xff) as u8;
    let b7: u8 = ((v >> 56) & 0xff) as u8;
    assert(b0 as int + b1 * 0x100 + b2 * 0x1_0000 + b3 * 0x100_0000 + b4 * 0x1_0000_0000 + b5
        * 0x100_0000_0000 + b6 * 0x1_0000_0000_0000 + b7 * 0x100_0000_0000_0000 == v)
        by (bit_vector)
        requires
            b0 == (v & 0xff) as u8,
            b1 == ((v >> 8) & 0xff) as u8,
            b2 == ((v >> 16) & 0xff) as u8,
            b3 == ((v >> 24) & 0xff) as u8,
            b4 == ((v >> 32) & 0xff) as u8,
            b5 == ((v >> 40) & 0xff) as u8,
            b6 == ((v >> 48) & 0xff) as u8,
            b7 == ((v >> 56) & 0xff) as u8,
    ;
}

/// The word at an address is made of the eight bytes from there on, and of nothing else;
/// storing a word changes these eight bytes and nothing else.
pub proof fn words_take_eight_bytes(m: Map<int, u8>, at: int, v: u64, a: int)
    requires
        memory::accessible(m, at, 8),
    ensures
        memory::word_at(memory::put_word(m, at, v), at) == v,
        memory::put_word(m, at, v).contains_key(a) <==> m.contains_key(a),
        m.contains_key(a) && !(at <= a <= at + 7) ==> memory::put_word(m, at, v)[a] == m[a],
        at <= a <= at + 7 ==> memory::put_word(m, at, v)[a] == memory::word_bytes(v)[a - at],
        memory::word_bytes(memory::word_at(m, at)) == memory::span_of(m, at, 8),
{
    memory::lemma_put_word(m, at, v);
    memory::lemma_bytes_round_trip(memory::span_of(m, at, 8));
}

/// A range holds exactly the addresses that are reached by counting on from its start, round
/// the end of the address space where it comes to that.
pub proof fn ranges_count_on_from_their_start(base: usize, size: usize, p: usize)
    ensures
        fixed_range::in_range(base, size, p) <==> exists|i: int|
            0 <= i < size && p as int == #[trigger] ((base + i) % (usize::MAX + 1)),
{
    let top = usize::MAX + 1;
    let i = if p >= base {
        p - base
    } else {
        p + top - base
    };
    assert((base + i) % top == p) by {
        if p >= base {
            vstd::arithmetic::div_mod::lemma_small_mod(p as nat, top as nat);
        } else {
            vstd::arithmetic::div_mod::lemma_mod_add_multiples_vanish(p as int, top);
            vstd::arithmetic::div_mod::lemma_small_mod(p as nat, top as nat);
            assert(base + i == top + p);
        }
    }
    if exists|j: int| 0 <= j < size && p as int == #[trigger] ((base + j) % top) {
        let j = choose|j: int| 0 <= j < size && p as int == #[trigger] ((base + j) % top);
        if base + j < top {
            vstd::arithmetic::div_mod::lemma_small_mod((base + j) as nat, top as nat);
        } else {
            vstd::arithmetic::div_mod::lemma_mod_sub_multiples_vanish(base + j, top);
            vstd::arithmetic::div_mod::lemma_small_mod((base + j - top) as nat, top as nat);
        }
        assert(j == i);
    }
    if fixed_range::in_range(base, size, p) {
        assert(0 <= i < size && p as int == (base + i) % top);
    }
}

/// An address lies in one of the blocks exactly if some block starts at or below it and ends
/// above it; where no two blocks overlap it lies in one block at most.
pub proof fn blocks_hold_their_bytes(live: Map<int, Grant>, a: int, p: int, q: int)
    ensures
        live.contains_key(p) && p <= a && a - p < live[p].len ==> allocator::in_blocks(live, a),
        allocator::in_blocks(live, a) ==> exists|r: int|
            #![trigger live.contains_key(r)]
            live.contains_key(r) && r <= a && a - r < live[r].len,
        allocator::apart(live) && live.contains_key(p) && live.contains_key(q) && p <= a && a - p
            < live[p].len && q <= a && a - q < live[q].len ==> p == q,
        forall|addr: int, len: int| #[trigger]
            allocator::clear_of(live, addr, len) && addr <= a && a - addr < len
                ==> !allocator::in_blocks(live, a),
        (forall|x: int, y: int| #[trigger]
            live.contains_key(x) && #[trigger] live.contains_key(y) && x < y ==> x + live[x].len
                <= y) ==> allocator::apart(live),
        (forall|x: int| #[trigger]
            live.contains_key(x) ==> a + p <= x || x + live[x].len <= a) ==> allocator::clear_of(
            live,
            a,
            p,
        ),
{
    if allocator::in_blocks(live, a) {
        let r = choose|r: int| #[trigger] live.contains_key(r) && r <= a < r + live[r].len;
        assert(live.contains_key(r) && r <= a && a - r < live[r].len);
    }
}

/// A block that serves its request is not null, does not wrap round the address space, has
/// at least the bytes asked for, and starts at a multiple of the alignment asked for, which
/// is a power of two.
pub proof fn blocks_serve_their_requests(p: int, g: Grant)
    requires
        allocator::serves(p, g),
    ensures
        p >= 1,
        p + g.len - 1 <= usize::MAX,
        g.layout.size() <= g.len,
        g.layout.size() >= 1,
        is_pow2(g.layout.align() as int),
        g.layout.align() >= 1,
        exists|k: int| p == #[trigger] (k * g.layout.align()),
{
    reveal(is_pow2);
    let a = g.layout.align() as int;
    vstd::arithmetic::div_mod::lemma_fundamental_div_mod(p, a);
    vstd::arithmetic::mul::lemma_mul_is_commutative(a, p / a);
    assert(p == (p / a) * g.layout.align());
}

/// Every such block serves its request, and bytes that are all there are accessible.
pub proof fn fitting_blocks_serve(p: int, g: Grant, k: int, m: Map<int, u8>, at: int, n: int)
    ensures
        g.layout.valid() && p >= 1 && p + g.len - 1 <= usize::MAX && g.layout.size() <= g.len && p
            == k * g.layout.align() ==> allocator::serves(p, g),
        (forall|a: int| at <= a < at + n ==> #[trigger] m.contains_key(a)) ==> memory::accessible(
            m,
            at,
            n,
        ),
        memory::accessible(m, at, n) ==> forall|a: int|
            at <= a < at + n ==> #[trigger] m.contains_key(a),
{
    if g.layout.valid() {
        reveal(is_pow2);
        vstd::arithmetic::div_mod::lemma_mod_multiples_basic(k, g.layout.align() as int);
    }
}

/// Memory that is the same inside the blocks, outside them or elsewhere than in a region has
/// the same byte at every address that this speaks of.
pub proof fn unchanged_bytes_are_equal(
    live: Map<int, Grant>,
    region: Set<int>,
    m1: Map<int, u8>,
    m2: Map<int, u8>,
    a: int,
)
    requires
        m1.contains_key(a),
    ensures
        allocator::same_inside(live, m1, m2) && allocator::in_blocks(live, a) ==> m1[a] == m2[a],
        allocator::same_outside(live, m1, m2) && !allocator::in_blocks(live, a) ==> m1[a] == m2[a],
        allocator::same_outside(live, m1, m2) ==> m2.contains_key(a),
        allocator::same_elsewhere(region, m1, m2) && !region.contains(a) ==> m1[a] == m2[a],
        allocator::same_elsewhere(region, m1, m2) ==> m2.contains_key(a),
        allocator::backed(region, m1) ==> forall|x: int|
            region.contains(x) ==> #[trigger] m1.contains_key(x),
{
}

/// Where every byte that is spoken of is the same, memory counts as unchanged there.
pub proof fn equal_bytes_are_unchanged(
    live: Map<int, Grant>,
    region: Set<int>,
    m1: Map<int, u8>,
    m2: Map<int, u8>,
)
    ensures
        (forall|a: int|
            #![trigger m1[a]]
            m1.contains_key(a) && allocator::in_blocks(live, a) ==> m1[a] == m2[a])
            ==> allocator::same_inside(live, m1, m2),
        m1.dom() == m2.dom() && (forall|a: int|
            #![trigger m1[a]]
            m1.contains_key(a) && !allocator::in_blocks(live, a) ==> m1[a] == m2[a])
            ==> allocator::same_outside(live, m1, m2),
        m1.dom() == m2.dom() && (forall|a: int|
            #![trigger m1[a]]
            m1.contains_key(a) && !region.contains(a) ==> m1[a] == m2[a])
            ==> allocator::same_elsewhere(region, m1, m2),
        (forall|a: int| #[trigger] region.contains(a) ==> m1.contains_key(a)) ==> allocator::backed(
            region,
            m1,
        ),
{
}

/// What a block leaves behind is, byte by byte, what it held or the byte it is filled with.
pub proof fn residue_is_byte_by_byte(
    m: Map<int, u8>,
    m2: Map<int, u8>,
    at: int,
    n: int,
    b: u8,
    i: int,
)
    requires
        0 <= i < n,
    ensures
        allocator::left_behind(Residue::Kept, m, m2, at, n) ==> m2[at + i] == m[at + i],
        allocator::left_behind(Residue::Filled(b), m, m2, at, n) ==> m2[at + i] == b,
{
}

} // verus!
