//! Displaced blocks: how far they are displaced, and how their headers are told from others.

use crate::allocator::{Allocator, Block, Corruption, Deallocator, Verdict};
use crate::hardening::cache_jitter;
use crate::hardening::CacheJitter;
use crate::layout;
use crate::layout::NonZeroLayout;
use crate::memory;
use vstd::arithmetic::power2::*;
use vstd::prelude::*;

verus! {

/// The generator is linear over the bits of its state, takes no two states to the same one,
/// and leads one to 0x40822041.
pub proof fn generator_is_linear(x: u64, y: u64)
    ensures
        cache_jitter::next_state(x ^ y) == cache_jitter::next_state(x) ^ cache_jitter::next_state(
            y,
        ),
        x != y ==> cache_jitter::next_state(x) != cache_jitter::next_state(y),
        cache_jitter::next_state(1) == 0x40822041,
{
    let d = x ^ y;
    assert(({
        let d1 = d ^ (d << 13);
        let d2 = d1 ^ (d1 >> 7);
        d2 ^ (d2 << 17)
    }) == ({
        let x1 = x ^ (x << 13);
        let x2 = x1 ^ (x1 >> 7);
        x2 ^ (x2 << 17)
    }) ^ ({
        let y1 = y ^ (y << 13);
        let y2 = y1 ^ (y1 >> 7);
        y2 ^ (y2 << 17)
    })) by (bit_vector)
        requires
            d == x ^ y,
    ;
    assert(x != y ==> d != 0) by (bit_vector)
        requires
            d == x ^ y,
    ;
    if x != y {
        cache_jitter::generator_stays_nonzero(d);
        let nx = cache_jitter::next_state(x);
        let ny = cache_jitter::next_state(y);
        assert(nx == ny ==> nx ^ ny == 0) by (bit_vector);
    }
    assert(({
        let x1 = 1u64 ^ (1u64 << 13);
        let x2 = x1 ^ (x1 >> 7);
        x2 ^ (x2 << 17)
    }) == 0x40822041) by (bit_vector);
}

/// The displacement is the number of whole parts that lie below the generator's output, where
/// the range of `u64` is cut into as many equal parts as there are lines.
pub proof fn displacement_is_proportional(x: u64, associativity: int, lines: int)
    requires
        associativity > 0,
    ensures
        lines == cache_jitter::lines_for(x, associativity) <==> {
            &&& lines * 0x1_0000_0000_0000_0000 <= x * associativity
            &&& x * associativity < (lines + 1) * 0x1_0000_0000_0000_0000
        },
{
    let top = 0x1_0000_0000_0000_0000int;
    let n = x * associativity;
    let q = cache_jitter::lines_for(x, associativity);
    vstd::arithmetic::div_mod::lemma_fundamental_div_mod(n, top);
    assert(q * top <= n < (q + 1) * top) by (nonlinear_arith)
        requires
            n == top * q + n % top,
            0 <= n % top < top,
    ;
    if lines * top <= n && n < (lines + 1) * top {
        assert(lines == q) by (nonlinear_arith)
            requires
                lines * top <= n < (lines + 1) * top,
                q * top <= n < (q + 1) * top,
                top > 0,
        ;
    }
}

/// The seed is used as it is, unless it is zero, and never as zero.
pub proof fn seeds_are_used_as_given(seed: u64)
    ensures
        seed != 0 ==> cache_jitter::effective_seed(seed) == seed,
        cache_jitter::effective_seed(seed) != 0,
        cache_jitter::effective_seed(0) == 0x9E37_79B9_7F4A_7C15,
{
}

/// Blocks can be displaced by cache lines of a power of two of at least eight bytes, of which
/// there are between one and 65535, all of them within the address space. The generator
/// starts from the seed.
pub proof fn cache_parameters_are_kept<I: Allocator>(
    inner: I,
    line: usize,
    associativity: usize,
    seed: u64,
    r: Option<CacheJitter<I>>,
)
    requires
        call_ensures(CacheJitter::<I>::with_params, (inner, line, associativity, seed), r),
    ensures
        r is Some <==> is_pow2(line as int) && line >= 8 && 0 < associativity <= 65535 && line
            * associativity <= usize::MAX,
        r is Some ==> {
            &&& r->0.inside() == inner
            &&& r->0.cache_line_size() == line
            &&& r->0.associativity() == associativity
            &&& seed != 0 ==> r->0.state() == seed
            &&& seed == 0 ==> r->0.state() == 0x9E37_79B9_7F4A_7C15
            &&& forall|p: int| !(#[trigger] r->0.live().contains_key(p))
        },
{
}

/// A header holds the displacement in its low 16 bits and the high 48 bits of the mix in its
/// high 48 bits.
pub proof fn headers_hold_displacement_and_mix(key: u64, addr: u64, lines: u64)
    requires
        lines <= 0xFFFF,
    ensures
        cache_jitter::header(key, addr, lines) % 0x1_0000 == lines,
        cache_jitter::header(key, addr, lines) / 0x1_0000 == cache_jitter::mix(key, addr, lines)
            / 0x1_0000,
{
    let v = cache_jitter::mix(key, addr, lines);
    let h = cache_jitter::header(key, addr, lines);
    assert(h % 0x1_0000 == lines && h / 0x1_0000 == v / 0x1_0000) by (bit_vector)
        requires
            h == ((v >> 16) << 16) | (lines & 0xFFFF),
            lines <= 0xFFFF,
    ;
}

/// Multiplying by an odd number round the word takes no two numbers to the same one.
proof fn lemma_odd_product(a: u64, b: u64, c: u64, inverse: u64)
    requires
        c * inverse % 0x1_0000_0000_0000_0000 == 1,
        a.wrapping_mul(c) == b.wrapping_mul(c),
    ensures
        a == b,
{
    let top = 0x1_0000_0000_0000_0000int;
    let (x, y, k, i) = (a as int, b as int, c as int, inverse as int);
    assert((x * k) % top == (y * k) % top);
    lemma_undo(x, k, i);
    lemma_undo(y, k, i);
}

proof fn lemma_undo(x: int, k: int, i: int)
    requires
        (k * i) % 0x1_0000_0000_0000_0000 == 1,
        0 <= x < 0x1_0000_0000_0000_0000,
    ensures
        (((x * k) % 0x1_0000_0000_0000_0000) * i) % 0x1_0000_0000_0000_0000 == x,
{
    let top = 0x1_0000_0000_0000_0000int;
    vstd::arithmetic::div_mod::lemma_mul_mod_noop_left(x * k, i, top);
    vstd::arithmetic::mul::lemma_mul_is_associative(x, k, i);
    vstd::arithmetic::div_mod::lemma_mul_mod_noop_right(x, k * i, top);
    vstd::arithmetic::div_mod::lemma_small_mod(x as nat, top as nat);
}

/// Two seeds never have the same key.
pub proof fn keys_tell_seeds_apart(s: u64, t: u64)
    requires
        s != t,
    ensures
        cache_jitter::key_of(s) != cache_jitter::key_of(t),
{
    if cache_jitter::key_of(s) == cache_jitter::key_of(t) {
        let c = 0x9E37_79B9_7F4A_7C15u64;
        let (s0, t0) = (s.wrapping_add(c), t.wrapping_add(c));
        let (s1, t1) = (s0 ^ (s0 >> 30), t0 ^ (t0 >> 30));
        let (s2, t2) = (
            s1.wrapping_mul(0xBF58_476D_1CE4_E5B9),
            t1.wrapping_mul(0xBF58_476D_1CE4_E5B9),
        );
        let (s3, t3) = (s2 ^ (s2 >> 27), t2 ^ (t2 >> 27));
        let (s4, t4) = (
            s3.wrapping_mul(0x94D0_49BB_1331_11EB),
            t3.wrapping_mul(0x94D0_49BB_1331_11EB),
        );
        lemma_fold(s4, t4, 31);
        lemma_odd_product(s3, t3, 0x94D0_49BB_1331_11EB, 0x3196_42B2_D24D_8EC3);
        lemma_fold(s2, t2, 27);
        lemma_odd_product(s1, t1, 0xBF58_476D_1CE4_E5B9, 0x96DE_1B17_3F11_9089);
        lemma_fold(s0, t0, 30);
    }
}

/// Folding the high bits of a word onto its low bits takes no two words to the same one.
proof fn lemma_fold(a: u64, b: u64, k: u64)
    requires
        27 <= k <= 31,
        a ^ (a >> k) == b ^ (b >> k),
    ensures
        a == b,
{
    assert(a == b) by (bit_vector)
        requires
            27 <= k <= 31,
            a ^ (a >> k) == b ^ (b >> k),
    ;
}

/// The words from which the mixes for two displacements come are the same.
proof fn lemma_mix_tail(x: u64, y: u64)
    requires
        ({
            let x2 = x.wrapping_mul(0xBF58_476D_1CE4_E5B9);
            let x3 = (x2 ^ (x2 >> 27)).wrapping_mul(0x94D0_49BB_1331_11EB);
            let y2 = y.wrapping_mul(0xBF58_476D_1CE4_E5B9);
            let y3 = (y2 ^ (y2 >> 27)).wrapping_mul(0x94D0_49BB_1331_11EB);
            x3 ^ (x3 >> 31) == y3 ^ (y3 >> 31)
        }),
    ensures
        x == y,
{
    let x2 = x.wrapping_mul(0xBF58_476D_1CE4_E5B9);
    let x3 = (x2 ^ (x2 >> 27)).wrapping_mul(0x94D0_49BB_1331_11EB);
    let y2 = y.wrapping_mul(0xBF58_476D_1CE4_E5B9);
    let y3 = (y2 ^ (y2 >> 27)).wrapping_mul(0x94D0_49BB_1331_11EB);
    lemma_fold(x3, y3, 31);
    lemma_odd_product(
        x2 ^ (x2 >> 27),
        y2 ^ (y2 >> 27),
        0x94D0_49BB_1331_11EB,
        0x3196_42B2_D24D_8EC3,
    );
    lemma_fold(x2, y2, 27);
    lemma_odd_product(x, y, 0xBF58_476D_1CE4_E5B9, 0x96DE_1B17_3F11_9089);
}

/// The mix tells any two displacements of a block apart, and no three addresses have the same
/// mix. Key and address count alike: only where they differ matters.
pub proof fn mixes_tell_blocks_apart(
    key: u64,
    addr: u64,
    lines: u64,
    other_lines: u64,
    second: u64,
    third: u64,
)
    ensures
        lines != other_lines ==> cache_jitter::mix(key, addr, lines) != cache_jitter::mix(
            key,
            addr,
            other_lines,
        ),
        addr != second && addr != third && second != third ==> !(cache_jitter::mix(key, addr, lines)
            == cache_jitter::mix(key, second, lines) && cache_jitter::mix(key, addr, lines)
            == cache_jitter::mix(key, third, lines)),
        cache_jitter::mix(key, addr, lines) == cache_jitter::mix(addr, key, lines),
{
    let c = 0x9E37_79B9_7F4A_7C15u64;
    let a0 = (key ^ addr).wrapping_mul(c);
    let a1 = a0 ^ ((a0 << 31) | (a0 >> 33));
    if cache_jitter::mix(key, addr, lines) == cache_jitter::mix(key, addr, other_lines) {
        lemma_mix_tail(a1 ^ lines, a1 ^ other_lines);
        assert(lines == other_lines) by (bit_vector)
            requires
                a1 ^ lines == a1 ^ other_lines,
        ;
    }
    if cache_jitter::mix(key, addr, lines) == cache_jitter::mix(key, second, lines)
        && cache_jitter::mix(key, addr, lines) == cache_jitter::mix(key, third, lines) {
        let b0 = (key ^ second).wrapping_mul(c);
        let b1 = b0 ^ ((b0 << 31) | (b0 >> 33));
        let d0 = (key ^ third).wrapping_mul(c);
        let d1 = d0 ^ ((d0 << 31) | (d0 >> 33));
        lemma_mix_tail(a1 ^ lines, b1 ^ lines);
        lemma_mix_tail(a1 ^ lines, d1 ^ lines);
        assert(a0 == b0 || a0 == d0 || b0 == d0) by (bit_vector)
            requires
                a1 ^ lines == b1 ^ lines,
                a1 ^ lines == d1 ^ lines,
                a1 == a0 ^ ((a0 << 31) | (a0 >> 33)),
                b1 == b0 ^ ((b0 << 31) | (b0 >> 33)),
                d1 == d0 ^ ((d0 << 31) | (d0 >> 33)),
        ;
        let i = 0xF1DE_83E1_9937_733Du64;
        let (ka, kb, kd) = (key ^ addr, key ^ second, key ^ third);
        if a0 == b0 {
            lemma_odd_product(ka, kb, c, i);
        } else if a0 == d0 {
            lemma_odd_product(ka, kd, c, i);
        } else {
            lemma_odd_product(kb, kd, c, i);
        }
        assert(addr == second || addr == third || second == third) by (bit_vector)
            requires
                key ^ addr == key ^ second || key ^ addr == key ^ third || key ^ second == key
                    ^ third,
        ;
    }
    assert(key ^ addr == addr ^ key) by (bit_vector);
}

/// A request aligned to no more than a line asks the wrapped allocator for its size and as
/// many lines as there are, aligned to a line, and is served behind the first line and as
/// many more as the generator says. Any other request is passed on as it is.
pub proof fn requests_are_displaced<I: Allocator>(
    w: CacheJitter<I>,
    layout: NonZeroLayout,
    outer: NonZeroLayout,
    lines: int,
    next: CacheJitter<I>,
)
    requires
        w.wf(),
        outer.size() == layout.size() + w.associativity() * w.cache_line_size(),
        outer.align() == w.cache_line_size(),
        lines * 0x1_0000_0000_0000_0000 <= cache_jitter::next_state(w.state()) * w.associativity(),
        cache_jitter::next_state(w.state()) * w.associativity() < (lines + 1)
            * 0x1_0000_0000_0000_0000,
    ensures
        ({
            let line = w.cache_line_size() as int;
            let fits = outer.size() + line - 1 <= isize::MAX;
            let inner = w.inside().outcome(outer);
            &&& layout.align() > line ==> w.outcome(layout) == w.inside().outcome(layout)
            &&& layout.align() <= line && !fits ==> w.outcome(layout) is None
            &&& layout.align() <= line && fits && inner is None ==> w.outcome(layout) is None
            &&& layout.align() <= line && fits && inner is Some && inner->0.addr + line + lines
                * line <= usize::MAX ==> w.outcome(layout) == Some(
                Block {
                    addr: (inner->0.addr + line + lines * line) as usize,
                    len: layout.size(),
                },
            )
            &&& 0 <= lines < w.associativity()
        }),
        w.after_issue(layout, next) ==> {
            let served = w.outcome(layout) is Some && layout.align() <= w.cache_line_size();
            &&& served ==> next.state() == cache_jitter::next_state(w.state())
            &&& !served ==> next.state() == w.state()
            &&& next.key() == w.key()
            &&& next.cache_line_size() == w.cache_line_size()
            &&& next.associativity() == w.associativity()
            &&& layout.align() > w.cache_line_size() ==> w.inside().after_issue(
                layout,
                next.inside(),
            )
            &&& layout.align() <= w.cache_line_size() && outer.size() + w.cache_line_size() - 1
                <= isize::MAX ==> w.inside().after_issue(outer, next.inside())
            &&& layout.align() <= w.cache_line_size() && outer.size() + w.cache_line_size() - 1
                > isize::MAX ==> next == w
            &&& served && w.inside().outcome(outer) is Some ==> next.root(
                w.outcome(layout)->0.addr as int,
            ) == w.inside().outcome(outer)->0.addr
            &&& layout.align() > w.cache_line_size() && w.outcome(layout) is Some ==> next.root(
                w.outcome(layout)->0.addr as int,
            ) == w.outcome(layout)->0.addr
            &&& forall|q: int| #[trigger] w.live().contains_key(q) ==> next.root(q) == w.root(q)
        },
        w.usable(0, layout) is None,
        !w.resettable(),
        w.residue() == w.inside().residue(),
        w.budget() == w.inside().budget(),
        w.events() == w.inside().events(),
        w.region() == w.inside().region(),
{
    w.parameters_are_kept();
    displacement_is_proportional(
        cache_jitter::next_state(w.state()),
        w.associativity() as int,
        lines,
    );
    cache_jitter::displacement_in_window(
        cache_jitter::next_state(w.state()),
        w.associativity() as int,
    );
    let total = layout.size() + w.associativity() * w.cache_line_size();
    layout::lemma_layout_of(total, w.cache_line_size() as int);
    layout::lemma_same_layout(NonZeroLayout::of(total, w.cache_line_size() as int), outer);
}

/// A request that its lines would carry past `isize::MAX`, rounded up to a line, is refused
/// and changes nothing.
pub proof fn oversized_displaced_requests_are_refused<I: Allocator>(
    w: CacheJitter<I>,
    layout: NonZeroLayout,
    next: CacheJitter<I>,
)
    requires
        layout.align() <= w.cache_line_size(),
        layout.size() + w.associativity() * w.cache_line_size() + w.cache_line_size() - 1
            > isize::MAX,
    ensures
        w.outcome(layout) is None,
        w.after_issue(layout, next) ==> next == w,
{
}

/// The header of a displaced block lies in the eight bytes below it and is made for its
/// address and its displacement; the rest of memory is as the wrapped allocator left it.
pub proof fn displaced_blocks_have_headers<I: Allocator>(
    w: CacheJitter<I>,
    m: Map<int, u8>,
    layout: NonZeroLayout,
    outer: NonZeroLayout,
    p: usize,
    lines: u64,
    a: int,
)
    requires
        w.wf(),
        layout.align() <= w.cache_line_size(),
        outer.size() == layout.size() + w.associativity() * w.cache_line_size(),
        outer.align() == w.cache_line_size(),
        w.inside().outcome(outer) is Some,
        p == w.inside().outcome(outer)->0.addr + w.cache_line_size() + lines * w.cache_line_size(),
        lines * 0x1_0000_0000_0000_0000 <= cache_jitter::next_state(w.state()) * w.associativity(),
        cache_jitter::next_state(w.state()) * w.associativity() < (lines + 1)
            * 0x1_0000_0000_0000_0000,
        w.inside().issued(m, outer).contains_key(a),
    ensures
        p - 8 <= a < p ==> w.issued(m, layout)[a] == memory::word_bytes(
            cache_jitter::header(w.key(), p as u64, lines),
        )[a - (p - 8)],
        a < p - 8 || p <= a ==> w.issued(m, layout)[a] == w.inside().issued(m, outer)[a],
        w.issued(m, layout).contains_key(a),
{
    w.parameters_are_kept();
    displacement_is_proportional(
        cache_jitter::next_state(w.state()),
        w.associativity() as int,
        lines as int,
    );
    let total = layout.size() + w.associativity() * w.cache_line_size();
    layout::lemma_layout_of(total, w.cache_line_size() as int);
    layout::lemma_same_layout(NonZeroLayout::of(total, w.cache_line_size() as int), outer);
}

/// A request that is not displaced leaves no header.
pub proof fn other_blocks_have_no_header<I: Allocator>(
    w: CacheJitter<I>,
    m: Map<int, u8>,
    layout: NonZeroLayout,
    p: int,
    next: CacheJitter<I>,
)
    ensures
        layout.align() > w.cache_line_size() ==> w.issued(m, layout) == w.inside().issued(m, layout),
        w.live()[p].layout.align() > w.cache_line_size() ==> {
            &&& w.verdict(m, p) == w.inside().verdict(m, w.root(p))
            &&& w.freed(m, p) == w.inside().freed(m, w.root(p))
            &&& w.after_return(m, p, next) ==> w.inside().after_return(m, w.root(p), next.inside())
        },
{
}

/// A displaced block is taken back exactly where the word below it is the header made for its
/// address and its own displacement; any other word is caught, unless it is a header made for
/// its address and another displacement within the window.
pub proof fn headers_decide<I: Allocator>(
    w: CacheJitter<I>,
    m: Map<int, u8>,
    p: int,
    lines: u64,
    next: CacheJitter<I>,
)
    requires
        w.wf(),
        0 <= p <= usize::MAX,
        w.live()[p].layout.align() <= w.cache_line_size(),
        lines == memory::word_at(m, p - 8) % 0x1_0000,
    ensures
        ({
            let line = w.cache_line_size();
            let found = memory::word_at(m, p - 8);
            let genuine = found == cache_jitter::header(w.key(), p as u64, lines);
            let own = p - line - lines * line == w.root(p);
            &&& !genuine ==> w.verdict(m, p) == Verdict::Caught(Corruption::JitterHeader)
            &&& lines >= w.associativity() && lines * line <= usize::MAX ==> w.verdict(m, p)
                == Verdict::Caught(Corruption::JitterHeader)
            &&& genuine && lines < w.associativity() && own ==> w.verdict(m, p)
                == w.inside().verdict(m, w.root(p))
            &&& genuine && lines < w.associativity() && !own ==> w.verdict(m, p) is Forged
            &&& !genuine ==> w.freed(m, p) == m
            &&& genuine && lines < w.associativity() ==> w.freed(m, p) == w.inside().freed(
                m,
                w.root(p),
            )
            &&& w.after_return(m, p, next) ==> {
                &&& forall|q: int| #[trigger]
                    w.live().contains_key(q) ==> next.root(q) == w.root(q)
                &&& next.key() == w.key()
                &&& next.state() == w.state()
                &&& next.cache_line_size() == line
                &&& next.associativity() == w.associativity()
                &&& !genuine ==> next == w
                &&& genuine && lines < w.associativity() ==> w.inside().after_return(
                    m,
                    w.root(p),
                    next.inside(),
                )
            }
        }),
{
    w.parameters_are_kept();
    let line = w.cache_line_size() as int;
    let assoc = w.associativity() as int;
    let found = memory::word_at(m, p - 8);
    let addr = p as u64;
    assert(found & 0xFFFF == found % 0x1_0000) by (bit_vector);
    let v = cache_jitter::mix(w.key(), addr, lines);
    let h = cache_jitter::header(w.key(), addr, lines);
    assert(found == h <==> found >> 16 == v >> 16) by (bit_vector)
        requires
            h == ((v >> 16) << 16) | (lines & 0xFFFF),
            lines == found % 0x1_0000,
    ;
    assert(line * assoc == assoc * line) by (nonlinear_arith);
    if lines < assoc {
        assert(0 <= lines * line < assoc * line) by (nonlinear_arith)
            requires
                0 <= lines < assoc,
                line > 0,
        ;
        vstd::arithmetic::div_mod::lemma_small_mod((lines * line) as nat, (usize::MAX + 1) as nat);
    } else if lines * line <= usize::MAX {
        assert(lines * line >= assoc * line && lines * line >= 0) by (nonlinear_arith)
            requires
                lines >= assoc,
                assoc > 0,
                line > 0,
        ;
        vstd::arithmetic::div_mod::lemma_small_mod((lines * line) as nat, (usize::MAX + 1) as nat);
    }
}

} // verus!
