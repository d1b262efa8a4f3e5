//! Powers of two, rounding to an alignment, and the bit tricks that compute it.

use vstd::arithmetic::power2::*;
use vstd::bits::*;
use vstd::prelude::*;

verus! {

/// The least multiple of `a` that is not below `x`.
pub open spec fn round_up(x: int, a: int) -> int {
    (x + a - 1) - (x + a - 1) % a
}

/// The greatest multiple of `a` that is not above `x`.
pub open spec fn round_down(x: int, a: int) -> int {
    x - x % a
}

/// A power of two has at most one bit set, and one is set.
proof fn lemma_single_bit(x: usize)
    ensures
        is_pow2(x as int) <==> x != 0 && x & ((x - 1) as usize) == 0,
    decreases x,
{
    reveal(is_pow2);
    if x > 1 {
        let h: usize = x / 2;
        lemma_single_bit(h);
        assert(x % 2 == 0 ==> h != 0 && (x & ((x - 1) as usize) == 0 <==> h & ((h - 1) as usize) == 0))
            by (bit_vector)
            requires
                h == x / 2,
                x > 1,
        ;
        assert(x % 2 == 1 ==> x & ((x - 1) as usize) != 0) by (bit_vector)
            requires
                x > 1,
        ;
    } else if x == 1 {
        assert(1usize & 0usize == 0) by (bit_vector);
    }
}

/// Whether `x` is a power of two.
pub fn is_power_of_two(x: usize) -> (r: bool)
    ensures
        r == is_pow2(x as int),
{
    proof {
        lemma_single_bit(x);
    }
    x != 0 && x & (x - 1) == 0
}

/// A power of two that fits the machine word, as an exponent.
pub proof fn lemma_exponent(a: usize) -> (n: nat)
    requires
        is_pow2(a as int),
    ensures
        n < usize::BITS,
        a == pow2(n),
{
    is_pow2_equiv(a as int);
    let n = choose|i: nat| vstd::arithmetic::power::pow(2, i) == a as int;
    lemma_pow2(n);
    if n >= usize::BITS {
        lemma2_to64();
        lemma2_to64_rest();
        if n > usize::BITS {
            lemma_pow2_strictly_increases(usize::BITS as nat, n);
        }
        assert(pow2(usize::BITS as nat) == usize::MAX + 1);
    }
    n
}

/// Masking off the low bits below a power of two rounds down, and keeping only them
/// takes the remainder.
pub proof fn lemma_mask(x: usize, a: usize)
    requires
        is_pow2(a as int),
    ensures
        x & !((a - 1) as usize) == round_down(x as int, a as int),
        x & ((a - 1) as usize) == x as int % a as int,
{
    let n = lemma_exponent(a);
    lemma_pow2_pos(n);
    lemma_usize_low_bits_mask_is_mod(x, n);
    let m: usize = (a - 1) as usize;
    assert(x & !m == x - (x & m)) by (bit_vector);
}

/// `round_up` lands on the first multiple at or after `x`.
pub proof fn lemma_round_up(x: int, a: int)
    requires
        a > 0,
    ensures
        x <= round_up(x, a) < x + a,
        round_up(x, a) % a == 0,
        x % a == 0 ==> round_up(x, a) == x,
{
    let y = x + a - 1;
    vstd::arithmetic::div_mod::lemma_fundamental_div_mod(y, a);
    assert(round_up(x, a) == a * (y / a));
    vstd::arithmetic::div_mod::lemma_mod_multiples_basic(y / a, a);
    vstd::arithmetic::mul::lemma_mul_is_commutative(a, y / a);
    if x % a == 0 {
        vstd::arithmetic::div_mod::lemma_add_mod_noop(x, a - 1, a);
        vstd::arithmetic::div_mod::lemma_small_mod((a - 1) as nat, a as nat);
    }
}

/// No multiple of `a` lies between `x` and `round_up(x, a)`.
pub proof fn lemma_round_up_least(x: int, a: int, m: int)
    requires
        a > 0,
        m >= x,
        m % a == 0,
    ensures
        round_up(x, a) <= m,
{
    lemma_round_up(x, a);
    let u = round_up(x, a);
    if m < u {
        vstd::arithmetic::div_mod::lemma_fundamental_div_mod(m, a);
        vstd::arithmetic::div_mod::lemma_fundamental_div_mod(u, a);
        assert(a * (u / a) - a * (m / a) == a * (u / a - m / a)) by (nonlinear_arith);
        assert(a * (u / a - m / a) <= 0 || a * (u / a - m / a) >= a) by (nonlinear_arith)
            requires
                a > 0,
        ;
    }
}

/// `round_down` lands on the last multiple at or before `x`.
pub proof fn lemma_round_down(x: int, a: int)
    requires
        a > 0,
    ensures
        x - a < round_down(x, a) <= x,
        round_down(x, a) % a == 0,
        x >= 0 ==> round_down(x, a) >= 0,
{
    vstd::arithmetic::div_mod::lemma_fundamental_div_mod(x, a);
    vstd::arithmetic::div_mod::lemma_mod_multiples_basic(x / a, a);
    vstd::arithmetic::mul::lemma_mul_is_commutative(a, x / a);
    if x >= 0 {
        assert(x % a <= x) by {
            vstd::arithmetic::div_mod::lemma_mod_decreases(x as nat, a as nat);
        }
    }
}

/// A multiple of a power of two is a multiple of every smaller power of two.
pub proof fn lemma_aligned_weaker(x: int, big: usize, small: usize)
    requires
        is_pow2(big as int),
        is_pow2(small as int),
        small <= big,
        x % (big as int) == 0,
    ensures
        x % (small as int) == 0,
{
    lemma_divides(big, small);
    reveal(is_pow2);
    let k = big as int / small as int;
    let q = x / big as int;
    vstd::arithmetic::div_mod::lemma_fundamental_div_mod(x, big as int);
    vstd::arithmetic::div_mod::lemma_fundamental_div_mod(big as int, small as int);
    assert(x == (k * q) * small) by (nonlinear_arith)
        requires
            x == big * q,
            big == small * k,
    ;
    vstd::arithmetic::div_mod::lemma_mod_multiples_basic(k * q, small as int);
}

/// A power of two divides every larger one.
pub proof fn lemma_divides(big: usize, small: usize)
    requires
        is_pow2(big as int),
        is_pow2(small as int),
        small <= big,
    ensures
        big as int % small as int == 0,
{
    let nb = lemma_exponent(big);
    let ns = lemma_exponent(small);
    if ns > nb {
        lemma_pow2_strictly_increases(nb, ns);
    }
    lemma_pow2_adds((nb - ns) as nat, ns);
    lemma_pow2_pos(ns);
    vstd::arithmetic::div_mod::lemma_mod_multiples_basic(pow2((nb - ns) as nat) as int, small as int);
}

/// Rounds `x` up to a multiple of the power of two `a`, or `None` where that does not fit.
pub fn checked_round_up(x: usize, a: usize) -> (r: Option<usize>)
    requires
        is_pow2(a as int),
    ensures
        match r {
            Some(y) => y == round_up(x as int, a as int) && x + a - 1 <= usize::MAX,
            None => x + a - 1 > usize::MAX,
        },
{
    proof {
        reveal(is_pow2);
    }
    match x.checked_add(a - 1) {
        Some(sum) => {
            proof {
                lemma_mask(sum, a);
            }
            Some(sum & !(a - 1))
        },
        None => None,
    }
}

/// Rounds `x` down to a multiple of the power of two `a`.
pub fn mask_down(x: usize, a: usize) -> (r: usize)
    requires
        is_pow2(a as int),
    ensures
        r == round_down(x as int, a as int),
{
    proof {
        reveal(is_pow2);
        lemma_mask(x, a);
    }
    x & !(a - 1)
}

} // verus!
