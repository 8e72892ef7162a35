//! Power-of-two alignments and rounding an address up to one.
use vstd::arithmetic::div_mod::*;
use vstd::arithmetic::power2::*;
use vstd::bits::*;
use vstd::prelude::*;

verus! {

/// `a` is a power of two: 1, 2, 4, 8, ...
pub open spec fn is_pow2(a: int) -> bool {
    exists|k: nat| pow2(k) == a
}

/// The smallest multiple of `a` that is at least `x`.
pub open spec fn align_up(x: int, a: int) -> int {
    ((x + a - 1) / a) * a
}

/// Rounding up gives a multiple of `a`, within `a - 1` above `x`, and no multiple of `a`
/// between `x` and it.
pub proof fn lemma_align_up(x: int, a: int)
    requires
        0 <= x,
        0 < a,
    ensures
        align_up(x, a) % a == 0,
        x <= align_up(x, a) < x + a,
        forall|m: int| #![trigger m % a] x <= m && m % a == 0 ==> align_up(x, a) <= m,
{
    let q = (x + a - 1) / a;
    lemma_fundamental_div_mod(x + a - 1, a);
    lemma_mod_multiples_basic(q, a);
    assert(q * a == a * q) by (nonlinear_arith);
    assert forall|m: int| #![trigger m % a] x <= m && m % a == 0 implies align_up(x, a) <= m by {
        lemma_fundamental_div_mod(m, a);
        let p = m / a;
        assert(m == a * p);
        assert(a * (q - 1) == a * q - a) by (nonlinear_arith);
        assert(a * p > a * (q - 1));
        assert(a * q <= a * p) by (nonlinear_arith)
            requires
                a * p > a * (q - 1),
                a > 0,
        ;
    }
}

/// A power of two is positive.
pub proof fn lemma_pow2_positive(a: int)
    requires
        is_pow2(a),
    ensures
        a > 0,
{
    let k = choose|k: nat| pow2(k) == a;
    lemma_pow2_pos(k);
}

/// A power of two that fits in a `usize` has its exponent below the word size.
proof fn lemma_pow2_exponent_fits(a: usize) -> (k: nat)
    requires
        is_pow2(a as int),
    ensures
        pow2(k) == a,
        k < usize::BITS,
{
    let k = choose|k: nat| pow2(k) == a;
    if k >= usize::BITS {
        lemma2_to64();
        if k > usize::BITS {
            lemma_pow2_strictly_increases(usize::BITS as nat, k);
        }
        assert(false);
    }
    k
}

/// The bit test `a != 0 && a & (a - 1) == 0` holds exactly of the powers of two.
proof fn lemma_pow2_bit_test(a: usize)
    ensures
        (a != 0 && a & ((a - 1) as usize) == 0) <==> is_pow2(a as int),
    decreases a,
{
    if is_pow2(a as int) {
        let k = lemma_pow2_exponent_fits(a);
        lemma_pow2_pos(k);
        lemma_usize_low_bits_mask_is_mod(a, k);
        assert(low_bits_mask(k) == a - 1);
        assert(a % a == 0) by (nonlinear_arith)
            requires
                a > 0,
        ;
        assert(a & ((a - 1) as usize) == 0);
    }
    if a != 0 && a & ((a - 1) as usize) == 0 {
        if a == 1 {
            lemma2_to64();
        } else {
            assert(a % 2 == 0 && (a / 2) != 0 && (a / 2) & ((a / 2 - 1) as usize) == 0) by (bit_vector)
                requires
                    a != 0,
                    a != 1,
                    a & ((a - 1) as usize) == 0,
            ;
            lemma_pow2_bit_test(a / 2);
            let k = choose|k: nat| pow2(k) == a / 2;
            lemma_pow2_unfold(k + 1);
            assert(pow2(k + 1) == a);
        }
    }
}

/// Tells whether `a` is a power of two.
pub fn is_power_of_two(a: usize) -> (r: bool)
    ensures
        r == is_pow2(a as int),
{
    proof {
        lemma_pow2_bit_test(a);
    }
    a != 0 && a & (a - 1) == 0
}

/// Rounds `x` up to a multiple of the power of two `a` with the mask `a - 1`; `None` where
/// that multiple lies past `usize::MAX`.
pub fn round_up(x: usize, a: usize) -> (r: Option<usize>)
    requires
        is_pow2(a as int),
    ensures
        align_up(x as int, a as int) <= usize::MAX ==> r == Some(align_up(x as int, a as int) as usize),
        align_up(x as int, a as int) > usize::MAX ==> r is None,
{
    proof {
        lemma_pow2_bit_test(a);
    }
    let mask = a - 1;
    let low = x & mask;
    proof {
        let k = lemma_pow2_exponent_fits(a);
        lemma_usize_low_bits_mask_is_mod(x, k);
        let q = x as int / a as int;
        lemma_fundamental_div_mod(x as int, a as int);
        assert(x as int == q * a + low) by (nonlinear_arith)
            requires
                x as int == a * q + x as int % a as int,
                low == x as int % a as int,
        ;
        if low == 0 {
            lemma_fundamental_div_mod_converse_div(x + a - 1, a as int, q, a - 1);
        } else {
            assert((q + 1) * a == q * a + a) by (nonlinear_arith);
            lemma_fundamental_div_mod_converse_div(x + a - 1, a as int, q + 1, low - 1);
        }
    }
    if low == 0 {
        Some(x)
    } else {
        let up = x | mask;
        assert(up == x - low + mask) by (bit_vector)
            requires
                up == x | mask,
                low == x & mask,
        ;
        up.checked_add(1)
    }
}

} // verus!
