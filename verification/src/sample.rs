//! Model of 32-bit IEEE-754 mono samples, carried as raw bit patterns.
//!
//! The engine stores every sample as the `u32` bit pattern of a binary32
//! number. All reasoning about samples (ordering, clamping, interpolation)
//! is done here on the bits themselves, so that the rest of the library can
//! be stated and verified over plain integers. Arithmetic on sample values
//! happens in Q32 fixed point (the value scaled by 2^32, truncated), which
//! carries more fractional precision than the 24-bit binary32 mantissa for
//! the nominal [-1, 1] range.

use vstd::prelude::*;
use vstd::arithmetic::power2::{pow2, lemma_pow2_adds, lemma_pow2_strictly_increases, lemma2_to64, lemma2_to64_rest, lemma_pow2_pos};
use vstd::bits::{lemma_u64_shl_is_mul, lemma_u64_shr_is_div};
use vstd::arithmetic::mul::lemma_mul_upper_bound;

verus! {

/// Bit pattern of +1.0.
pub const ONE_BITS: u32 = 0x3F80_0000;
/// Bit pattern of -1.0.
pub const NEG_ONE_BITS: u32 = 0xBF80_0000;
/// Bit pattern of +0.0.
pub const ZERO_BITS: u32 = 0;

/// Largest Q32 magnitude the engine works with: 2^40, the value 256.0.
/// Samples beyond that are saturated before interpolation.
pub const Q32_SAT: i64 = 0x100_0000_0000;

/// One in Q32 fixed point.
pub const Q32_ONE: i64 = 0x1_0000_0000;

/// Sign bit of a sample's bit pattern.
pub open spec fn sign_of(b: u32) -> bool {
    b >> 31 == 1
}

/// Biased exponent field (8 bits).
pub open spec fn exp_of(b: u32) -> u32 {
    (b >> 23) & 0xFF
}

/// Fraction field (23 bits).
pub open spec fn frac_of(b: u32) -> u32 {
    b & 0x7F_FFFF
}

/// The magnitude bits: everything but the sign.
pub open spec fn mag_of(b: u32) -> u32 {
    b & 0x7FFF_FFFF
}

pub open spec fn is_nan_bits(b: u32) -> bool {
    exp_of(b) == 0xFF && frac_of(b) != 0
}

/// The sample's numeric value scaled by 2^150, as an exact integer.
///
/// A binary32 number with biased exponent `e` and fraction `f` has value
/// `(-1)^s * f * 2^(-149)` when `e == 0`, and
/// `(-1)^s * (2^23 + f) * 2^(e - 150)` otherwise, so scaling by 2^150
/// always yields an integer.
pub open spec fn num150_of(b: u32) -> int {
    let mag: int = if exp_of(b) == 0 {
        2 * frac_of(b)
    } else {
        (0x80_0000 + frac_of(b)) * pow2(exp_of(b) as nat)
    };
    if sign_of(b) {
        -mag
    } else {
        mag
    }
}

/// Total-order key for samples: orders exactly as the underlying binary32
/// values do on numeric (non-NaN) inputs, with negative zero strictly below
/// positive zero and NaN patterns at the extremes of their sign.
pub open spec fn key_of(b: u32) -> int {
    if sign_of(b) {
        -(mag_of(b) as int) - 1
    } else {
        mag_of(b) as int
    }
}

/// The value scaled by 2^150 of a magnitude (a bit pattern with its sign
/// bit cleared).
pub open spec fn mag_num150(m: u32) -> int {
    if m >> 23 == 0 {
        2 * (m & 0x7F_FFFF)
    } else {
        (0x80_0000 + (m & 0x7F_FFFF)) * pow2((m >> 23) as nat)
    }
}

/// A larger magnitude pattern never means a smaller magnitude value.
proof fn lemma_mag_monotone(m1: u32, m2: u32)
    requires
        m1 <= m2,
        m2 >> 23 < 0xFF || (m2 & 0x7F_FFFF) == 0,
    ensures
        0 <= mag_num150(m1) <= mag_num150(m2),
{
    let e1 = (m1 >> 23) as nat;
    let e2 = (m2 >> 23) as nat;
    let f1 = (m1 & 0x7F_FFFF) as int;
    let f2 = (m2 & 0x7F_FFFF) as int;
    assert(m1 >> 23 < m2 >> 23 || (m1 >> 23 == m2 >> 23 && (m1 & 0x7F_FFFF) <= (m2
        & 0x7F_FFFF))) by (bit_vector)
        requires
            m1 <= m2,
    ;
    assert((m1 & 0x7F_FFFF) < 0x80_0000 && (m2 & 0x7F_FFFF) < 0x80_0000) by (bit_vector);
    lemma_pow2_pos(e1);
    lemma_pow2_pos(e2);
    if e1 == e2 {
        if e1 == 0 {
        } else {
            vstd::arithmetic::mul::lemma_mul_inequality(
                0x80_0000 + f1,
                0x80_0000 + f2,
                pow2(e1) as int,
            );
            assert(mag_num150(m1) >= 0) by (nonlinear_arith)
                requires
                    0 <= 0x80_0000 + f1,
                    0 < pow2(e1),
                    mag_num150(m1) == (0x80_0000 + f1) * pow2(e1),
            ;
        }
    } else {
        // The exponent grew: the smaller pattern's value stays under
        // 2^23 * 2^(e1 + 1), which the larger pattern reaches.
        assert(e1 < e2);
        lemma_pow2_adds(e1, 1);
        lemma2_to64();
        if e2 > e1 + 1 {
            lemma_pow2_strictly_increases(e1 + 1, e2);
        }
        let lo2 = 0x80_0000 * pow2(e2) as int;
        assert(lo2 <= mag_num150(m2)) by (nonlinear_arith)
            requires
                0 <= f2,
                0 < pow2(e2),
                mag_num150(m2) == (0x80_0000 + f2) * pow2(e2),
                lo2 == 0x80_0000 * pow2(e2) as int,
        ;
        if e1 == 0 {
            assert(2 * f1 < 0x100_0000);
            assert(0x80_0000 * pow2(1nat) as int == 0x100_0000);
            vstd::arithmetic::mul::lemma_mul_inequality(
                pow2(1nat) as int,
                pow2(e2) as int,
                0x80_0000,
            );
        } else {
            assert(mag_num150(m1) < 0x100_0000 * pow2(e1) as int) by (nonlinear_arith)
                requires
                    f1 < 0x80_0000,
                    0 < pow2(e1),
                    mag_num150(m1) == (0x80_0000 + f1) * pow2(e1),
            ;
            assert(0x100_0000 * pow2(e1) as int == 0x80_0000 * pow2(e1 + 1) as int)
                by (nonlinear_arith)
                requires
                    pow2(e1 + 1) == 2 * pow2(e1),
            ;
            vstd::arithmetic::mul::lemma_mul_inequality(
                pow2(e1 + 1) as int,
                pow2(e2) as int,
                0x80_0000,
            );
            assert(mag_num150(m1) >= 0) by (nonlinear_arith)
                requires
                    0 <= 0x80_0000 + f1,
                    0 < pow2(e1),
                    mag_num150(m1) == (0x80_0000 + f1) * pow2(e1),
            ;
        }
    }
}

/// The total order on bit patterns agrees with the numeric values: on
/// patterns that are not NaN, a key no larger than another's never means
/// a larger value.
pub proof fn lemma_key_orders_values(a: u32, b: u32)
    requires
        !is_nan_bits(a),
        !is_nan_bits(b),
        key_of(a) <= key_of(b),
    ensures
        num150_of(a) <= num150_of(b),
{
    let ma = a & 0x7FFF_FFFF;
    let mb = b & 0x7FFF_FFFF;
    assert(a >> 31 == 0 || a >> 31 == 1) by (bit_vector);
    assert(b >> 31 == 0 || b >> 31 == 1) by (bit_vector);
    assert((a & 0x7FFF_FFFF) >> 23 == (a >> 23) & 0xFF && (a & 0x7FFF_FFFF) & 0x7F_FFFF == a
        & 0x7F_FFFF) by (bit_vector);
    assert((b & 0x7FFF_FFFF) >> 23 == (b >> 23) & 0xFF && (b & 0x7FFF_FFFF) & 0x7F_FFFF == b
        & 0x7F_FFFF) by (bit_vector);
    assert((a >> 23) & 0xFF <= 0xFF && (b >> 23) & 0xFF <= 0xFF) by (bit_vector);
    assert(ma >> 23 < 0xFF || (ma & 0x7F_FFFF) == 0);
    assert(mb >> 23 < 0xFF || (mb & 0x7F_FFFF) == 0);
    assert(mag_num150(ma) == if sign_of(a) {
        -num150_of(a)
    } else {
        num150_of(a)
    });
    assert(mag_num150(mb) == if sign_of(b) {
        -num150_of(b)
    } else {
        num150_of(b)
    });
    if !sign_of(a) && !sign_of(b) {
        lemma_mag_monotone(ma, mb);
    } else if sign_of(a) && sign_of(b) {
        lemma_mag_monotone(mb, ma);
    } else if sign_of(a) && !sign_of(b) {
        lemma_mag_monotone(ma, ma);
        lemma_mag_monotone(mb, mb);
    }
}

/// `a <= b` in the total order on sample bit patterns.
pub fn sample_le(a: u32, b: u32) -> (r: bool)
    ensures
        r == (key_of(a) <= key_of(b)),
{
    let sa = a >> 31;
    let sb = b >> 31;
    let ma = a & 0x7FFF_FFFF;
    let mb = b & 0x7FFF_FFFF;
    proof {
        assert(a >> 31 == 0 || a >> 31 == 1) by (bit_vector);
        assert(b >> 31 == 0 || b >> 31 == 1) by (bit_vector);
    }
    if sa != sb {
        // A negative sign sorts below a positive one.
        sa == 1
    } else if sa == 1 {
        mb <= ma
    } else {
        ma <= mb
    }
}

/// The smaller of two samples in the total order.
pub fn sample_min(a: u32, b: u32) -> (r: u32)
    ensures
        r == min_bits(a, b),
{
    if sample_le(a, b) {
        a
    } else {
        b
    }
}

/// The larger of two samples in the total order.
pub fn sample_max(a: u32, b: u32) -> (r: u32)
    ensures
        r == max_bits(a, b),
{
    if sample_le(a, b) {
        b
    } else {
        a
    }
}

pub open spec fn min_bits(a: u32, b: u32) -> u32 {
    if key_of(a) <= key_of(b) {
        a
    } else {
        b
    }
}

pub open spec fn max_bits(a: u32, b: u32) -> u32 {
    if key_of(a) <= key_of(b) {
        b
    } else {
        a
    }
}

/// Clamps a sample into [-1, 1] in the total order.
pub fn sample_clamp_unit(b: u32) -> (r: u32)
    ensures
        r == clamp_unit_bits(b),
{
    if !sample_le(NEG_ONE_BITS, b) {
        NEG_ONE_BITS
    } else if !sample_le(b, ONE_BITS) {
        ONE_BITS
    } else {
        b
    }
}

pub open spec fn clamp_unit_bits(b: u32) -> u32 {
    if key_of(b) < key_of(NEG_ONE_BITS) {
        NEG_ONE_BITS
    } else if key_of(b) > key_of(ONE_BITS) {
        ONE_BITS
    } else {
        b
    }
}

/// The sample's value in Q32 fixed point: the magnitude branch of the exact
/// computation `floor(value * 2^32)`, saturated at 2^40 and with NaN read
/// as zero. Negative values round toward minus infinity (a floor), so the
/// spec mirrors the shift-based computation branch by branch.
pub open spec fn to_q32_spec(b: u32) -> int {
    if is_nan_bits(b) {
        0
    } else {
        let e = exp_of(b) as int;
        let mag: int = if e == 0 {
            0  // 2 * frac / 2^118 is 0 for every 23-bit fraction
        } else if e >= 135 {
            Q32_SAT as int
        } else if e >= 118 {
            (0x80_0000 + frac_of(b)) * pow2((e - 118) as nat)
        } else {
            (0x80_0000 + frac_of(b)) / pow2((118 - e) as nat) as int
        };
        if sign_of(b) {
            // floor(-m / 2^k) is -ceil(m / 2^k): nonzero dropped bits pull
            // a negative value one further down.
            if e == 0 {
                if frac_of(b) > 0 {
                    -1
                } else {
                    0
                }
            } else if e >= 118 {
                -mag
            } else {
                let m: int = 0x80_0000 + frac_of(b);
                -((m + pow2((118 - e) as nat) - 1) / pow2((118 - e) as nat) as int)
            }
        } else {
            mag
        }
    }
}

/// On every unsaturated numeric pattern, the Q32 reading is exactly the
/// floor of the value scaled by 2^32: the branch-wise definition and the
/// scaled-value model agree.
pub proof fn lemma_to_q32_is_floor(b: u32)
    requires
        !is_nan_bits(b),
        exp_of(b) < 135,
    ensures
        to_q32_spec(b) == num150_of(b) / (pow2(118) as int),
{
    let e = exp_of(b) as nat;
    let f = frac_of(b) as int;
    let m = 0x80_0000 + f;
    lemma_pow2_pos(118);
    assert((b & 0x7F_FFFF) < 0x80_0000) by (bit_vector);
    if e == 0 {
        lemma2_to64();
        lemma_pow2_strictly_increases(24, 118);
        assert(pow2(24) == 0x100_0000);
        assert(2 * f < pow2(118));
        vstd::arithmetic::div_mod::lemma_basic_div(2 * f, pow2(118) as int);
        if sign_of(b) && f > 0 {
            lemma_neg_div(2 * f, pow2(118) as int);
            assert((2 * f + pow2(118) - 1) / (pow2(118) as int) == 1) by {
                vstd::arithmetic::div_mod::lemma_fundamental_div_mod_converse(
                    2 * f + pow2(118) - 1,
                    pow2(118) as int,
                    1,
                    2 * f - 1,
                );
            }
        }
    } else if e >= 118 {
        lemma_pow2_adds((e - 118) as nat, 118);
        lemma_pow2_pos((e - 118) as nat);
        assert(m * pow2(e) == (m * pow2((e - 118) as nat)) * pow2(118)) by (nonlinear_arith)
            requires
                pow2(e) == pow2((e - 118) as nat) * pow2(118),
        ;
        vstd::arithmetic::div_mod::lemma_div_multiples_vanish(
            m * pow2((e - 118) as nat),
            pow2(118) as int,
        );
        if sign_of(b) {
            lemma_neg_exact_div(m * pow2((e - 118) as nat), pow2(118) as int);
        }
    } else {
        let k = (118 - e) as nat;
        lemma_pow2_adds(e, k);
        lemma_pow2_pos(e);
        lemma_pow2_pos(k);
        assert(m * pow2(e) / (pow2(118) as int) == m / (pow2(k) as int)) by {
            vstd::arithmetic::div_mod::lemma_div_denominator(
                m * pow2(e),
                pow2(e) as int,
                pow2(k) as int,
            );
            vstd::arithmetic::div_mod::lemma_div_multiples_vanish(m, pow2(e) as int);
        }
        if sign_of(b) {
            lemma_neg_div_ceil(m, pow2(k) as int);
            assert((-(m * pow2(e))) / (pow2(118) as int) == -((m + pow2(k) - 1) / (
            pow2(k) as int))) by {
                lemma_neg_div_ceil(m * pow2(e), pow2(118) as int);
                lemma_ceil_div_scaled(m, pow2(e) as int, pow2(k) as int);
            }
        }
    }
}

/// Euclidean division pulls a negative non-multiple one below zero:
/// `-x / d == -1` when `0 < x < d`.
proof fn lemma_neg_div(x: int, d: int)
    requires
        0 < x < d,
    ensures
        (-x) / d == -1,
{
    vstd::arithmetic::div_mod::lemma_fundamental_div_mod_converse(-x, d, -1, d - x);
}

/// Negating an exact multiple negates its quotient.
proof fn lemma_neg_exact_div(q: int, d: int)
    requires
        0 < d,
        0 <= q,
    ensures
        (-(q * d)) / d == -q,
{
    assert(-(q * d) == (-q) * d + 0) by (nonlinear_arith);
    vstd::arithmetic::div_mod::lemma_fundamental_div_mod_converse(-(q * d), d, -q, 0);
}

/// Euclidean division of a negated value is the negated ceiling:
/// `-x / d == -((x + d - 1) / d)` for nonnegative `x`.
proof fn lemma_neg_div_ceil(x: int, d: int)
    requires
        0 <= x,
        0 < d,
    ensures
        (-x) / d == -((x + d - 1) / d),
{
    let q = x / d;
    let r = x % d;
    vstd::arithmetic::div_mod::lemma_fundamental_div_mod(x, d);
    vstd::arithmetic::div_mod::lemma_mod_bound(x, d);
    assert(x == q * d + r) by (nonlinear_arith)
        requires
            x == d * q + r,
    ;
    if r == 0 {
        assert(-x == (-q) * d + 0) by (nonlinear_arith)
            requires
                x == q * d + r,
                r == 0,
        ;
        vstd::arithmetic::div_mod::lemma_fundamental_div_mod_converse(-x, d, -q, 0);
        vstd::arithmetic::div_mod::lemma_fundamental_div_mod_converse(x + d - 1, d, q, d - 1);
    } else {
        assert(-x == (-q - 1) * d + (d - r)) by (nonlinear_arith)
            requires
                x == q * d + r,
        ;
        assert(x + d - 1 == (q + 1) * d + (r - 1)) by (nonlinear_arith)
            requires
                x == q * d + r,
        ;
        vstd::arithmetic::div_mod::lemma_fundamental_div_mod_converse(-x, d, -q - 1, d - r);
        vstd::arithmetic::div_mod::lemma_fundamental_div_mod_converse(
            x + d - 1,
            d,
            q + 1,
            r - 1,
        );
    }
}

/// Scaling numerator and denominator together keeps the ceiling:
/// `ceil(m / k) == ceil(m * s / (s * k))`.
proof fn lemma_ceil_div_scaled(m: int, s: int, k: int)
    requires
        0 <= m,
        0 < s,
        0 < k,
    ensures
        (m * s + s * k - 1) / (s * k) == (m + k - 1) / k,
{
    let q = (m + k - 1) / k;
    let r = (m + k - 1) % k;
    vstd::arithmetic::div_mod::lemma_fundamental_div_mod(m + k - 1, k);
    vstd::arithmetic::div_mod::lemma_mod_bound(m + k - 1, k);
    // m * s + s * k - 1 == q * (s * k) + (s * (r - k + 1) + s * k - 1)
    assert(m == q * k + r - k + 1);
    assert(m * s + s * k - 1 == q * (s * k) + (s * (r + 1) - 1)) by (nonlinear_arith)
        requires
            m == q * k + r - k + 1,
    ;
    assert(0 <= s * (r + 1) - 1 < s * k) by (nonlinear_arith)
        requires
            0 < s,
            0 <= r < k,
    ;
    vstd::arithmetic::div_mod::lemma_fundamental_div_mod_converse(
        m * s + s * k - 1,
        s * k,
        q,
        s * (r + 1) - 1,
    );
}

/// Converts a sample's bits to its Q32 fixed-point value.
pub fn to_q32(b: u32) -> (q: i64)
    ensures
        q == to_q32_spec(b),
        -Q32_SAT <= q <= Q32_SAT,
{
    let exp: u32 = (b >> 23) & 0xFF;
    let frac: u32 = b & 0x7F_FFFF;
    let neg: bool = (b >> 31) == 1;
    proof {
        assert(b >> 31 == 0 || b >> 31 == 1) by (bit_vector);
        assert(((b >> 23) & 0xFF) < 256) by (bit_vector);
        assert((b & 0x7F_FFFF) < 0x80_0000) by (bit_vector);
    }
    if exp == 0xFF && frac != 0 {
        return 0;
    }
    if exp == 0 {
        if neg && frac > 0 {
            return -1;
        }
        return 0;
    }
    let m: u64 = 0x80_0000u64 + frac as u64;
    if exp >= 135 {
        if neg {
            return -Q32_SAT;
        }
        return Q32_SAT;
    }
    if exp >= 118 {
        let sh: u64 = (exp - 118) as u64;
        proof {
            lemma_pow2_le_2_16(sh as nat);
            lemma_mul_upper_bound(m as int, 0xFF_FFFF, pow2(sh as nat) as int, 0x1_0000);
            lemma_u64_shl_is_mul(m, sh);
        }
        let q: u64 = m << sh;
        if neg {
            return -(q as i64);
        }
        return q as i64;
    }
    let k: u32 = 118 - exp;
    if k >= 24 {
        // The magnitude is below one Q32 unit.
        proof {
            lemma2_to64();
            if k > 24 {
                lemma_pow2_strictly_increases(24nat, k as nat);
            }
            lemma_pow2_pos(k as nat);
            assert(pow2(24) == 0x100_0000);
            assert(m as nat / pow2(k as nat) == 0) by (nonlinear_arith)
                requires
                    (m as nat) < pow2(k as nat),
                    pow2(k as nat) > 0,
            ;
            assert((m + pow2(k as nat) - 1) as int / pow2(k as nat) as int == 1)
                by (nonlinear_arith)
                requires
                    pow2(k as nat) <= m + pow2(k as nat) - 1 < 2 * pow2(k as nat),
                    pow2(k as nat) > 0,
            ;
        }
        if neg {
            return -1;
        }
        return 0;
    }
    if neg {
        proof {
            lemma_pow2_le_2_16(k as nat);
            lemma_u64_shl_is_mul(1u64, k as u64);
        }
        let round_up: u64 = m + ((1u64 << (k as u64)) - 1);
        proof {
            lemma_u64_shr_is_div(round_up, k as u64);
        }
        -((round_up >> (k as u64)) as i64)
    } else {
        proof {
            lemma_u64_shr_is_div(m, k as u64);
            lemma_pow2_le_2_16(k as nat);
        }
        (m >> (k as u64)) as i64
    }
}

/// 2^n is at most 2^16 for n at most 16, and in general small exponents
/// give small powers; gives concrete bounds the conversions need.
proof fn lemma_pow2_le_2_16(n: nat)
    requires
        n <= 24,
    ensures
        0 < pow2(n) <= 0x100_0000,
        n <= 16 ==> pow2(n) <= 0x1_0000,
{
    lemma2_to64();
    lemma_pow2_pos(n);
    if n < 24 {
        lemma_pow2_strictly_increases(n, 24);
    }
    if n <= 16 && n < 16 {
        lemma_pow2_strictly_increases(n, 16);
    }
    assert(pow2(16) == 0x1_0000);
    assert(pow2(24) == 0x100_0000);
}


/// The highest set bit brackets its number: `2^msb(a) <= a < 2^(msb(a)+1)`.
pub proof fn lemma_msb_pos_bounds(a: nat)
    requires
        a >= 1,
    ensures
        pow2(msb_pos(a)) <= a < pow2(msb_pos(a) + 1),
    decreases a,
{
    if a < 2 {
        lemma2_to64();
    } else {
        lemma_msb_pos_bounds(a / 2);
        let p = msb_pos(a / 2);
        lemma_pow2_adds(p, 1);
        lemma_pow2_adds(p + 1, 1);
        lemma2_to64();
        assert(pow2(p) <= a / 2 < pow2(p + 1));
        assert(a / 2 * 2 <= a < (a / 2 + 1) * 2) by (nonlinear_arith);
        assert(pow2(p) * 2 <= a / 2 * 2) by (nonlinear_arith)
            requires
                pow2(p) <= a / 2,
        ;
        assert((a / 2 + 1) * 2 <= pow2(p + 1) * 2) by (nonlinear_arith)
            requires
                a / 2 + 1 <= pow2(p + 1),
        ;
    }
}

/// Position of the highest set bit of a positive integer.
pub open spec fn msb_pos(a: nat) -> nat
    decreases a,
{
    if a < 2 {
        0
    } else {
        1 + msb_pos(a / 2)
    }
}

pub proof fn lemma_msb_pos_unique(a: nat, p: nat)
    requires
        pow2(p) <= a < pow2(p + 1),
    ensures
        msb_pos(a) == p,
    decreases a,
{
    lemma_pow2_pos(p);
    if p == 0 {
        lemma2_to64();
        assert(a < 2);
    } else {
        lemma_pow2_adds((p - 1) as nat, 1);
        lemma_pow2_adds(p, 1);
        lemma_pow2_pos((p - 1) as nat);
        lemma2_to64();
        assert(pow2(p) == 2 * pow2((p - 1) as nat));
        assert(pow2(p + 1) == 2 * pow2(p));
        assert(a / 2 >= pow2((p - 1) as nat)) by (nonlinear_arith)
            requires
                a >= 2 * pow2((p - 1) as nat),
        ;
        assert(a / 2 < pow2(p)) by (nonlinear_arith)
            requires
                a < 2 * pow2(p),
        ;
        assert(a >= 2);
        lemma_msb_pos_unique(a / 2, (p - 1) as nat);
    }
}

/// Encodes a Q32 fixed-point value back into sample bits, truncating any
/// mantissa bits beyond binary32 precision toward zero.
///
/// For a nonzero magnitude `a` with highest set bit `p`, the result has
/// biased exponent `p + 95` (the value is `a * 2^-32`) and the fraction is
/// `a` aligned to 24 bits with the leading bit dropped.
pub open spec fn from_q32_spec(q: int) -> u32 {
    let a: nat = if q >= 0 {
        q as nat
    } else {
        (-q) as nat
    };
    if a == 0 {
        0u32
    } else {
        let p = msb_pos(a);
        let mant: nat = if p <= 23 {
            a * pow2((23 - p) as nat)
        } else {
            a / pow2((p - 23) as nat)
        };
        let sign: nat = if q < 0 {
            0x8000_0000
        } else {
            0
        };
        (sign + (p + 95) * 0x80_0000 + (mant - 0x80_0000)) as u32
    }
}

/// Converts a Q32 fixed-point value into sample bits.
pub fn from_q32(q: i64) -> (b: u32)
    requires
        -Q32_SAT <= q <= Q32_SAT,
    ensures
        b == from_q32_spec(q as int),
{
    let a: u64 = if q >= 0 {
        q as u64
    } else {
        (-q) as u64
    };
    if a == 0 {
        return 0;
    }
    let mut p: u64 = 0;
    proof {
        lemma2_to64();
        assert(a >> 0u64 == a) by (bit_vector);
    }
    while p < 63 && (a >> (p + 1)) > 0
        invariant
            p < 64,
            a >> p >= 1,
            a <= 0x100_0000_0000,
        decreases 64 - p,
    {
        proof {
            lemma_u64_shr_is_div(a, (p + 1) as u64);
            lemma_u64_shr_is_div(a, p);
            lemma_pow2_pos((p + 1) as nat);
            lemma_pow2_pos(p as nat);
        }
        p = p + 1;
    }
    proof {
        lemma_u64_shr_is_div(a, p);
        lemma_pow2_pos(p as nat);
        assert(a as nat >= pow2(p as nat)) by (nonlinear_arith)
            requires
                a as nat / pow2(p as nat) >= 1,
                pow2(p as nat) > 0,
        ;
        if p == 63 {
            // The magnitude is at most 2^40, so the scan stops well before 63.
            lemma2_to64_rest();
            lemma_pow2_strictly_increases(40nat, 63nat);
            assert(false);
        }
        lemma_u64_shr_is_div(a, (p + 1) as u64);
        lemma_pow2_pos((p + 1) as nat);
        assert((a as nat) < pow2((p + 1) as nat)) by (nonlinear_arith)
            requires
                a as nat / pow2((p + 1) as nat) == 0,
                pow2((p + 1) as nat) > 0,
        ;
        lemma_msb_pos_unique(a as nat, p as nat);
    }
    let sign: u32 = if q < 0 {
        0x8000_0000
    } else {
        0
    };
    if p <= 23 {
        let sh: u64 = 23 - p;
        proof {
            lemma2_to64();
            lemma_pow2_pos(sh as nat);
            lemma_pow2_adds(p as nat, sh as nat);
            lemma_pow2_adds((p + 1) as nat, sh as nat);
            assert(pow2(23) == 0x80_0000 && pow2(24) == 0x100_0000);
            assert(a * pow2(sh as nat) >= pow2(23)) by (nonlinear_arith)
                requires
                    a >= pow2(p as nat),
                    pow2(23) == pow2(p as nat) * pow2(sh as nat),
                    pow2(sh as nat) > 0,
            ;
            assert(a * pow2(sh as nat) < pow2(24)) by (nonlinear_arith)
                requires
                    a < pow2((p + 1) as nat),
                    pow2(24) == pow2((p + 1) as nat) * pow2(sh as nat),
                    pow2(sh as nat) > 0,
            ;
            lemma_u64_shl_is_mul(a, sh);
        }
        let mant: u64 = a << sh;
        sign + ((p as u32) + 95) * 0x80_0000 + ((mant - 0x80_0000) as u32)
    } else {
        let sh: u64 = p - 23;
        proof {
            lemma2_to64();
            lemma_u64_shr_is_div(a, sh);
            lemma_pow2_pos(sh as nat);
            lemma_pow2_adds(23nat, sh as nat);
            lemma_pow2_adds(24nat, sh as nat);
            assert(pow2(23) == 0x80_0000 && pow2(24) == 0x100_0000);
            assert(a as nat / pow2(sh as nat) >= pow2(23)) by (nonlinear_arith)
                requires
                    a >= pow2(23) * pow2(sh as nat),
                    pow2(sh as nat) > 0,
            ;
            assert(a as nat / pow2(sh as nat) < pow2(24)) by (nonlinear_arith)
                requires
                    (a as nat) < pow2(24) * pow2(sh as nat),
                    pow2(sh as nat) > 0,
            ;
        }
        let mant: u64 = a >> sh;
        sign + ((p as u32) + 95) * 0x80_0000 + ((mant - 0x80_0000) as u32)
    }
}

/// A sample clamped into [-1, 1] in the total order has a Q32 value
/// within one unit of scale.
pub proof fn lemma_unit_band_q32(b: u32)
    requires
        key_of(NEG_ONE_BITS) <= key_of(b) <= key_of(ONE_BITS),
    ensures
        -Q32_ONE <= to_q32_spec(b) <= Q32_ONE,
{
    let e = exp_of(b) as int;
    let f = frac_of(b) as int;
    assert((0xBF80_0000u32 & 0x7FFF_FFFF) == 0x3F80_0000u32) by (bit_vector);
    assert((0x3F80_0000u32 & 0x7FFF_FFFF) == 0x3F80_0000u32) by (bit_vector);
    assert(0xBF80_0000u32 >> 31 == 1u32 && 0x3F80_0000u32 >> 31 == 0u32) by (bit_vector);
    assert(b >> 31 == 0 || b >> 31 == 1) by (bit_vector);
    assert((b & 0x7F_FFFF) < 0x80_0000) by (bit_vector);
    assert((b & 0x7FFF_FFFF) <= 0x3F80_0000 ==> (((b >> 23) & 0xFF) < 127 || (((b >> 23) & 0xFF)
        == 127 && (b & 0x7F_FFFF) == 0))) by (bit_vector);
    assert((b & 0x7FFF_FFFF) > 0x3F80_0000 || (b & 0x7FFF_FFFF) <= 0x3F80_0000) by (bit_vector);
    assert(mag_of(b) <= 0x3F80_0000);
    if is_nan_bits(b) {
    } else if e == 0 {
    } else if e == 127 {
        assert(f == 0);
        lemma2_to64();
        assert(pow2(9nat) == 512);
        assert(to_q32_spec(b) == 0x80_0000 * pow2(9nat) || to_q32_spec(b) == -(0x80_0000
            * pow2(9nat)));
    } else if e >= 118 {
        lemma2_to64();
        assert(pow2((e - 118) as nat) <= pow2(8nat)) by {
            if e - 118 < 8 {
                lemma_pow2_strictly_increases((e - 118) as nat, 8nat);
            }
        }
        lemma_mul_upper_bound(
            0x80_0000 + f,
            0xFF_FFFF,
            pow2((e - 118) as nat) as int,
            256,
        );
        lemma_pow2_pos((e - 118) as nat);
        assert((0x80_0000 + f) * pow2((e - 118) as nat) >= 0) by (nonlinear_arith)
            requires
                0 <= 0x80_0000 + f,
                0 < pow2((e - 118) as nat),
        ;
    } else {
        lemma_pow2_pos((118 - e) as nat);
        vstd::arithmetic::div_mod::lemma_div_pos_is_pos(
            0x80_0000 + f,
            pow2((118 - e) as nat) as int,
        );
        vstd::arithmetic::div_mod::lemma_div_is_ordered(
            0x80_0000 + f,
            0xFF_FFFF + pow2((118 - e) as nat) as int,
            pow2((118 - e) as nat) as int,
        );
        vstd::arithmetic::div_mod::lemma_div_pos_is_pos(
            0x80_0000 + f + pow2((118 - e) as nat) - 1,
            pow2((118 - e) as nat) as int,
        );
        assert((0x80_0000 + f + pow2((118 - e) as nat) - 1) / (pow2((118 - e) as nat) as int)
            <= 0x100_0000) by {
            let d = pow2((118 - e) as nat) as int;
            assert(0x80_0000 + f + d - 1 <= 0x100_0000 * d) by (nonlinear_arith)
                requires
                    0 <= f < 0x80_0000,
                    1 <= d,
            ;
            vstd::arithmetic::div_mod::lemma_div_is_ordered(
                0x80_0000 + f + d - 1,
                0x100_0000 * d,
                d,
            );
            vstd::arithmetic::div_mod::lemma_div_multiples_vanish(0x100_0000, d);
        }
    }
}

/// The binary32 bit pattern of a small nonnegative integer. Every
/// integer below 2^24 is exactly representable: the highest set bit fixes
/// the exponent and the rest aligns into the fraction.
pub open spec fn float_bits_of_int(v: int) -> u32 {
    if v <= 0 {
        0u32
    } else {
        let p = msb_pos(v as nat);
        (((p + 127) * 0x80_0000) + (v * pow2((23 - p) as nat) - 0x80_0000)) as u32
    }
}

/// Encodes a small nonnegative integer as its exact binary32 pattern.
pub fn f32_bits_of_int(v: u32) -> (b: u32)
    requires
        v <= 0xFF_FFFF,
    ensures
        b == float_bits_of_int(v as int),
{
    if v == 0 {
        return 0;
    }
    let a: u64 = v as u64;
    let mut p: u64 = 0;
    proof {
        lemma2_to64();
        assert(a >> 0u64 == a) by (bit_vector);
    }
    while p < 63 && (a >> (p + 1)) > 0
        invariant
            p < 64,
            a >> p >= 1,
            a <= 0xFF_FFFF,
        decreases 64 - p,
    {
        proof {
            lemma_u64_shr_is_div(a, (p + 1) as u64);
            lemma_u64_shr_is_div(a, p);
            lemma_pow2_pos((p + 1) as nat);
            lemma_pow2_pos(p as nat);
        }
        p = p + 1;
    }
    proof {
        lemma_u64_shr_is_div(a, p);
        lemma_pow2_pos(p as nat);
        assert(a as nat >= pow2(p as nat)) by (nonlinear_arith)
            requires
                a as nat / pow2(p as nat) >= 1,
                pow2(p as nat) > 0,
        ;
        if p >= 24 {
            lemma2_to64();
            if p > 24 {
                lemma_pow2_strictly_increases(24nat, p as nat);
            }
            assert(false);
        }
        lemma_u64_shr_is_div(a, (p + 1) as u64);
        lemma_pow2_pos((p + 1) as nat);
        assert((a as nat) < pow2((p + 1) as nat)) by (nonlinear_arith)
            requires
                a as nat / pow2((p + 1) as nat) == 0,
                pow2((p + 1) as nat) > 0,
        ;
        lemma_msb_pos_unique(a as nat, p as nat);
    }
    let sh: u64 = 23 - p;
    proof {
        lemma2_to64();
        lemma_pow2_pos(sh as nat);
        lemma_pow2_adds(p as nat, sh as nat);
        lemma_pow2_adds((p + 1) as nat, sh as nat);
        assert(pow2(23) == 0x80_0000 && pow2(24) == 0x100_0000);
        assert(a * pow2(sh as nat) >= pow2(23)) by (nonlinear_arith)
            requires
                a >= pow2(p as nat),
                pow2(23) == pow2(p as nat) * pow2(sh as nat),
                pow2(sh as nat) > 0,
        ;
        assert(a * pow2(sh as nat) < pow2(24)) by (nonlinear_arith)
            requires
                a < pow2((p + 1) as nat),
                pow2(24) == pow2((p + 1) as nat) * pow2(sh as nat),
                pow2(sh as nat) > 0,
        ;
        lemma_u64_shl_is_mul(a, sh);
    }
    let mant: u64 = a << sh;
    ((p as u32) + 127) * 0x80_0000 + ((mant - 0x80_0000) as u32)
}

/// Linear interpolation between two Q32 values at fractional position
/// `num / den`, the fractional step truncated toward zero.
pub open spec fn lerp_q32_spec(a: int, b: int, num: int, den: int) -> int {
    if b >= a {
        a + (b - a) * num / den
    } else {
        a - (a - b) * num / den
    }
}

/// Interpolates between two Q32 samples.
pub fn lerp_q32(a: i64, b: i64, num: u64, den: u64) -> (r: i64)
    requires
        -Q32_SAT <= a <= Q32_SAT,
        -Q32_SAT <= b <= Q32_SAT,
        0 < den,
        num < den,
    ensures
        r == lerp_q32_spec(a as int, b as int, num as int, den as int),
        -Q32_SAT <= r <= Q32_SAT,
{
    if b >= a {
        let d: u128 = (b - a) as u128;
        proof {
            lemma_mul_upper_bound(d as int, 0x200_0000_0000, num as int, 0xFFFF_FFFF_FFFF_FFFF);
            lemma_lerp_step_le(d as int, num as int, den as int);
        }
        let t: u128 = d * (num as u128) / (den as u128);
        a + (t as i64)
    } else {
        let d: u128 = (a - b) as u128;
        proof {
            lemma_mul_upper_bound(d as int, 0x200_0000_0000, num as int, 0xFFFF_FFFF_FFFF_FFFF);
            lemma_lerp_step_le(d as int, num as int, den as int);
        }
        let t: u128 = d * (num as u128) / (den as u128);
        a - (t as i64)
    }
}

/// The interpolation step never overshoots the far endpoint.
proof fn lemma_lerp_step_le(d: int, num: int, den: int)
    requires
        0 <= d,
        0 <= num < den,
    ensures
        0 <= d * num / den <= d,
{
    assert(d * num >= 0) by (nonlinear_arith)
        requires 0 <= d && 0 <= num;
    assert(d * num <= d * den) by (nonlinear_arith)
        requires 0 <= d && num <= den;
    assert(d * den / den == d) by (nonlinear_arith)
        requires 0 < den;
    vstd::arithmetic::div_mod::lemma_div_is_ordered(d * num, d * den, den);
    vstd::arithmetic::div_mod::lemma_div_is_ordered(0, d * num, den);
}

} // verus!
