//! Exact ordering and equality of IEEE-754 binary64 values, computed on
//! their 64-bit patterns.
//!
//! A finite binary64 pattern denotes the real number
//! `(-1)^sign * sig * 2^(scale - 1074)` where `sig` is the significand with
//! the implicit bit folded in and `scale` is derived from the biased
//! exponent.  Scaling by `2^1074` makes every finite value an exact integer,
//! the [`scaled_mag`] / [`rank`] functions below; infinities are ranked by a
//! sentinel larger than every finite magnitude.  Comparisons on bit patterns
//! are proved equal to comparisons of these exact ranks, so the usual IEEE
//! order (with `NaN` unordered and `-0 == +0`) is obtained without any
//! floating-point arithmetic.

use vstd::prelude::*;
use vstd::arithmetic::power2::pow2;
use vstd::arithmetic::power2::lemma_pow2_adds;
use vstd::arithmetic::power2::lemma_pow2_strictly_increases;
use vstd::arithmetic::power2::lemma_pow2_pos;
use vstd::arithmetic::mul::lemma_mul_inequality;
use vstd::arithmetic::mul::lemma_mul_strict_inequality;
use vstd::arithmetic::mul::lemma_mul_strict_inequality_converse;
use vstd::arithmetic::mul::lemma_mul_is_associative;

verus! {

/// Mask of the non-sign bits of a binary64 pattern.
pub const F64_MAG_MASK: u64 = 0x7fff_ffff_ffff_ffff;

/// Mask of the fraction bits of a binary64 pattern.
pub const F64_FRAC_MASK: u64 = 0x000f_ffff_ffff_ffff;

/// The implicit leading significand bit of a normal binary64 value.
pub const F64_IMPLICIT_BIT: u64 = 0x0010_0000_0000_0000;

/// The all-ones biased exponent, marking an infinity or a NaN.
pub const F64_EXP_MAX: u64 = 0x7ff;

/// The magnitude bits (sign cleared) of a pattern.
pub open spec fn mag_of(bits: u64) -> u64 {
    bits & F64_MAG_MASK
}

/// True when the sign bit is set.
pub open spec fn is_neg(bits: u64) -> bool {
    bits >> 63 == 1
}

/// The biased exponent field.
pub open spec fn exp_of(bits: u64) -> u64 {
    mag_of(bits) >> 52
}

/// The fraction field.
pub open spec fn frac_of(bits: u64) -> u64 {
    mag_of(bits) & F64_FRAC_MASK
}

/// True when the pattern denotes a NaN.
pub open spec fn is_nan(bits: u64) -> bool {
    exp_of(bits) == F64_EXP_MAX && frac_of(bits) != 0
}

/// True when the pattern denotes an infinity.
pub open spec fn is_infinite(bits: u64) -> bool {
    exp_of(bits) == F64_EXP_MAX && frac_of(bits) == 0
}

/// True when the pattern denotes a finite number.
pub open spec fn is_finite(bits: u64) -> bool {
    exp_of(bits) != F64_EXP_MAX
}

/// The significand with the implicit bit folded in.
pub open spec fn sig_of(bits: u64) -> u64 {
    if exp_of(bits) == 0 {
        frac_of(bits)
    } else {
        (frac_of(bits) + F64_IMPLICIT_BIT) as u64
    }
}

/// The power-of-two scale of the significand, relative to `2^-1074`.
pub open spec fn scale_of(bits: u64) -> nat {
    if exp_of(bits) == 0 {
        0
    } else {
        (exp_of(bits) - 1) as nat
    }
}

/// The magnitude of a finite value, scaled by `2^1074`: an exact integer.
pub open spec fn scaled_mag(bits: u64) -> nat {
    (sig_of(bits) * pow2(scale_of(bits))) as nat
}

/// The sentinel magnitude of an infinity: larger than every finite
/// `scaled_mag`, which is below `2^2098`.
pub open spec fn infinite_rank() -> nat {
    pow2(2100)
}

/// The magnitude rank of a non-NaN pattern.
pub open spec fn mag_rank(bits: u64) -> nat {
    if is_infinite(bits) {
        infinite_rank()
    } else {
        scaled_mag(bits)
    }
}

/// The signed rank of a non-NaN pattern: ranks order exactly as the denoted
/// extended real numbers, and `-0` and `+0` share rank zero.
pub open spec fn rank(bits: u64) -> int {
    if is_neg(bits) {
        -(mag_rank(bits) as int)
    } else {
        mag_rank(bits) as int
    }
}

/// The IEEE `<` relation: false on NaN, exact real order otherwise.
pub open spec fn double_lt(a: u64, b: u64) -> bool {
    !is_nan(a) && !is_nan(b) && rank(a) < rank(b)
}

/// The IEEE `==` relation: false on NaN, `-0 == +0`, exact otherwise.
pub open spec fn double_eq(a: u64, b: u64) -> bool {
    !is_nan(a) && !is_nan(b) && rank(a) == rank(b)
}

/// How an integer compares with the value a binary64 pattern denotes.
pub open spec fn int_double_lt(a: int, b: u64) -> bool {
    !is_nan(b) && a * pow2(1074) < rank(b)
}

/// See [`int_double_lt`].
pub open spec fn int_double_gt(a: int, b: u64) -> bool {
    !is_nan(b) && a * pow2(1074) > rank(b)
}

/// See [`int_double_lt`].
pub open spec fn int_double_eq(a: int, b: u64) -> bool {
    !is_nan(b) && a * pow2(1074) == rank(b)
}

/// Decomposition of a pattern into sign, exponent and fraction.
proof fn lemma_decompose(b: u64)
    ensures
        mag_of(b) == exp_of(b) * 0x10_0000_0000_0000 + frac_of(b),
        frac_of(b) < 0x10_0000_0000_0000,
        exp_of(b) <= 0x7ff,
        (mag_of(b) == 0) == (exp_of(b) == 0 && frac_of(b) == 0),
{
    let m = b & 0x7fff_ffff_ffff_ffffu64;
    let e = m >> 52;
    let f = m & 0x000f_ffff_ffff_ffffu64;
    assert(m == e * 0x10_0000_0000_0000 + f && f < 0x10_0000_0000_0000 && e <= 0x7ff
        && ((m == 0) == (e == 0 && f == 0))) by (bit_vector)
        requires
            m == b & 0x7fff_ffff_ffff_ffffu64,
            e == m >> 52,
            f == m & 0x000f_ffff_ffff_ffffu64,
    ;
}

/// Composing sign, exponent and fraction fields by arithmetic yields a
/// pattern that decomposes back into the same fields.
proof fn lemma_compose(s: u64, e: u64, f: u64)
    requires
        s <= 1,
        e <= 0x7ff,
        f < 0x10_0000_0000_0000,
    ensures
        ({
            let b = (s * 0x8000_0000_0000_0000 + e * 0x10_0000_0000_0000 + f) as u64;
            &&& is_neg(b) == (s == 1)
            &&& exp_of(b) == e
            &&& frac_of(b) == f
        }),
{
    let b = (s * 0x8000_0000_0000_0000 + e * 0x10_0000_0000_0000 + f) as u64;
    assert((b >> 63 == 1) == (s == 1) && ((b & 0x7fff_ffff_ffff_ffffu64) >> 52) == e
        && ((b & 0x7fff_ffff_ffff_ffffu64) & 0x000f_ffff_ffff_ffffu64) == f) by (bit_vector)
        requires
            s <= 1,
            e <= 0x7ff,
            f < 0x10_0000_0000_0000,
            b == (s * 0x8000_0000_0000_0000 + e * 0x10_0000_0000_0000 + f) as u64,
    ;
}

/// The significand of a finite value is below `2^53`, and at least `2^52`
/// for a normal one; every finite scaled magnitude is below the infinite
/// sentinel.
proof fn lemma_mag_rank_bounds(b: u64)
    requires
        !is_nan(b),
    ensures
        is_finite(b) ==> sig_of(b) < 0x20_0000_0000_0000,
        (is_finite(b) && exp_of(b) != 0) ==> sig_of(b) >= 0x10_0000_0000_0000,
        is_finite(b) ==> scale_of(b) <= 2045,
        is_finite(b) ==> scaled_mag(b) < infinite_rank(),
        (mag_rank(b) == 0) <==> (is_finite(b) && mag_of(b) == 0),
{
    lemma_decompose(b);
    lemma_pow2_pos(scale_of(b));
    lemma_pow2_pos(2100);
    vstd::arithmetic::power2::lemma2_to64();
    vstd::arithmetic::power2::lemma2_to64_rest();
    if is_finite(b) {
        assert(scale_of(b) <= 2045);
        assert(sig_of(b) < 0x20_0000_0000_0000);
        // scaled_mag < 2^53 * 2^2045 = 2^2098 < 2^2100
        lemma_pow2_adds(53, scale_of(b));
        lemma_mul_strict_inequality(
            sig_of(b) as int,
            pow2(53) as int,
            pow2(scale_of(b)) as int,
        );
        assert(pow2(53) * pow2(scale_of(b)) == pow2((53 + scale_of(b)) as nat));
        if 53 + scale_of(b) < 2100 {
            lemma_pow2_strictly_increases((53 + scale_of(b)) as nat, 2100);
        }
        assert(scaled_mag(b) < infinite_rank());
        if mag_of(b) == 0 {
            assert(sig_of(b) == 0);
        } else if sig_of(b) == 0 {
            assert(exp_of(b) == 0 && frac_of(b) == 0);
        }
        if sig_of(b) > 0 {
            lemma_mul_strict_inequality(0, sig_of(b) as int, pow2(scale_of(b)) as int);
        }
    } else {
        assert(mag_rank(b) == infinite_rank());
        assert(infinite_rank() > 0);
    }
}

/// Magnitude bits order finite and infinite non-NaN patterns exactly as
/// their magnitude ranks.
proof fn lemma_mag_order(x: u64, y: u64)
    requires
        !is_nan(x),
        !is_nan(y),
    ensures
        (mag_of(x) < mag_of(y)) == (mag_rank(x) < mag_rank(y)),
{
    lemma_decompose(x);
    lemma_decompose(y);
    lemma_mag_rank_bounds(x);
    lemma_mag_rank_bounds(y);
    if is_finite(x) && is_finite(y) {
        lemma_scaled_mag_order(x, y);
    } else if is_finite(x) {
        // y infinite: mag(y) == 0x7ff * 2^52 > mag(x), and rank(y) is the sentinel
        assert(mag_of(x) < mag_of(y));
    } else if is_finite(y) {
        assert(!(mag_of(x) < mag_of(y)));
    } else {
        assert(mag_of(x) == mag_of(y));
    }
}

/// The finite half of [`lemma_mag_order`].
proof fn lemma_scaled_mag_order(x: u64, y: u64)
    requires
        is_finite(x),
        is_finite(y),
    ensures
        (mag_of(x) < mag_of(y)) == (scaled_mag(x) < scaled_mag(y)),
{
    lemma_decompose(x);
    lemma_decompose(y);
    lemma_mag_rank_bounds(x);
    lemma_mag_rank_bounds(y);
    let c: int = 0x10_0000_0000_0000;
    if exp_of(x) == exp_of(y) {
        // same scale: both sig and mag comparisons reduce to the fraction
        lemma_pow2_pos(scale_of(x));
        if sig_of(x) < sig_of(y) {
            lemma_mul_strict_inequality(
                sig_of(x) as int,
                sig_of(y) as int,
                pow2(scale_of(x)) as int,
            );
        } else if sig_of(y) < sig_of(x) {
            lemma_mul_strict_inequality(
                sig_of(y) as int,
                sig_of(x) as int,
                pow2(scale_of(x)) as int,
            );
        }
    } else if exp_of(x) < exp_of(y) {
        lemma_scaled_mag_exp_lt(x, y);
        assert(mag_of(x) < mag_of(y)) by (nonlinear_arith)
            requires
                mag_of(x) == exp_of(x) * c + frac_of(x),
                mag_of(y) == exp_of(y) * c + frac_of(y),
                frac_of(x) < c,
                exp_of(x) < exp_of(y),
        ;
    } else {
        lemma_scaled_mag_exp_lt(y, x);
        assert(mag_of(y) < mag_of(x)) by (nonlinear_arith)
            requires
                mag_of(x) == exp_of(x) * c + frac_of(x),
                mag_of(y) == exp_of(y) * c + frac_of(y),
                frac_of(y) < c,
                exp_of(y) < exp_of(x),
        ;
    }
}

/// A smaller biased exponent gives a strictly smaller finite magnitude.
proof fn lemma_scaled_mag_exp_lt(x: u64, y: u64)
    requires
        is_finite(x),
        is_finite(y),
        exp_of(x) < exp_of(y),
    ensures
        scaled_mag(x) < scaled_mag(y),
{
    lemma_decompose(x);
    lemma_decompose(y);
    lemma_mag_rank_bounds(x);
    lemma_mag_rank_bounds(y);
    lemma_pow2_pos(scale_of(x));
    lemma_pow2_pos(scale_of(y));
    vstd::arithmetic::power2::lemma2_to64();
    vstd::arithmetic::power2::lemma2_to64_rest();
    if exp_of(x) == 0 {
        // x subnormal: scaled_mag(x) = frac < 2^52 <= sig(y) <= sig(y) * pow2
        assert(scaled_mag(x) == sig_of(x) * pow2(0));
        assert(pow2(0) == 1);
        assert(sig_of(x) < 0x10_0000_0000_0000);
        assert(sig_of(y) >= 0x10_0000_0000_0000);
        lemma_mul_inequality(1, pow2(scale_of(y)) as int, sig_of(y) as int);
        assert(sig_of(y) * 1 <= sig_of(y) * pow2(scale_of(y))) by (nonlinear_arith)
            requires pow2(scale_of(y)) >= 1;
        assert(scaled_mag(x) < scaled_mag(y));
    } else {
        // sig(x) < 2^53, so scaled_mag(x) < 2^(53 + scale(x)) and
        // scaled_mag(y) >= 2^(52 + scale(y)) >= 2^(53 + scale(x))
        let sx = scale_of(x);
        let sy = scale_of(y);
        assert(sy >= sx + 1);
        lemma_pow2_adds(53, sx);
        lemma_pow2_adds(52, sy);
        lemma_pow2_pos(sx);
        lemma_pow2_pos(sy);
        lemma_mul_strict_inequality(sig_of(x) as int, pow2(53) as int, pow2(sx) as int);
        assert(scaled_mag(x) < pow2((53 + sx) as nat));
        lemma_mul_inequality(pow2(52) as int, sig_of(y) as int, pow2(sy) as int);
        assert(pow2((52 + sy) as nat) <= scaled_mag(y));
        if 53 + sx < 52 + sy {
            lemma_pow2_strictly_increases((53 + sx) as nat, (52 + sy) as nat);
        }
        assert(scaled_mag(x) < scaled_mag(y));
    }
}

/// For a positive factor, multiplying both sides preserves order and
/// equality in both directions.
proof fn lemma_cancel_mul(x: int, y: int, c: int)
    requires
        c > 0,
    ensures
        (x < y) == (x * c < y * c),
        (x == y) == (x * c == y * c),
{
    if x < y {
        lemma_mul_strict_inequality(x, y, c);
    }
    if y < x {
        lemma_mul_strict_inequality(y, x, c);
    }
}

/// True when the pattern denotes a NaN.
pub fn nan_bits(b: u64) -> (r: bool)
    ensures
        r == is_nan(b),
{
    let m = b & F64_MAG_MASK;
    (m >> 52) == F64_EXP_MAX && (m & F64_FRAC_MASK) != 0
}

/// The IEEE `<` on two binary64 bit patterns.
pub fn lt_bits(a: u64, b: u64) -> (r: bool)
    ensures
        r == double_lt(a, b),
{
    let ma = a & F64_MAG_MASK;
    let mb = b & F64_MAG_MASK;
    let fa_nan = (ma >> 52) == F64_EXP_MAX && (ma & F64_FRAC_MASK) != 0;
    let fb_nan = (mb >> 52) == F64_EXP_MAX && (mb & F64_FRAC_MASK) != 0;
    if fa_nan || fb_nan {
        return false;
    }
    proof {
        lemma_mag_order(a, b);
        lemma_mag_order(b, a);
        lemma_mag_rank_bounds(a);
        lemma_mag_rank_bounds(b);
        lemma_decompose(a);
        lemma_decompose(b);
    }
    let sa = (a >> 63) == 1;
    let sb = (b >> 63) == 1;
    if ma == 0 && mb == 0 {
        false
    } else if sa != sb {
        sa
    } else if !sa {
        ma < mb
    } else {
        mb < ma
    }
}

/// The IEEE `==` on two binary64 bit patterns.
pub fn eq_bits(a: u64, b: u64) -> (r: bool)
    ensures
        r == double_eq(a, b),
{
    let ma = a & F64_MAG_MASK;
    let mb = b & F64_MAG_MASK;
    let fa_nan = (ma >> 52) == F64_EXP_MAX && (ma & F64_FRAC_MASK) != 0;
    let fb_nan = (mb >> 52) == F64_EXP_MAX && (mb & F64_FRAC_MASK) != 0;
    if fa_nan || fb_nan {
        return false;
    }
    proof {
        lemma_mag_order(a, b);
        lemma_mag_order(b, a);
        lemma_mag_rank_bounds(a);
        lemma_mag_rank_bounds(b);
        lemma_decompose(a);
        lemma_decompose(b);
        let sa = a >> 63;
        let sb = b >> 63;
        assert(sa <= 1 && sb <= 1 && a == sa * 0x8000_0000_0000_0000 + ma
            && b == sb * 0x8000_0000_0000_0000 + mb) by (bit_vector)
            requires
                ma == a & 0x7fff_ffff_ffff_ffffu64,
                mb == b & 0x7fff_ffff_ffff_ffffu64,
                sa == a >> 63,
                sb == b >> 63,
        ;
    }
    if ma == 0 && mb == 0 {
        true
    } else if a == b {
        true
    } else {
        proof {
            if rank(a) == rank(b) {
                if is_neg(a) == is_neg(b) {
                    assert(mag_rank(a) == mag_rank(b));
                    assert(mag_of(a) == mag_of(b));
                } else {
                    assert(mag_rank(a) == 0 && mag_rank(b) == 0);
                }
            }
        }
        false
    }
}

/// The result of comparing two numeric values, one of which may be NaN.
#[derive(Clone, Copy, Debug, PartialEq, Eq, Structural)]
pub enum NumOrder {
    Less,
    Equal,
    Greater,
    Unordered,
}

/// `2^k` as a `u64`.
fn pow2_u64(k: u64) -> (r: u64)
    requires
        k <= 63,
    ensures
        r == pow2(k as nat),
{
    let mut r: u64 = 1;
    let mut i: u64 = 0;
    proof {
        vstd::arithmetic::power2::lemma2_to64();
    }
    while i < k
        invariant
            i <= k <= 63,
            r == pow2(i as nat),
        decreases k - i,
    {
        proof {
            lemma_pow2_strictly_increases(i as nat, 64);
            vstd::arithmetic::power2::lemma2_to64();
            vstd::arithmetic::power2::lemma2_to64_rest();
            vstd::arithmetic::power2::lemma_pow2_unfold((i + 1) as nat);
        }
        r = r * 2;
        i = i + 1;
    }
    r
}

/// `2^k` as a `u128`.
fn pow2_u128(k: u64) -> (r: u128)
    requires
        k <= 126,
    ensures
        r == pow2(k as nat),
{
    let mut r: u128 = 1;
    let mut i: u64 = 0;
    proof {
        vstd::arithmetic::power2::lemma2_to64();
    }
    while i < k
        invariant
            i <= k <= 126,
            r == pow2(i as nat),
        decreases k - i,
    {
        proof {
            lemma_pow2_strictly_increases(i as nat, 127);
            pow2_127_le();
            vstd::arithmetic::power2::lemma_pow2_unfold((i + 1) as nat);
        }
        r = r * 2;
        i = i + 1;
    }
    r
}

/// `2^127 <= u128::MAX`, so doubling below it cannot overflow.
proof fn pow2_127_le()
    ensures
        pow2(127) == 0x8000_0000_0000_0000_0000_0000_0000_0000,
{
    vstd::arithmetic::power2::lemma2_to64();
    vstd::arithmetic::power2::lemma2_to64_rest();
    lemma_pow2_adds(64, 63);
}

/// Compares the integer `a` with the value the binary64 pattern `b`
/// denotes, exactly.
pub fn cmp_int_bits(a: i64, b: u64) -> (r: NumOrder)
    ensures
        (r is Unordered) <==> is_nan(b),
        (r is Less) <==> int_double_lt(a as int, b),
        (r is Equal) <==> int_double_eq(a as int, b),
        (r is Greater) <==> int_double_gt(a as int, b),
{
    let mb = b & F64_MAG_MASK;
    let eb = mb >> 52;
    let fb = mb & F64_FRAC_MASK;
    if eb == F64_EXP_MAX && fb != 0 {
        return NumOrder::Unordered;
    }
    let bneg = (b >> 63) == 1;
    proof {
        lemma_decompose(b);
        lemma_mag_rank_bounds(b);
        vstd::arithmetic::power2::lemma2_to64();
        vstd::arithmetic::power2::lemma2_to64_rest();
        lemma_pow2_pos(1074);
        // |a| * 2^1074 <= 2^63 * 2^1074 = 2^1137 < 2^2100
        lemma_pow2_adds(63, 1074);
        lemma_pow2_strictly_increases(1137, 2100);
        if a >= 0 {
            lemma_mul_inequality(a as int, pow2(63) as int, pow2(1074) as int);
        } else {
            lemma_mul_inequality(-(a as int), pow2(63) as int, pow2(1074) as int);
            assert((-(a as int)) * pow2(1074) == -((a as int) * pow2(1074)))
                by (nonlinear_arith);
        }
    }
    if eb == F64_EXP_MAX {
        // infinity: beyond every scaled 64-bit integer
        return if bneg { NumOrder::Greater } else { NumOrder::Less };
    }
    let sig: u64 = if eb == 0 { fb } else { fb + F64_IMPLICIT_BIT };
    let scale: u64 = if eb == 0 { 0 } else { eb - 1 };
    proof {
        assert(sig == sig_of(b) && scale == scale_of(b));
        lemma_pow2_pos(scale as nat);
        if sig > 0 {
            lemma_mul_strict_inequality(0, sig as int, pow2(scale as nat) as int);
        }
        if a > 0 {
            lemma_mul_strict_inequality(0, a as int, pow2(1074) as int);
        }
        if a < 0 {
            lemma_mul_strict_inequality(a as int, 0, pow2(1074) as int);
        }
    }
    if a == 0 {
        if sig == 0 {
            NumOrder::Equal
        } else if bneg {
            NumOrder::Greater
        } else {
            NumOrder::Less
        }
    } else if a > 0 && (bneg || sig == 0) {
        NumOrder::Greater
    } else if a < 0 && (!bneg || sig == 0) {
        NumOrder::Less
    } else {
        // same sign, both magnitudes positive
        let au: u64 = if a >= 0 {
            a as u64
        } else {
            (-(a as i128)) as u64
        };
        proof {
            assert(au as int == if a >= 0 { a as int } else { -(a as int) });
        }
        let mag: NumOrder = if scale >= 1074 {
            let e: u64 = scale - 1074;
            if e >= 12 {
                proof {
                    // sig * 2^e >= 2^52 * 2^12 = 2^64 > au
                    if e > 12 {
                        lemma_pow2_strictly_increases(12, e as nat);
                    }
                    lemma_pow2_adds(52, 12);
                    lemma_mul_upper_bound_reverse(sig as int, pow2(e as nat) as int);
                }
                NumOrder::Less
            } else {
                let pe: u128 = pow2_u128(e);
                proof {
                    if e < 11 {
                        lemma_pow2_strictly_increases(e as nat, 11);
                    }
                    lemma_pow2_adds(53, 11);
                    vstd::arithmetic::mul::lemma_mul_upper_bound(
                        sig as int, pow2(53) as int, pe as int, pow2(11) as int);
                }
                let rhs: u128 = (sig as u128) * pe;
                let lhs: u128 = au as u128;
                if lhs < rhs {
                    NumOrder::Less
                } else if lhs == rhs {
                    NumOrder::Equal
                } else {
                    NumOrder::Greater
                }
            }
        } else {
            let k: u64 = 1074 - scale;
            if k >= 64 {
                proof {
                    // au * 2^k >= 1 * 2^64 > 2^53 > sig
                    lemma_pow2_strictly_increases(53, 64);
                    if k > 64 {
                        lemma_pow2_strictly_increases(64, k as nat);
                    }
                    lemma_pow2_pos(k as nat);
                    lemma_mul_inequality(1, au as int, pow2(k as nat) as int);
                }
                NumOrder::Greater
            } else {
                let pk: u128 = pow2_u128(k);
                proof {
                    lemma_pow2_strictly_increases(k as nat, 64);
                    lemma_pow2_pos(k as nat);
                    lemma_mul_upper_bound_lt(au as int, pow2(64) as int, pk as int, pow2(64) as int);
                    lemma_pow2_adds(64, 64);
                }
                let lhs: u128 = (au as u128) * pk;
                let rhs: u128 = sig as u128;
                if lhs < rhs {
                    NumOrder::Less
                } else if lhs == rhs {
                    NumOrder::Equal
                } else {
                    NumOrder::Greater
                }
            }
        };
        proof {
            // relate the magnitude comparison to the scaled comparison
            let p1074 = pow2(1074) as int;
            let ps = pow2(scale as nat) as int;
            if scale >= 1074 {
                let e = (scale - 1074) as nat;
                lemma_pow2_adds(e, 1074);
                assert(ps == pow2(e) as int * p1074);
                lemma_cancel_mul(au as int, sig as int * pow2(e) as int, p1074);
                assert((sig as int * pow2(e) as int) * p1074 == sig as int * ps)
                    by (nonlinear_arith)
                    requires ps == pow2(e) as int * p1074;
            } else {
                let k = (1074 - scale) as nat;
                lemma_pow2_adds(k, scale as nat);
                assert(p1074 == pow2(k) as int * ps);
                lemma_cancel_mul(au as int * pow2(k) as int, sig as int, ps);
                assert((au as int * pow2(k) as int) * ps == au as int * p1074)
                    by (nonlinear_arith)
                    requires p1074 == pow2(k) as int * ps;
            }
        }
        if !bneg {
            mag
        } else {
            match mag {
                NumOrder::Less => NumOrder::Greater,
                NumOrder::Equal => NumOrder::Equal,
                NumOrder::Greater => NumOrder::Less,
                NumOrder::Unordered => NumOrder::Unordered,
            }
        }
    }
}

/// `x >= 2^52` and `c >= 2^12` give `x * c >= 2^64`.
proof fn lemma_mul_upper_bound_reverse(x: int, c: int)
    requires
        x >= 0x10_0000_0000_0000,
        c >= 0x1000,
    ensures
        x * c >= 0x1_0000_0000_0000_0000,
{
    lemma_mul_inequality(0x10_0000_0000_0000, x, c);
    assert(0x10_0000_0000_0000 * c >= 0x10_0000_0000_0000 * 0x1000) by (nonlinear_arith)
        requires c >= 0x1000;
    assert(x * c >= x * 0x1000) by (nonlinear_arith)
        requires x >= 0 && c >= 0x1000;
    assert(x * 0x1000 >= 0x10_0000_0000_0000 * 0x1000) by (nonlinear_arith)
        requires x >= 0x10_0000_0000_0000;
}

/// Strict upper bounds multiply: `x < xb`, `y <= yb` with `y > 0` give
/// `x * y < xb * yb`.
proof fn lemma_mul_upper_bound_lt(x: int, xb: int, y: int, yb: int)
    requires
        0 <= x < xb,
        0 < y <= yb,
    ensures
        x * y < xb * yb,
{
    lemma_mul_strict_inequality(x, xb, y);
    lemma_mul_inequality(y, yb, xb);
    assert(xb * y == y * xb && xb * yb == yb * xb) by (nonlinear_arith);
}

/// The magnitude bits (sign cleared) of a binary32 pattern.
pub open spec fn f32_mag_of(bits: u32) -> u32 {
    bits & 0x7fff_ffff
}

/// True when the binary32 sign bit is set.
pub open spec fn f32_is_neg(bits: u32) -> bool {
    bits >> 31 == 1
}

/// The biased exponent field of a binary32 pattern.
pub open spec fn f32_exp_of(bits: u32) -> u32 {
    f32_mag_of(bits) >> 23
}

/// The fraction field of a binary32 pattern.
pub open spec fn f32_frac_of(bits: u32) -> u32 {
    f32_mag_of(bits) & 0x7f_ffff
}

/// True when the binary32 pattern denotes a NaN.
pub open spec fn f32_is_nan(bits: u32) -> bool {
    f32_exp_of(bits) == 0xff && f32_frac_of(bits) != 0
}

/// True when the binary32 pattern denotes an infinity.
pub open spec fn f32_is_infinite(bits: u32) -> bool {
    f32_exp_of(bits) == 0xff && f32_frac_of(bits) == 0
}

/// True when the binary32 pattern denotes a finite number.
pub open spec fn f32_is_finite(bits: u32) -> bool {
    f32_exp_of(bits) != 0xff
}

/// The binary32 significand with the implicit bit folded in.
pub open spec fn f32_sig_of(bits: u32) -> u32 {
    if f32_exp_of(bits) == 0 {
        f32_frac_of(bits)
    } else {
        (f32_frac_of(bits) + 0x80_0000) as u32
    }
}

/// The power-of-two scale of the binary32 significand, relative to `2^-149`.
pub open spec fn f32_scale_of(bits: u32) -> nat {
    if f32_exp_of(bits) == 0 {
        0
    } else {
        (f32_exp_of(bits) - 1) as nat
    }
}

/// The magnitude of a finite binary32 value, scaled by `2^149`.
pub open spec fn f32_scaled_mag(bits: u32) -> nat {
    (f32_sig_of(bits) * pow2(f32_scale_of(bits))) as nat
}

/// Decomposition of a binary32 pattern into sign, exponent and fraction.
proof fn lemma_f32_decompose(b: u32)
    ensures
        f32_mag_of(b) == f32_exp_of(b) * 0x80_0000 + f32_frac_of(b),
        f32_frac_of(b) < 0x80_0000,
        f32_exp_of(b) <= 0xff,
{
    let m = b & 0x7fff_ffffu32;
    let e = m >> 23;
    let f = m & 0x7f_ffffu32;
    assert(m == e * 0x80_0000 + f && f < 0x80_0000 && e <= 0xff) by (bit_vector)
        requires
            m == b & 0x7fff_ffffu32,
            e == m >> 23,
            f == m & 0x7f_ffffu32,
    ;
}

/// Widens a binary32 bit pattern to the binary64 bit pattern denoting the
/// same value (every binary32 value is exactly representable in binary64).
#[verifier::rlimit(50)]
#[verifier::spinoff_prover]
pub fn widen_f32_bits(x: u32) -> (r: u64)
    ensures
        r == widen_bits(x),
        is_nan(r) == f32_is_nan(x),
        is_infinite(r) == f32_is_infinite(x),
        is_neg(r) == f32_is_neg(x),
        f32_is_finite(x) ==> scaled_mag(r) == f32_scaled_mag(x) * pow2(925),
{
    let m = x & 0x7fff_ffff;
    let e = m >> 23;
    let f = m & 0x7f_ffff;
    let s: u64 = if (x >> 31) == 1 { 1 } else { 0 };
    proof {
        lemma_f32_decompose(x);
        assert((x >> 31 == 1) == (x >> 31u32 == 1u32)) by (bit_vector);
        vstd::arithmetic::power2::lemma2_to64();
        vstd::arithmetic::power2::lemma2_to64_rest();
    }
    if e == 0xff {
        // infinity or NaN: widen the fraction so NaN-ness is kept
        let f64v: u64 = (f as u64) * 0x2000_0000;
        proof {
            lemma_compose(s, 0x7ff, f64v);
            lemma_decompose((s * 0x8000_0000_0000_0000 + 0x7ff * 0x10_0000_0000_0000 + f64v) as u64);
        }
        (s * 0x8000_0000_0000_0000 + 0x7ff * 0x10_0000_0000_0000 + f64v) as u64
    } else if e > 0 {
        // normal: rebias the exponent, shift the fraction into place
        let e64: u64 = (e as u64) + 896;
        let f64v: u64 = (f as u64) * 0x2000_0000;
        let r = (s * 0x8000_0000_0000_0000 + e64 * 0x10_0000_0000_0000 + f64v) as u64;
        proof {
            lemma_compose(s, e64, f64v);
            lemma_decompose(r);
            // sig64 = sig32 * 2^29 and scale64 = scale32 + 896, so the
            // scaled magnitude grows by exactly 2^925
            let sig32 = f32_sig_of(x) as int;
            let sc32 = f32_scale_of(x);
            assert(sig_of(r) == sig32 * 0x2000_0000);
            assert(scale_of(r) == sc32 + 896);
            lemma_pow2_adds(29, (sc32 + 896) as nat);
            lemma_pow2_adds(sc32, 925);
            assert((sig32 * 0x2000_0000) * pow2((sc32 + 896) as nat) as int
                == sig32 * (pow2(29) * pow2((sc32 + 896) as nat)) as int) by (nonlinear_arith)
                requires pow2(29) == 0x2000_0000;
            assert((f32_scaled_mag(x) * pow2(925)) as int
                == sig32 * (pow2(sc32) * pow2(925)) as int) by (nonlinear_arith)
                requires f32_scaled_mag(x) == sig32 * pow2(sc32);
        }
        r
    } else if f == 0 {
        // signed zero
        let r = (s * 0x8000_0000_0000_0000) as u64;
        proof {
            lemma_compose(s, 0, 0);
            lemma_decompose(r);
        }
        r
    } else {
        // subnormal: normalize by the index of the highest set fraction bit
        proof {
            assert(f >> 0u32 == f) by (bit_vector);
        }
        let mut h: u32 = 0;
        while (f >> (h + 1)) != 0
            invariant
                f < 0x80_0000,
                f >> h != 0,
                h <= 22,
            decreases 22 - h,
        {
            proof {
                let hh = h;
                assert((f >> (hh + 1) != 0 && f < 0x80_0000) ==> hh + 1 <= 22) by (bit_vector);
            }
            h = h + 1;
        }
        proof {
            let hh = h;
            assert((f >> hh != 0 && f >> (hh + 1) == 0 && hh <= 22 && f < 0x80_0000)
                ==> ((1u32 << hh) <= f && f < (1u32 << (hh + 1)))) by (bit_vector);
            vstd::bits::lemma_u32_shl_is_mul(1u32, hh);
            vstd::bits::lemma_u32_shl_is_mul(1u32, (hh + 1) as u32);
            assert(pow2(hh as nat) <= f as nat);
            assert((f as nat) < pow2((hh + 1) as nat));
        }
        proof {
            let hh = h as nat;
            let tb = top_bit(f as nat);
            lemma_top_bit_bounds(f as nat);
            if hh < tb {
                if hh + 1 < tb {
                    lemma_pow2_strictly_increases(hh + 1, tb);
                }
                assert(false);
            }
            if tb < hh {
                if tb + 1 < hh {
                    lemma_pow2_strictly_increases(tb + 1, hh);
                }
                assert(false);
            }
            assert(hh == tb);
        }
        let shift: u64 = 52 - (h as u64);
        let psh: u64 = pow2_u64(shift);
        proof {
            // f * 2^(52-h) lies in [2^52, 2^53)
            lemma_pow2_adds(h as nat, shift as nat);
            lemma_pow2_adds((h + 1) as nat, shift as nat);
            lemma_pow2_pos(shift as nat);
            lemma_mul_inequality(pow2(h as nat) as int, f as int, psh as int);
            lemma_mul_strict_inequality(f as int, pow2((h + 1) as nat) as int, psh as int);
            assert(pow2(h as nat) as int * psh as int == pow2(52) as int);
            assert(pow2((h + 1) as nat) as int * psh as int == pow2(53) as int);
        }
        let sig64: u64 = (f as u64) * psh;
        let e64: u64 = 874 + (h as u64);
        let f64v: u64 = sig64 - 0x10_0000_0000_0000;
        let r = (s * 0x8000_0000_0000_0000 + e64 * 0x10_0000_0000_0000 + f64v) as u64;
        proof {
            lemma_compose(s, e64, f64v);
            lemma_decompose(r);
            // scaled magnitude: f * 2^(52-h) * 2^(873+h) == f * 2^925
            assert(sig_of(r) == sig64);
            assert(scale_of(r) == (873 + h) as nat);
            lemma_pow2_adds(shift as nat, (873 + h) as nat);
            assert((f as int * psh as int) * pow2((873 + h) as nat) as int
                == f as int * pow2(925) as int) by (nonlinear_arith)
                requires
                    psh as int * pow2((873 + h) as nat) as int == pow2(925) as int,
            ;
            assert(f32_scaled_mag(x) == f as nat * pow2(0));
        }
        r
    }
}

/// The position of the highest set bit of a positive number.
pub open spec fn top_bit(f: nat) -> nat
    decreases f,
{
    if f <= 1 {
        0
    } else {
        1 + top_bit(f / 2)
    }
}

/// `top_bit` brackets its argument between two powers of two.
proof fn lemma_top_bit_bounds(f: nat)
    requires
        f >= 1,
    ensures
        pow2(top_bit(f)) <= f < pow2(top_bit(f) + 1),
    decreases f,
{
    vstd::arithmetic::power2::lemma2_to64();
    if f <= 1 {
    } else {
        lemma_top_bit_bounds(f / 2);
        lemma_pow2_adds(top_bit(f / 2), 1);
        lemma_pow2_adds(top_bit(f / 2) + 1, 1);
    }
}

/// The binary64 bit pattern [`widen_f32_bits`] constructs: sign copied,
/// exponent re-biased, fraction shifted, subnormals normalized by the top
/// fraction bit.
pub open spec fn widen_bits(x: u32) -> u64 {
    let s: u64 = if f32_is_neg(x) { 1 } else { 0 };
    let e = f32_exp_of(x);
    let f = f32_frac_of(x);
    if e == 0xff {
        (s * 0x8000_0000_0000_0000 + 0x7ff * 0x10_0000_0000_0000 + (f as u64) * 0x2000_0000) as u64
    } else if e > 0 {
        (s * 0x8000_0000_0000_0000 + ((e + 896) as u64) * 0x10_0000_0000_0000
            + (f as u64) * 0x2000_0000) as u64
    } else if f == 0 {
        (s * 0x8000_0000_0000_0000) as u64
    } else {
        let h = top_bit(f as nat);
        let sig = (f as nat) * pow2((52 - h) as nat);
        (s * 0x8000_0000_0000_0000 + ((874 + h) as u64) * 0x10_0000_0000_0000
            + (sig - 0x10_0000_0000_0000) as u64) as u64
    }
}

} // verus!
