//! Exact rational scalars for style paint properties.
//!
//! Paint quantities (opacity, width) and interpolation bases are carried as
//! ratios of 128-bit integers, so the zoom interpolation engine computes
//! exact values instead of rounded ones.

use vstd::prelude::*;
use vstd::arithmetic::power::pow;

verus! {

/// An exact rational number `num / den` with a positive denominator.
#[derive(Clone, Copy, Debug)]
pub struct Rational {
    pub num: i128,
    pub den: i128,
}

impl Rational {
    /// The denominator is positive, so the value is well defined and the
    /// sign lives in the numerator.
    pub open spec fn wf(self) -> bool {
        self.den > 0
    }

    /// True when this rational equals the fraction `n / d` (with `d != 0`):
    /// cross-multiplication equality.
    pub open spec fn is_frac(self, n: int, d: int) -> bool {
        self.num * d == n * self.den
    }

    /// Whole number.
    pub fn from_int(n: i64) -> (r: Rational)
        ensures
            r.wf(),
            r.is_frac(n as int, 1),
    {
        Rational { num: n as i128, den: 1 }
    }

    /// The fraction `n / d`.
    pub fn new(n: i64, d: i64) -> (r: Rational)
        requires
            d > 0,
        ensures
            r.wf(),
            r.is_frac(n as int, d as int),
    {
        Rational { num: n as i128, den: d as i128 }
    }

    /// True when the value is exactly one.
    pub fn is_one(&self) -> (r: bool)
        requires
            self.wf(),
        ensures
            r == (self.num == self.den),
    {
        self.num == self.den
    }
}

/// Bound on the components of quantities fed to the interpolation engine,
/// chosen so that every intermediate product provably fits the word size.
pub const QUANTITY_COMPONENT_BOUND: i128 = 0x10_0000;

/// A rational whose components are small enough for interpolation
/// arithmetic.
pub open spec fn rat_small(r: Rational) -> bool {
    &&& r.wf()
    &&& -QUANTITY_COMPONENT_BOUND <= r.num <= QUANTITY_COMPONENT_BOUND
    &&& r.den <= QUANTITY_COMPONENT_BOUND
}

/// `pow` is monotone in the base for nonnegative exponents.
pub proof fn lemma_pow_base_mono(a: int, b: int, e: nat)
    requires
        1 <= a <= b,
    ensures
        1 <= pow(a, e) <= pow(b, e),
    decreases e,
{
    reveal(pow);
    if e == 0 {
    } else {
        lemma_pow_base_mono(a, b, (e - 1) as nat);
        assert(pow(a, e) == a * pow(a, (e - 1) as nat));
        assert(pow(b, e) == b * pow(b, (e - 1) as nat));
        assert(1 * 1 <= a * pow(a, (e - 1) as nat)) by (nonlinear_arith)
            requires 1 <= a && 1 <= pow(a, (e - 1) as nat);
        assert(a * pow(a, (e - 1) as nat) <= b * pow(b, (e - 1) as nat)) by (nonlinear_arith)
            requires 1 <= a <= b && 1 <= pow(a, (e - 1) as nat) <= pow(b, (e - 1) as nat);
    }
}

/// `pow` is strictly monotone in the base for positive exponents.
pub proof fn lemma_pow_base_strict_mono(a: int, b: int, e: nat)
    requires
        1 <= a < b,
        e >= 1,
    ensures
        pow(a, e) < pow(b, e),
    decreases e,
{
    reveal(pow);
    lemma_pow_base_mono(a, b, (e - 1) as nat);
    assert(pow(a, e) == a * pow(a, (e - 1) as nat));
    assert(pow(b, e) == b * pow(b, (e - 1) as nat));
    assert(a * pow(a, (e - 1) as nat) < b * pow(b, (e - 1) as nat)) by (nonlinear_arith)
        requires 1 <= a < b && 1 <= pow(a, (e - 1) as nat) <= pow(b, (e - 1) as nat);
}

/// Raises a positive base to a power, exactly.
pub(crate) fn pow_i128(b: i128, e: i128, Ghost(cap): Ghost<int>) -> (r: i128)
    requires
        1 <= b,
        0 <= e,
        pow(b as int, e as nat) <= cap,
        cap <= 0x1_0000_0000_0000_0000_0000_0000,
    ensures
        r == pow(b as int, e as nat),
        1 <= r <= cap,
{
    proof {
        vstd::arithmetic::power::lemma_pow_positive(b as int, e as nat);
        lemma_pow_base_mono(1, b as int, e as nat);
        vstd::arithmetic::power::lemma_pow0(b as int);
    }
    let mut r: i128 = 1;
    let mut i: i128 = 0;
    while i < e
        invariant
            0 <= i <= e,
            1 <= b,
            r == pow(b as int, i as nat),
            pow(b as int, e as nat) <= cap,
            cap <= 0x1_0000_0000_0000_0000_0000_0000,
        decreases e - i,
    {
        proof {
            vstd::arithmetic::power::lemma_pow_positive(b as int, i as nat);
            vstd::arithmetic::power::lemma_pow_adds(b as int, i as nat, 1);
            vstd::arithmetic::power::lemma_pow1(b as int);
            // r * b == pow(b, i + 1) <= pow(b, e) <= cap
            vstd::arithmetic::power::lemma_pow_increases(b as nat, (i + 1) as nat, e as nat);
            assert(pow(b as int, (i + 1) as nat) == r * b);
            vstd::arithmetic::power::lemma_pow_positive(b as int, (i + 1) as nat);
        }
        r = r * b;
        i = i + 1;
    }
    proof {
        vstd::arithmetic::power::lemma_pow_positive(b as int, e as nat);
    }
    r
}

} // verus!
