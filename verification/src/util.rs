//! The zoom interpolation engine: resolves a fixed-or-interpolated paint
//! quantity to an exact scalar at a given zoom level.

use vstd::prelude::*;
use vstd::arithmetic::power::pow;
use crate::ZoomLevel;
use crate::layer::InterpolatedQuantity;
use crate::layer::Stop;
use crate::rational::Rational;
use crate::rational::rat_small;
use crate::rational::lemma_pow_base_mono;
use crate::rational::lemma_pow_base_strict_mono;
use crate::rational::pow_i128;
use crate::rational::QUANTITY_COMPONENT_BOUND;

verus! {

/// Cap on the powers of the interpolation base over one stop span; within
/// it every intermediate product fits the word size.
pub const BASE_POW_CAP: i128 = 0x1_0000_0000_0000_0000_0000;

/// The first adjacent stop pair (searching from `i`) whose zooms bracket
/// `z`.
pub open spec fn window_idx(stops: Seq<Stop>, z: int, i: int) -> Option<int>
    decreases stops.len() - i,
{
    if i < 0 || i + 1 >= stops.len() {
        None
    } else if stops[i].z <= z && z <= stops[i + 1].z {
        Some(i)
    } else {
        window_idx(stops, z, i + 1)
    }
}

/// The exact value interpolated inside a bracketing stop pair, as an
/// unreduced fraction: `a.v + (b.v - a.v) * factor` with factor `0` on a
/// zero span, the linear fraction of progress for base one, and the
/// exponential stop formula `(base^p - 1) / (base^s - 1)` otherwise.
pub open spec fn window_value(a: Stop, b: Stop, base: Rational, z: int) -> (int, int) {
    let s = b.z - a.z;
    let p = z - a.z;
    if s == 0 {
        (a.v.num as int, a.v.den as int)
    } else if base.num == base.den {
        (
            a.v.num * b.v.den * s + (b.v.num * a.v.den - a.v.num * b.v.den) * p,
            a.v.den * b.v.den * s,
        )
    } else {
        let u = base.num as int;
        let v = base.den as int;
        let fnum = (pow(u, p as nat) - pow(v, p as nat)) * pow(v, (s - p) as nat);
        let fden = pow(u, s as nat) - pow(v, s as nat);
        (
            a.v.num * b.v.den * fden + (b.v.num * a.v.den - a.v.num * b.v.den) * fnum,
            a.v.den * b.v.den * fden,
        )
    }
}

/// The exact result of interpolation: nothing for an empty stop list; the
/// first stop's value below all stops, the last stop's above all; the
/// window formula inside a bracketing pair.
pub open spec fn interp_exact(q: &InterpolatedQuantity, z: int) -> Option<(int, int)> {
    match q {
        InterpolatedQuantity::Fixed(v) => Some((v.num as int, v.den as int)),
        InterpolatedQuantity::Interpolated { base, stops } => {
            if stops@.len() == 0 {
                None
            } else {
                match window_idx(stops@, z, 0) {
                    Some(i) => Some(window_value(stops@[i], stops@[i + 1], *base, z)),
                    None => if z <= stops@[0].z {
                        Some((stops@[0].v.num as int, stops@[0].v.den as int))
                    } else {
                        Some((stops@.last().v.num as int, stops@.last().v.den as int))
                    },
                }
            }
        },
    }
}

/// A stop whose components are small enough for exact arithmetic.
pub open spec fn stop_small(s: Stop) -> bool {
    &&& rat_small(s.v)
    &&& -QUANTITY_COMPONENT_BOUND <= s.z && s.z <= QUANTITY_COMPONENT_BOUND
}

/// The machine bounds under which the engine is exact: a fixed quantity is
/// any well-formed rational; an interpolated one has a positive base and
/// small components throughout.
pub open spec fn quantity_in_range(q: &InterpolatedQuantity) -> bool {
    match q {
        InterpolatedQuantity::Fixed(v) => v.wf(),
        InterpolatedQuantity::Interpolated { base, stops } => {
            &&& 1 <= base.num <= QUANTITY_COMPONENT_BOUND
            &&& 1 <= base.den <= QUANTITY_COMPONENT_BOUND
            &&& forall|i: int| 0 <= i < stops@.len() ==> #[trigger] stop_small(stops@[i])
        },
    }
}

/// The powers of the base over the bracketing span fit under
/// [`BASE_POW_CAP`]; vacuous for base one, a zero span, or no window.
pub open spec fn pow_in_range(q: &InterpolatedQuantity, z: int) -> bool {
    match q {
        InterpolatedQuantity::Fixed(_) => true,
        InterpolatedQuantity::Interpolated { base, stops } => match window_idx(stops@, z, 0) {
            None => true,
            Some(i) => {
                let s = stops@[i + 1].z - stops@[i].z;
                (s > 0 && base.num != base.den) ==> (
                    pow(base.num as int, s as nat) <= BASE_POW_CAP
                    && pow(base.den as int, s as nat) <= BASE_POW_CAP
                )
            },
        },
    }
}

/// Resolves a quantity at a zoom level.
///
/// Returns nothing exactly when the quantity is interpolated over an empty
/// stop list; otherwise the result is the exact rational of
/// [`interp_exact`].
#[verifier::loop_isolation(false)]
#[verifier::rlimit(60)]
pub fn interpolate(quantity: &InterpolatedQuantity, zoom_level: ZoomLevel) -> (r: Option<Rational>)
    requires
        quantity_in_range(quantity),
        pow_in_range(quantity, zoom_level as int),
    ensures
        match (r, interp_exact(quantity, zoom_level as int)) {
            (Some(v), Some((n, d))) => v.wf() && d != 0 && v.is_frac(n, d),
            (None, None) => true,
            _ => false,
        },
{
    let z: i64 = zoom_level as i64;
    match quantity {
        InterpolatedQuantity::Fixed(v) => {
            proof {
                assert(v.wf());
                assert(interp_exact(quantity, zoom_level as int)
                    == Some((v.num as int, v.den as int)));
                assert(v.is_frac(v.num as int, v.den as int)) by (nonlinear_arith);
            }
            Some(*v)
        },
        InterpolatedQuantity::Interpolated { base, stops } => {
            let n = stops.len();
            if n == 0 {
                return None;
            }
            let mut i: usize = 0;
            let mut found: bool = false;
            while !found && i + 1 < n
                invariant
                    0 <= i < n,
                    !found ==> window_idx(stops@, z as int, 0) == window_idx(
                        stops@,
                        z as int,
                        i as int,
                    ),
                    found ==> i + 1 < n && window_idx(stops@, z as int, 0) == Some(i as int)
                        && stops@[i as int].z <= z && z <= stops@[i as int + 1].z,
                decreases n - i, (if found { 0int } else { 1int }),
            {
                if stops[i].z <= z && z <= stops[i + 1].z {
                    found = true;
                } else {
                    i = i + 1;
                }
            }
            if !found {
                // no bracketing pair: clamp to the first or last stop
                assert(window_idx(stops@, z as int, 0) is None);
                proof {
                    assert(stop_small(stops@[0]));
                    assert(stop_small(stops@[n - 1]));
                }
                if z <= stops[0].z {
                    return Some(stops[0].v);
                } else {
                    return Some(stops[n - 1].v);
                }
            }
            // bracketing pair found
            let a = stops[i];
            let b = stops[i + 1];
            proof {
                assert(stop_small(stops@[i as int]));
                assert(stop_small(stops@[i as int + 1]));
            }
            let span: i128 = (b.z as i128) - (a.z as i128);
            let prog: i128 = (z as i128) - (a.z as i128);
            if span == 0 {
                return Some(a.v);
            }
            proof {
                assert(0 < span <= 0x20_0000 && 0 <= prog <= span);
                assert(-0x100_0000_0000 <= a.v.num * b.v.den <= 0x100_0000_0000)
                    by (nonlinear_arith)
                    requires
                        -0x10_0000 <= a.v.num <= 0x10_0000,
                        1 <= b.v.den <= 0x10_0000,
                ;
                assert(-0x100_0000_0000 <= b.v.num * a.v.den <= 0x100_0000_0000)
                    by (nonlinear_arith)
                    requires
                        -0x10_0000 <= b.v.num <= 0x10_0000,
                        1 <= a.v.den <= 0x10_0000,
                ;
                assert(0 < a.v.den * b.v.den <= 0x100_0000_0000) by (nonlinear_arith)
                    requires
                        1 <= a.v.den <= 0x10_0000,
                        1 <= b.v.den <= 0x10_0000,
                ;
            }
            if base.num == base.den {
                // linear interpolation
                let t1: i128 = a.v.num * b.v.den;
                let t2: i128 = b.v.num * a.v.den;
                proof {
                    assert(-0x4000_0000_0000_0000 <= t1 * span <= 0x4000_0000_0000_0000)
                        by (nonlinear_arith)
                        requires
                            -0x100_0000_0000 <= t1 <= 0x100_0000_0000,
                            0 < span <= 0x20_0000,
                    ;
                    assert(-0x8000_0000_0000_0000 <= (t2 - t1) * prog <= 0x8000_0000_0000_0000)
                        by (nonlinear_arith)
                        requires
                            -0x200_0000_0000 <= t2 - t1 <= 0x200_0000_0000,
                            0 <= prog <= 0x20_0000,
                    ;
                    assert(0 < (a.v.den * b.v.den) * span <= 0x4000_0000_0000_0000)
                        by (nonlinear_arith)
                        requires
                            0 < a.v.den * b.v.den <= 0x100_0000_0000,
                            0 < span <= 0x20_0000,
                    ;
                }
                let t3: i128 = t2 - t1;
                let num: i128 = t1 * span + t3 * prog;
                let den: i128 = (a.v.den * b.v.den) * span;
                return Some(Rational { num, den });
            }
            // exponential interpolation
            let u: i128 = base.num;
            let v: i128 = base.den;
            let ghost cap = BASE_POW_CAP as int;
            proof {
                vstd::arithmetic::power::lemma_pow_increases(
                    u as nat,
                    prog as nat,
                    span as nat,
                );
                vstd::arithmetic::power::lemma_pow_increases(
                    v as nat,
                    (span - prog) as nat,
                    span as nat,
                );
                lemma_pow_base_mono(1, u as int, prog as nat);
                lemma_pow_base_mono(1, v as int, (span - prog) as nat);
                lemma_pow_base_mono(1, v as int, prog as nat);
                vstd::arithmetic::power::lemma_pow_increases(v as nat, prog as nat, span as nat);
            }
            let pu: i128 = pow_i128(u, prog, Ghost(cap));
            let pv: i128 = pow_i128(v, prog, Ghost(cap));
            let su: i128 = pow_i128(u, span, Ghost(cap));
            let sv: i128 = pow_i128(v, span, Ghost(cap));
            let vsp: i128 = pow_i128(v, span - prog, Ghost(cap));
            proof {
                // pu * vsp <= pow(max(u, v), span) <= cap, likewise pv * vsp
                let m: int = if u >= v { u as int } else { v as int };
                lemma_pow_base_mono(u as int, m, prog as nat);
                lemma_pow_base_mono(v as int, m, prog as nat);
                lemma_pow_base_mono(v as int, m, (span - prog) as nat);
                lemma_pow_base_mono(u as int, m, span as nat);
                lemma_pow_base_mono(v as int, m, span as nat);
                vstd::arithmetic::power::lemma_pow_adds(m, prog as nat, (span - prog) as nat);
                assert(pu * vsp <= pow(m, prog as nat) * pow(m, (span - prog) as nat))
                    by (nonlinear_arith)
                    requires
                        1 <= pu <= pow(m, prog as nat),
                        1 <= vsp <= pow(m, (span - prog) as nat),
                ;
                assert(pv * vsp <= pow(m, prog as nat) * pow(m, (span - prog) as nat))
                    by (nonlinear_arith)
                    requires
                        1 <= pv <= pow(m, prog as nat),
                        1 <= vsp <= pow(m, (span - prog) as nat),
                ;
                assert(pow(m, span as nat) <= cap);
                assert(pu * vsp >= 1 && pv * vsp >= 1) by (nonlinear_arith)
                    requires pu >= 1 && pv >= 1 && vsp >= 1;
                vstd::arithmetic::mul::lemma_mul_is_distributive_sub_other_way(
                    vsp as int,
                    pu as int,
                    pv as int,
                );
                // the denominator factor is nonzero since u != v and span >= 1
                if u < v {
                    lemma_pow_base_strict_mono(u as int, v as int, span as nat);
                } else {
                    lemma_pow_base_strict_mono(v as int, u as int, span as nat);
                }
            }
            let fnum: i128 = (pu - pv) * vsp;
            let fden: i128 = su - sv;
            let t1: i128 = a.v.num * b.v.den;
            let t2: i128 = b.v.num * a.v.den;
            proof {
                assert(t1 * fden <= 0x100_0000_0000_0000_0000_0000_0000_0000
                    && t1 * fden >= -0x100_0000_0000_0000_0000_0000_0000_0000) by (nonlinear_arith)
                    requires
                        -0x100_0000_0000 <= t1 <= 0x100_0000_0000,
                        -0x1_0000_0000_0000_0000_0000 <= fden <= 0x1_0000_0000_0000_0000_0000,
                ;
                assert((t2 - t1) * fnum <= 0x800_0000_0000_0000_0000_0000_0000_0000
                    && (t2 - t1) * fnum >= -0x800_0000_0000_0000_0000_0000_0000_0000)
                    by (nonlinear_arith)
                    requires
                        -0x200_0000_0000 <= t2 - t1 <= 0x200_0000_0000,
                        -0x2_0000_0000_0000_0000_0000 <= fnum <= 0x2_0000_0000_0000_0000_0000,
                ;
                assert((a.v.den * b.v.den) * fden <= 0x100_0000_0000_0000_0000_0000_0000_0000
                    && (a.v.den * b.v.den) * fden >= -0x100_0000_0000_0000_0000_0000_0000_0000
                    && (a.v.den * b.v.den) * fden != 0) by (nonlinear_arith)
                    requires
                        0 < a.v.den * b.v.den <= 0x100_0000_0000,
                        fden != 0,
                        -0x1_0000_0000_0000_0000_0000 <= fden <= 0x1_0000_0000_0000_0000_0000,
                ;
            }
            let num: i128 = t1 * fden + (t2 - t1) * fnum;
            let den: i128 = (a.v.den * b.v.den) * fden;
            proof {
                let wv = window_value(stops@[i as int], stops@[i as int + 1], *base, z as int);
                assert(num == wv.0 && den == wv.1);
                assert((-num) * wv.1 == wv.0 * (-den)) by (nonlinear_arith)
                    requires num == wv.0 && den == wv.1;
            }
            if den < 0 {
                Some(Rational { num: -num, den: -den })
            } else {
                Some(Rational { num, den })
            }
        },
    }
}

/// Determinism at a stop boundary: inside a bracketing pair, a zoom equal
/// to either stop's zoom yields exactly that stop's value, for every base.
pub proof fn lemma_stop_boundary_exact(a: Stop, b: Stop, base: Rational, z: int)
    requires
        a.v.wf(),
        b.v.wf(),
        1 <= base.num,
        1 <= base.den,
        a.z <= z <= b.z,
    ensures
        z == a.z ==> ({
            let (n, d) = window_value(a, b, base, z);
            d != 0 && a.v.num * d == n * a.v.den
        }),
        (z == b.z && b.z > a.z) ==> ({
            let (n, d) = window_value(a, b, base, z);
            d != 0 && b.v.num * d == n * b.v.den
        }),
{
    vstd::arithmetic::power::lemma_pow0(base.num as int);
    vstd::arithmetic::power::lemma_pow0(base.den as int);
    let s = b.z - a.z;
    let u = base.num as int;
    let v = base.den as int;
    if s == 0 {
        assert(a.v.num * (a.v.den as int) == (a.v.num as int) * a.v.den);
    } else {
        if base.num != base.den {
            if u < v {
                lemma_pow_base_strict_mono(u, v, s as nat);
            } else {
                lemma_pow_base_strict_mono(v, u, s as nat);
            }
        }
        let fden = pow(u, s as nat) - pow(v, s as nat);
        if z == a.z {
            // progress zero: the factor numerator vanishes
            if base.num == base.den {
                let (n, d) = window_value(a, b, base, z);
                assert(n == a.v.num * b.v.den * s + (b.v.num * a.v.den - a.v.num * b.v.den) * 0);
                assert((b.v.num * a.v.den - a.v.num * b.v.den) * 0 == 0) by (nonlinear_arith);
                assert(a.v.num * d == n * a.v.den) by (nonlinear_arith)
                    requires
                        n == a.v.num * b.v.den * s,
                        d == a.v.den * b.v.den * s,
                ;
                assert(d != 0) by (nonlinear_arith)
                    requires d == a.v.den * b.v.den * s && a.v.den > 0 && b.v.den > 0 && s > 0;
            } else {
                let (n, d) = window_value(a, b, base, z);
                assert((pow(u, 0) - pow(v, 0)) * pow(v, s as nat) == 0) by (nonlinear_arith)
                    requires pow(u, 0) == 1 && pow(v, 0) == 1;
                assert(n == a.v.num * b.v.den * fden + (b.v.num * a.v.den - a.v.num * b.v.den)
                    * 0);
                assert((b.v.num * a.v.den - a.v.num * b.v.den) * 0 == 0) by (nonlinear_arith);
                assert(a.v.num * d == n * a.v.den) by (nonlinear_arith)
                    requires
                        n == a.v.num * b.v.den * fden,
                        d == a.v.den * b.v.den * fden,
                ;
                assert(d != 0) by (nonlinear_arith)
                    requires
                        d == a.v.den * b.v.den * fden,
                        a.v.den > 0,
                        b.v.den > 0,
                        fden != 0,
                ;
            }
        } else if z == b.z {
            // full progress: the factor is exactly one
            if base.num == base.den {
                let (n, d) = window_value(a, b, base, z);
                assert(n == b.v.num * a.v.den * s) by (nonlinear_arith)
                    requires n == a.v.num * b.v.den * s + (b.v.num * a.v.den - a.v.num * b.v.den)
                        * s;
                assert(b.v.num * d == n * b.v.den) by (nonlinear_arith)
                    requires
                        n == b.v.num * a.v.den * s,
                        d == a.v.den * b.v.den * s,
                ;
                assert(d != 0) by (nonlinear_arith)
                    requires d == a.v.den * b.v.den * s && a.v.den > 0 && b.v.den > 0 && s > 0;
            } else {
                let (n, d) = window_value(a, b, base, z);
                assert((pow(u, s as nat) - pow(v, s as nat)) * pow(v, 0) == fden)
                    by (nonlinear_arith)
                    requires
                        pow(v, 0) == 1,
                        fden == pow(u, s as nat) - pow(v, s as nat),
                ;
                assert(n == b.v.num * a.v.den * fden) by (nonlinear_arith)
                    requires n == a.v.num * b.v.den * fden + (b.v.num * a.v.den - a.v.num
                        * b.v.den) * fden;
                assert(b.v.num * d == n * b.v.den) by (nonlinear_arith)
                    requires
                        n == b.v.num * a.v.den * fden,
                        d == a.v.den * b.v.den * fden,
                ;
                assert(d != 0) by (nonlinear_arith)
                    requires
                        d == a.v.den * b.v.den * fden,
                        a.v.den > 0,
                        b.v.den > 0,
                        fden != 0,
                ;
            }
        }
    }
}

} // verus!
