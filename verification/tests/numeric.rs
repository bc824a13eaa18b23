//! Binary64 ordering, zoom interpolation and decimal formatting.

use maplibre_core::binary64::{cmp_int_bits, eq_bits, lt_bits, widen_f32_bits, NumOrder};
use maplibre_core::layer::{InterpolatedQuantity, Stop};
use maplibre_core::rational::Rational;
use maplibre_core::util::interpolate;

fn rat_is(r: Rational, n: i128, d: i128) -> bool {
    r.den > 0 && r.num * d == n * r.den
}

fn stops_0_10() -> InterpolatedQuantity {
    InterpolatedQuantity::Interpolated {
        base: Rational::new(1, 1),
        stops: vec![
            Stop { z: 0, v: Rational::from_int(0) },
            Stop { z: 10, v: Rational::from_int(10) },
        ],
    }
}

#[test]
fn interpolation_boundary_midpoint() {
    let q = stops_0_10();
    let r = interpolate(&q, 5).unwrap();
    assert!(rat_is(r, 5, 1));
}

#[test]
fn interpolation_boundary_at_stops() {
    let q = stops_0_10();
    assert!(rat_is(interpolate(&q, 0).unwrap(), 0, 1));
    assert!(rat_is(interpolate(&q, 10).unwrap(), 10, 1));
}

#[test]
fn interpolation_boundary_above_clamps() {
    let q = stops_0_10();
    assert!(rat_is(interpolate(&q, 20).unwrap(), 10, 1));
}

#[test]
fn interpolation_below_all_stops_clamps() {
    // the zoom axis starts at zero, so the below-range clamp is driven
    // with stops that begin above the queried zoom
    let q = InterpolatedQuantity::Interpolated {
        base: Rational::new(1, 1),
        stops: vec![
            Stop { z: 3, v: Rational::from_int(7) },
            Stop { z: 10, v: Rational::from_int(10) },
        ],
    };
    assert!(rat_is(interpolate(&q, 0).unwrap(), 7, 1));
}

#[test]
fn interpolation_exponential_base_two() {
    // midpoint of [(0, 0), (2, 1)] with base 2: (2^1 - 1) / (2^2 - 1) = 1/3
    let q = InterpolatedQuantity::Interpolated {
        base: Rational::new(2, 1),
        stops: vec![
            Stop { z: 0, v: Rational::from_int(0) },
            Stop { z: 2, v: Rational::from_int(1) },
        ],
    };
    let r = interpolate(&q, 1).unwrap();
    assert!(rat_is(r, 1, 3));
}

#[test]
fn interpolation_empty_stops_is_none() {
    let q = InterpolatedQuantity::Interpolated { base: Rational::new(1, 1), stops: vec![] };
    assert!(interpolate(&q, 5).is_none());
}

#[test]
fn interpolation_fixed() {
    let q = InterpolatedQuantity::Fixed(Rational::new(3, 4));
    assert!(rat_is(interpolate(&q, 9).unwrap(), 3, 4));
}

#[test]
fn binary64_ordering_matches_ieee() {
    let pairs = [
        (1.0f64, 2.0f64),
        (-1.0, 1.0),
        (-2.0, -1.0),
        (0.0, 1.5),
        (-0.25, 0.0),
        (f64::NEG_INFINITY, -1.0e308),
        (1.0e308, f64::INFINITY),
        (1.5, 1.5000000000000002),
    ];
    for (a, b) in pairs {
        assert!(lt_bits(a.to_bits(), b.to_bits()), "{a} < {b}");
        assert!(!lt_bits(b.to_bits(), a.to_bits()));
    }
}

#[test]
fn binary64_zero_signs_and_nan() {
    assert!(eq_bits((0.0f64).to_bits(), (-0.0f64).to_bits()));
    assert!(!lt_bits((-0.0f64).to_bits(), (0.0f64).to_bits()));
    assert!(!lt_bits(f64::NAN.to_bits(), 1.0f64.to_bits()));
    assert!(!lt_bits(1.0f64.to_bits(), f64::NAN.to_bits()));
    assert!(!eq_bits(f64::NAN.to_bits(), f64::NAN.to_bits()));
    assert!(eq_bits(f64::INFINITY.to_bits(), f64::INFINITY.to_bits()));
}

#[test]
fn binary64_int_comparison() {
    assert!(matches!(cmp_int_bits(3, (3.5f64).to_bits()), NumOrder::Less));
    assert!(matches!(cmp_int_bits(4, (3.5f64).to_bits()), NumOrder::Greater));
    assert!(matches!(cmp_int_bits(3, (3.0f64).to_bits()), NumOrder::Equal));
    assert!(matches!(cmp_int_bits(0, (-0.0f64).to_bits()), NumOrder::Equal));
    assert!(matches!(cmp_int_bits(-7, (-6.5f64).to_bits()), NumOrder::Less));
    assert!(matches!(cmp_int_bits(5, f64::INFINITY.to_bits()), NumOrder::Less));
    assert!(matches!(cmp_int_bits(5, f64::NEG_INFINITY.to_bits()), NumOrder::Greater));
    assert!(matches!(cmp_int_bits(5, f64::NAN.to_bits()), NumOrder::Unordered));
    assert!(matches!(
        cmp_int_bits(i64::MAX, ((i64::MAX as f64) * 2.0).to_bits()),
        NumOrder::Less
    ));
}

#[test]
fn binary32_widening_is_exact() {
    let samples = [0.0f32, -0.0, 1.0, -1.5, 0.1, 3.4e38, 1.0e-44, f32::INFINITY, -f32::INFINITY];
    for x in samples {
        let widened = widen_f32_bits(x.to_bits());
        assert_eq!(widened, (x as f64).to_bits(), "widening {x}");
    }
    let nan = widen_f32_bits(f32::NAN.to_bits());
    assert!(f64::from_bits(nan).is_nan());
}

#[test]
fn interpolation_survives_unsorted_stops() {
    // stops out of ascending order still yield a value for every zoom
    let q = InterpolatedQuantity::Interpolated {
        base: Rational::new(1, 1),
        stops: vec![
            Stop { z: 10, v: Rational::from_int(10) },
            Stop { z: 0, v: Rational::from_int(0) },
        ],
    };
    for z in [0u8, 5, 10, 20] {
        assert!(interpolate(&q, z).is_some());
    }
}

#[test]
fn interpolation_zero_span_takes_first() {
    let q = InterpolatedQuantity::Interpolated {
        base: Rational::new(1, 1),
        stops: vec![
            Stop { z: 5, v: Rational::from_int(1) },
            Stop { z: 5, v: Rational::from_int(9) },
        ],
    };
    assert!(rat_is(interpolate(&q, 5).unwrap(), 1, 1));
}
