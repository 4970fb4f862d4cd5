//! Doubles, rationals and time ranges.

use oak_node::double::Double;
use oak_node::rational::{Rational, TimeRange};

fn double(v: f64) -> Double {
    Double { bits: v.to_bits() }
}

#[test]
fn integers_become_the_nearest_double() {
    for i in [
        0,
        1,
        -1,
        72,
        (1 << 53) - 1,
        1 << 53,
        (1 << 53) + 1,
        (1 << 53) + 3,
        i64::MAX,
        i64::MIN,
        -(1 << 60) - 129,
    ] {
        assert_eq!(Double::of_int(i), double(i as f64), "{i}");
    }
}

#[test]
fn ratios_become_the_nearest_double() {
    for (n, d) in [(1, 3), (-1, 3), (1001, 30000), (i64::MAX, 7), (1, u64::MAX), (i64::MIN, 1), (0, 5)] {
        let exact = match d {
            u64::MAX => 1.0 / 18446744073709551615.0f64,
            _ => n as f64 / d as f64,
        };
        let got = f64::from_bits(Double::of_ratio(n, d).bits);
        assert!((got - exact).abs() <= exact.abs() * 1e-15, "{n}/{d}: {got} vs {exact}");
    }
    assert_eq!(Double::of_ratio(1, 10), double(0.1));
    assert_eq!(Double::of_ratio(-3, 2), double(-1.5));
}

#[test]
fn truncation_saturates() {
    for v in [
        0.0, -0.0, 0.999, -0.999, 1.5, -2.5, 1e10, -1e10, 9.3e18, -9.3e18, 1e300, -1e300,
        f64::INFINITY, f64::NEG_INFINITY, f64::NAN, 5e-324, 4503599627370497.5,
    ] {
        assert_eq!(double(v).to_i64(), v as i64, "{v}");
        assert_eq!(double(v).to_i32(), v as i32, "{v}");
    }
}

#[test]
fn small_integers_survive() {
    for i in [0, 5, -5, (1i64 << 53) - 1, -(1i64 << 53) + 1] {
        assert_eq!(Double::of_int(i).to_i64(), i);
    }
}

#[test]
fn rounding_goes_away_from_zero_and_is_clamped() {
    for v in [0.0, 0.49999999999999994, 0.5, 1.5, 2.5, -0.5, -2.5, 8191.5, 1e300, -1e300] {
        let expected = f64::round(v).clamp(-100.0, 8192.0) as i32;
        assert_eq!(double(v).rounded_into(-100, 8192), expected, "{v}");
    }
}

#[test]
fn doubles_compare_as_numbers() {
    let values = [
        f64::NEG_INFINITY, -2.0, -1.0, -5e-324, -0.0, 0.0, 5e-324, 0.5, 1.0, f64::INFINITY, f64::NAN,
    ];
    for a in values {
        for b in values {
            assert_eq!(double(a).is_below(double(b)), a < b, "{a} < {b}");
            assert_eq!(double(a).is_at_most(double(b)), a <= b, "{a} <= {b}");
        }
        assert_eq!(double(a).at_most_zero(), a <= 0.0);
        assert_eq!(double(a).is_finite(), a.is_finite());
        assert_eq!(double(a).is_nan(), a.is_nan());
        assert_eq!(double(a).is_zero(), a == 0.0);
        assert_eq!(double(a).is_usable(), a.is_finite() && a > 0.0);
    }
    assert_eq!(double(1.0).min(double(2.0)), double(1.0));
    assert_eq!(double(1.0).max(double(2.0)), double(2.0));
}

#[test]
fn rationals_are_reduced() {
    let r = Rational::new(-6, 4);
    assert_eq!((r.numer(), r.denom()), (-3, 2));
    assert_eq!(Rational::new(0, 7), Rational::zero());
    assert_eq!(Rational::new(2, 4), Rational::new(1, 2));
    let least = Rational::new(i64::MIN, 2);
    assert_eq!((least.numer(), least.denom()), (i64::MIN / 2, 1));
    assert_eq!(Rational::new(1001, 30000).to_double(), double(1001.0 / 30000.0));
}

#[test]
fn time_ranges_have_two_ends() {
    let range = TimeRange::new(Rational::new(1, 2), Rational::new(3, 2));
    assert_eq!(range.in_(), Rational::new(1, 2));
    assert_eq!(range.out(), Rational::new(3, 2));
}
