use robot_fleet::geometry::{clamp64, distance_between, isqrt, mul_div_trunc, Vec2};

fn v(x: i64, y: i64) -> Vec2 {
    Vec2 { x, y }
}

/// The integer square root is the floor of the real one.
#[test]
fn isqrt_values() {
    assert_eq!(isqrt(0), 0);
    assert_eq!(isqrt(1), 1);
    assert_eq!(isqrt(3), 1);
    assert_eq!(isqrt(4), 2);
    assert_eq!(isqrt(2_000_000), 1_414);
    assert_eq!(isqrt(1_000_000_000_000), 1_000_000);
}

/// Distances come out exact on Pythagorean triples and floored otherwise.
#[test]
fn distance_values() {
    assert_eq!(distance_between(v(0, 0), v(3_000, 4_000)), 5_000);
    assert_eq!(distance_between(v(-3_000, 0), v(0, -4_000)), 5_000);
    assert_eq!(distance_between(v(0, 0), v(1_000, 1_000)), 1_414);
    assert_eq!(distance_between(v(7, 7), v(7, 7)), 0);
}

/// The fixed-point multiply-divide truncates toward zero on both signs.
#[test]
fn mul_div_truncates_toward_zero() {
    assert_eq!(mul_div_trunc(7, 1_000, 2_000), 3);
    assert_eq!(mul_div_trunc(-7, 1_000, 2_000), -3);
    assert_eq!(mul_div_trunc(0, 1_000, 7), 0);
    assert_eq!(mul_div_trunc(-5, 1_000, 2_000), -2);
}

/// Clamping pins a value into its interval.
#[test]
fn clamp_values() {
    assert_eq!(clamp64(5, 100, 1_000), 100);
    assert_eq!(clamp64(500, 100, 1_000), 500);
    assert_eq!(clamp64(5_000, 100, 1_000), 1_000);
}
