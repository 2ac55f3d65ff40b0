use robot_fleet::avoidance::calculate_avoidance_force;
use robot_fleet::geometry::Vec2;

fn v(x: i64, y: i64) -> Vec2 {
    Vec2 { x, y }
}

/// Two robots five units apart with a ten-unit collision radius: strength
/// is one half, so the yielder (lower id) contributes 0.25 of a unit away
/// and the holder (higher id) contributes 1.5 of a unit away.
#[test]
fn avoidance_asymmetry() {
    let obstacles = vec![(1u64, v(0, 0)), (2u64, v(5_000, 0))];
    let (force_a, critical_a) = calculate_avoidance_force(1, v(0, 0), &obstacles, 10_000);
    assert_eq!(force_a, v(-250, 0));
    assert!(!critical_a);
    let (force_b, critical_b) = calculate_avoidance_force(2, v(5_000, 0), &obstacles, 10_000);
    assert_eq!(force_b, v(1_500, 0));
    assert!(!critical_b);
}

/// Inside half the collision radius only the holder reports critical
/// overlap; the yielder never does.
#[test]
fn critical_overlap_holder_only() {
    let obstacles = vec![(1u64, v(0, 0)), (2u64, v(4_000, 0))];
    let (_, critical_a) = calculate_avoidance_force(1, v(0, 0), &obstacles, 10_000);
    assert!(!critical_a);
    let (_, critical_b) = calculate_avoidance_force(2, v(4_000, 0), &obstacles, 10_000);
    assert!(critical_b);
}

/// Robots at or beyond the collision radius exert no force.
#[test]
fn out_of_radius_no_force() {
    let obstacles = vec![(1u64, v(0, 0)), (2u64, v(10_000, 0))];
    let (force, critical) = calculate_avoidance_force(1, v(0, 0), &obstacles, 10_000);
    assert_eq!(force, v(0, 0));
    assert!(!critical);
}

/// A robot is never repelled by its own entry in the snapshot.
#[test]
fn self_is_skipped() {
    let obstacles = vec![(7u64, v(123, 456))];
    let (force, critical) = calculate_avoidance_force(7, v(123, 456), &obstacles, 10_000);
    assert_eq!(force, v(0, 0));
    assert!(!critical);
}

/// Coincident distinct robots contribute no direction, but the holder is
/// in critical overlap.
#[test]
fn coincident_robots() {
    let obstacles = vec![(1u64, v(0, 0)), (2u64, v(0, 0))];
    let (force_b, critical_b) = calculate_avoidance_force(2, v(0, 0), &obstacles, 10_000);
    assert_eq!(force_b, v(0, 0));
    assert!(critical_b);
    let (force_a, critical_a) = calculate_avoidance_force(1, v(0, 0), &obstacles, 10_000);
    assert_eq!(force_a, v(0, 0));
    assert!(!critical_a);
}

/// Forces from several neighbours accumulate componentwise.
#[test]
fn forces_accumulate() {
    let obstacles = vec![(1u64, v(0, 0)), (2u64, v(5_000, 0)), (3u64, v(-5_000, 0))];
    let (force_a, _) = calculate_avoidance_force(1, v(0, 0), &obstacles, 10_000);
    // Pushed left by the robot on the right and right by the robot on the
    // left, a quarter unit each: the yields cancel exactly.
    assert_eq!(force_a, v(0, 0));
    let (force_b, _) = calculate_avoidance_force(2, v(5_000, 0), &obstacles, 10_000);
    // From robot 1 (holder side): 1.5 away; robot 3 is ten units off, no force.
    assert_eq!(force_b, v(1_500, 0));
}
