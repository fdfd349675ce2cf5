//! The steering primitives on concrete values: seek, pursuit, evasion,
//! avoidance, and the vector arithmetic they are built on.

use steering_core::boid::Boid;
use steering_core::vec3::{ceil_sqrt, truncate, Vec3};

fn body(pos: Vec3, vel: Vec3, max_vel: i64) -> Boid {
    Boid { pos, vel, max_vel, radius_sq: 9 }
}

#[test]
fn seek_at_own_position_at_rest_is_zero() {
    let b = body(Vec3::new(7, -3, 12), Vec3::zero(), 100);
    assert_eq!(b.seek(Vec3::new(7, -3, 12)), Vec3::zero());
}

#[test]
fn seek_exact_value() {
    let b = body(Vec3::zero(), Vec3::new(10, 0, 0), 100);
    // difference (3, 4, 0) has magnitude 5; desired = (60, 80, 0).
    assert_eq!(b.seek(Vec3::new(3, 4, 0)), Vec3::new(50, 80, 0));
}

#[test]
fn seek_at_own_position_with_velocity_brakes() {
    let b = body(Vec3::new(1, 2, 3), Vec3::new(4, -5, 6), 100);
    assert_eq!(b.seek(Vec3::new(1, 2, 3)), Vec3::new(-4, 5, -6));
}

#[test]
fn pursue_with_zero_lead_equals_seek_of_position() {
    let b = body(Vec3::new(5, 5, 5), Vec3::new(-2, 9, 4), 77);
    let t = body(Vec3::new(-31, 8, 19), Vec3::new(6, -6, 12), 50);
    assert_eq!(b.persue(t, 0), b.seek(t.pos));
}

#[test]
fn pursue_leads_the_target() {
    let b = body(Vec3::zero(), Vec3::zero(), 100);
    let t = body(Vec3::new(10, 0, 0), Vec3::new(5, 0, 0), 100);
    // With lead 2 the intercept point is (20, 0, 0), straight ahead.
    assert_eq!(b.persue(t, 2), Vec3::new(100, 0, 0));
}

#[test]
fn evade_is_negated_lead_pursuit() {
    let b = body(Vec3::zero(), Vec3::zero(), 100);
    let t = body(Vec3::new(10, 0, 0), Vec3::new(1, 0, 0), 100);
    // Predicted threat position (11, 0, 0); flee straight back.
    assert_eq!(b.evade(t), Vec3::new(-100, 0, 0));
}

#[test]
fn avoidance_of_empty_set_is_zero() {
    let b = body(Vec3::new(1, 1, 1), Vec3::new(2, 2, 2), 100);
    assert_eq!(b.avoidance(&Vec::new()), Vec3::zero());
}

#[test]
fn avoidance_ignores_far_neighbors() {
    let b = body(Vec3::zero(), Vec3::zero(), 100);
    // Combined radii threshold is (9 + 9) * 4 = 72; distance squared 100.
    let far = body(Vec3::new(10, 0, 0), Vec3::zero(), 100);
    assert_eq!(b.avoidance(&vec![far]), Vec3::zero());
}

#[test]
fn avoidance_repels_inversely_by_distance() {
    let b = body(Vec3::zero(), Vec3::zero(), 100);
    let near = body(Vec3::new(-4, 0, 0), Vec3::zero(), 100);
    // Distance squared 16, within threshold 72: (4 * 64 / 16, 0, 0).
    assert_eq!(b.avoidance(&vec![near]), Vec3::new(16, 0, 0));
    // A closer neighbour repels harder: distance squared 4.
    let nearer = body(Vec3::new(-2, 0, 0), Vec3::zero(), 100);
    assert_eq!(b.avoidance(&vec![nearer]), Vec3::new(32, 0, 0));
}

#[test]
fn avoidance_tolerates_coincident_neighbor() {
    let b = body(Vec3::new(3, 3, 3), Vec3::zero(), 100);
    let same = body(Vec3::new(3, 3, 3), Vec3::zero(), 100);
    assert_eq!(b.avoidance(&vec![same]), Vec3::zero());
}

#[test]
fn avoidance_sums_contributions() {
    let b = body(Vec3::zero(), Vec3::zero(), 100);
    let left = body(Vec3::new(-4, 0, 0), Vec3::zero(), 100);
    let below = body(Vec3::new(0, -2, 0), Vec3::zero(), 100);
    assert_eq!(b.avoidance(&vec![left, below]), Vec3::new(16, 32, 0));
}

#[test]
fn ceil_sqrt_exact_values() {
    assert_eq!(ceil_sqrt(0), 0);
    assert_eq!(ceil_sqrt(1), 1);
    assert_eq!(ceil_sqrt(2), 2);
    assert_eq!(ceil_sqrt(4), 2);
    assert_eq!(ceil_sqrt(5), 3);
    assert_eq!(ceil_sqrt(24), 5);
    assert_eq!(ceil_sqrt(25), 5);
    assert_eq!(ceil_sqrt(26), 6);
}

#[test]
fn truncate_keeps_short_vectors() {
    assert_eq!(truncate(Vec3::new(3, 4, 0), 10), Vec3::new(3, 4, 0));
    assert_eq!(truncate(Vec3::new(3, 4, 0), 5), Vec3::new(3, 4, 0));
}

#[test]
fn truncate_rescales_long_vectors() {
    // Magnitude 50 clamped to 5: each component scaled by a tenth.
    assert_eq!(truncate(Vec3::new(30, 40, 0), 5), Vec3::new(3, 4, 0));
    assert_eq!(truncate(Vec3::new(-30, 40, 0), 5), Vec3::new(-3, 4, 0));
}

#[test]
fn truncate_to_zero_stops_the_vector() {
    assert_eq!(truncate(Vec3::new(30, 40, 0), 0), Vec3::zero());
}

#[test]
fn vector_arithmetic_exact() {
    let a = Vec3::new(1, -2, 3);
    let b = Vec3::new(10, 20, -30);
    assert_eq!(a.plus(b), Vec3::new(11, 18, -27));
    assert_eq!(a.minus(b), Vec3::new(-9, -22, 33));
    assert_eq!(a.negate(), Vec3::new(-1, 2, -3));
    assert_eq!(a.mag_sq(), 14);
}

#[test]
fn division_truncates_toward_zero() {
    assert_eq!(Vec3::new(-7, 7, -10).div_by(2), Vec3::new(-3, 3, -5));
    assert_eq!(Vec3::new(-19, 19, 1).div_by(10), Vec3::new(-1, 1, 0));
}
