use nbody::arith::{LIMIT, RADIUS_LIMIT};
use nbody::body::{Body, BodyError, DEFAULT_TRAIL_LENGTH};
use nbody::vector::Vec2;

fn at(x: i64, y: i64) -> Vec2 {
    Vec2::new(x, y).unwrap()
}

fn moving(x: i64, y: i64, vx: i64, vy: i64) -> Body {
    Body::new(at(x, y), 1_000_000, 1_000_000, at(vx, vy)).unwrap()
}

#[test]
fn new_body_is_at_rest_in_its_acceleration() {
    let b = Body::new(at(10, 20), 7, 3, at(-1, 2)).unwrap();
    assert_eq!(b.pos(), at(10, 20));
    assert_eq!(b.velocity(), at(-1, 2));
    assert_eq!(b.current_accel(), Vec2::zero());
    assert_eq!(b.mass(), 7);
    assert_eq!(b.radius(), 3);
    assert!(b.trail().is_empty());
    assert_eq!(b.trail_length(), DEFAULT_TRAIL_LENGTH);
    assert_eq!(DEFAULT_TRAIL_LENGTH, 30);
}

#[test]
fn new_refuses_a_mass_that_is_not_positive() {
    assert_eq!(Body::new(at(0, 0), 0, 1, at(0, 0)).unwrap_err(), BodyError::MassOutOfRange);
    assert_eq!(Body::new(at(0, 0), -5, 1, at(0, 0)).unwrap_err(), BodyError::MassOutOfRange);
}

#[test]
fn new_refuses_a_mass_too_large_to_store() {
    assert_eq!(
        Body::new(at(0, 0), LIMIT + 1, 1, at(0, 0)).unwrap_err(),
        BodyError::MassOutOfRange
    );
    assert!(Body::new(at(0, 0), LIMIT, 1, at(0, 0)).is_ok());
}

#[test]
fn new_refuses_a_radius_that_is_not_positive() {
    assert_eq!(Body::new(at(0, 0), 1, 0, at(0, 0)).unwrap_err(), BodyError::RadiusOutOfRange);
    assert_eq!(Body::new(at(0, 0), 1, -1, at(0, 0)).unwrap_err(), BodyError::RadiusOutOfRange);
}

#[test]
fn new_refuses_a_radius_too_large_to_store() {
    assert_eq!(
        Body::new(at(0, 0), 1, RADIUS_LIMIT + 1, at(0, 0)).unwrap_err(),
        BodyError::RadiusOutOfRange
    );
    assert!(Body::new(at(0, 0), 1, RADIUS_LIMIT, at(0, 0)).is_ok());
}

#[test]
fn new_looks_at_the_mass_first() {
    assert_eq!(Body::new(at(0, 0), 0, 0, at(0, 0)).unwrap_err(), BodyError::MassOutOfRange);
}

#[test]
fn euler_updates_velocity_before_position() {
    let mut b = moving(0, 0, 10, -10);
    b.set_current_accel(at(5, -5));
    b.update_euler();
    assert_eq!(b.velocity(), at(15, -15));
    assert_eq!(b.pos(), at(15, -15));
    assert_eq!(b.current_accel(), at(5, -5));
    assert_eq!(b.trail(), vec![at(0, 0)]);
}

#[test]
fn verlet_moves_by_old_velocity_and_half_the_acceleration() {
    let mut b = moving(0, 0, 10, -10);
    b.set_current_accel(at(5, -5));
    b.update_verlet();
    assert_eq!(b.pos(), at(12, -12));
    assert_eq!(b.velocity(), at(15, -15));
    assert_eq!(b.trail(), vec![at(0, 0)]);
}

#[test]
fn verlet_halves_toward_zero() {
    let mut b = moving(100, 100, 0, 0);
    b.set_current_accel(at(1, -1));
    b.update_verlet();
    assert_eq!(b.pos(), at(100, 100));
    assert_eq!(b.velocity(), at(1, -1));
    b.set_current_accel(at(3, -3));
    b.update_verlet();
    assert_eq!(b.pos(), at(102, 98));
    assert_eq!(b.velocity(), at(4, -4));
}

#[test]
fn without_acceleration_both_integrators_move_uniformly() {
    let mut e = moving(5, 7, 3, -2);
    let mut v = moving(5, 7, 3, -2);
    for step in 1..=10 {
        e.update_euler();
        v.update_verlet();
        assert_eq!(e.pos(), at(5 + 3 * step, 7 - 2 * step));
        assert_eq!(v.pos(), at(5 + 3 * step, 7 - 2 * step));
        assert_eq!(e.velocity(), at(3, -2));
        assert_eq!(v.velocity(), at(3, -2));
    }
}

#[test]
fn position_and_velocity_saturate_at_the_limit() {
    let mut b = moving(LIMIT - 5, -LIMIT + 5, 10, -10);
    b.update_euler();
    assert_eq!(b.pos(), at(LIMIT, -LIMIT));
    let mut c = moving(0, 0, LIMIT, -LIMIT);
    c.set_current_accel(at(1, -1));
    c.update_verlet();
    assert_eq!(c.velocity(), at(LIMIT, -LIMIT));
    assert_eq!(c.pos(), at(LIMIT, -LIMIT));
}

#[test]
fn trail_keeps_the_three_most_recent_positions() {
    let mut b = moving(0, 0, 1_000_000, 0);
    b.set_trail_length(3);
    for _ in 0..5 {
        b.update_euler();
    }
    assert_eq!(b.pos(), at(5_000_000, 0));
    assert_eq!(b.trail(), vec![at(2_000_000, 0), at(3_000_000, 0), at(4_000_000, 0)]);
}

#[test]
fn trail_grows_until_it_is_full() {
    let mut b = moving(0, 0, 1, 1);
    b.set_trail_length(4);
    b.update_verlet();
    assert_eq!(b.trail(), vec![at(0, 0)]);
    b.update_verlet();
    assert_eq!(b.trail(), vec![at(0, 0), at(1, 1)]);
}

#[test]
fn trail_of_capacity_zero_stays_empty() {
    let mut b = moving(0, 0, 1, 1);
    b.set_trail_length(0);
    b.update_euler();
    b.update_euler();
    assert!(b.trail().is_empty());
}

#[test]
fn trail_shrinks_when_the_capacity_does() {
    let mut b = moving(0, 0, 1, 0);
    b.set_trail_length(5);
    for _ in 0..5 {
        b.update_euler();
    }
    assert_eq!(b.trail().len(), 5);
    b.set_trail_length(2);
    assert_eq!(b.trail().len(), 5);
    b.update_euler();
    assert_eq!(b.trail(), vec![at(4, 0), at(5, 0)]);
}

#[test]
fn record_trail_appends_then_evicts_the_oldest() {
    let mut b = moving(9, 9, 0, 0);
    b.record_trail(2);
    b.record_trail(2);
    b.record_trail(2);
    assert_eq!(b.trail(), vec![at(9, 9), at(9, 9)]);
    b.record_trail(0);
    assert!(b.trail().is_empty());
}

#[test]
fn set_trail_length_changes_nothing_else() {
    let mut b = moving(1, 2, 3, 4);
    b.update_euler();
    b.set_trail_length(7);
    assert_eq!(b.trail_length(), 7);
    assert_eq!(b.pos(), at(4, 6));
    assert_eq!(b.velocity(), at(3, 4));
    assert_eq!(b.trail(), vec![at(1, 2)]);
}

#[test]
fn clone_copies_every_part() {
    let mut b = moving(1, 2, 3, 4);
    b.set_trail_length(9);
    b.set_current_accel(at(5, 6));
    b.update_euler();
    let c = b.clone();
    assert_eq!(c.pos(), b.pos());
    assert_eq!(c.velocity(), b.velocity());
    assert_eq!(c.current_accel(), b.current_accel());
    assert_eq!(c.mass(), b.mass());
    assert_eq!(c.radius(), b.radius());
    assert_eq!(c.trail(), b.trail());
    assert_eq!(c.trail_length(), 9);
}
