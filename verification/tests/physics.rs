use nbody::arith::{LIMIT, RADIUS_LIMIT, SCALE};
use nbody::body::{Body, DEFAULT_TRAIL_LENGTH};
use nbody::physics::{angle, attraction, collide, distance, G};
use nbody::vector::Vec2;

fn at(x: i64, y: i64) -> Vec2 {
    Vec2::new(x, y).unwrap()
}

fn body(x: i64, y: i64, mass: i64, radius: i64, vx: i64, vy: i64) -> Body {
    Body::new(at(x, y), mass, radius, at(vx, vy)).unwrap()
}

#[test]
fn gravitational_constant_in_raw_units() {
    assert_eq!(G, 6_674_000);
}

#[test]
fn distance_of_a_three_four_five_triangle() {
    assert_eq!(distance(&at(0, 0), &at(3_000_000, 4_000_000)), 5_000_000);
    assert_eq!(distance(&at(3_000_000, 4_000_000), &at(0, 0)), 5_000_000);
    assert_eq!(distance(&at(-1, -1), &at(2, 3)), 5);
}

#[test]
fn distance_rounds_down() {
    assert_eq!(distance(&at(0, 0), &at(1_000_000, 1_000_000)), 1_414_213);
    assert_eq!(distance(&at(0, 0), &at(-7, 2)), 7);
}

#[test]
fn distance_of_coincident_points_is_zero() {
    assert_eq!(distance(&at(42, -42), &at(42, -42)), 0);
}

#[test]
fn distance_across_the_whole_range() {
    assert_eq!(
        distance(&at(-LIMIT, -LIMIT), &at(LIMIT, LIMIT)),
        2_828_427_124_746_190_097
    );
}

#[test]
fn angle_points_from_the_second_point_to_the_first() {
    assert_eq!(angle(&at(3_000_000, 4_000_000), &at(0, 0)), at(600_000, 800_000));
    assert_eq!(angle(&at(5, 0), &at(1, 0)), at(SCALE, 0));
    assert_eq!(angle(&at(0, -9), &at(0, 0)), at(0, -SCALE));
    assert_eq!(angle(&at(-7, 2), &at(0, 0)), at(-1_000_000, 285_714));
}

#[test]
fn angles_of_a_pair_are_opposite() {
    let pairs = [
        (at(0, 0), at(3_000_000, 4_000_000)),
        (at(-5, 17), at(1_000, -333)),
        (at(1_000_000, 1_000_000), at(0, 0)),
        (at(LIMIT, -LIMIT), at(-LIMIT, LIMIT)),
    ];
    for (p, q) in pairs {
        let there = angle(&p, &q);
        let back = angle(&q, &p);
        assert_eq!(there.x(), -back.x());
        assert_eq!(there.y(), -back.y());
    }
}

#[test]
fn angle_of_coincident_points_is_the_zero_vector() {
    assert_eq!(angle(&at(8, 8), &at(8, 8)), Vec2::zero());
}

#[test]
fn collide_adds_masses_and_volumes() {
    let a = body(0, 0, 2_000_000, 3_000_000, 1_000_000, -2_000_000);
    let b = body(10_000_000, 0, 5_000_000, 4_000_000, -3_000_000, 1_000_000);
    let m = collide(&a, &b);
    assert_eq!(m.mass(), 7_000_000);
    assert_eq!(m.radius(), 4_497_941);
    let cube = |r: i64| (r as i128) * (r as i128) * (r as i128);
    let volume = cube(a.radius()) + cube(b.radius());
    assert!(cube(m.radius()) <= volume);
    assert!(volume < cube(m.radius() + 1));
}

#[test]
fn collide_divides_the_total_momentum_by_the_total_mass() {
    let a = body(0, 0, 2_000_000, 3_000_000, 1_000_000, -2_000_000);
    let b = body(10_000_000, 0, 5_000_000, 4_000_000, -3_000_000, 1_000_000);
    let m = collide(&a, &b);
    assert_eq!(m.velocity(), at(-1_857_142, 142_857));
    let px = a.mass() as i128 * a.velocity().x() as i128 + b.mass() as i128 * b.velocity().x() as i128;
    let py = a.mass() as i128 * a.velocity().y() as i128 + b.mass() as i128 * b.velocity().y() as i128;
    assert!((m.mass() as i128 * m.velocity().x() as i128 - px).abs() < m.mass() as i128);
    assert!((m.mass() as i128 * m.velocity().y() as i128 - py).abs() < m.mass() as i128);
}

#[test]
fn collide_rounds_the_velocity_toward_zero() {
    let a = body(0, 0, 3, 1, -5, 7);
    let b = body(10, 0, 4, 1, 2, -3);
    let m = collide(&a, &b);
    assert_eq!(m.velocity(), at(-1, 1));
    assert_eq!(m.mass(), 7);
    assert_eq!(m.radius(), 1);
}

#[test]
fn collide_takes_the_place_of_the_larger_body() {
    let small = body(1, 2, 10, 3_000_000, 0, 0);
    let large = body(30, 40, 10, 4_000_000, 0, 0);
    assert_eq!(collide(&small, &large).pos(), at(30, 40));
    assert_eq!(collide(&large, &small).pos(), at(30, 40));
}

#[test]
fn collide_takes_the_place_of_the_second_body_on_a_tie() {
    let a = body(1, 2, 3_000_000, 3_000_000, 1, 0);
    let b = body(30, 40, 4_000_000, 3_000_000, 0, -1);
    let m = collide(&a, &b);
    assert_eq!(m.pos(), at(30, 40));
    assert_eq!(collide(&b, &a).pos(), at(1, 2));
    assert_eq!(m.radius(), 3_779_763);
    assert_eq!(m.velocity(), at(0, 0));
}

#[test]
fn collide_gives_a_body_without_history() {
    let mut a = body(0, 0, 5, 5, 1, 1);
    a.set_trail_length(4);
    a.set_current_accel(at(9, 9));
    a.update_euler();
    let b = body(3, 0, 5, 4, 0, 0);
    let m = collide(&a, &b);
    assert!(m.trail().is_empty());
    assert_eq!(m.current_accel(), Vec2::zero());
    assert_eq!(m.trail_length(), DEFAULT_TRAIL_LENGTH);
}

#[test]
fn collide_saturates_mass_and_radius() {
    let a = body(0, 0, LIMIT, RADIUS_LIMIT, LIMIT, 0);
    let b = body(1, 0, LIMIT, RADIUS_LIMIT, LIMIT, 0);
    let m = collide(&a, &b);
    assert_eq!(m.mass(), LIMIT);
    assert_eq!(m.radius(), RADIUS_LIMIT);
    assert_eq!(m.velocity(), at(LIMIT, 0));
}

#[test]
fn attraction_follows_the_inverse_square_law() {
    let light = body(850_000_000, 400_000_000, 1_000_000, 5_000_000, 0, 0);
    let heavy = body(500_000_000, 400_000_000, 300_000_000_000, 100_000_000, 0, 0);
    assert_eq!(attraction(&light, &heavy), at(-16_344_489, 0));
    assert_eq!(attraction(&heavy, &light), at(54, 0));
}

#[test]
fn attraction_points_at_the_attracting_body() {
    let on = body(0, 0, 1_000_000, 1_000_000, 0, 0);
    let by = body(3_000_000, 4_000_000, 1_000_000_000, 1_000_000, 0, 0);
    assert_eq!(attraction(&on, &by), at(160_176_000, 213_568_000));
    assert_eq!(attraction(&by, &on), at(-160_176, -213_568));
}

#[test]
fn attraction_between_coincident_bodies_is_zero() {
    let a = body(5, 5, 1_000_000, 1, 0, 0);
    let b = body(5, 5, 9_000_000, 1, 0, 0);
    assert_eq!(attraction(&a, &b), Vec2::zero());
    assert_eq!(attraction(&b, &a), Vec2::zero());
}

#[test]
fn attraction_is_capped_at_the_limit() {
    let on = body(0, 0, 1_000_000, 1_000_000, 0, 0);
    let by = body(1, 0, LIMIT, 1_000_000, 0, 0);
    assert_eq!(attraction(&on, &by), at(LIMIT, 0));
}
