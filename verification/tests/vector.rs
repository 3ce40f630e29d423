use nbody::arith::LIMIT;
use nbody::vector::Vec2;

#[test]
fn new_accepts_components_in_range() {
    let v = Vec2::new(3, -4).unwrap();
    assert_eq!(v.x(), 3);
    assert_eq!(v.y(), -4);
    let edge = Vec2::new(LIMIT, -LIMIT).unwrap();
    assert_eq!(edge.x(), LIMIT);
    assert_eq!(edge.y(), -LIMIT);
}

#[test]
fn new_refuses_components_out_of_range() {
    assert_eq!(Vec2::new(LIMIT + 1, 0), None);
    assert_eq!(Vec2::new(0, LIMIT + 1), None);
    assert_eq!(Vec2::new(-LIMIT - 1, 0), None);
    assert_eq!(Vec2::new(0, i64::MIN), None);
}

#[test]
fn clamped_saturates_each_component() {
    let v = Vec2::clamped(LIMIT as i128 + 5, -7);
    assert_eq!(v.x(), LIMIT);
    assert_eq!(v.y(), -7);
    let w = Vec2::clamped(12, i128::MIN);
    assert_eq!(w.x(), 12);
    assert_eq!(w.y(), -LIMIT);
}

#[test]
fn zero_has_no_components() {
    assert_eq!(Vec2::zero(), Vec2::new(0, 0).unwrap());
}
