use nbody::arith::{icbrt, isqrt, saturate, LIMIT, RADIUS_LIMIT, SCALE};

#[test]
fn constants_are_powers_of_ten() {
    assert_eq!(SCALE, 1_000_000);
    assert_eq!(LIMIT, 1_000_000_000_000_000_000);
    assert_eq!(RADIUS_LIMIT, 1_000_000_000_000);
}

#[test]
fn isqrt_rounds_down() {
    assert_eq!(isqrt(0), 0);
    assert_eq!(isqrt(1), 1);
    assert_eq!(isqrt(2), 1);
    assert_eq!(isqrt(3), 1);
    assert_eq!(isqrt(4), 2);
    assert_eq!(isqrt(15), 3);
    assert_eq!(isqrt(16), 4);
    assert_eq!(isqrt(17), 4);
    assert_eq!(isqrt(122_500_000_000_000_000), 350_000_000);
    assert_eq!(isqrt(122_499_999_999_999_999), 349_999_999);
}

#[test]
fn isqrt_of_the_largest_value() {
    assert_eq!(isqrt(u128::MAX), u64::MAX);
}

#[test]
fn isqrt_brackets_its_argument() {
    for n in [5u128, 99, 1_000_003, 8_000_000_000_000_000_000_000_000_000_000_000_000] {
        let r = isqrt(n) as u128;
        assert!(r * r <= n);
        assert!(n < (r + 1) * (r + 1));
    }
}

#[test]
fn icbrt_rounds_down() {
    assert_eq!(icbrt(0), 0);
    assert_eq!(icbrt(1), 1);
    assert_eq!(icbrt(7), 1);
    assert_eq!(icbrt(8), 2);
    assert_eq!(icbrt(9), 2);
    assert_eq!(icbrt(26), 2);
    assert_eq!(icbrt(27), 3);
    assert_eq!(icbrt(91_000_000_000_000_000_000), 4_497_941);
    assert_eq!(icbrt(2_000_000_000_000_000_000_000_000_000_000_000_000), 1_259_921_049_894);
}

#[test]
fn icbrt_of_the_largest_value() {
    assert_eq!(icbrt(u128::MAX), 6_981_463_658_331);
}

#[test]
fn saturate_keeps_values_in_range() {
    assert_eq!(saturate(0), 0);
    assert_eq!(saturate(-17), -17);
    assert_eq!(saturate(LIMIT as i128), LIMIT);
    assert_eq!(saturate(-(LIMIT as i128)), -LIMIT);
}

#[test]
fn saturate_stops_at_the_limit() {
    assert_eq!(saturate(LIMIT as i128 + 1), LIMIT);
    assert_eq!(saturate(-(LIMIT as i128) - 1), -LIMIT);
    assert_eq!(saturate(i128::MAX), LIMIT);
    assert_eq!(saturate(i128::MIN), -LIMIT);
}
