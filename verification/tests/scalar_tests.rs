use torque_on_2d_shapes::scalar::{
    isqrt, mul_div, mul_fixed, neg_if, sat_add, sat_sub, saturate, toward_zero_saturating, LIMIT,
    ONE,
};

#[test]
fn neg_if_flips_the_sign_on_condition() {
    assert_eq!(neg_if(3 * ONE, true), -3 * ONE);
    assert_eq!(neg_if(3 * ONE, false), 3 * ONE);
    assert_eq!(neg_if(-7, true), 7);
    assert_eq!(neg_if(0, true), 0);
}

#[test]
fn toward_zero_stops_at_zero() {
    assert_eq!(toward_zero_saturating(5 * ONE, 2 * ONE), 3 * ONE);
    assert_eq!(toward_zero_saturating(5 * ONE, 7 * ONE), 0);
    assert_eq!(toward_zero_saturating(-5 * ONE, 2 * ONE), -3 * ONE);
    assert_eq!(toward_zero_saturating(-5 * ONE, 7 * ONE), 0);
    assert_eq!(toward_zero_saturating(5 * ONE, 5 * ONE), 0);
}

#[test]
fn toward_zero_of_zero_is_zero() {
    assert_eq!(toward_zero_saturating(0, 0), 0);
    assert_eq!(toward_zero_saturating(0, 1), 0);
    assert_eq!(toward_zero_saturating(0, LIMIT), 0);
    assert_eq!(toward_zero_saturating(0, i64::MAX), 0);
}

#[test]
fn toward_zero_never_changes_the_sign() {
    for x in [-LIMIT, -ONE, -1, 1, ONE, LIMIT] {
        for by in [0, 1, ONE, LIMIT, i64::MAX] {
            let r = toward_zero_saturating(x, by);
            assert!(r == 0 || (r > 0) == (x > 0));
            assert!(r.abs() <= x.abs());
        }
    }
}

#[test]
fn sums_and_differences_are_held_within_the_limit() {
    assert_eq!(sat_add(2, 3), 5);
    assert_eq!(sat_sub(2, 3), -1);
    assert_eq!(sat_add(LIMIT, 1), LIMIT);
    assert_eq!(sat_sub(-LIMIT, 1), -LIMIT);
    assert_eq!(sat_add(i64::MAX, i64::MAX), LIMIT);
    assert_eq!(sat_sub(i64::MIN, i64::MAX), -LIMIT);
    assert_eq!(saturate(i128::MAX), LIMIT);
    assert_eq!(saturate(i128::MIN), -LIMIT);
    assert_eq!(saturate(-42), -42);
}

#[test]
fn products_round_toward_zero() {
    assert_eq!(mul_fixed(3 * ONE, 2 * ONE), 6 * ONE);
    assert_eq!(mul_fixed(ONE / 2, ONE / 2), ONE / 4);
    assert_eq!(mul_fixed(1, 999_999), 0);
    assert_eq!(mul_fixed(-1, 999_999), 0);
    assert_eq!(mul_fixed(-3, 500_000), -1);
    assert_eq!(mul_fixed(3, 500_000), 1);
    assert_eq!(mul_div(7, 3, 2), 10);
    assert_eq!(mul_div(-7, 3, 2), -10);
    assert_eq!(mul_div(i64::MAX, i64::MAX, 1), LIMIT);
    assert_eq!(mul_div(i64::MIN, i64::MAX, 1), -LIMIT);
}

#[test]
fn square_roots_round_down() {
    assert_eq!(isqrt(0), 0);
    assert_eq!(isqrt(1), 1);
    assert_eq!(isqrt(3), 1);
    assert_eq!(isqrt(4), 2);
    assert_eq!(isqrt(24), 4);
    assert_eq!(isqrt(25), 5);
    assert_eq!(isqrt(1_000_000_000_000), 1_000_000);
    assert_eq!(isqrt(u128::MAX), u64::MAX);
}
