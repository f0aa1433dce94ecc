use torque_on_2d_shapes::scalar::ONE;
use torque_on_2d_shapes::trig::{atan2, cos_sin, HALF, QUARTER, TURN};

fn to_float(x: i64) -> f64 {
    x as f64 / ONE as f64
}

#[test]
fn cos_sin_of_nothing_is_one_and_nothing() {
    assert_eq!(cos_sin(0), (ONE, 0));
}

#[test]
fn cos_sin_at_the_quarters() {
    assert_eq!(cos_sin(QUARTER), (0, ONE));
    assert_eq!(cos_sin(HALF), (-ONE, 0));
    assert_eq!(cos_sin(-QUARTER), (0, -ONE));
    assert_eq!(cos_sin(TURN), (ONE, 0));
}

#[test]
fn cos_sin_exact_values() {
    // cos 1 = 0.5403023..., sin 1 = 0.8414710...
    assert_eq!(cos_sin(1_000_000), (540_302, 841_471));
    // cos 0.5 = 0.8775825..., sin 0.5 = 0.4794255...
    assert_eq!(cos_sin(500_000), (877_582, 479_426));
}

#[test]
fn cos_sin_follows_the_floating_point_functions() {
    let mut angle: i64 = -20_000_000;
    while angle <= 20_000_000 {
        let (c, s) = cos_sin(angle);
        let turns = (angle.abs() / TURN) as f64;
        // A turn is rounded to millionths, so the angle drifts by that much a turn.
        let slack = 3.0e-6 + turns * 0.4e-6;
        let a = to_float(angle);
        assert!((to_float(c) - a.cos()).abs() <= slack, "cos {angle}: {c}");
        assert!((to_float(s) - a.sin()).abs() <= slack, "sin {angle}: {s}");
        angle += 7_919;
    }
}

#[test]
fn cos_sin_stays_within_the_unit_circle() {
    let mut angle: i64 = -7_000_000;
    while angle <= 7_000_000 {
        let (c, s) = cos_sin(angle);
        let sum = (c as i128) * (c as i128) + (s as i128) * (s as i128);
        let one = (ONE as i128) * (ONE as i128);
        assert!(sum <= one, "{angle}");
        assert!(sum >= one - 2 * ONE as i128, "{angle}");
        angle += 1_013;
    }
}

#[test]
fn cos_sin_of_the_opposite_angle_is_the_mirror_image() {
    for angle in [0, 1, 17, 785_398, 1_000_000, 1_570_796, 2_400_000, 3_141_593, 123_456_789] {
        let (c, s) = cos_sin(angle);
        assert_eq!(cos_sin(-angle), (c, -s));
    }
}

#[test]
fn cos_sin_takes_every_angle() {
    for angle in [i64::MIN, i64::MIN + 1, -1, i64::MAX] {
        let (c, s) = cos_sin(angle);
        assert!(-ONE <= c && c <= ONE);
        assert!(-ONE <= s && s <= ONE);
    }
}

#[test]
fn atan2_on_the_axes_and_diagonals() {
    assert_eq!(atan2(0, 0), 0);
    assert_eq!(atan2(0, 5), 0);
    assert_eq!(atan2(5, 0), 1_570_796);
    assert_eq!(atan2(0, -5), 3_141_593);
    assert_eq!(atan2(-5, 0), -1_570_796);
    assert_eq!(atan2(7, 7), 785_398);
    assert_eq!(atan2(7, -7), 2_356_194);
    assert_eq!(atan2(-7, -7), -2_356_194);
    assert_eq!(atan2(-7, 7), -785_398);
}

#[test]
fn atan2_follows_the_floating_point_function() {
    let coordinates: [i64; 11] = [
        -900_000_000,
        -35_000_000,
        -1_000_000,
        -414_214,
        -3,
        0,
        2,
        414_213,
        1_000_000,
        80_000_000,
        700_000_000,
    ];
    for y in coordinates {
        for x in coordinates {
            if x == 0 && y == 0 {
                continue;
            }
            let expected = (y as f64).atan2(x as f64);
            let got = to_float(atan2(y, x));
            assert!((got - expected).abs() <= 1.5e-6, "atan2({y}, {x}) = {got}");
        }
    }
}

#[test]
fn atan2_takes_every_point() {
    for (y, x) in [(i64::MIN, i64::MIN), (i64::MAX, i64::MIN), (i64::MIN, 1), (1, i64::MAX)] {
        let a = atan2(y, x);
        assert!(-HALF <= a && a <= HALF);
    }
    assert_eq!(atan2(i64::MIN, i64::MIN), -2_356_194);
}
