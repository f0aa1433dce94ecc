use glam::Vec2;
use torque_on_2d_shapes::scalar::{LIMIT, ONE};
use torque_on_2d_shapes::vector::{VecLa, VecXy};

fn fixed(x: f32) -> i64 {
    (x as f64 * ONE as f64).round() as i64
}

fn float(x: i64) -> f32 {
    (x as f64 / ONE as f64) as f32
}

fn to_glam(v: VecXy) -> Vec2 {
    Vec2::new(float(v.x), float(v.y))
}

fn close(got: VecXy, expected: Vec2, slack: f32) -> bool {
    (to_glam(got) - expected).length() <= slack
}

#[test]
fn with_length_of_the_zero_vector_is_the_zero_vector() {
    for length in [i64::MIN, -LIMIT, -ONE, -1, 0, 1, ONE, 35 * ONE, LIMIT, i64::MAX] {
        assert_eq!(VecXy::zero().with_length(length), VecXy::zero());
    }
}

#[test]
fn with_length_rescales_along_the_direction() {
    let v = VecXy::new(3 * ONE, 4 * ONE);
    assert_eq!(v.with_length(10 * ONE), VecXy::new(6 * ONE, 8 * ONE));
    assert_eq!(v.with_length(5 * ONE), v);
    assert_eq!(v.with_length(0), VecXy::zero());
    assert_eq!(v.with_length(ONE), VecXy::new(600_000, 800_000));
}

#[test]
fn with_length_of_a_short_vector_is_as_long_as_asked() {
    let r = VecXy::new(1, 1).with_length(ONE);
    assert_eq!(r, VecXy::new(707_107, 707_107));
    assert_eq!(r.length(), 1_000_000);
    assert_eq!(VecXy::new(ONE, ONE).with_length(ONE), VecXy::new(707_106, 707_106));
    assert_eq!(VecXy::new(100_000, 0).with_length(35 * ONE), VecXy::new(35 * ONE, 0));
    assert_eq!(VecXy::new(-7, 24).with_length(25 * ONE), VecXy::new(-7 * ONE, 24 * ONE));
    assert_eq!(VecXy::new(1, 1).with_length(1), VecXy::zero());
}

#[test]
fn with_length_is_close_in_length_and_direction() {
    let vectors = [
        VecXy::new(1, 1),
        VecXy::new(3, -4),
        VecXy::new(1, 0),
        VecXy::new(123_456, -7),
        VecXy::new(LIMIT, LIMIT),
        VecXy::new(-LIMIT, 1),
        VecXy::new(577, 1_000_003),
    ];
    let lengths = [0, 1, 2, 3, 7, ONE, -ONE, 35 * ONE, LIMIT, -LIMIT, 999_999_999];
    for v in vectors {
        for length in lengths {
            let r = v.with_length(length);
            let asked = length.abs() as i128;
            let got = r.length() as i128;
            assert!(asked - 2 <= got, "{v:?} {length} {r:?}");
            assert!(got * (ONE as i128) <= asked * (ONE as i128 + 1), "{v:?} {length} {r:?}");
            assert!(v.perp_dot(r).abs() <= (v.x.abs() + v.y.abs()) as i128, "{v:?} {length}");
            let along = v.dot(r);
            assert!(length == 0 || (along > 0) == (length > 0) || along == 0, "{v:?} {length}");
            if length == 0 {
                assert_eq!(r, VecXy::zero());
            }
        }
    }
}

#[test]
fn with_length_takes_every_vector_and_length() {
    assert_eq!(
        VecXy::new(LIMIT, LIMIT).with_length(LIMIT),
        VecXy::new(707_106_781_186, 707_106_781_186)
    );
    assert_eq!(VecXy::new(i64::MAX, i64::MIN).with_length(ONE), VecXy::new(707_106, -707_106));
    assert_eq!(VecXy::new(3, 4).with_length(i64::MAX), VecXy::new(LIMIT, LIMIT));
}

#[test]
fn with_length_turns_round_for_a_negative_length() {
    let v = VecXy::new(3 * ONE, 4 * ONE);
    assert_eq!(v.with_length(-10 * ONE), VecXy::new(-6 * ONE, -8 * ONE));
}

#[test]
fn with_length_follows_glam() {
    for (x, y, length) in [(12.5, -7.25, 3.0), (-0.5, 0.125, 80.0), (300.0, 280.0, 0.001)] {
        let got = VecXy::new(fixed(x), fixed(y)).with_length(fixed(length));
        let expected = Vec2::new(x, y).normalize_or_zero() * length;
        assert!(close(got, expected, 1.0e-4), "{got:?} {expected:?}");
    }
}

#[test]
fn length_rounds_down() {
    assert_eq!(VecXy::zero().length(), 0);
    assert_eq!(VecXy::new(3 * ONE, 4 * ONE).length(), 5 * ONE);
    assert_eq!(VecXy::new(1, 1).length(), 1);
    assert_eq!(VecXy::new(-2, 2).length(), 2);
    assert_eq!(VecXy::new(0, -7).length(), 7);
    assert_eq!(VecXy::new(ONE, ONE).length(), 1_414_213);
}

#[test]
fn length_is_held_at_the_limit() {
    assert_eq!(VecXy::new(LIMIT, LIMIT).length(), LIMIT);
    assert_eq!(VecXy::new(i64::MIN, i64::MIN).length(), LIMIT);
    assert_eq!(VecXy::new(i64::MAX, i64::MIN).length(), LIMIT);
}

#[test]
fn length_follows_glam() {
    for (x, y) in [(12.5, -7.25), (-0.5, 0.125), (300.0, 280.0)] {
        let got = float(VecXy::new(fixed(x), fixed(y)).length());
        assert!((got - Vec2::new(x, y).length()).abs() <= 1.0e-4);
    }
}

#[test]
fn sums_differences_and_products() {
    let a = VecXy::new(3 * ONE, -4 * ONE);
    let b = VecXy::new(ONE, 2 * ONE);
    assert_eq!(a.plus(b), VecXy::new(4 * ONE, -2 * ONE));
    assert_eq!(a.minus(b), VecXy::new(2 * ONE, -6 * ONE));
    assert_eq!(a.scaled(ONE / 2), VecXy::new(1_500_000, -2 * ONE));
    assert_eq!(a.scaled(-2 * ONE), VecXy::new(-6 * ONE, 8 * ONE));
    assert_eq!(a.dot(b), -5 * (ONE as i128) * (ONE as i128));
    assert_eq!(a.perp_dot(b), 10 * (ONE as i128) * (ONE as i128));
    assert_eq!(VecXy::new(LIMIT, -LIMIT).plus(VecXy::new(1, -1)), VecXy::new(LIMIT, -LIMIT));
    assert_eq!(VecXy::clamped(i64::MAX, i64::MIN), VecXy::new(LIMIT, -LIMIT));
    assert_eq!(VecXy::clamped(5, -5), VecXy::new(5, -5));
}

#[test]
fn rotated_by_nothing_is_the_vector() {
    for v in [VecXy::new(3 * ONE, 4 * ONE), VecXy::new(-1, 7), VecXy::new(LIMIT, -LIMIT)] {
        assert_eq!(v.rotated(0), v);
    }
}

#[test]
fn rotated_by_a_quarter_turn() {
    assert_eq!(VecXy::new(3 * ONE, 4 * ONE).rotated(1_570_796), VecXy::new(-4 * ONE, 3 * ONE));
    assert_eq!(VecXy::new(3 * ONE, 4 * ONE).rotated(-1_570_796), VecXy::new(4 * ONE, -3 * ONE));
    assert_eq!(VecXy::new(3 * ONE, 4 * ONE).rotated(3_141_593), VecXy::new(-3 * ONE, -4 * ONE));
}

#[test]
fn rotated_follows_the_rotation_matrix() {
    for (x, y, angle) in [(12.5f32, -7.25f32, 1.0f32), (35.0, 0.0, 2.4), (-300.0, 280.0, -0.3)] {
        let got = VecXy::new(fixed(x), fixed(y)).rotated(fixed(angle));
        let (sa, ca) = angle.sin_cos();
        let expected = Vec2::new(x * ca - y * sa, x * sa + y * ca);
        assert!(close(got, expected, 1.0e-3), "{got:?} {expected:?}");
    }
}

#[test]
fn rotated_forth_and_back_is_the_vector_up_to_rounding() {
    let vectors = [
        VecXy::new(3 * ONE, 4 * ONE),
        VecXy::new(-300 * ONE, 280 * ONE),
        VecXy::new(1, 0),
        VecXy::new(700_000 * ONE, -700_000 * ONE),
    ];
    for v in vectors {
        for angle in [1, 300_000, ONE, 2_400_000, 3_100_000, -5 * ONE, 1_000 * ONE] {
            let w = v.rotated(angle).rotated(-angle);
            assert!((w.x - v.x).abs() * ONE <= 2 * v.x.abs() + 3 * ONE, "{v:?} {angle} {w:?}");
            assert!((w.y - v.y).abs() * ONE <= 2 * v.y.abs() + 3 * ONE, "{v:?} {angle} {w:?}");
        }
    }
}

#[test]
fn rotated_never_lengthens() {
    let v = VecXy::new(35 * ONE, 0);
    let mut angle: i64 = -4 * ONE;
    while angle <= 4 * ONE {
        assert!(v.rotated(angle).length() <= 35 * ONE);
        angle += 10_007;
    }
}

#[test]
fn split_parr_perp_exact() {
    let v = VecXy::new(5 * ONE, 0);
    let (parr, perp) = v.split_parr_perp(VecXy::new(3 * ONE, 4 * ONE));
    assert_eq!(parr, VecXy::new(1_800_000, 2_400_000));
    assert_eq!(perp, VecXy::new(3_200_000, -2_400_000));
    let (parr, perp) = v.split_parr_perp(VecXy::new(-2 * ONE, 0));
    assert_eq!(parr, v);
    assert_eq!(perp, VecXy::zero());
    let (parr, perp) = v.split_parr_perp(VecXy::new(0, 9));
    assert_eq!(parr, VecXy::zero());
    assert_eq!(perp, v);
}

#[test]
fn split_parr_perp_follows_glam() {
    for (x, y, rx, ry) in [(12.5, -7.25, 3.0, 1.0), (-0.5, 0.125, -80.0, 35.0), (300.0, 280.0, 0.0, -7.0)] {
        let (parr, perp) =
            VecXy::new(fixed(x), fixed(y)).split_parr_perp(VecXy::new(fixed(rx), fixed(ry)));
        let expected = Vec2::new(x, y).project_onto(Vec2::new(rx, ry));
        assert!(close(parr, expected, 1.0e-4), "{parr:?} {expected:?}");
        assert!(close(perp, Vec2::new(x, y) - expected, 1.0e-4), "{perp:?}");
    }
}

#[test]
fn perp_dot_has_the_sign_of_glams_angle_between() {
    for (ax, ay, bx, by) in [(1.0, 0.0, 0.0, 1.0), (1.0, 0.0, 0.0, -1.0), (3.0, 4.0, -4.0, 3.5), (3.0, 4.0, 4.0, 2.0)] {
        let got = VecXy::new(fixed(ax), fixed(ay)).perp_dot(VecXy::new(fixed(bx), fixed(by)));
        let expected = Vec2::new(ax, ay).angle_between(Vec2::new(bx, by));
        assert_eq!(got < 0, expected < 0.0);
    }
}

#[test]
fn reduce_length_saturating_exact() {
    let v = VecXy::new(3 * ONE, 4 * ONE);
    assert_eq!(v.reduce_length_saturating(ONE), VecXy::new(2_400_000, 3_200_000));
    assert_eq!(v.reduce_length_saturating(0), v);
    assert_eq!(v.reduce_length_saturating(5 * ONE), VecXy::zero());
    assert_eq!(v.reduce_length_saturating(50 * ONE), VecXy::zero());
    assert_eq!(VecXy::zero().reduce_length_saturating(ONE), VecXy::zero());
    assert_eq!(VecXy::new(-990_000, 0).reduce_length_saturating(1_000), VecXy::new(-989_000, 0));
    // 1 - 1 / sqrt 2 = 0.2928932...
    assert_eq!(VecXy::new(ONE, ONE).reduce_length_saturating(ONE), VecXy::new(292_893, 292_893));
    assert_eq!(VecXy::new(ONE, ONE).reduce_length_saturating(1), VecXy::new(999_999, 999_999));
    assert_eq!(VecXy::new(5, -5).reduce_length_saturating(1), VecXy::new(4, -4));
}

#[test]
fn reduce_length_by_nothing_is_the_vector() {
    for v in [VecXy::new(ONE, ONE), VecXy::new(1, 1), VecXy::new(-LIMIT, 7), VecXy::new(123, -456_789)] {
        assert_eq!(v.reduce_length_saturating(0), v);
    }
}

#[test]
fn reduce_length_takes_every_vector_and_step() {
    assert_eq!(
        VecXy::new(i64::MAX, i64::MIN).reduce_length_saturating(i64::MIN),
        VecXy::new(LIMIT, -LIMIT)
    );
    assert_eq!(VecXy::new(LIMIT, 0).reduce_length_saturating(i64::MIN), VecXy::new(LIMIT, 0));
    assert_eq!(VecXy::new(LIMIT, LIMIT).reduce_length_saturating(i64::MAX), VecXy::zero());
}

#[test]
fn fine_length_has_six_places_more() {
    assert_eq!(VecXy::zero().fine_length(), 0);
    assert_eq!(VecXy::new(1, 1).fine_length(), 1_414_213);
    assert_eq!(VecXy::new(3 * ONE, 4 * ONE).fine_length(), 5 * ONE * ONE);
    assert_eq!(VecXy::new(LIMIT, -LIMIT).fine_length(), 1_414_213_562_373_095_048);
}

#[test]
fn to_xy_exact() {
    assert_eq!(VecLa { length: 7 * ONE, angle: 0 }.to_xy(), VecXy::new(7 * ONE, 0));
    assert_eq!(VecLa { length: 7 * ONE, angle: 1_570_796 }.to_xy(), VecXy::new(0, 7 * ONE));
    assert_eq!(VecLa { length: 0, angle: 2_400_000 }.to_xy(), VecXy::zero());
    // 2 cos 1 = 1.0806046..., 2 sin 1 = 1.6829420...
    assert_eq!(VecLa { length: 2 * ONE, angle: ONE }.to_xy(), VecXy::new(1_080_604, 1_682_942));
}

#[test]
fn from_xy_exact() {
    assert_eq!(VecLa::from_xy(VecXy::zero()), VecLa { length: 0, angle: 0 });
    assert_eq!(VecLa::from_xy(VecXy::new(0, 7 * ONE)), VecLa { length: 7 * ONE, angle: 1_570_796 });
    assert_eq!(
        VecLa::from_xy(VecXy::new(-3 * ONE, -3 * ONE)),
        VecLa { length: 4_242_640, angle: -2_356_194 }
    );
}

#[test]
fn from_xy_and_to_xy_undo_each_other_up_to_rounding() {
    for v in [VecXy::new(3 * ONE, 4 * ONE), VecXy::new(-300 * ONE, 280 * ONE), VecXy::new(35 * ONE, -1)] {
        let la = VecLa::from_xy(v);
        assert!(la.length >= 0);
        let w = la.to_xy();
        let slack = 2 + la.length / 500_000;
        assert!((w.x - v.x).abs() <= slack && (w.y - v.y).abs() <= slack, "{v:?} {w:?}");
    }
}
