//! Sine, cosine and the polar angle in fixed point.
//!
//! Angles are in millionths of a radian. The series are evaluated at a finer
//! scale, a million millionths, and rounded to the nearest millionth at the end.

use vstd::prelude::*;
use crate::scalar::{isqrt, lemma_sqrt_floor, magnitude, sqrt_floor, ONE};

verus! {

/// One, at the scale at which the series are evaluated.
pub const FINE: i128 = 1_000_000_000_000;

/// A full turn.
pub const TURN: i64 = 6_283_185;

/// The middle of the first quarter of a turn.
pub const EIGHTH: i64 = 785_398;

/// The end of the first quarter of a turn.
pub const QUARTER: i64 = 1_570_796;

/// The end of the second quarter of a turn.
pub const HALF: i64 = 3_141_593;

/// The end of the third quarter of a turn.
pub const THREE_QUARTERS: i64 = 4_712_389;

/// The square of the widest angle that a quarter holds.
pub const SQUARE_MAX: i128 = 2_467_403_215_209;

/// One step of a series in nested form: one minus `x2 * acc / k`, with `x2`
/// and `acc` at the fine scale.
pub open spec fn cycle_step(x2: int, k: int, acc: int) -> int {
    FINE - x2 * acc / (k * FINE)
}

/// The cosine series up to the twelfth power, at the fine scale, of an angle
/// `t` within a quarter turn.
pub open spec fn cos_series(t: int) -> int {
    let x2 = t * t;
    cycle_step(
        x2,
        2,
        cycle_step(
            x2,
            12,
            cycle_step(x2, 30, cycle_step(x2, 56, cycle_step(x2, 90, cycle_step(x2, 132, FINE as int)))),
        ),
    )
}

/// The sine series up to the thirteenth power, without its leading factor
/// `t`, at the fine scale.
pub open spec fn sin_series(t: int) -> int {
    let x2 = t * t;
    cycle_step(
        x2,
        6,
        cycle_step(
            x2,
            20,
            cycle_step(x2, 42, cycle_step(x2, 72, cycle_step(x2, 110, cycle_step(x2, 156, FINE as int)))),
        ),
    )
}

/// The cosine of an angle `t` of the first quarter, between zero and one.
pub open spec fn cos_quarter(t: int) -> int {
    let c = cos_series(t);
    if c <= 0 {
        0
    } else if (c + ONE / 2) / (ONE as int) > ONE {
        ONE as int
    } else {
        (c + ONE / 2) / (ONE as int)
    }
}

/// The sine of an angle `t` of the first quarter, between zero and one.
pub open spec fn sin_quarter(t: int) -> int {
    let s = (t * sin_series(t) + FINE / 2) / (FINE as int);
    if s <= 0 {
        0
    } else if s > ONE {
        ONE as int
    } else {
        s
    }
}

/// The cosine and the sine, in this order, of an angle `t` of the first
/// quarter. The smaller of the two comes from its series; the larger is what
/// the unit circle leaves beside it, rounded down, so that the pair never lies
/// outside the circle.
pub open spec fn unit_pair(t: int) -> (int, int) {
    if t < EIGHTH {
        let s = sin_quarter(t);
        (sqrt_floor(ONE * ONE - s * s), s)
    } else {
        let c = cos_quarter(t);
        (c, sqrt_floor(ONE * ONE - c * c))
    }
}

/// The cosine and the sine of `angle`, in this order.
///
/// The angle's magnitude is reduced to one turn and to one quarter of it; the
/// sine takes the angle's sign, so that the pair of `-angle` is the mirror
/// image of the pair of `angle`.
pub open spec fn spec_cos_sin(angle: int) -> (int, int) {
    let r = magnitude(angle) % (TURN as int);
    let (c, s) = if r < QUARTER {
        unit_pair(r)
    } else if r < HALF {
        (-unit_pair(r - QUARTER).1, unit_pair(r - QUARTER).0)
    } else if r < THREE_QUARTERS {
        (-unit_pair(r - HALF).0, -unit_pair(r - HALF).1)
    } else {
        (unit_pair(r - THREE_QUARTERS).1, -unit_pair(r - THREE_QUARTERS).0)
    };
    (
        c,
        if angle < 0 {
            -s
        } else {
            s
        },
    )
}

/// The cosine and the sine of an angle lie on the unit circle or inside it.
pub proof fn lemma_cos_sin_in_circle(angle: int)
    ensures
        -ONE <= spec_cos_sin(angle).0 <= ONE,
        -ONE <= spec_cos_sin(angle).1 <= ONE,
        spec_cos_sin(angle).0 * spec_cos_sin(angle).0 + spec_cos_sin(angle).1 * spec_cos_sin(
            angle,
        ).1 <= ONE * ONE,
{
    let r = magnitude(angle) % (TURN as int);
    let t = if r < QUARTER {
        r
    } else if r < HALF {
        r - QUARTER
    } else if r < THREE_QUARTERS {
        r - HALF
    } else {
        r - THREE_QUARTERS
    };
    lemma_unit_pair_in_circle(t);
    let (a, b) = unit_pair(t);
    let c = spec_cos_sin(angle).0;
    let s = spec_cos_sin(angle).1;
    assert(c * c + s * s == a * a + b * b) by (nonlinear_arith)
        requires
            (c == a || c == -a) && (s == b || s == -b) || (c == b || c == -b) && (s == a || s
                == -a),
    ;
}

/// The cosine and the sine of an angle miss the unit circle by little: the
/// sum of their squares falls short of one by less than two millionths.
pub proof fn lemma_cos_sin_near_circle(angle: int)
    ensures
        spec_cos_sin(angle).0 * spec_cos_sin(angle).0 + spec_cos_sin(angle).1 * spec_cos_sin(
            angle,
        ).1 >= ONE * ONE - 2 * ONE,
{
    let r = magnitude(angle) % (TURN as int);
    let t = if r < QUARTER {
        r
    } else if r < HALF {
        r - QUARTER
    } else if r < THREE_QUARTERS {
        r - HALF
    } else {
        r - THREE_QUARTERS
    };
    lemma_unit_pair_in_circle(t);
    let (a, b) = unit_pair(t);
    let small = if t < EIGHTH {
        b
    } else {
        a
    };
    let large = if t < EIGHTH {
        a
    } else {
        b
    };
    assert(0 <= small * small <= ONE * ONE) by (nonlinear_arith)
        requires
            0 <= small <= ONE,
    ;
    lemma_sqrt_floor(ONE * ONE - small * small);
    assert(large * large + small * small >= ONE * ONE - 2 * ONE) by (nonlinear_arith)
        requires
            0 <= large <= ONE,
            ONE * ONE - small * small < (large + 1) * (large + 1),
    ;
    let c = spec_cos_sin(angle).0;
    let s = spec_cos_sin(angle).1;
    assert(c * c + s * s == a * a + b * b) by (nonlinear_arith)
        requires
            (c == a || c == -a) && (s == b || s == -b) || (c == b || c == -b) && (s == a || s
                == -a),
    ;
}

/// The cosine and the sine of the opposite angle: the same cosine and the
/// opposite sine.
pub proof fn lemma_cos_sin_mirror(angle: int)
    ensures
        spec_cos_sin(-angle).0 == spec_cos_sin(angle).0,
        spec_cos_sin(-angle).1 == -spec_cos_sin(angle).1,
{
    if angle == 0 {
        assert(0 * sin_series(0) == 0);
        assert(sin_quarter(0) == 0);
    }
}

/// The pair of an angle of the first quarter lies on the unit circle or
/// inside it, in the first quadrant.
pub proof fn lemma_unit_pair_in_circle(t: int)
    ensures
        0 <= unit_pair(t).0 <= ONE,
        0 <= unit_pair(t).1 <= ONE,
        unit_pair(t).0 * unit_pair(t).0 + unit_pair(t).1 * unit_pair(t).1 <= ONE * ONE,
{
    let a = if t < EIGHTH {
        sin_quarter(t)
    } else {
        cos_quarter(t)
    };
    assert(0 <= a <= ONE);
    assert(0 <= a * a <= ONE * ONE) by (nonlinear_arith)
        requires
            0 <= a <= ONE,
    ;
    let n = ONE * ONE - a * a;
    lemma_sqrt_floor(n);
    let b = sqrt_floor(n);
    assert(b <= ONE) by (nonlinear_arith)
        requires
            b >= 0,
            b * b <= n,
            n <= ONE * ONE,
            ONE == 1_000_000,
    ;
}

fn cycle_step_exec(x2: i128, k: i128, acc: i128) -> (r: i128)
    requires
        0 <= x2 <= SQUARE_MAX,
        2 <= k <= 156,
        0 <= acc <= FINE,
    ensures
        r == cycle_step(x2 as int, k as int, acc as int),
        -FINE <= r <= FINE,
        k >= 6 ==> 0 <= r,
{
    assert(0 <= x2 * acc <= 2_467_403_215_209 * 1_000_000_000_000) by (nonlinear_arith)
        requires
            0 <= x2 <= 2_467_403_215_209,
            0 <= acc <= 1_000_000_000_000,
    ;
    let p: i128 = x2 * acc;
    let d: i128 = k * FINE;
    let q: i128 = p / d;
    assert(0 <= q && (k >= 6 ==> q <= 1_000_000_000_000) && q <= 2_000_000_000_000)
        by (nonlinear_arith)
        requires
            q == p / d,
            0 <= p <= 2_467_403_215_209 * 1_000_000_000_000,
            d == k * 1_000_000_000_000,
            2 <= k <= 156,
    ;
    FINE - q
}

fn cos_quarter_exec(t: i64) -> (r: i64)
    requires
        0 <= t <= 1_570_797,
    ensures
        r == cos_quarter(t as int),
        0 <= r <= ONE,
{
    assert(0 <= t * t <= 2_467_403_215_209) by (nonlinear_arith)
        requires
            0 <= t <= 1_570_797,
    ;
    let x2: i128 = (t as i128) * (t as i128);
    let a5: i128 = cycle_step_exec(x2, 132, FINE);
    let a4: i128 = cycle_step_exec(x2, 90, a5);
    let a3: i128 = cycle_step_exec(x2, 56, a4);
    let a2: i128 = cycle_step_exec(x2, 30, a3);
    let a1: i128 = cycle_step_exec(x2, 12, a2);
    let c: i128 = cycle_step_exec(x2, 2, a1);
    if c <= 0 {
        0
    } else {
        let m: i128 = (c + 500_000) / 1_000_000;
        if m > 1_000_000 {
            ONE
        } else {
            m as i64
        }
    }
}

fn sin_quarter_exec(t: i64) -> (r: i64)
    requires
        0 <= t <= 1_570_797,
    ensures
        r == sin_quarter(t as int),
        0 <= r <= ONE,
{
    assert(0 <= t * t <= 2_467_403_215_209) by (nonlinear_arith)
        requires
            0 <= t <= 1_570_797,
    ;
    let x2: i128 = (t as i128) * (t as i128);
    let a5: i128 = cycle_step_exec(x2, 156, FINE);
    let a4: i128 = cycle_step_exec(x2, 110, a5);
    let a3: i128 = cycle_step_exec(x2, 72, a4);
    let a2: i128 = cycle_step_exec(x2, 42, a3);
    let a1: i128 = cycle_step_exec(x2, 20, a2);
    let a0: i128 = cycle_step_exec(x2, 6, a1);
    assert(0 <= t * a0 <= 1_570_797 * 1_000_000_000_000) by (nonlinear_arith)
        requires
            0 <= t <= 1_570_797,
            0 <= a0 <= 1_000_000_000_000,
    ;
    let s: i128 = ((t as i128) * a0 + FINE / 2) / FINE;
    if s <= 0 {
        0
    } else if s > 1_000_000 {
        ONE
    } else {
        s as i64
    }
}

/// What the unit circle leaves beside a cosine or sine `a`.
fn complement(a: i64) -> (r: i64)
    requires
        0 <= a <= ONE,
    ensures
        r == sqrt_floor(ONE * ONE - a * a),
        0 <= r <= ONE,
        r * r + a * a <= ONE * ONE,
{
    assert(0 <= a * a <= 1_000_000 * 1_000_000) by (nonlinear_arith)
        requires
            0 <= a <= 1_000_000,
    ;
    let rest: u128 = (1_000_000_000_000 - (a as i128) * (a as i128)) as u128;
    let root: u64 = isqrt(rest);
    assert(root <= 1_000_000) by (nonlinear_arith)
        requires
            root * root <= rest,
            rest <= 1_000_000 * 1_000_000,
    ;
    root as i64
}

fn unit_pair_exec(t: i64) -> (r: (i64, i64))
    requires
        0 <= t <= 1_570_797,
    ensures
        (r.0 as int, r.1 as int) == unit_pair(t as int),
        0 <= r.0 <= ONE,
        0 <= r.1 <= ONE,
        r.0 * r.0 + r.1 * r.1 <= ONE * ONE,
{
    if t < EIGHTH {
        let s: i64 = sin_quarter_exec(t);
        (complement(s), s)
    } else {
        let c: i64 = cos_quarter_exec(t);
        (c, complement(c))
    }
}

/// The cosine and the sine of `angle`: a point on the unit circle or, by
/// rounding, just inside it.
pub fn cos_sin(angle: i64) -> (r: (i64, i64))
    ensures
        (r.0 as int, r.1 as int) == spec_cos_sin(angle as int),
        -ONE <= r.0 <= ONE,
        -ONE <= r.1 <= ONE,
        r.0 * r.0 + r.1 * r.1 <= ONE * ONE,
{
    let wide: i128 = angle as i128;
    let m: i128 = if wide < 0 {
        -wide
    } else {
        wide
    };
    let t: i64 = (m % (TURN as i128)) as i64;
    let (c, s): (i64, i64) = if t < QUARTER {
        unit_pair_exec(t)
    } else if t < HALF {
        let p = unit_pair_exec(t - QUARTER);
        (-p.1, p.0)
    } else if t < THREE_QUARTERS {
        let p = unit_pair_exec(t - HALF);
        (-p.0, -p.1)
    } else {
        let p = unit_pair_exec(t - THREE_QUARTERS);
        (p.1, -p.0)
    };
    proof {
        assert((-c) * (-c) == c * c) by (nonlinear_arith);
        assert((-s) * (-s) == s * s) by (nonlinear_arith);
    }
    if angle < 0 {
        (c, -s)
    } else {
        (c, s)
    }
}

/// The tangent of an eighth of a half turn, at the fine scale: up to here
/// the arctangent series is used as it stands.
pub const TAN_EIGHTH: i128 = 414_213_562_373;

/// A quarter of a half turn, at the fine scale.
pub const FINE_EIGHTH: i128 = 785_398_163_397;

/// A quarter turn, at the fine scale.
pub const FINE_QUARTER: i128 = 1_570_796_326_795;

/// A half turn, at the fine scale.
pub const FINE_HALF: i128 = 3_141_592_653_590;

/// One step of the arctangent series in nested form: the reciprocal of `k`
/// minus `u2 * acc`, at the fine scale.
pub open spec fn arc_step(u2: int, k: int, acc: int) -> int {
    (FINE as int) / k - u2 * acc / (FINE as int)
}

/// The arctangent series up to the fifteenth power, at the fine scale, of a
/// tangent `u` that is at most `TAN_EIGHTH`.
pub open spec fn arc_series(u: int) -> int {
    let u2 = u * u / (FINE as int);
    u * arc_step(
        u2,
        1,
        arc_step(
            u2,
            3,
            arc_step(
                u2,
                5,
                arc_step(u2, 7, arc_step(u2, 9, arc_step(u2, 11, arc_step(u2, 13, (FINE as int) / 15)))),
            ),
        ),
    ) / (FINE as int)
}

/// The arctangent, at the fine scale, of a tangent `t` between zero and one.
/// Above `TAN_EIGHTH` it is a quarter of a half turn less the arctangent of
/// `(1 - t) / (1 + t)`.
pub open spec fn arc_unit(t: int) -> int {
    if t <= TAN_EIGHTH {
        arc_series(t)
    } else {
        FINE_EIGHTH - arc_series((FINE - t) * FINE / (FINE + t))
    }
}

/// The angle of the point `(x, y)` as seen from the origin, between minus a
/// half turn and a half turn; zero for the origin itself.
pub open spec fn spec_atan2(y: int, x: int) -> int {
    let ax = magnitude(x);
    let ay = magnitude(y);
    if ax == 0 && ay == 0 {
        0
    } else {
        let a = if ay <= ax {
            arc_unit(ay * FINE / ax)
        } else {
            FINE_QUARTER - arc_unit(ax * FINE / ay)
        };
        let b = if x >= 0 {
            a
        } else {
            FINE_HALF - a
        };
        let m = (b + ONE / 2) / (ONE as int);
        if y < 0 {
            -m
        } else {
            m
        }
    }
}

fn arc_step_exec(u2: i128, k: i128, acc: i128) -> (r: i128)
    requires
        0 <= u2 <= 171_644_490_000,
        1 <= k <= 13,
        0 <= acc <= 333_333_333_333,
    ensures
        r == arc_step(u2 as int, k as int, acc as int),
        0 <= r <= FINE / k,
{
    assert(0 <= u2 * acc <= 171_644_490_000 * 333_333_333_333) by (nonlinear_arith)
        requires
            0 <= u2 <= 171_644_490_000,
            0 <= acc <= 333_333_333_333,
    ;
    let q: i128 = u2 * acc / FINE;
    assert(FINE / k >= 76_923_076_923) by (nonlinear_arith)
        requires
            1 <= k <= 13,
            FINE == 1_000_000_000_000,
    ;
    FINE / k - q
}

fn arc_series_exec(u: i128) -> (r: i128)
    requires
        0 <= u <= 414_300_000_000,
    ensures
        r == arc_series(u as int),
        0 <= r <= u,
{
    assert(0 <= u * u <= 414_300_000_000 * 414_300_000_000) by (nonlinear_arith)
        requires
            0 <= u <= 414_300_000_000,
    ;
    let u2: i128 = u * u / FINE;
    let a6: i128 = arc_step_exec(u2, 13, FINE / 15);
    let a5: i128 = arc_step_exec(u2, 11, a6);
    let a4: i128 = arc_step_exec(u2, 9, a5);
    let a3: i128 = arc_step_exec(u2, 7, a4);
    let a2: i128 = arc_step_exec(u2, 5, a3);
    let a1: i128 = arc_step_exec(u2, 3, a2);
    let a0: i128 = arc_step_exec(u2, 1, a1);
    assert(0 <= u * a0 <= u * 1_000_000_000_000) by (nonlinear_arith)
        requires
            0 <= u <= 414_300_000_000,
            0 <= a0 <= 1_000_000_000_000,
    ;
    u * a0 / FINE
}

fn arc_unit_exec(t: i128) -> (r: i128)
    requires
        0 <= t <= FINE,
    ensures
        r == arc_unit(t as int),
        0 <= r <= FINE_EIGHTH,
{
    if t <= TAN_EIGHTH {
        arc_series_exec(t)
    } else {
        assert(0 <= (FINE - t) * FINE <= 414_300_000_000 * (FINE + t)) by (nonlinear_arith)
            requires
                414_213_562_373 < t <= FINE,
                FINE == 1_000_000_000_000,
        ;
        let n: i128 = (FINE - t) * FINE;
        let d: i128 = FINE + t;
        let u: i128 = n / d;
        assert(0 <= u <= 414_300_000_000) by (nonlinear_arith)
            requires
                u == n / d,
                d > 0,
                0 <= n <= 414_300_000_000 * d,
        ;
        FINE_EIGHTH - arc_series_exec(u)
    }
}

/// The quotient of `small` by `large` at the fine scale.
fn ratio(small: i128, large: i128) -> (r: i128)
    requires
        0 <= small <= large <= 0x8000_0000_0000_0000,
        large > 0,
    ensures
        r == small * FINE / (large as int),
        0 <= r <= FINE,
{
    assert(0 <= small * FINE <= large * FINE <= 0x8000_0000_0000_0000 * 1_000_000_000_000)
        by (nonlinear_arith)
        requires
            0 <= small <= large <= 0x8000_0000_0000_0000,
            FINE == 1_000_000_000_000,
    ;
    let n: i128 = small * FINE;
    let q: i128 = n / large;
    assert(0 <= q <= FINE) by (nonlinear_arith)
        requires
            q == n / large,
            large > 0,
            0 <= n <= large * FINE,
    ;
    q
}

/// The angle of the point `(x, y)` as seen from the origin.
pub fn atan2(y: i64, x: i64) -> (r: i64)
    ensures
        r == spec_atan2(y as int, x as int),
        -HALF <= r <= HALF,
{
    let ax: i128 = if x < 0 {
        -(x as i128)
    } else {
        x as i128
    };
    let ay: i128 = if y < 0 {
        -(y as i128)
    } else {
        y as i128
    };
    if ax == 0 && ay == 0 {
        return 0;
    }
    let a: i128 = if ay <= ax {
        arc_unit_exec(ratio(ay, ax))
    } else {
        FINE_QUARTER - arc_unit_exec(ratio(ax, ay))
    };
    let b: i128 = if x >= 0 {
        a
    } else {
        FINE_HALF - a
    };
    let m: i64 = ((b + 500_000) / 1_000_000) as i64;
    if y < 0 {
        -m
    } else {
        m
    }
}

} // verus!
