//! What holds of the simulator whatever the bodies and the forces are.

use vstd::prelude::*;
use crate::body::{Body, FieldScalars};
use crate::game::MyGame;
use crate::scalar::{
    fix, in_range, lemma_sqrt_floor_unique, lemma_trunc_div_multiple, magnitude, spec_mul_fixed,
    trunc_div, LIMIT, ONE,
};
use crate::vector::{lemma_square_sign, VecXy};

verus! {

/// The zero vector has the length zero.
pub proof fn lemma_zero_length()
    ensures
        VecXy::spec_zero().spec_length() == 0,
{
    assert(crate::scalar::is_sqrt_floor(0, 0));
    lemma_sqrt_floor_unique(0, 0);
}

/// The zero vector stays the zero vector, whatever length it is given.
pub proof fn lemma_with_length_of_zero(length: int)
    ensures
        VecXy::spec_zero().spec_with_length(length) == VecXy::spec_zero(),
{
}

/// Moving a scalar toward zero never carries it to the other side of zero,
/// and leaves zero at zero whenever the step is not negative.
pub proof fn lemma_toward_zero_keeps_sign(x: int, by: int)
    ensures
        x > 0 ==> crate::scalar::spec_toward_zero(x, by) >= 0,
        x < 0 ==> crate::scalar::spec_toward_zero(x, by) <= 0,
        by >= 0 ==> crate::scalar::spec_toward_zero(0, by) == 0,
        by >= 0 && in_range(x) ==> magnitude(crate::scalar::spec_toward_zero(x, by)) <= magnitude(
            x,
        ),
{
}

/// No force gives no acceleration, wherever on the body it is applied.
pub proof fn lemma_no_force_no_acceleration(body: Body, contact: VecXy)
    ensures
        body.spec_tug_acc(contact, VecXy::spec_zero()) == FieldScalars::spec_zero(),
{
}

/// A vector that points along a non-zero `other` is its own part along
/// `other`.
pub proof fn lemma_parallel_of_parallel(v: VecXy, other: VecXy)
    requires
        v.in_range(),
        other != VecXy::spec_zero(),
        other.spec_perp_dot(v) == 0,
    ensures
        v.spec_parallel(other) == v,
{
    let d = v.spec_dot(other);
    let n = other.length_squared();
    let (vx, vy) = (v.x as int, v.y as int);
    let (ox, oy) = (other.x as int, other.y as int);
    lemma_square_sign(ox);
    lemma_square_sign(oy);
    assert(ox * d == vx * n && oy * d == vy * n) by (nonlinear_arith)
        requires
            d == vx * ox + vy * oy,
            n == ox * ox + oy * oy,
            ox * vy - oy * vx == 0,
    ;
    lemma_trunc_div_multiple(vx, n);
    lemma_trunc_div_multiple(vy, n);
}

/// The share of a force that may turn the body is a share: between nothing
/// and all of it, for every holding point within the body's reach for pulls.
pub proof fn lemma_rotatable_proportion_is_a_share(body: Body, contact: VecXy)
    requires
        body.max_tug_handle_distance > 0,
        contact.spec_length() <= body.max_tug_handle_distance,
    ensures
        0 <= body.spec_rotatable_proportion(contact) <= ONE,
{
    let len = contact.spec_length();
    let max = body.max_tug_handle_distance as int;
    let one = ONE as int;
    lemma_square_sign(contact.x as int);
    lemma_square_sign(contact.y as int);
    crate::scalar::lemma_sqrt_floor(contact.length_squared());
    assert(0 <= len * one <= max * one) by (nonlinear_arith)
        requires
            0 <= len <= max,
            one > 0,
    ;
    assert(0 <= (len * one) / max <= one) by (nonlinear_arith)
        requires
            0 <= len * one <= max * one,
            max > 0,
    ;
}

/// A pull along the line from the body's centre to the point where it holds
/// the body does not turn the body, as long as the share of the force that
/// may turn it still points along that line after rounding.
pub proof fn lemma_parallel_pull_does_not_turn(body: Body, contact: VecXy, force: VecXy)
    requires
        body.max_tug_handle_distance > 0,
        contact.in_range(),
        contact.spec_length() <= body.max_tug_handle_distance,
        contact.spec_perp_dot(force) == 0,
        contact.spec_perp_dot(body.spec_rotatable_force(contact, force)) == 0,
    ensures
        body.spec_tug_acc(contact, force).angle == 0,
{
    let fr = body.spec_rotatable_force(contact, force);
    lemma_zero_length();
    if force != VecXy::spec_zero() {
        if contact == VecXy::spec_zero() {
            assert(body.spec_rotatable_proportion(contact) == 0);
            assert(fr == VecXy::spec_zero());
        } else {
            lemma_parallel_of_parallel(fr, contact);
        }
        assert(body.spec_rotatable_perpendicular(contact, force) == VecXy::spec_zero());
        let a = body.statics.angle.acc_scalar as int;
        assert(a * 0 == 0);
    }
}

/// What rounding a share of a scalar within range loses: less than a
/// millionth, and nothing is held at the limit.
pub proof fn lemma_share_remainder(x: int, share: int)
    requires
        in_range(x),
        0 <= share <= ONE,
    ensures
        -ONE < x * share - fix(spec_mul_fixed(x, share)) * ONE < ONE,
{
    let one = ONE as int;
    let t = trunc_div(x * share, one);
    crate::scalar::lemma_trunc_div_bounds(x * share, one);
    crate::scalar::lemma_trunc_div_error(x * share, one);
    let m = magnitude(x);
    assert(magnitude(x * share) == m * share) by (nonlinear_arith)
        requires
            m == magnitude(x),
            share >= 0,
    ;
    assert((m * share) / one <= m) by (nonlinear_arith)
        requires
            0 <= share <= one,
            one > 0,
            m >= 0,
    ;
    assert(fix(spec_mul_fixed(x, share)) == t);
}

/// One coordinate of what is left of a vector `(fa, fb)` once its part along
/// `(a, b)` is taken away, where the vector lies along `(a, b)` up to
/// rounding: it is two millionths at most.
pub proof fn lemma_rest_of_nearly_parallel(a: int, b: int, fa: int, fb: int)
    requires
        a != 0 || b != 0,
        in_range(fa),
        magnitude(a * fb - b * fa) <= magnitude(a) + magnitude(b),
    ensures
        ({
            let n = a * a + b * b;
            let d = fa * a + fb * b;
            magnitude(fix(fa - fix(trunc_div(a * d, n))) as int) <= 2
        }),
{
    let n = a * a + b * b;
    let d = fa * a + fb * b;
    let cross = a * fb - b * fa;
    let q = trunc_div(a * d, n);
    lemma_square_sign(a);
    lemma_square_sign(b);
    crate::scalar::lemma_trunc_div_error(a * d, n);
    let ad = a * d;
    let bc = b * cross;
    assert(n * fa - ad == -bc) by (nonlinear_arith)
        requires
            n == a * a + b * b,
            ad == a * (fa * a + fb * b),
            bc == b * (a * fb - b * fa),
    ;
    let (ma, mb, mc) = (magnitude(a), magnitude(b), magnitude(cross));
    assert(ma * ma == a * a && mb * mb == b * b) by (nonlinear_arith)
        requires
            ma == a || ma == -a,
            mb == b || mb == -b,
    ;
    lemma_square_sign(ma - mb);
    assert(2 * (ma * mb) <= n) by (nonlinear_arith)
        requires
            (ma - mb) * (ma - mb) >= 0,
            n == ma * ma + mb * mb,
    ;
    assert(magnitude(bc) <= ma * mb + mb * mb) by (nonlinear_arith)
        requires
            bc == b * cross,
            mb == magnitude(b),
            magnitude(cross) <= ma + mb,
            ma >= 0,
    ;
    let rest = fa - q;
    let qn = q * n;
    assert(n * rest == n * fa - qn) by (nonlinear_arith)
        requires
            rest == fa - q,
            qn == q * n,
    ;
    assert(magnitude(rest) <= 2) by (nonlinear_arith)
        requires
            2 * magnitude(n * rest) < 5 * n,
            n > 0,
    ;
}

/// A pull along the line from the body's centre to the point where it holds
/// the body hardly turns the body: rounding the share of the force that may
/// turn it leaves no more than two millionths across that line, so that the
/// body turns by no more than two millionths of the angular scalar.
pub proof fn lemma_parallel_pull_hardly_turns(body: Body, contact: VecXy, force: VecXy)
    requires
        body.max_tug_handle_distance > 0,
        contact.in_range(),
        force.in_range(),
        contact.spec_length() <= body.max_tug_handle_distance,
        contact.spec_perp_dot(force) == 0,
    ensures
        body.spec_rotatable_perpendicular(contact, force).spec_length() <= 2,
        magnitude(body.spec_tug_acc(contact, force).angle as int) * ONE <= 2 * magnitude(
            body.statics.angle.acc_scalar as int,
        ),
{
    let one = ONE as int;
    let fr = body.spec_rotatable_force(contact, force);
    let share = body.spec_rotatable_proportion(contact);
    let perp = body.spec_rotatable_perpendicular(contact, force);
    let acc = body.statics.angle.acc_scalar as int;
    lemma_zero_length();
    lemma_rotatable_proportion_is_a_share(body, contact);
    lemma_share_no_larger(force.x as int, share);
    lemma_share_no_larger(force.y as int, share);
    if contact == VecXy::spec_zero() {
        assert(share == 0);
        assert(force.x * 0 == 0 && force.y * 0 == 0);
        assert(fr == VecXy::spec_zero());
        assert(perp == VecXy::spec_zero());
    } else {
        let (cx, cy) = (contact.x as int, contact.y as int);
        let (fx, fy) = (force.x as int, force.y as int);
        let (rx, ry) = (fr.x as int, fr.y as int);
        lemma_share_remainder(fx, share);
        lemma_share_remainder(fy, share);
        let ex = fx * share - rx * one;
        let ey = fy * share - ry * one;
        let cross = cx * ry - cy * rx;
        let (sx, sy) = (fx * share, fy * share);
        let (ox, oy) = (rx * one, ry * one);
        assert(cross * one == cx * oy - cy * ox) by (nonlinear_arith)
            requires
                cross == cx * ry - cy * rx,
                ox == rx * one,
                oy == ry * one,
        ;
        assert(cx * oy == cx * sy - cx * ey && cy * ox == cy * sx - cy * ex) by (nonlinear_arith)
            requires
                oy == sy - ey,
                ox == sx - ex,
        ;
        assert(cx * sy - cy * sx == (cx * fy - cy * fx) * share) by (nonlinear_arith)
            requires
                sx == fx * share,
                sy == fy * share,
        ;
        assert(0 * share == 0);
        assert(cross * one == cy * ex - cx * ey);
        let (cyex, cxey) = (cy * ex, cx * ey);
        let (mx, my) = (magnitude(cx), magnitude(cy));
        assert(-(my * (one - 1)) <= cyex <= my * (one - 1)) by (nonlinear_arith)
            requires
                cyex == cy * ex,
                -one < ex < one,
                my == magnitude(cy),
        ;
        assert(-(mx * (one - 1)) <= cxey <= mx * (one - 1)) by (nonlinear_arith)
            requires
                cxey == cx * ey,
                -one < ey < one,
                mx == magnitude(cx),
        ;
        let mc = magnitude(cross);
        assert(mc * one == magnitude(cross * one));
        assert(mc <= mx + my);
        lemma_rest_of_nearly_parallel(cx, cy, rx, ry);
        assert(magnitude(cy * rx - cx * ry) == mc);
        lemma_rest_of_nearly_parallel(cy, cx, ry, rx);
        assert(rx * cx + ry * cy == ry * cy + rx * cx);
        assert(cx * cx + cy * cy == cy * cy + cx * cx);
        let (px, py) = (perp.x as int, perp.y as int);
        assert(magnitude(px) <= 2 && magnitude(py) <= 2);
        assert(0 <= px * px <= 4 && 0 <= py * py <= 4) by (nonlinear_arith)
            requires
                -2 <= px <= 2,
                -2 <= py <= 2,
        ;
        crate::scalar::lemma_sqrt_floor(px * px + py * py);
        let root = crate::scalar::sqrt_floor(px * px + py * py);
        assert(root <= 2) by (nonlinear_arith)
            requires
                root >= 0,
                root * root <= 8,
        ;
    }
    if force != VecXy::spec_zero() {
        let len = perp.spec_length();
        let turn = spec_mul_fixed(acc, len);
        crate::vector::lemma_fix_trunc_div(acc * len, one);
        assert(magnitude(acc * len) <= 2 * magnitude(acc)) by (nonlinear_arith)
            requires
                0 <= len <= 2,
        ;
    }
}

/// A pull and a holding point on one axis keep the direction of the share of
/// the force that may turn the body, whatever the rounding.
pub proof fn lemma_axis_pull_keeps_direction(body: Body, contact: VecXy, force: VecXy)
    requires
        contact.y == 0 && force.y == 0 || contact.x == 0 && force.x == 0,
    ensures
        contact.spec_perp_dot(force) == 0,
        contact.spec_perp_dot(body.spec_rotatable_force(contact, force)) == 0,
{
    let p = body.spec_rotatable_proportion(contact);
    assert(0 * p == 0);
    let fr = body.spec_rotatable_force(contact, force);
    if contact.y == 0 && force.y == 0 {
        assert(fr.y == 0);
        assert(contact.x * 0 == 0);
        assert(0 * fr.x == 0);
        assert(0 * force.x == 0);
    } else {
        assert(fr.x == 0);
        assert(contact.y * 0 == 0);
        assert(0 * fr.y == 0);
        assert(0 * force.y == 0);
    }
}

/// The algebra of turning forth and back: with the remainders `e1`, `e2` of
/// the first turn and `e3` of the second, a million million times the error of
/// the first coordinate is what the circle's shortfall and the remainders
/// leave.
pub proof fn lemma_round_trip_algebra(
    x: int,
    y: int,
    c: int,
    s: int,
    p: int,
    q: int,
    e1: int,
    e2: int,
    w: int,
    e3: int,
)
    requires
        p * 1_000_000 == x * c - y * s - e1,
        q * 1_000_000 == x * s + y * c - e2,
        w * 1_000_000 == p * c + q * s - e3,
    ensures
        (w - x) * 1_000_000_000_000 == x * (c * c + s * s - 1_000_000_000_000) - e1 * c - e2 * s
            - 1_000_000 * e3,
{
    let pc = p * c;
    let qs = q * s;
    assert(pc * 1_000_000 == (x * c - y * s - e1) * c) by (nonlinear_arith)
        requires
            pc == p * c,
            p * 1_000_000 == x * c - y * s - e1,
    ;
    assert(qs * 1_000_000 == (x * s + y * c - e2) * s) by (nonlinear_arith)
        requires
            qs == q * s,
            q * 1_000_000 == x * s + y * c - e2,
    ;
    assert((x * c - y * s - e1) * c == x * (c * c) - (y * s) * c - e1 * c) by (nonlinear_arith);
    assert((x * s + y * c - e2) * s == x * (s * s) + (y * c) * s - e2 * s) by (nonlinear_arith);
    assert((y * s) * c == (y * c) * s) by (nonlinear_arith);
    assert(x * (c * c + s * s - 1_000_000_000_000) == x * (c * c) + x * (s * s) - x
        * 1_000_000_000_000) by (nonlinear_arith);
}

/// The bound on the error of one coordinate after turning forth and back.
pub proof fn lemma_round_trip_bound(x: int, c: int, s: int, u: int, e1: int, e2: int, e3: int, d: int)
    requires
        -1_000_000 <= c <= 1_000_000,
        -1_000_000 <= s <= 1_000_000,
        1_000_000_000_000 - 2_000_000 <= u <= 1_000_000_000_000,
        -1_000_000 < e1 < 1_000_000,
        -1_000_000 < e2 < 1_000_000,
        -1_000_000 < e3 < 1_000_000,
        d * 1_000_000_000_000 == x * (u - 1_000_000_000_000) - e1 * c - e2 * s - 1_000_000 * e3,
    ensures
        magnitude(d) * 1_000_000 <= 2 * magnitude(x) + 3_000_000,
{
    let m = magnitude(x);
    let t = x * (u - 1_000_000_000_000);
    assert(-2_000_000 * m <= t <= 2_000_000 * m) by (nonlinear_arith)
        requires
            t == x * (u - 1_000_000_000_000),
            m == magnitude(x),
            -2_000_000 <= u - 1_000_000_000_000 <= 0,
    ;
    let a = e1 * c;
    let b = e2 * s;
    assert(-1_000_000_000_000 <= a <= 1_000_000_000_000) by (nonlinear_arith)
        requires
            a == e1 * c,
            -1_000_000 <= c <= 1_000_000,
            -1_000_000 < e1 < 1_000_000,
    ;
    assert(-1_000_000_000_000 <= b <= 1_000_000_000_000) by (nonlinear_arith)
        requires
            b == e2 * s,
            -1_000_000 <= s <= 1_000_000,
            -1_000_000 < e2 < 1_000_000,
    ;
}

/// Turning a vector by an angle and back by the same angle gives the vector
/// again up to rounding: each coordinate is off by no more than two
/// millionths of itself and three millionths of a unit. This holds of every
/// vector within the disc around the origin that reaches to the scalar
/// limit; outside it a turn may be held at the limit.
pub proof fn lemma_rotated_forth_and_back(v: VecXy, angle: int)
    requires
        v.length_squared() <= LIMIT * LIMIT,
    ensures
        ({
            let w = v.spec_rotated(angle).spec_rotated(-angle);
            &&& magnitude(w.x - v.x) * ONE <= 2 * magnitude(v.x as int) + 3 * ONE
            &&& magnitude(w.y - v.y) * ONE <= 2 * magnitude(v.y as int) + 3 * ONE
        }),
{
    let (c, s) = crate::trig::spec_cos_sin(angle);
    crate::trig::lemma_cos_sin_in_circle(angle);
    crate::trig::lemma_cos_sin_near_circle(angle);
    crate::trig::lemma_cos_sin_mirror(angle);
    let u = c * c + s * s;
    let (x, y) = (v.x as int, v.y as int);
    let one = ONE as int;
    let r = v.spec_rotated(angle);
    lemma_turn_in_disc(x, y, c, s);
    let (p, q) = (r.x as int, r.y as int);
    assert(p == trunc_div(x * c - y * s, one));
    assert(q == trunc_div(x * s + y * c, one));
    let w = r.spec_rotated(-angle);
    assert((-s) * (-s) == s * s) by (nonlinear_arith);
    lemma_turn_in_disc(p, q, c, -s);
    assert(q * (-s) == -(q * s)) by (nonlinear_arith);
    assert(p * (-s) == -(p * s)) by (nonlinear_arith);
    let (wx, wy) = (w.x as int, w.y as int);
    assert(wx == trunc_div(p * c + q * s, one));
    assert(wy == trunc_div(q * c - p * s, one));
    crate::scalar::lemma_trunc_div_error(x * c - y * s, one);
    crate::scalar::lemma_trunc_div_error(x * s + y * c, one);
    crate::scalar::lemma_trunc_div_error(p * c + q * s, one);
    crate::scalar::lemma_trunc_div_error(q * c - p * s, one);
    let e1 = x * c - y * s - p * one;
    let e2 = x * s + y * c - q * one;
    let e3 = p * c + q * s - wx * one;
    let e4 = q * c - p * s - wy * one;
    lemma_round_trip_algebra(x, y, c, s, p, q, e1, e2, wx, e3);
    lemma_round_trip_bound(x, c, s, u, e1, e2, e3, wx - x);
    // The second coordinate is the first of the vector turned a quarter:
    // `(y, -x)` goes to `(q, -p)` with the remainders `(e2, -e1)`.
    assert(y * c - (-x) * s == x * s + y * c) by (nonlinear_arith);
    assert(y * s + (-x) * c == -(x * c - y * s)) by (nonlinear_arith);
    assert(q * c + (-p) * s == q * c - p * s) by (nonlinear_arith);
    lemma_round_trip_algebra(y, -x, c, s, q, -p, e2, -e1, wy, e4);
    assert((-e1) * s == -(e1 * s)) by (nonlinear_arith);
    lemma_round_trip_bound(y, c, s, u, e2, -e1, e4, wy - y);
}

/// A turn of a vector within the disc of the scalar limit, by a cosine and a
/// sine within the unit circle, stays within the disc, so that no coordinate
/// needs to be held at the limit.
pub proof fn lemma_turn_in_disc(x: int, y: int, c: int, s: int)
    requires
        x * x + y * y <= LIMIT * LIMIT,
        c * c + s * s <= ONE * ONE,
    ensures
        ({
            let p = trunc_div(x * c - y * s, ONE as int);
            let q = trunc_div(x * s + y * c, ONE as int);
            &&& in_range(p)
            &&& in_range(q)
            &&& p * p + q * q <= x * x + y * y
        }),
{
    let one = ONE as int;
    let p = trunc_div(x * c - y * s, one);
    let q = trunc_div(x * s + y * c, one);
    crate::scalar::lemma_trunc_div_bounds(x * c - y * s, one);
    crate::scalar::lemma_trunc_div_bounds(x * s + y * c, one);
    crate::vector::lemma_turn_squares(x, y, c, s, p, q);
    lemma_square_sign(p);
    lemma_square_sign(q);
    assert(in_range(p)) by (nonlinear_arith)
        requires
            p * p <= 1_000_000_000_000 * 1_000_000_000_000,
            LIMIT == 1_000_000_000_000,
    ;
    assert(in_range(q)) by (nonlinear_arith)
        requires
            q * q <= 1_000_000_000_000 * 1_000_000_000_000,
            LIMIT == 1_000_000_000_000,
    ;
}

/// Whether nothing pulls on the body.
pub open spec fn no_pulls(body: Body) -> bool {
    forall|i: int| 0 <= i < 3 ==> body.tuggers[i] is None
}

/// Whether the body's friction slows: each step leaves a share of the
/// velocity, between nothing and all of it, and takes a constant that is not
/// negative.
pub open spec fn friction_slows(body: Body) -> bool {
    &&& 0 <= body.statics.xy.linear_friction_scalar <= ONE
    &&& 0 <= body.statics.angle.linear_friction_scalar <= ONE
    &&& 0 <= body.statics.xy.constant_friction
    &&& 0 <= body.statics.angle.constant_friction
}

/// Whether the body's friction stops: it slows, and the constant that each
/// step takes is positive.
pub open spec fn friction_stops(body: Body) -> bool {
    &&& friction_slows(body)
    &&& 0 < body.statics.xy.constant_friction
    &&& 0 < body.statics.angle.constant_friction
}

/// How far a velocity is from rest: the sum of the magnitudes of its parts.
pub open spec fn unrest(vel: FieldScalars) -> int {
    magnitude(vel.xy.x as int) + magnitude(vel.xy.y as int) + magnitude(vel.angle as int)
}

/// A share of a scalar, between nothing and all of it, is no farther from
/// zero than the scalar.
pub proof fn lemma_share_no_larger(x: int, share: int)
    requires
        0 <= share <= ONE,
    ensures
        magnitude(fix(spec_mul_fixed(x, share)) as int) <= magnitude(x),
        in_range(fix(spec_mul_fixed(x, share)) as int),
{
    let one = ONE as int;
    crate::vector::lemma_fix_trunc_div(x * share, one);
    let r = magnitude(fix(spec_mul_fixed(x, share)) as int);
    let m = magnitude(x);
    assert(magnitude(x * share) == m * share) by (nonlinear_arith)
        requires
            m == magnitude(x),
            share >= 0,
    ;
    assert(r <= m) by (nonlinear_arith)
        requires
            r * one <= m * share,
            0 <= share <= one,
            one > 0,
            m >= 0,
            r >= 0,
    ;
}

/// A coordinate of a vector whose fine length `fine` is reduced to `reduced`
/// is no farther from zero than before, and nearer where the length is truly
/// reduced and the coordinate is not zero.
pub proof fn lemma_reduced_coordinate(x: int, reduced: int, fine: int)
    requires
        0 <= reduced <= fine,
        0 < fine,
    ensures
        magnitude(fix(trunc_div(x * reduced, fine)) as int) * fine <= magnitude(x) * reduced,
        magnitude(fix(trunc_div(x * reduced, fine)) as int) <= magnitude(x),
        reduced < fine && x != 0 ==> magnitude(fix(trunc_div(x * reduced, fine)) as int)
            < magnitude(x),
{
    crate::vector::lemma_fix_trunc_div(x * reduced, fine);
    let r = magnitude(fix(trunc_div(x * reduced, fine)) as int);
    let m = magnitude(x);
    assert(magnitude(x * reduced) == m * reduced) by (nonlinear_arith)
        requires
            m == magnitude(x),
            reduced >= 0,
    ;
    assert(r <= m && (reduced < fine && m > 0 ==> r < m)) by (nonlinear_arith)
        requires
            r * fine <= m * reduced,
            0 <= reduced <= fine,
            fine > 0,
            m >= 0,
            r >= 0,
    ;
}

/// Of two vectors within the scalar range, the one with no coordinate
/// farther from zero has no greater fine length.
pub proof fn lemma_fine_length_monotonic(a: VecXy, b: VecXy)
    requires
        magnitude(a.x as int) <= magnitude(b.x as int),
        magnitude(a.y as int) <= magnitude(b.y as int),
    ensures
        a.length_squared() <= b.length_squared(),
        a.spec_fine_length() <= b.spec_fine_length(),
{
    let (ax, ay, bx, by) = (a.x as int, a.y as int, b.x as int, b.y as int);
    assert(ax * ax <= bx * bx) by (nonlinear_arith)
        requires
            magnitude(ax) <= magnitude(bx),
    ;
    assert(ay * ay <= by * by) by (nonlinear_arith)
        requires
            magnitude(ay) <= magnitude(by),
    ;
    lemma_square_sign(ax);
    lemma_square_sign(ay);
    let one = ONE as int;
    let (m, n) = (a.length_squared(), b.length_squared());
    assert(0 <= m * (one * one) <= n * (one * one)) by (nonlinear_arith)
        requires
            0 <= m <= n,
            one > 0,
    ;
    crate::scalar::lemma_sqrt_floor_monotonic(m * (one * one), n * (one * one));
}

/// A vector within the scalar range whose length is moved toward zero keeps
/// its direction up to rounding: each coordinate is, to less than a
/// millionth, the old one times the reduced fine length over the fine length,
/// on the same side of zero, and the result lies along the vector up to the
/// rounding of its two coordinates.
pub proof fn lemma_reduced_length_keeps_direction(v: VecXy, by: int)
    requires
        0 <= by,
        v.in_range(),
        v != VecXy::spec_zero(),
    ensures
        ({
            let r = v.spec_reduce_length(by);
            let fine = v.spec_fine_length();
            let reduced = VecXy::spec_reduced_fine_length(fine, by);
            &&& -fine < v.x * reduced - r.x * fine < fine
            &&& -fine < v.y * reduced - r.y * fine < fine
            &&& r.x * v.x >= 0 && r.y * v.y >= 0
            &&& magnitude(v.spec_perp_dot(r)) <= magnitude(v.x as int) + magnitude(v.y as int)
        }),
{
    crate::vector::lemma_fine_length_bounds(v);
    let fine = v.spec_fine_length();
    let reduced = VecXy::spec_reduced_fine_length(fine, by);
    let r = v.spec_reduce_length(by);
    let (x, y) = (v.x as int, v.y as int);
    let (tx, ty) = (x * reduced, y * reduced);
    let (p, q) = (trunc_div(tx, fine), trunc_div(ty, fine));
    lemma_reduced_coordinate(x, reduced, fine);
    lemma_reduced_coordinate(y, reduced, fine);
    crate::scalar::lemma_trunc_div_bounds(tx, fine);
    crate::scalar::lemma_trunc_div_bounds(ty, fine);
    crate::scalar::lemma_trunc_div_error(tx, fine);
    crate::scalar::lemma_trunc_div_error(ty, fine);
    assert(magnitude(tx) == magnitude(x) * reduced && magnitude(ty) == magnitude(y) * reduced && (
    x >= 0 ==> tx >= 0) && (x <= 0 ==> tx <= 0) && (y >= 0 ==> ty >= 0) && (y <= 0 ==> ty <= 0))
        by (nonlinear_arith)
        requires
            tx == x * reduced,
            ty == y * reduced,
            reduced >= 0,
    ;
    assert(magnitude(x) * reduced / fine <= magnitude(x)) by (nonlinear_arith)
        requires
            0 <= reduced <= fine,
            fine > 0,
            magnitude(x) >= 0,
    ;
    assert(magnitude(y) * reduced / fine <= magnitude(y)) by (nonlinear_arith)
        requires
            0 <= reduced <= fine,
            fine > 0,
            magnitude(y) >= 0,
    ;
    assert(r.x == p && r.y == q);
    assert(p * x >= 0 && q * y >= 0) by (nonlinear_arith)
        requires
            x >= 0 ==> p >= 0,
            x <= 0 ==> p <= 0,
            y >= 0 ==> q >= 0,
            y <= 0 ==> q <= 0,
    ;
    let (ex, ey) = (tx - p * fine, ty - q * fine);
    let cross = x * q - y * p;
    let (pf, qf) = (p * fine, q * fine);
    assert(x * ty == y * tx) by (nonlinear_arith)
        requires
            tx == x * reduced,
            ty == y * reduced,
    ;
    assert(cross * fine == x * qf - y * pf) by (nonlinear_arith)
        requires
            cross == x * q - y * p,
            pf == p * fine,
            qf == q * fine,
    ;
    assert(x * qf - y * pf == y * ex - x * ey) by (nonlinear_arith)
        requires
            qf == ty - ey,
            pf == tx - ex,
            x * ty == y * tx,
    ;
    let (yex, xey) = (y * ex, x * ey);
    let (mx, my) = (magnitude(x), magnitude(y));
    assert(-(my * (fine - 1)) <= yex <= my * (fine - 1)) by (nonlinear_arith)
        requires
            yex == y * ex,
            -fine < ex < fine,
            my == magnitude(y),
    ;
    assert(-(mx * (fine - 1)) <= xey <= mx * (fine - 1)) by (nonlinear_arith)
        requires
            xey == x * ey,
            -fine < ey < fine,
            mx == magnitude(x),
    ;
    let mc = magnitude(cross);
    assert(mc * fine == magnitude(cross * fine)) by (nonlinear_arith)
        requires
            mc == magnitude(cross),
            fine > 0,
    ;
    assert((mx + my) * (fine - 1) == mx * (fine - 1) + my * (fine - 1)) by (nonlinear_arith);
    assert(mc <= mx + my) by (nonlinear_arith)
        requires
            mc * fine <= (mx + my) * (fine - 1),
            fine > 0,
            mc >= 0,
            mx + my >= 0,
    ;
}

/// A vector within the scalar range whose length is moved toward zero by a
/// constant that is not negative has no coordinate farther from zero than
/// before, and its fine length is no more than the reduced one. Where the
/// constant is positive, every coordinate that is not zero comes nearer.
pub proof fn lemma_reduced_length(v: VecXy, by: int)
    requires
        0 <= by,
        v.in_range(),
    ensures
        magnitude(v.spec_reduce_length(by).x as int) <= magnitude(v.x as int),
        magnitude(v.spec_reduce_length(by).y as int) <= magnitude(v.y as int),
        0 < by && v.x != 0 ==> magnitude(v.spec_reduce_length(by).x as int) < magnitude(
            v.x as int,
        ),
        0 < by && v.y != 0 ==> magnitude(v.spec_reduce_length(by).y as int) < magnitude(
            v.y as int,
        ),
        v.spec_reduce_length(by).spec_fine_length() <= VecXy::spec_reduced_fine_length(
            v.spec_fine_length(),
            by,
        ),
{
    crate::vector::lemma_fine_length_bounds(v);
    let fine = v.spec_fine_length();
    let reduced = VecXy::spec_reduced_fine_length(fine, by);
    let r = v.spec_reduce_length(by);
    if v.x != 0 || v.y != 0 {
        let (x, y) = (v.x as int, v.y as int);
        let one = ONE as int;
        lemma_reduced_coordinate(x, reduced, fine);
        lemma_reduced_coordinate(y, reduced, fine);
        let (p, q) = (magnitude(r.x as int), magnitude(r.y as int));
        let (mx, my) = (magnitude(x), magnitude(y));
        let n = v.length_squared();
        let m = r.length_squared();
        assert(p * p == r.x * r.x && q * q == r.y * r.y && mx * mx == x * x && my * my == y * y)
            by (nonlinear_arith)
            requires
                p == r.x || p == -r.x,
                q == r.y || q == -r.y,
                mx == x || mx == -x,
                my == y || my == -y,
        ;
        let ff = fine * fine;
        let gg = reduced * reduced;
        crate::vector::lemma_square_of_product(p, fine);
        crate::vector::lemma_square_of_product(q, fine);
        crate::vector::lemma_square_of_product(mx, reduced);
        crate::vector::lemma_square_of_product(my, reduced);
        assert((p * fine) * (p * fine) <= (mx * reduced) * (mx * reduced)) by (nonlinear_arith)
            requires
                0 <= p * fine <= mx * reduced,
        ;
        assert((q * fine) * (q * fine) <= (my * reduced) * (my * reduced)) by (nonlinear_arith)
            requires
                0 <= q * fine <= my * reduced,
        ;
        assert(m * ff == (p * p) * ff + (q * q) * ff) by (nonlinear_arith)
            requires
                m == p * p + q * q,
        ;
        assert(n * gg == (mx * mx) * gg + (my * my) * gg) by (nonlinear_arith)
            requires
                n == mx * mx + my * my,
        ;
        assert(m * ff <= n * gg);
        // The fine length of the result, squared and times the old one.
        lemma_square_sign(r.x as int);
        lemma_square_sign(r.y as int);
        let big_m = m * (one * one);
        let big_n = n * (one * one);
        assert(big_m >= 0) by (nonlinear_arith)
            requires
                big_m == m * (one * one),
                m >= 0,
        ;
        crate::scalar::lemma_sqrt_floor(big_m);
        let after = r.spec_fine_length();
        assert(after <= reduced) by {
            if reduced == 0 {
                assert(x * 0 == 0 && y * 0 == 0);
                assert(r == VecXy::spec_zero());
                crate::vector::lemma_fine_length_bounds(r);
            } else if after > reduced {
                lemma_square_sign(reduced);
                assert(big_m * ff <= big_n * gg) by (nonlinear_arith)
                    requires
                        big_m == m * (one * one),
                        big_n == n * (one * one),
                        m * ff <= n * gg,
                        one > 0,
                ;
                assert(big_n * gg < ((fine + 1) * (fine + 1)) * gg) by (nonlinear_arith)
                    requires
                        big_n < (fine + 1) * (fine + 1),
                        gg > 0,
                ;
                crate::vector::lemma_square_of_product(after, fine);
                crate::vector::lemma_square_of_product(fine + 1, reduced);
                assert((after * after) * ff <= big_m * ff) by (nonlinear_arith)
                    requires
                        after * after <= big_m,
                        ff >= 0,
                ;
                let lo = after * fine;
                let hi = (fine + 1) * reduced;
                assert(lo < hi) by (nonlinear_arith)
                    requires
                        lo * lo < hi * hi,
                        lo == after * fine,
                        hi == (fine + 1) * reduced,
                        after >= 0,
                        fine >= 0,
                        reduced >= 0,
                ;
                assert(false) by (nonlinear_arith)
                    requires
                        after * fine < (fine + 1) * reduced,
                        after >= reduced + 1,
                        0 <= reduced <= fine,
                ;
            }
        }
    }
}

/// With no pull and no gravity, one step leaves no part of the velocity
/// farther from zero than it was, keeps the velocity within range, and leaves
/// the body's pulls and friction as they were. The speed falls by the
/// constant friction at least, or to nothing, and so does the turning. Where
/// the friction stops, a velocity that is not at rest comes nearer to rest.
pub proof fn lemma_friction_only_step(body: Body)
    requires
        no_pulls(body),
        friction_slows(body),
        body.vel.in_range(),
    ensures
        ({
            let after = body.spec_step(VecXy::spec_zero());
            &&& magnitude(after.vel.xy.x as int) <= magnitude(body.vel.xy.x as int)
            &&& magnitude(after.vel.xy.y as int) <= magnitude(body.vel.xy.y as int)
            &&& magnitude(after.vel.angle as int) <= magnitude(body.vel.angle as int)
            &&& after.vel.xy.length_squared() <= body.vel.xy.length_squared()
            &&& after.vel.xy.spec_fine_length() <= VecXy::spec_reduced_fine_length(
                body.vel.xy.spec_fine_length(),
                body.statics.xy.constant_friction as int,
            )
            &&& magnitude(after.vel.angle as int) <= magnitude(
                crate::scalar::spec_toward_zero(
                    magnitude(body.vel.angle as int),
                    body.statics.angle.constant_friction as int,
                ),
            )
            &&& after.vel.in_range()
            &&& after.statics == body.statics
            &&& after.tuggers == body.tuggers
            &&& friction_stops(body) && unrest(body.vel) > 0 ==> unrest(after.vel) < unrest(
                body.vel,
            )
            &&& unrest(body.vel) == 0 ==> unrest(after.vel) == 0
        }),
{
    reveal_with_fuel(Body::spec_tugs_acc, 4);
    let after = body.spec_step(VecXy::spec_zero());
    assert(body.spec_tugs_acc(3) == FieldScalars::spec_zero());
    let vel = body.vel;
    let share_xy = body.statics.xy.linear_friction_scalar as int;
    let share_angle = body.statics.angle.linear_friction_scalar as int;
    let slowed = vel.xy.spec_scaled(share_xy);
    let slowed_angle = fix(spec_mul_fixed(vel.angle as int, share_angle));
    lemma_share_no_larger(vel.xy.x as int, share_xy);
    lemma_share_no_larger(vel.xy.y as int, share_xy);
    lemma_share_no_larger(vel.angle as int, share_angle);
    lemma_reduced_length(slowed, body.statics.xy.constant_friction as int);
    lemma_fine_length_monotonic(slowed, vel.xy);
    assert(after.vel.xy == slowed.spec_reduce_length(body.statics.xy.constant_friction as int));
    assert(after.vel.angle == fix(
        crate::scalar::spec_toward_zero(
            slowed_angle as int,
            body.statics.angle.constant_friction as int,
        ),
    ));
    lemma_fine_length_monotonic(after.vel.xy, vel.xy);
}

/// With no pull and no gravity, a body is at rest after as many steps as it
/// takes the constant friction to use up the speed and the turning: once the
/// steps times the friction of the place reach the speed, and the steps times
/// the friction of the heading reach the turning, the velocity is nothing,
/// and it stays nothing.
pub proof fn lemma_friction_only_comes_to_rest(body: Body, n: nat)
    requires
        no_pulls(body),
        friction_slows(body),
        body.vel.in_range(),
        n * (body.statics.xy.constant_friction * ONE) >= body.vel.xy.spec_fine_length(),
        n * body.statics.angle.constant_friction >= magnitude(body.vel.angle as int),
    ensures
        body.spec_steps(VecXy::spec_zero(), n).vel == FieldScalars::spec_zero(),
    decreases n,
{
    crate::vector::lemma_fine_length_bounds(body.vel.xy);
    let cx = body.statics.xy.constant_friction * ONE;
    let ca = body.statics.angle.constant_friction as int;
    if n == 0 {
        assert(0 * cx == 0 && 0 * ca == 0);
    } else {
        lemma_friction_only_step(body);
        let after = body.spec_step(VecXy::spec_zero());
        assert(no_pulls(after));
        crate::vector::lemma_fine_length_bounds(after.vel.xy);
        assert((n - 1) * cx == n * cx - cx && (n - 1) * ca == n * ca - ca) by (nonlinear_arith);
        lemma_friction_only_comes_to_rest(after, (n - 1) as nat);
    }
}

/// The speed of a vector, rounded down, says how many steps of a constant
/// friction use it up: more steps than the speed over the friction do. This
/// holds within the disc around the origin that reaches to the scalar limit,
/// where no length is held at the limit.
pub proof fn lemma_steps_for_speed(v: VecXy, friction: int, n: nat)
    requires
        v.length_squared() <= LIMIT * LIMIT,
        n * friction > v.spec_length(),
    ensures
        n * (friction * ONE) >= v.spec_fine_length(),
{
    let one = ONE as int;
    let len = v.length_squared();
    lemma_square_sign(v.x as int);
    lemma_square_sign(v.y as int);
    crate::scalar::lemma_sqrt_floor(len);
    let root = crate::scalar::sqrt_floor(len);
    assert(root <= LIMIT) by (nonlinear_arith)
        requires
            root >= 0,
            root * root <= len,
            len <= 1_000_000_000_000 * 1_000_000_000_000,
            LIMIT == 1_000_000_000_000,
    ;
    assert(0 <= len * (one * one)) by (nonlinear_arith)
        requires
            len >= 0,
            one > 0,
    ;
    crate::scalar::lemma_sqrt_floor(len * (one * one));
    let fine = v.spec_fine_length();
    // The fine length is less than a million times the next whole length.
    assert(len * (one * one) < ((root + 1) * one) * ((root + 1) * one)) by (nonlinear_arith)
        requires
            len < (root + 1) * (root + 1),
            one > 0,
    ;
    assert(fine < (root + 1) * one) by (nonlinear_arith)
        requires
            fine * fine <= len * (one * one),
            len * (one * one) < ((root + 1) * one) * ((root + 1) * one),
            fine >= 0,
            root >= 0,
            one > 0,
    ;
    let k = n * friction;
    assert(n * (friction * one) == k * one) by (nonlinear_arith)
        requires
            k == n * friction,
    ;
    assert(k * one >= (root + 1) * one) by (nonlinear_arith)
        requires
            k >= root + 1,
            one > 0,
    ;
}

/// A body's next state is settled by the body and the gravity alone: two
/// bodies that are equal, in one world or in two, under the same gravity, are
/// equal after a step, whatever other bodies are with them.
pub proof fn lemma_bodies_step_alone(a: MyGame, b: MyGame, i: int, j: int)
    requires
        0 <= i < a.bodies@.len(),
        0 <= j < b.bodies@.len(),
        a.bodies@[i] == b.bodies@[j],
        a.gravity == b.gravity,
    ensures
        a.spec_update()[i] == b.spec_update()[j],
        a.spec_update()[i] == a.bodies@[i].spec_step(a.gravity),
{
}

/// Whether two bodies move alike: they agree on all that moves a body, which
/// is everything but the extent that they are drawn with.
pub open spec fn same_motion(a: Body, b: Body) -> bool {
    &&& a.statics == b.statics
    &&& a.pos == b.pos
    &&& a.vel == b.vel
    &&& a.tuggers == b.tuggers
    &&& a.max_tug_handle_distance == b.max_tug_handle_distance
}

/// Two bodies that move alike get the same acceleration from the pulls in
/// their first `n` slots.
pub proof fn lemma_same_pulls(a: Body, b: Body, n: int)
    requires
        same_motion(a, b),
        n <= 3,
    ensures
        a.spec_tugs_acc(n) == b.spec_tugs_acc(n),
    decreases n,
{
    if n > 0 {
        lemma_same_pulls(a, b, n - 1);
        assert(a.tuggers[n - 1] == b.tuggers[n - 1]);
    }
}

/// Two bodies that move alike, whatever their extents, move alike after a
/// step under the same gravity, and each keeps its extent.
pub proof fn lemma_like_bodies_step_alike(a: Body, b: Body, gravity: VecXy)
    requires
        same_motion(a, b),
    ensures
        same_motion(a.spec_step(gravity), b.spec_step(gravity)),
        a.spec_step(gravity).scale == a.scale,
        b.spec_step(gravity).scale == b.scale,
{
    lemma_same_pulls(a, b, 3);
}

/// Two bodies that move alike, whatever their extents, under the same gravity
/// move alike step after step: they agree on place, heading and velocity
/// after any number of steps, and each keeps its extent.
pub proof fn lemma_equal_bodies_stay_equal(a: Body, b: Body, gravity: VecXy, n: nat)
    requires
        same_motion(a, b),
    ensures
        same_motion(a.spec_steps(gravity, n), b.spec_steps(gravity, n)),
        a.spec_steps(gravity, n).pos == b.spec_steps(gravity, n).pos,
        a.spec_steps(gravity, n).vel == b.spec_steps(gravity, n).vel,
        a.spec_steps(gravity, n).scale == a.scale,
        b.spec_steps(gravity, n).scale == b.scale,
    decreases n,
{
    if n > 0 {
        lemma_like_bodies_step_alike(a, b, gravity);
        lemma_equal_bodies_stay_equal(
            a.spec_step(gravity),
            b.spec_step(gravity),
            gravity,
            (n - 1) as nat,
        );
    }
}

} // verus!
