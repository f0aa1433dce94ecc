//! Plane vectors in Cartesian and in length-angle form.

use vstd::prelude::*;
use crate::scalar::{
    clamp, div_wide, fix, in_range, isqrt, magnitude, mul_fixed, sat_add, sat_sub, saturate,
    spec_mul_fixed, sqrt_floor, trunc_div, LIMIT, ONE,
};
use crate::trig::{atan2, cos_sin, spec_atan2, spec_cos_sin};

verus! {

/// A vector of the plane by its two coordinates.
#[derive(Clone, Copy, Debug, PartialEq, Eq, Structural)]
pub struct VecXy {
    pub x: i64,
    pub y: i64,
}

/// A vector of the plane by its length, which is never negative, and the
/// angle that it makes with the first axis.
#[derive(Clone, Copy, Debug, PartialEq, Eq, Structural)]
pub struct VecLa {
    pub length: i64,
    pub angle: i64,
}

impl VecXy {
    /// Whether both coordinates lie within the scalar range.
    pub open spec fn in_range(self) -> bool {
        in_range(self.x as int) && in_range(self.y as int)
    }

    /// The zero vector.
    pub open spec fn spec_zero() -> VecXy {
        VecXy { x: 0, y: 0 }
    }

    /// The sum of the squares of the coordinates.
    pub open spec fn length_squared(self) -> int {
        self.x * self.x + self.y * self.y
    }

    /// The inner product with `other`.
    pub open spec fn spec_dot(self, other: VecXy) -> int {
        self.x * other.x + self.y * other.y
    }

    /// The outer product with `other`: positive where `other` lies
    /// counter-clockwise of this vector.
    pub open spec fn spec_perp_dot(self, other: VecXy) -> int {
        self.x * other.y - self.y * other.x
    }

    /// The length, rounded down and held at the scalar limit.
    pub open spec fn spec_length(self) -> int {
        clamp(sqrt_floor(self.length_squared()))
    }

    /// The coordinate-wise sum with `other`.
    pub open spec fn spec_plus(self, other: VecXy) -> VecXy {
        VecXy { x: fix(self.x + other.x), y: fix(self.y + other.y) }
    }

    /// The coordinate-wise difference from `other`.
    pub open spec fn spec_minus(self, other: VecXy) -> VecXy {
        VecXy { x: fix(self.x - other.x), y: fix(self.y - other.y) }
    }

    /// The vector stretched by the fixed-point factor `k`.
    pub open spec fn spec_scaled(self, k: int) -> VecXy {
        VecXy { x: fix(spec_mul_fixed(self.x as int, k)), y: fix(spec_mul_fixed(self.y as int, k)) }
    }

    /// The vector turned counter-clockwise by `angle`.
    pub open spec fn spec_rotated(self, angle: int) -> VecXy {
        let (c, s) = spec_cos_sin(angle);
        VecXy {
            x: fix(trunc_div(self.x * c - self.y * s, ONE as int)),
            y: fix(trunc_div(self.x * s + self.y * c, ONE as int)),
        }
    }

    /// The part of the vector along a non-zero `other`.
    pub open spec fn spec_parallel(self, other: VecXy) -> VecXy {
        let d = self.spec_dot(other);
        let n = other.length_squared();
        VecXy { x: fix(trunc_div(other.x * d, n)), y: fix(trunc_div(other.y * d, n)) }
    }

    /// The vector with each coordinate held within the scalar range.
    pub open spec fn spec_clamped(self) -> VecXy {
        VecXy { x: fix(self.x as int), y: fix(self.y as int) }
    }

    /// The length at a million times the scale of the coordinates, rounded
    /// down: the length to twelve places instead of six.
    pub open spec fn spec_fine_length(self) -> int {
        sqrt_floor(self.length_squared() * (ONE * ONE))
    }

    /// The vector in its own direction with the length `length`: each
    /// coordinate times `length` over the vector's fine length, rounded
    /// toward zero. The zero vector stays what it is, and a vector beyond the
    /// scalar range is held within it first.
    pub open spec fn spec_with_length(self, length: int) -> VecXy {
        let v = self.spec_clamped();
        if v.x == 0 && v.y == 0 {
            v
        } else {
            VecXy {
                x: fix(trunc_div(v.x * length * ONE, v.spec_fine_length())),
                y: fix(trunc_div(v.y * length * ONE, v.spec_fine_length())),
            }
        }
    }

    /// The fine length `fine` moved toward zero by `by`, down to zero.
    pub open spec fn spec_reduced_fine_length(fine: int, by: int) -> int {
        if fine - by * ONE < 0 {
            0
        } else {
            fine - by * ONE
        }
    }

    /// The vector with its length moved toward zero by `by`: each coordinate
    /// times the reduced fine length over the fine length, rounded toward
    /// zero. The zero vector stays what it is, and a vector beyond the scalar
    /// range is held within it first.
    pub open spec fn spec_reduce_length(self, by: int) -> VecXy {
        let v = self.spec_clamped();
        if v.x == 0 && v.y == 0 {
            v
        } else {
            let fine = v.spec_fine_length();
            let reduced = Self::spec_reduced_fine_length(fine, by);
            VecXy { x: fix(trunc_div(v.x * reduced, fine)), y: fix(trunc_div(v.y * reduced, fine)) }
        }
    }

    /// The vector with the coordinates `x` and `y`.
    pub fn new(x: i64, y: i64) -> (r: Self)
        ensures
            r == (VecXy { x, y }),
    {
        VecXy { x, y }
    }

    /// The zero vector.
    pub fn zero() -> (r: Self)
        ensures
            r == Self::spec_zero(),
    {
        VecXy { x: 0, y: 0 }
    }

    /// The vector with each coordinate held within the scalar range.
    pub fn clamped(x: i64, y: i64) -> (r: Self)
        ensures
            r == (VecXy { x: fix(x as int), y: fix(y as int) }),
            r.in_range(),
    {
        VecXy { x: saturate(x as i128), y: saturate(y as i128) }
    }

    /// Adds `other` coordinate by coordinate.
    pub fn plus(self, other: Self) -> (r: Self)
        ensures
            r == self.spec_plus(other),
            r.in_range(),
    {
        VecXy { x: sat_add(self.x, other.x), y: sat_add(self.y, other.y) }
    }

    /// Subtracts `other` coordinate by coordinate.
    pub fn minus(self, other: Self) -> (r: Self)
        ensures
            r == self.spec_minus(other),
            r.in_range(),
    {
        VecXy { x: sat_sub(self.x, other.x), y: sat_sub(self.y, other.y) }
    }

    /// Stretches the vector by the fixed-point factor `k`.
    pub fn scaled(self, k: i64) -> (r: Self)
        ensures
            r == self.spec_scaled(k as int),
            r.in_range(),
    {
        VecXy { x: mul_fixed(self.x, k), y: mul_fixed(self.y, k) }
    }

    /// The inner product with `other`.
    pub fn dot(self, other: Self) -> (r: i128)
        requires
            self.in_range(),
            other.in_range(),
        ensures
            r == self.spec_dot(other),
            -2 * LIMIT * LIMIT <= r <= 2 * LIMIT * LIMIT,
    {
        proof {
            lemma_product_in_range(self.x as int, other.x as int);
            lemma_product_in_range(self.y as int, other.y as int);
        }
        (self.x as i128) * (other.x as i128) + (self.y as i128) * (other.y as i128)
    }

    /// The outer product with `other`.
    pub fn perp_dot(self, other: Self) -> (r: i128)
        requires
            self.in_range(),
            other.in_range(),
        ensures
            r == self.spec_perp_dot(other),
            -2 * LIMIT * LIMIT <= r <= 2 * LIMIT * LIMIT,
    {
        proof {
            lemma_product_in_range(self.x as int, other.y as int);
            lemma_product_in_range(self.y as int, other.x as int);
        }
        (self.x as i128) * (other.y as i128) - (self.y as i128) * (other.x as i128)
    }

    /// The length, rounded down and held within the scalar range.
    pub fn length(self) -> (r: i64)
        ensures
            r == self.spec_length(),
            0 <= r <= LIMIT,
            r == 0 <==> self == Self::spec_zero(),
    {
        proof {
            crate::scalar::lemma_product_bounds(self.x as int, self.x as int);
            crate::scalar::lemma_product_bounds(self.y as int, self.y as int);
            lemma_square_sign(self.x as int);
            lemma_square_sign(self.y as int);
        }
        let xx: i128 = (self.x as i128) * (self.x as i128);
        let yy: i128 = (self.y as i128) * (self.y as i128);
        let n: u128 = (xx as u128) + (yy as u128);
        let root: u64 = isqrt(n);
        proof {
            let r = root as int;
            assert(r == 0 <==> n == 0) by (nonlinear_arith)
                requires
                    r >= 0,
                    r * r <= n < (r + 1) * (r + 1),
            ;
        }
        if root > 1_000_000_000_000 {
            LIMIT
        } else {
            root as i64
        }
    }

    /// Turns the vector counter-clockwise by `angle`.
    pub fn rotated(self, angle: i64) -> (r: Self)
        ensures
            r == self.spec_rotated(angle as int),
            r.in_range(),
    {
        let (c, s) = cos_sin(angle);
        proof {
            lemma_product_with_unit(self.x as int, c as int);
            lemma_product_with_unit(self.x as int, s as int);
            lemma_product_with_unit(self.y as int, c as int);
            lemma_product_with_unit(self.y as int, s as int);
        }
        let x: i128 = self.x as i128;
        let y: i128 = self.y as i128;
        VecXy {
            x: div_wide(x * (c as i128) - y * (s as i128), ONE as i128),
            y: div_wide(x * (s as i128) + y * (c as i128), ONE as i128),
        }
    }

    /// Splits the vector into its part along `other` and the rest, which is
    /// perpendicular to `other` up to rounding.
    pub fn split_parr_perp(self, other: Self) -> (r: (Self, Self))
        requires
            self.in_range(),
            other.in_range(),
            other != Self::spec_zero(),
        ensures
            r.0 == self.spec_parallel(other),
            r.1 == self.spec_minus(r.0),
            r.0.in_range(),
            r.1.in_range(),
    {
        let d: i128 = self.dot(other);
        let n: i128 = other.dot(other);
        proof {
            lemma_square_sign(other.x as int);
            lemma_square_sign(other.y as int);
            lemma_triple_product(other.x as int, d as int);
            lemma_triple_product(other.y as int, d as int);
        }
        let parr = VecXy {
            x: div_wide((other.x as i128) * d, n),
            y: div_wide((other.y as i128) * d, n),
        };
        (parr, self.minus(parr))
    }

    /// The length at a million times the scale of the coordinates.
    pub fn fine_length(self) -> (r: i64)
        requires
            self.in_range(),
        ensures
            r == self.spec_fine_length(),
            r == 0 <==> self == Self::spec_zero(),
            self != Self::spec_zero() ==> ONE <= r,
            r <= 1_414_213_562_374_000_000,
    {
        proof {
            lemma_fine_length_bounds(self);
            lemma_product_in_range(self.x as int, self.x as int);
            lemma_product_in_range(self.y as int, self.y as int);
            lemma_square_sign(self.x as int);
            lemma_square_sign(self.y as int);
        }
        let xx: i128 = (self.x as i128) * (self.x as i128);
        let yy: i128 = (self.y as i128) * (self.y as i128);
        let n: u128 = (xx as u128) + (yy as u128);
        let root: u64 = isqrt(n * 1_000_000_000_000);
        root as i64
    }

    /// Gives the vector the length `length` in its own direction. The zero
    /// vector has no direction and stays zero; a negative `length` turns the
    /// vector round. For a vector and a length within the scalar range the
    /// result is as long as asked, up to two millionths below and a millionth
    /// of the length above, and lies along the vector up to the rounding of
    /// its coordinates.
    pub fn with_length(self, length: i64) -> (r: Self)
        ensures
            r == self.spec_with_length(length as int),
            r.in_range(),
            self == Self::spec_zero() ==> r == Self::spec_zero(),
            length == 0 ==> r == Self::spec_zero(),
            self.in_range() && self != Self::spec_zero() && in_range(length as int) ==> {
                &&& magnitude(length as int) - 2 <= r.spec_length()
                &&& r.spec_length() * ONE <= magnitude(length as int) * (ONE + 1)
                &&& magnitude(self.spec_perp_dot(r)) <= magnitude(self.x as int) + magnitude(
                    self.y as int,
                )
                &&& length >= 0 ==> r.x * self.x >= 0 && r.y * self.y >= 0
                &&& length <= 0 ==> r.x * self.x <= 0 && r.y * self.y <= 0
            },
    {
        let v = VecXy::clamped(self.x, self.y);
        if v.x == 0 && v.y == 0 {
            v
        } else {
            let fine: i128 = v.fine_length() as i128;
            proof {
                lemma_scaled_product_fits(v.x as int, length as int);
                lemma_scaled_product_fits(v.y as int, length as int);
                if self.in_range() && in_range(length as int) {
                    lemma_with_length_close(self, length as int);
                }
                if length == 0 {
                    assert(v.x * 0 * ONE == 0 && v.y * 0 * ONE == 0) by (nonlinear_arith);
                }
            }
            VecXy {
                x: div_wide((v.x as i128) * (length as i128) * (ONE as i128), fine),
                y: div_wide((v.y as i128) * (length as i128) * (ONE as i128), fine),
            }
        }
    }

    /// Moves the length toward zero by `by` and keeps the direction. A step
    /// of nothing leaves a vector within the scalar range as it is.
    pub fn reduce_length_saturating(self, by: i64) -> (r: Self)
        ensures
            r == self.spec_reduce_length(by as int),
            r.in_range(),
            self == Self::spec_zero() ==> r == Self::spec_zero(),
            by == 0 && self.in_range() ==> r == self,
    {
        let v = VecXy::clamped(self.x, self.y);
        if v.x == 0 && v.y == 0 {
            v
        } else {
            let fine: i128 = v.fine_length() as i128;
            let lower: i128 = fine - (by as i128) * (ONE as i128);
            let reduced: i128 = if lower < 0 {
                0
            } else {
                lower
            };
            proof {
                lemma_reduced_product_fits(v.x as int, reduced as int);
                lemma_reduced_product_fits(v.y as int, reduced as int);
                if by == 0 {
                    crate::scalar::lemma_trunc_div_multiple(v.x as int, fine as int);
                    crate::scalar::lemma_trunc_div_multiple(v.y as int, fine as int);
                }
            }
            VecXy {
                x: div_wide((v.x as i128) * reduced, fine),
                y: div_wide((v.y as i128) * reduced, fine),
            }
        }
    }
}

impl VecLa {
    /// The same vector by its coordinates.
    pub open spec fn spec_to_xy(self) -> VecXy {
        (VecXy { x: self.length, y: 0 }).spec_rotated(self.angle as int)
    }

    /// The length-angle form of `xy`; the zero vector gets the angle zero.
    pub open spec fn spec_from_xy(xy: VecXy) -> VecLa {
        VecLa { length: fix(xy.spec_length()), angle: fix(spec_atan2(xy.y as int, xy.x as int)) }
    }

    /// Converts to coordinates.
    pub fn to_xy(self) -> (r: VecXy)
        ensures
            r == self.spec_to_xy(),
            r.in_range(),
    {
        VecXy::new(self.length, 0).rotated(self.angle)
    }

    /// Converts from coordinates.
    pub fn from_xy(xy: VecXy) -> (r: Self)
        ensures
            r == Self::spec_from_xy(xy),
            0 <= r.length <= LIMIT,
    {
        VecLa { length: xy.length(), angle: atan2(xy.y, xy.x) }
    }
}

/// Holding a value within the scalar range and rounding a quotient toward
/// zero leave it no farther from zero than the exact quotient: the result
/// times the divisor does not exceed the dividend in magnitude.
pub proof fn lemma_fix_trunc_div(n: int, d: int)
    requires
        d > 0,
    ensures
        magnitude(fix(trunc_div(n, d)) as int) * d <= magnitude(n),
        n >= 0 ==> fix(trunc_div(n, d)) >= 0,
        n <= 0 ==> fix(trunc_div(n, d)) <= 0,
{
    crate::scalar::lemma_trunc_div_bounds(n, d);
    let m = magnitude(n);
    let q = m / d;
    let r = magnitude(fix(trunc_div(n, d)) as int);
    assert(r <= q);
    assert(r * d <= m) by (nonlinear_arith)
        requires
            0 <= r <= q,
            q == m / d,
            d > 0,
            m >= 0,
    ;
}

/// Of two magnitudes in order, the squares are in the same order.
pub proof fn lemma_square_order(a: int, b: int, d: int)
    requires
        d > 0,
        magnitude(a) * d <= magnitude(b),
    ensures
        a * a * (d * d) <= b * b,
{
    let p = magnitude(a);
    let q = magnitude(b);
    assert(p * p == a * a && q * q == b * b) by (nonlinear_arith)
        requires
            p == a || p == -a,
            q == b || q == -b,
    ;
    assert(p * p * (d * d) <= q * q) by (nonlinear_arith)
        requires
            0 <= p,
            0 < d,
            p * d <= q,
    ;
}

/// The square of a product is the product of the squares.
pub proof fn lemma_square_of_product(a: int, b: int)
    ensures
        (a * b) * (a * b) == (a * a) * (b * b),
{
    assert((a * b) * (a * b) == (a * a) * (b * b)) by (nonlinear_arith);
}

/// A rotation matrix with the entries `c` and `s` multiplies the squared
/// length of `(x, y)` by `c * c + s * s`.
pub proof fn lemma_rotation_identity(x: int, y: int, c: int, s: int)
    ensures
        (x * c - y * s) * (x * c - y * s) + (x * s + y * c) * (x * s + y * c) == (x * x + y * y)
            * (c * c + s * s),
{
    let xc = x * c;
    let ys = y * s;
    let xs = x * s;
    let yc = y * c;
    assert((xc - ys) * (xc - ys) + (xs + yc) * (xs + yc) == xc * xc + ys * ys + xs * xs + yc * yc
        + 2 * (xs * yc) - 2 * (xc * ys)) by (nonlinear_arith);
    assert(xs * yc == xc * ys) by {
        vstd::arithmetic::mul::lemma_mul_is_associative(x, s, yc);
        vstd::arithmetic::mul::lemma_mul_is_associative(s, y, c);
        vstd::arithmetic::mul::lemma_mul_is_commutative(s, y);
        vstd::arithmetic::mul::lemma_mul_is_associative(y, s, c);
        vstd::arithmetic::mul::lemma_mul_is_commutative(s, c);
        vstd::arithmetic::mul::lemma_mul_is_associative(y, c, s);
        vstd::arithmetic::mul::lemma_mul_is_commutative(yc, s);
        vstd::arithmetic::mul::lemma_mul_is_associative(x, c, ys);
        vstd::arithmetic::mul::lemma_mul_is_associative(c, y, s);
        vstd::arithmetic::mul::lemma_mul_is_commutative(c, y);
        vstd::arithmetic::mul::lemma_mul_is_associative(y, c, s);
    }
    lemma_square_of_product(x, c);
    lemma_square_of_product(y, s);
    lemma_square_of_product(x, s);
    lemma_square_of_product(y, c);
    let xx = x * x;
    let yy = y * y;
    let cc = c * c;
    let ss = s * s;
    assert((xx + yy) * (cc + ss) == xx * cc + yy * ss + xx * ss + yy * cc) by (nonlinear_arith);
}

/// Two coordinates that are, times a million, no farther from zero than what
/// a rotation matrix within the unit circle makes of `(x, y)` form a vector
/// no longer than `(x, y)`.
pub proof fn lemma_turn_squares(x: int, y: int, c: int, s: int, p: int, q: int)
    requires
        c * c + s * s <= ONE * ONE,
        magnitude(p) * ONE <= magnitude(x * c - y * s),
        magnitude(q) * ONE <= magnitude(x * s + y * c),
    ensures
        0 <= p * p + q * q <= x * x + y * y,
{
    let one = ONE as int;
    lemma_square_order(p, x * c - y * s, one);
    lemma_square_order(q, x * s + y * c, one);
    let n = x * x + y * y;
    let u = c * c + s * s;
    lemma_square_sign(x);
    lemma_square_sign(y);
    lemma_square_sign(p);
    lemma_square_sign(q);
    lemma_rotation_identity(x, y, c, s);
    assert(n * u <= n * (one * one)) by (nonlinear_arith)
        requires
            n >= 0,
            u <= one * one,
    ;
    let m = p * p + q * q;
    assert(m <= n) by (nonlinear_arith)
        requires
            p * p * (one * one) + q * q * (one * one) <= n * (one * one),
            m == p * p + q * q,
            one > 0,
    ;
}

/// Turning a vector never makes it longer: the cosine and sine lie within the
/// unit circle, and each coordinate is rounded toward zero.
pub proof fn lemma_rotated_never_longer(v: VecXy, angle: int)
    ensures
        v.spec_rotated(angle).length_squared() <= v.length_squared(),
        v.spec_rotated(angle).spec_length() <= v.spec_length(),
        v.spec_rotated(angle).in_range(),
{
    let (c, s) = spec_cos_sin(angle);
    crate::trig::lemma_cos_sin_in_circle(angle);
    let (x, y) = (v.x as int, v.y as int);
    let r = v.spec_rotated(angle);
    lemma_fix_trunc_div(x * c - y * s, ONE as int);
    lemma_fix_trunc_div(x * s + y * c, ONE as int);
    lemma_turn_squares(x, y, c, s, r.x as int, r.y as int);
    crate::scalar::lemma_sqrt_floor_monotonic(r.length_squared(), v.length_squared());
}

/// The fine length of a vector within the scalar range: it is the rounded-down
/// root of what it is the root of, it is zero for the zero vector alone, and it
/// is no less than a million times the magnitude of either coordinate.
pub proof fn lemma_fine_length_bounds(v: VecXy)
    requires
        v.in_range(),
    ensures
        0 <= v.length_squared() <= 2 * LIMIT * LIMIT,
        crate::scalar::is_sqrt_floor(v.length_squared() * (ONE * ONE), v.spec_fine_length()),
        v.spec_fine_length() == 0 <==> v == VecXy::spec_zero(),
        v != VecXy::spec_zero() ==> ONE <= v.spec_fine_length(),
        v.spec_fine_length() <= 1_414_213_562_374_000_000,
        ONE * magnitude(v.x as int) <= v.spec_fine_length(),
        ONE * magnitude(v.y as int) <= v.spec_fine_length(),
{
    let (x, y) = (v.x as int, v.y as int);
    let one = ONE as int;
    lemma_square_sign(x);
    lemma_square_sign(y);
    lemma_product_in_range(x, x);
    lemma_product_in_range(y, y);
    let n = v.length_squared();
    let big = n * (one * one);
    assert(0 <= big <= 2_000_000_000_000_000_000_000_000_000_000_000_000) by (nonlinear_arith)
        requires
            big == n * (one * one),
            0 <= n <= 2_000_000_000_000_000_000_000_000,
            one == 1_000_000,
    ;
    crate::scalar::lemma_sqrt_floor(big);
    let f = v.spec_fine_length();
    assert(f <= 1_414_213_562_374_000_000) by (nonlinear_arith)
        requires
            f >= 0,
            f * f <= 2_000_000_000_000_000_000_000_000_000_000_000_000,
    ;
    lemma_fine_length_over_coordinate(x, n, f);
    lemma_fine_length_over_coordinate(y, n, f);
    if v != VecXy::spec_zero() {
        assert(magnitude(x) >= 1 || magnitude(y) >= 1);
    } else {
        assert(n == 0);
        assert(0 * (one * one) == 0);
        assert(big == 0);
        assert(f == 0) by (nonlinear_arith)
            requires
                f >= 0,
                f * f <= 0,
        ;
    }
}

/// A million times the magnitude of a coordinate is no more than the fine
/// length of the vector.
pub proof fn lemma_fine_length_over_coordinate(x: int, n: int, f: int)
    requires
        x * x <= n,
        crate::scalar::is_sqrt_floor(n * (ONE * ONE), f),
    ensures
        ONE * magnitude(x) <= f,
{
    let one = ONE as int;
    let m = magnitude(x);
    assert(m * m == x * x) by (nonlinear_arith)
        requires
            m == x || m == -x,
    ;
    assert((one * m) * (one * m) <= n * (one * one)) by (nonlinear_arith)
        requires
            m * m <= n,
            one > 0,
    ;
    assert(one * m <= f) by (nonlinear_arith)
        requires
            (one * m) * (one * m) <= n * (one * one),
            n * (one * one) < (f + 1) * (f + 1),
            f >= 0,
            one * m >= 0,
    ;
}

/// A coordinate within the scalar range times any length times a million
/// fits the wide integers.
pub proof fn lemma_scaled_product_fits(x: int, length: int)
    requires
        in_range(x),
        i64::MIN <= length <= i64::MAX,
    ensures
        -0x8000_0000_0000_0000 * 1_000_000_000_000 <= x * length <= 0x8000_0000_0000_0000
            * 1_000_000_000_000,
        -0x8000_0000_0000_0000 * 1_000_000_000_000 * 1_000_000 <= x * length * ONE
            <= 0x8000_0000_0000_0000 * 1_000_000_000_000 * 1_000_000,
{
    let p = x * length;
    assert(-0x8000_0000_0000_0000 * 1_000_000_000_000 <= p <= 0x8000_0000_0000_0000
        * 1_000_000_000_000) by (nonlinear_arith)
        requires
            p == x * length,
            -1_000_000_000_000 <= x <= 1_000_000_000_000,
            -0x8000_0000_0000_0000 <= length <= 0x7fff_ffff_ffff_ffff,
    ;
}

/// A coordinate within the scalar range times a reduced fine length fits
/// the wide integers.
pub proof fn lemma_reduced_product_fits(x: int, reduced: int)
    requires
        in_range(x),
        0 <= reduced <= 1_414_213_562_374_000_000 + 0x8000_0000_0000_0000 * 1_000_000,
    ensures
        -1_000_000_000_000 * (1_414_213_562_374_000_000 + 0x8000_0000_0000_0000 * 1_000_000) <= x
            * reduced <= 1_000_000_000_000 * (1_414_213_562_374_000_000 + 0x8000_0000_0000_0000
            * 1_000_000),
{
    assert(-1_000_000_000_000 * (1_414_213_562_374_000_000 + 0x8000_0000_0000_0000 * 1_000_000)
        <= x * reduced <= 1_000_000_000_000 * (1_414_213_562_374_000_000 + 0x8000_0000_0000_0000
        * 1_000_000)) by (nonlinear_arith)
        requires
            -1_000_000_000_000 <= x <= 1_000_000_000_000,
            0 <= reduced <= 1_414_213_562_374_000_000 + 0x8000_0000_0000_0000 * 1_000_000,
    ;
}

/// One coordinate of a vector that is given a length: what the rounded
/// quotient of `x * length * ONE` by the fine length `f` keeps and loses.
pub proof fn lemma_rescaled_coordinate(x: int, length: int, f: int)
    requires
        f > 0,
        ONE * magnitude(x) <= f,
    ensures
        ({
            let p = trunc_div(x * length * ONE, f);
            let bound = magnitude(x) * (magnitude(length) * ONE);
            &&& magnitude(p) * f <= bound
            &&& bound < (magnitude(p) + 1) * f
            &&& magnitude(p) <= magnitude(length)
            &&& -f < x * length * ONE - p * f < f
            &&& length >= 0 ==> p * x >= 0
            &&& length <= 0 ==> p * x <= 0
        }),
{
    let one = ONE as int;
    let t = x * length * one;
    let p = trunc_div(t, f);
    let a = magnitude(length);
    let m = magnitude(x);
    let bound = m * (a * one);
    crate::scalar::lemma_trunc_div_bounds(t, f);
    crate::scalar::lemma_trunc_div_error(t, f);
    assert(magnitude(t) == bound && (length >= 0 && x >= 0 || length <= 0 && x <= 0 ==> t >= 0) && (
    length >= 0 && x <= 0 || length <= 0 && x >= 0 ==> t <= 0)) by (nonlinear_arith)
        requires
            t == x * length * one,
            one == 1_000_000,
            a == magnitude(length),
            m == magnitude(x),
            bound == m * (a * one),
    ;
    let q = magnitude(p);
    assert(q * f <= bound < (q + 1) * f) by (nonlinear_arith)
        requires
            q == bound / f,
            f > 0,
            bound >= 0,
    ;
    assert(q <= a) by (nonlinear_arith)
        requires
            q * f <= m * (a * one),
            one * m <= f,
            f > 0,
            q >= 0,
            a >= 0,
            m >= 0,
    ;
    assert(length >= 0 ==> p * x >= 0) by (nonlinear_arith)
        requires
            t >= 0 ==> p >= 0,
            t <= 0 ==> p <= 0,
            length >= 0 && x >= 0 ==> t >= 0,
            length >= 0 && x <= 0 ==> t <= 0,
    ;
    assert(length <= 0 ==> p * x <= 0) by (nonlinear_arith)
        requires
            t >= 0 ==> p >= 0,
            t <= 0 ==> p <= 0,
            length <= 0 && x <= 0 ==> t >= 0,
            length <= 0 && x >= 0 ==> t <= 0,
    ;
}

/// The sum of two magnitudes, squared, is at most twice the sum of their
/// squares.
pub proof fn lemma_sum_squared(p: int, q: int)
    ensures
        (p + q) * (p + q) <= 2 * (p * p + q * q),
{
    lemma_square_sign(p - q);
    assert((p + q) * (p + q) <= 2 * (p * p + q * q)) by (nonlinear_arith)
        requires
            (p - q) * (p - q) >= 0,
    ;
}

/// A vector that is given a length is as long as asked, up to rounding: no
/// more than two millionths shorter and no more than a millionth of the
/// length longer. It lies along the vector it was made from, up to the
/// rounding of its two coordinates, on the side that the length's sign names.
pub proof fn lemma_with_length_close(v: VecXy, length: int)
    requires
        v.in_range(),
        v != VecXy::spec_zero(),
        in_range(length),
    ensures
        ({
            let r = v.spec_with_length(length);
            &&& magnitude(length) - 2 <= r.spec_length()
            &&& r.spec_length() * ONE <= magnitude(length) * (ONE + 1)
            &&& magnitude(v.spec_perp_dot(r)) <= magnitude(v.x as int) + magnitude(v.y as int)
            &&& length >= 0 ==> r.x * v.x >= 0 && r.y * v.y >= 0
            &&& length <= 0 ==> r.x * v.x <= 0 && r.y * v.y <= 0
        }),
{
    let (x, y) = (v.x as int, v.y as int);
    let one = ONE as int;
    let a = magnitude(length);
    let f = v.spec_fine_length();
    let n = v.length_squared();
    lemma_fine_length_bounds(v);
    lemma_rescaled_coordinate(x, length, f);
    lemma_rescaled_coordinate(y, length, f);
    let p = trunc_div(x * length * one, f);
    let q = trunc_div(y * length * one, f);
    let r = v.spec_with_length(length);
    assert(r.x == p && r.y == q);
    let (mp, mq) = (magnitude(p), magnitude(q));
    let (mx, my) = (magnitude(x), magnitude(y));
    let k = a * one;
    let m = p * p + q * q;
    lemma_square_sign(p);
    lemma_square_sign(q);
    assert(mp * mp == p * p && mq * mq == q * q && mx * mx == x * x && my * my == y * y)
        by (nonlinear_arith)
        requires
            mp == p || mp == -p,
            mq == q || mq == -q,
            mx == x || mx == -x,
            my == y || my == -y,
    ;
    // The squared length times the squared fine length, from both sides.
    lemma_between_squares(mp, mx, k, f);
    lemma_between_squares(mq, my, k, f);
    let big = n * (one * one);
    let ff = f * f;
    let kk = k * k;
    let aa = a * a;
    lemma_square_of_product(a, one);
    lemma_square_of_product(mx, k);
    lemma_square_of_product(my, k);
    lemma_square_of_product(mp, f);
    lemma_square_of_product(mq, f);
    lemma_square_of_product(mp + 1, f);
    lemma_square_of_product(mq + 1, f);
    lemma_square_of_product(f, a);
    lemma_square_of_product(f + 1, a);
    lemma_square_sign(a);
    lemma_square_sign(f);
    let target = big * aa;
    assert((mx * mx) * kk + (my * my) * kk == target) by (nonlinear_arith)
        requires
            target == big * aa,
            big == n * (one * one),
            n == mx * mx + my * my,
            kk == aa * (one * one),
    ;
    assert(m * ff == (mp * mp) * ff + (mq * mq) * ff) by (nonlinear_arith)
        requires
            m == mp * mp + mq * mq,
    ;
    assert(m * ff <= target);
    crate::scalar::lemma_sqrt_floor(m);
    let s = sqrt_floor(m);
    // No more than a millionth of the length too long.
    assert(s * one <= a * (one + 1)) by {
        if s > a {
            assert(target <= ((f + 1) * (f + 1)) * aa) by (nonlinear_arith)
                requires
                    target == big * aa,
                    big < (f + 1) * (f + 1),
                    aa >= 0,
            ;
            lemma_square_of_product(s, f);
            assert((s * s) * ff <= m * ff) by (nonlinear_arith)
                requires
                    s * s <= m,
                    ff >= 0,
            ;
            let lo = s * f;
            let hi = (f + 1) * a;
            assert(lo <= hi) by (nonlinear_arith)
                requires
                    lo * lo <= hi * hi,
                    lo == s * f,
                    hi == (f + 1) * a,
                    s >= 0,
                    f >= 0,
                    a >= 0,
            ;
            assert((s - a) * one <= a) by (nonlinear_arith)
                requires
                    s * f <= (f + 1) * a,
                    s > a,
                    f >= one,
                    one > 0,
            ;
        }
    }
    // No more than two millionths too short.
    assert(a - 2 <= s) by {
        if s < a - 2 {
            assert(target >= ff * aa) by (nonlinear_arith)
                requires
                    target == big * aa,
                    ff <= big,
                    aa >= 0,
            ;
            let u1 = (mp + 1) * (mp + 1);
            let u2 = (mq + 1) * (mq + 1);
            let up = u1 + u2;
            assert(up * ff == u1 * ff + u2 * ff) by (nonlinear_arith)
                requires
                    up == u1 + u2,
            ;
            assert(up * ff > aa * ff) by (nonlinear_arith)
                requires
                    up * ff > ff * aa,
            ;
            assert(up > aa) by (nonlinear_arith)
                requires
                    up * ff > aa * ff,
                    ff > 0,
            ;
            let t = mp + mq;
            lemma_sum_squared(mp, mq);
            assert(m < (a - 2) * (a - 2)) by (nonlinear_arith)
                requires
                    m < (s + 1) * (s + 1),
                    0 <= s,
                    s + 1 <= a - 2,
            ;
            assert(t <= 2 * a - 4) by (nonlinear_arith)
                requires
                    t * t <= 2 * m,
                    m < (a - 2) * (a - 2),
                    t >= 0,
                    a >= 3,
            ;
            assert(up == m + 2 * t + 2) by (nonlinear_arith)
                requires
                    up == (mp + 1) * (mp + 1) + (mq + 1) * (mq + 1),
                    m == mp * mp + mq * mq,
                    t == mp + mq,
            ;
            assert(false) by (nonlinear_arith)
                requires
                    m + 2 * t + 2 > a * a,
                    m < (a - 2) * (a - 2),
                    t <= 2 * a - 4,
            ;
        }
    }
    // Along the vector: the remainders alone carry it aside.
    let w = length * one;
    let tx = x * length * one;
    let ty = y * length * one;
    let ex = tx - p * f;
    let ey = ty - q * f;
    let cross = x * q - y * p;
    let (pf, qf) = (p * f, q * f);
    assert(tx == x * w && ty == y * w) by (nonlinear_arith)
        requires
            tx == x * length * one,
            ty == y * length * one,
            w == length * one,
    ;
    assert(x * ty == y * tx) by (nonlinear_arith)
        requires
            tx == x * w,
            ty == y * w,
    ;
    assert(cross * f == x * qf - y * pf) by (nonlinear_arith)
        requires
            cross == x * q - y * p,
            pf == p * f,
            qf == q * f,
    ;
    assert(x * qf - y * pf == y * ex - x * ey) by (nonlinear_arith)
        requires
            qf == ty - ey,
            pf == tx - ex,
            x * ty == y * tx,
    ;
    let (yex, xey) = (y * ex, x * ey);
    assert(-(my * (f - 1)) <= yex <= my * (f - 1)) by (nonlinear_arith)
        requires
            yex == y * ex,
            -f < ex < f,
            my == magnitude(y),
    ;
    assert(-(mx * (f - 1)) <= xey <= mx * (f - 1)) by (nonlinear_arith)
        requires
            xey == x * ey,
            -f < ey < f,
            mx == magnitude(x),
    ;
    let mc = magnitude(cross);
    assert(mc * f == magnitude(cross * f)) by (nonlinear_arith)
        requires
            mc == magnitude(cross),
            f > 0,
    ;
    assert((mx + my) * (f - 1) == mx * (f - 1) + my * (f - 1)) by (nonlinear_arith);
    assert(mc <= mx + my) by (nonlinear_arith)
        requires
            mc * f <= (mx + my) * (f - 1),
            f > 0,
            mc >= 0,
            mx + my >= 0,
    ;
}

/// Of a quotient `p` of `x * k` by `f` that was rounded down, the squares:
/// `p * f` squared is at most `x * k` squared, which is less than
/// `(p + 1) * f` squared.
pub proof fn lemma_between_squares(p: int, x: int, k: int, f: int)
    requires
        0 <= p,
        0 <= x,
        0 <= k,
        0 < f,
        p * f <= x * k < (p + 1) * f,
    ensures
        (p * f) * (p * f) <= (x * k) * (x * k) < ((p + 1) * f) * ((p + 1) * f),
{
    let lo = p * f;
    let mid = x * k;
    let hi = (p + 1) * f;
    assert(0 <= lo) by (nonlinear_arith)
        requires
            lo == p * f,
            0 <= p,
            0 < f,
    ;
    assert(lo * lo <= mid * mid < hi * hi) by (nonlinear_arith)
        requires
            0 <= lo <= mid < hi,
    ;
}

/// A vector along the first axis is as long as its coordinate.
pub proof fn lemma_axis_length(length: int)
    requires
        0 <= length <= LIMIT,
    ensures
        (VecXy { x: length as i64, y: 0 }).spec_length() == length,
{
    assert(crate::scalar::is_sqrt_floor(length * length + 0 * 0, length)) by (nonlinear_arith)
        requires
            length >= 0,
    ;
    crate::scalar::lemma_sqrt_floor_unique(length * length + 0 * 0, length);
}

/// The coordinate form of a length-angle vector is no longer than its length.
pub proof fn lemma_to_xy_never_longer(la: VecLa)
    requires
        0 <= la.length <= LIMIT,
    ensures
        la.spec_to_xy().spec_length() <= la.length,
        la.spec_to_xy().in_range(),
{
    lemma_axis_length(la.length as int);
    lemma_rotated_never_longer(VecXy { x: la.length, y: 0 }, la.angle as int);
}

/// The bounds of a scalar times a cosine or sine.
pub proof fn lemma_product_with_unit(a: int, c: int)
    requires
        i64::MIN <= a <= i64::MAX,
        -ONE <= c <= ONE,
    ensures
        -0x8000_0000_0000_0000 * 1_000_000 <= a * c <= 0x8000_0000_0000_0000 * 1_000_000,
{
    assert(-0x8000_0000_0000_0000 * 1_000_000 <= a * c <= 0x8000_0000_0000_0000 * 1_000_000)
        by (nonlinear_arith)
        requires
            -0x8000_0000_0000_0000 <= a <= 0x7fff_ffff_ffff_ffff,
            -1_000_000 <= c <= 1_000_000,
    ;
}

/// The bounds of a scalar within range times an inner product.
pub proof fn lemma_triple_product(a: int, d: int)
    requires
        in_range(a),
        -2 * LIMIT * LIMIT <= d <= 2 * LIMIT * LIMIT,
    ensures
        -2 * LIMIT * LIMIT * LIMIT <= a * d <= 2 * LIMIT * LIMIT * LIMIT,
{
    assert(-2_000_000_000_000_000_000_000_000_000_000_000_000 <= a * d
        <= 2_000_000_000_000_000_000_000_000_000_000_000_000) by (nonlinear_arith)
        requires
            -1_000_000_000_000 <= a <= 1_000_000_000_000,
            -2_000_000_000_000_000_000_000_000 <= d <= 2_000_000_000_000_000_000_000_000,
    ;
}

/// The bounds of a product of two scalars within range.
pub proof fn lemma_product_in_range(a: int, b: int)
    requires
        in_range(a),
        in_range(b),
    ensures
        -LIMIT * LIMIT <= a * b <= LIMIT * LIMIT,
{
    assert(-1_000_000_000_000 * 1_000_000_000_000 <= a * b <= 1_000_000_000_000
        * 1_000_000_000_000) by (nonlinear_arith)
        requires
            -1_000_000_000_000 <= a <= 1_000_000_000_000,
            -1_000_000_000_000 <= b <= 1_000_000_000_000,
    ;
}

/// A square is never negative, and is zero for zero alone.
pub proof fn lemma_square_sign(a: int)
    ensures
        a * a >= 0,
        a * a == 0 <==> a == 0,
{
    assert(a * a >= 0 && (a * a == 0 <==> a == 0)) by (nonlinear_arith);
}

} // verus!
