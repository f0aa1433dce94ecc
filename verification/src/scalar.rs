//! Fixed-point scalars: an `i64` counts millionths of a unit.
//!
//! Every operation is total. A result that would leave the range from
//! `-LIMIT` to `LIMIT` is held at the nearest bound, and a quotient is rounded
//! toward zero.

use vstd::prelude::*;

verus! {

/// The fixed-point representation of the number one.
pub const ONE: i64 = 1_000_000;

/// The largest magnitude of a scalar: a million units.
pub const LIMIT: i64 = 1_000_000_000_000;

/// Whether `x` lies within the scalar range.
pub open spec fn in_range(x: int) -> bool {
    -LIMIT <= x <= LIMIT
}

/// `x` held within the scalar range.
pub open spec fn clamp(x: int) -> int {
    if x < -LIMIT {
        -LIMIT as int
    } else if x > LIMIT {
        LIMIT as int
    } else {
        x
    }
}

/// `x` held within the scalar range, as a scalar.
pub open spec fn fix(x: int) -> i64 {
    clamp(x) as i64
}

/// The distance of `x` from zero.
pub open spec fn magnitude(x: int) -> int {
    if x < 0 {
        -x
    } else {
        x
    }
}

/// The quotient of `n` by a positive `d`, rounded toward zero.
pub open spec fn trunc_div(n: int, d: int) -> int {
    if n >= 0 {
        n / d
    } else {
        -((-n) / d)
    }
}

/// `x` with its sign flipped where `cond` holds.
pub open spec fn spec_neg_if(x: int, cond: bool) -> int {
    if cond {
        clamp(-x)
    } else {
        x
    }
}

/// `x` moved toward zero by `by`, without crossing zero.
pub open spec fn spec_toward_zero(x: int, by: int) -> int {
    if x >= 0 {
        if x - by < 0 {
            0
        } else {
            clamp(x - by)
        }
    } else {
        if x + by > 0 {
            0
        } else {
            clamp(x + by)
        }
    }
}

/// The product of `a` and `b` divided by a positive `d`.
pub open spec fn spec_mul_div(a: int, b: int, d: int) -> int {
    clamp(trunc_div(a * b, d))
}

/// The fixed-point product of `a` and `b`.
pub open spec fn spec_mul_fixed(a: int, b: int) -> int {
    spec_mul_div(a, b, ONE as int)
}

/// Holds a wide value within the scalar range.
pub fn saturate(x: i128) -> (r: i64)
    ensures
        r == fix(x as int),
        r == clamp(x as int),
        in_range(r as int),
{
    if x < -(LIMIT as i128) {
        -LIMIT
    } else if x > LIMIT as i128 {
        LIMIT
    } else {
        x as i64
    }
}

/// The sum of `a` and `b`, held within range.
pub fn sat_add(a: i64, b: i64) -> (r: i64)
    ensures
        r == clamp(a + b),
{
    saturate(a as i128 + b as i128)
}

/// The difference of `a` and `b`, held within range.
pub fn sat_sub(a: i64, b: i64) -> (r: i64)
    ensures
        r == clamp(a - b),
{
    saturate(a as i128 - b as i128)
}

/// Negates `x` where `cond` holds.
pub fn neg_if(x: i64, cond: bool) -> (r: i64)
    ensures
        r == spec_neg_if(x as int, cond),
{
    if cond {
        saturate(-(x as i128))
    } else {
        x
    }
}

/// Moves `x` toward zero by `by` and stops at zero.
pub fn toward_zero_saturating(x: i64, by: i64) -> (r: i64)
    ensures
        r == spec_toward_zero(x as int, by as int),
        x >= 0 ==> r >= 0,
        x < 0 ==> r <= 0,
        x == 0 && by >= 0 ==> r == 0,
        by >= 0 ==> magnitude(r as int) <= magnitude(x as int),
{
    if x >= 0 {
        let d: i128 = x as i128 - by as i128;
        if d < 0 {
            0
        } else {
            saturate(d)
        }
    } else {
        let s: i128 = x as i128 + by as i128;
        if s > 0 {
            0
        } else {
            saturate(s)
        }
    }
}

/// The bounds of a product of two `i64` values.
pub proof fn lemma_product_bounds(a: int, b: int)
    requires
        i64::MIN <= a <= i64::MAX,
        i64::MIN <= b <= i64::MAX,
    ensures
        -0x4000_0000_0000_0000_0000_0000_0000_0000 <= a * b
            <= 0x4000_0000_0000_0000_0000_0000_0000_0000,
{
    assert(-0x4000_0000_0000_0000_0000_0000_0000_0000 <= a * b
        <= 0x4000_0000_0000_0000_0000_0000_0000_0000) by (nonlinear_arith)
        requires
            -0x8000_0000_0000_0000 <= a <= 0x7fff_ffff_ffff_ffff,
            -0x8000_0000_0000_0000 <= b <= 0x7fff_ffff_ffff_ffff,
    ;
}

/// Rounding toward zero never moves a quotient away from zero, nor past the
/// dividend.
pub proof fn lemma_trunc_div_bounds(n: int, d: int)
    requires
        d > 0,
    ensures
        n >= 0 ==> 0 <= trunc_div(n, d) <= n,
        n <= 0 ==> n <= trunc_div(n, d) <= 0,
        magnitude(trunc_div(n, d)) == magnitude(n) / d,
{
    let m = magnitude(n);
    assert(0 <= m / d <= m) by (nonlinear_arith)
        requires
            m >= 0,
            d > 0,
    ;
}

/// Rounding a quotient toward zero loses less than one divisor.
pub proof fn lemma_trunc_div_error(n: int, d: int)
    requires
        d > 0,
    ensures
        -d < n - trunc_div(n, d) * d < d,
{
    let m = magnitude(n);
    let q = m / d;
    assert(0 <= m - q * d < d) by (nonlinear_arith)
        requires
            q == m / d,
            d > 0,
            m >= 0,
    ;
    assert((-q) * d == -(q * d)) by (nonlinear_arith);
}

/// A multiple of the divisor divides without remainder.
pub proof fn lemma_trunc_div_multiple(a: int, d: int)
    requires
        d > 0,
    ensures
        trunc_div(a * d, d) == a,
{
    let m = magnitude(a);
    assert((m * d) / d == m) by (nonlinear_arith)
        requires
            d > 0,
            m >= 0,
    ;
    assert(a >= 0 ==> a * d >= 0 && a * d == m * d) by (nonlinear_arith)
        requires
            d > 0,
            m == magnitude(a),
    ;
    assert(a < 0 ==> a * d < 0 && -(a * d) == m * d) by (nonlinear_arith)
        requires
            d > 0,
            m == magnitude(a),
    ;
}

/// Divides a wide `n` by a positive `d`, rounding toward zero.
pub fn div_wide(n: i128, d: i128) -> (r: i64)
    requires
        d > 0,
    ensures
        r == fix(trunc_div(n as int, d as int)),
        in_range(r as int),
{
    let q: i128 = n / d;
    proof {
        lemma_trunc_div_bounds(n as int, d as int);
    }
    saturate(q)
}

/// Multiplies `a` by `b` and divides by `d`, rounding toward zero; the product
/// is formed without loss before the division.
pub fn mul_div(a: i64, b: i64, d: i64) -> (r: i64)
    requires
        d > 0,
    ensures
        r == spec_mul_div(a as int, b as int, d as int),
        in_range(r as int),
{
    proof {
        lemma_product_bounds(a as int, b as int);
    }
    let p: i128 = (a as i128) * (b as i128);
    let q: i128 = p / (d as i128);
    proof {
        lemma_trunc_div_bounds(p as int, d as int);
    }
    saturate(q)
}

/// The fixed-point product of `a` and `b`, rounded toward zero.
pub fn mul_fixed(a: i64, b: i64) -> (r: i64)
    ensures
        r == spec_mul_fixed(a as int, b as int),
        in_range(r as int),
{
    mul_div(a, b, ONE)
}

/// Whether `r` is the square root of `n`, rounded down.
pub open spec fn is_sqrt_floor(n: int, r: int) -> bool {
    r >= 0 && r * r <= n < (r + 1) * (r + 1)
}

/// The square root of a non-negative `n`, rounded down.
pub open spec fn sqrt_floor(n: int) -> int {
    choose|r: int| is_sqrt_floor(n, r)
}

/// Every non-negative number has a rounded-down square root.
pub proof fn lemma_sqrt_floor(n: int)
    requires
        n >= 0,
    ensures
        is_sqrt_floor(n, sqrt_floor(n)),
    decreases n,
{
    if n == 0 {
        assert(is_sqrt_floor(0, 0));
    } else {
        lemma_sqrt_floor(n - 1);
        let r = sqrt_floor(n - 1);
        if n < (r + 1) * (r + 1) {
            assert(is_sqrt_floor(n, r));
        } else {
            assert(is_sqrt_floor(n, r + 1)) by (nonlinear_arith)
                requires
                    r >= 0,
                    r * r <= n - 1 < (r + 1) * (r + 1),
                    n >= (r + 1) * (r + 1),
            ;
        }
    }
}

/// The rounded-down square root grows with its argument.
pub proof fn lemma_sqrt_floor_monotonic(a: int, b: int)
    requires
        0 <= a <= b,
    ensures
        0 <= sqrt_floor(a) <= sqrt_floor(b),
{
    lemma_sqrt_floor(a);
    lemma_sqrt_floor(b);
    let r = sqrt_floor(a);
    let s = sqrt_floor(b);
    assert(r <= s) by (nonlinear_arith)
        requires
            r >= 0,
            s >= 0,
            r * r <= a,
            a <= b,
            b < (s + 1) * (s + 1),
    ;
}

/// A number has at most one rounded-down square root.
pub proof fn lemma_sqrt_floor_unique(n: int, r: int)
    requires
        is_sqrt_floor(n, r),
    ensures
        sqrt_floor(n) == r,
{
    let s = sqrt_floor(n);
    assert(is_sqrt_floor(n, s));
    assert(s == r) by (nonlinear_arith)
        requires
            r >= 0,
            r * r <= n < (r + 1) * (r + 1),
            s >= 0,
            s * s <= n < (s + 1) * (s + 1),
    ;
}

/// The square root of `n`, rounded down.
pub fn isqrt(n: u128) -> (r: u64)
    ensures
        r == sqrt_floor(n as int),
        is_sqrt_floor(n as int, r as int),
{
    let mut lo: u128 = 0;
    let mut hi: u128 = 0x1_0000_0000_0000_0000;
    assert(hi * hi > n) by (nonlinear_arith)
        requires
            hi == 0x1_0000_0000_0000_0000,
            n <= 0xffff_ffff_ffff_ffff_ffff_ffff_ffff_ffff,
    ;
    while hi - lo > 1
        invariant
            lo < hi <= 0x1_0000_0000_0000_0000,
            lo * lo <= n < hi * hi,
        decreases hi - lo,
    {
        let mid: u128 = lo + (hi - lo) / 2;
        assert(mid * mid <= 0xffff_ffff_ffff_ffff_ffff_ffff_ffff_ffff) by (nonlinear_arith)
            requires
                0 <= mid < 0x1_0000_0000_0000_0000,
        ;
        if mid * mid <= n {
            lo = mid;
        } else {
            hi = mid;
        }
    }
    proof {
        lemma_sqrt_floor_unique(n as int, lo as int);
    }
    lo as u64
}

} // verus!
