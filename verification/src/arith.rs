//! Integer arithmetic shared by the color algorithms: floor division on
//! signed operands, rounding to nearest, clamping, and integer roots.

use vstd::arithmetic::div_mod::lemma_fundamental_div_mod;
use vstd::arithmetic::div_mod::lemma_fundamental_div_mod_converse;
use vstd::arithmetic::div_mod::lemma_mod_bound;
use vstd::prelude::*;

verus! {

/// `n / d` rounded to the nearest integer, halves rounded up: `floor(n / d + 1/2)`.
pub open spec fn half_up(n: int, d: int) -> int {
    (2 * n + d) / (2 * d)
}

/// `x` limited to the interval from `lo` to `hi`.
pub open spec fn clamp(x: int, lo: int, hi: int) -> int {
    if x < lo {
        lo
    } else if x > hi {
        hi
    } else {
        x
    }
}

/// The absolute value of `x`.
pub open spec fn abs(x: int) -> int {
    if x < 0 {
        -x
    } else {
        x
    }
}

/// Floor division is the unique `q` with `q * d <= n < (q + 1) * d`.
pub proof fn lemma_div_floor_bounds(n: int, d: int)
    requires
        d > 0,
    ensures
        (n / d) * d <= n < (n / d + 1) * d,
{
    lemma_fundamental_div_mod(n, d);
    lemma_mod_bound(n, d);
    assert((n / d + 1) * d == (n / d) * d + d) by (nonlinear_arith);
    assert(d * (n / d) == (n / d) * d) by (nonlinear_arith);
}

/// Any `q` with `q * d <= n < (q + 1) * d` is the floor quotient.
pub proof fn lemma_div_floor_unique(n: int, d: int, q: int)
    requires
        d > 0,
        q * d <= n < (q + 1) * d,
    ensures
        q == n / d,
{
    let r: int = n - q * d;
    assert((q + 1) * d == q * d + d) by (nonlinear_arith);
    lemma_fundamental_div_mod_converse(n, d, q, r);
}

/// Floor division is monotone in the numerator.
pub proof fn lemma_div_floor_monotone(a: int, b: int, d: int)
    requires
        d > 0,
        a <= b,
    ensures
        a / d <= b / d,
{
    lemma_div_floor_bounds(a, d);
    lemma_div_floor_bounds(b, d);
    let qa: int = a / d;
    let qb: int = b / d;
    if qa > qb {
        assert(qa * d >= (qb + 1) * d) by (nonlinear_arith)
            requires
                qa >= qb + 1,
                d > 0,
        ;
    }
}

/// Floor division of a signed numerator by a positive divisor.
pub fn div_floor(n: i128, d: i128) -> (q: i128)
    requires
        d > 0,
        n > i128::MIN + d,
    ensures
        q == n / d,
{
    if n >= 0 {
        n / d
    } else {
        let m: i128 = -n;
        let up: i128 = (m + (d - 1)) / d;
        proof {
            let u: int = (m + d - 1) / (d as int);
            lemma_div_floor_bounds(m + d - 1, d as int);
            assert((u + 1) * d == u * d + d) by (nonlinear_arith);
            assert((-u) * d == -(u * d)) by (nonlinear_arith);
            assert((-u + 1) * d == -(u * d) + d) by (nonlinear_arith);
            lemma_div_floor_unique(n as int, d as int, -u);
        }
        -up
    }
}

/// Division rounded to nearest, halves up, by a positive divisor.
pub fn div_half_up(n: i128, d: i128) -> (q: i128)
    requires
        0 < d <= 0x3fff_ffff_ffff_ffff_ffff_ffff_ffff_ffff,
        -0x1fff_ffff_ffff_ffff_ffff_ffff_ffff_ffff <= n <= 0x1fff_ffff_ffff_ffff_ffff_ffff_ffff_ffff,
    ensures
        q == half_up(n as int, d as int),
{
    div_floor(2 * n + d, 2 * d)
}

/// A product of two bounded factors is bounded by the product of the bounds.
pub proof fn lemma_mul_bound(x: int, y: int, bx: int, by: int)
    requires
        -bx <= x <= bx,
        -by <= y <= by,
    ensures
        -(bx * by) <= x * y <= bx * by,
{
    assert(-(bx * by) <= x * y <= bx * by) by (nonlinear_arith)
        requires
            -bx <= x <= bx,
            -by <= y <= by,
    ;
}

/// A product scaled down by a factor between zero and one lies between zero
/// and the product's first factor.
pub proof fn lemma_scaled_between(a: int, m: int, d: int)
    requires
        d > 0,
        0 <= m <= d,
    ensures
        a >= 0 ==> 0 <= (a * m) / d <= a,
        a <= 0 ==> a <= (a * m) / d <= 0,
{
    lemma_div_floor_bounds(a * m, d);
    let q: int = (a * m) / d;
    if a >= 0 {
        assert(0 <= a * m <= a * d) by (nonlinear_arith)
            requires
                a >= 0,
                0 <= m <= d,
        ;
        assert(q >= 0) by (nonlinear_arith)
            requires
                (q + 1) * d > a * m,
                a * m >= 0,
                d > 0,
        ;
        assert(q <= a) by (nonlinear_arith)
            requires
                q * d <= a * m,
                a * m <= a * d,
                d > 0,
        ;
    }
    if a <= 0 {
        assert(a * d <= a * m <= 0) by (nonlinear_arith)
            requires
                a <= 0,
                0 <= m <= d,
        ;
        assert(q <= 0) by (nonlinear_arith)
            requires
                q * d <= a * m,
                a * m <= 0,
                d > 0,
        ;
        assert(q >= a) by (nonlinear_arith)
            requires
                (q + 1) * d > a * m,
                a * m >= a * d,
                d > 0,
        ;
    }
}

/// The integer square root: the greatest `r` with `r * r <= n`.
pub open spec fn sqrt_floor(n: int) -> int
    decreases n,
{
    if n <= 0 {
        0
    } else {
        let r = sqrt_floor(n - 1);
        if (r + 1) * (r + 1) <= n {
            r + 1
        } else {
            r
        }
    }
}

/// The integer square root brackets its argument.
pub proof fn lemma_sqrt_floor(n: int)
    requires
        n >= 0,
    ensures
        sqrt_floor(n) >= 0,
        sqrt_floor(n) * sqrt_floor(n) <= n < (sqrt_floor(n) + 1) * (sqrt_floor(n) + 1),
    decreases n,
{
    if n > 0 {
        lemma_sqrt_floor(n - 1);
        let r: int = sqrt_floor(n - 1);
        assert((r + 1) * (r + 1) < (r + 2) * (r + 2)) by (nonlinear_arith)
            requires
                r >= 0,
        ;
    }
}

/// Any `r` that brackets `n` is its integer square root.
pub proof fn lemma_sqrt_floor_unique(n: int, r: int)
    requires
        r >= 0,
        r * r <= n < (r + 1) * (r + 1),
    ensures
        r == sqrt_floor(n),
{
    lemma_sqrt_floor(n);
    let q: int = sqrt_floor(n);
    if q < r {
        assert((q + 1) * (q + 1) <= r * r) by (nonlinear_arith)
            requires
                0 <= q + 1 <= r,
        ;
    }
    if r < q {
        assert((r + 1) * (r + 1) <= q * q) by (nonlinear_arith)
            requires
                0 <= r + 1 <= q,
        ;
    }
}

/// The integer square root of a number below a square is below that
/// square's root.
pub proof fn lemma_sqrt_floor_below(n: int, bound: int)
    requires
        0 <= n < bound * bound,
        0 <= bound,
    ensures
        sqrt_floor(n) < bound,
{
    lemma_sqrt_floor(n);
    let r: int = sqrt_floor(n);
    if r >= bound {
        assert(bound * bound <= r * r) by (nonlinear_arith)
            requires
                0 <= bound <= r,
        ;
    }
}

/// The integer square root of `n`.
pub fn isqrt(n: u64) -> (r: u64)
    ensures
        r == sqrt_floor(n as int),
        r < 0x1_0000_0000,
{
    let mut lo: u64 = 0;
    let mut hi: u64 = 0x1_0000_0000;
    while hi - lo > 1
        invariant
            lo < hi <= 0x1_0000_0000,
            lo * lo <= n < hi * hi,
        decreases hi - lo,
    {
        let mid: u64 = lo + (hi - lo) / 2;
        assert(mid * mid <= 0xffff_ffff * 0xffff_ffff) by (nonlinear_arith)
            requires
                mid <= 0xffff_ffff,
        ;
        if mid * mid <= n {
            lo = mid;
        } else {
            hi = mid;
        }
    }
    proof {
        lemma_sqrt_floor_unique(n as int, lo as int);
    }
    lo
}

/// The third power.
pub open spec fn cube(x: int) -> int {
    x * x * x
}

/// The third power grows with its argument, from zero on.
pub proof fn lemma_cube_monotone(a: int, b: int)
    requires
        0 <= a <= b,
    ensures
        0 <= cube(a) <= cube(b),
{
    assert(0 <= a * a <= b * b) by (nonlinear_arith)
        requires
            0 <= a <= b,
    ;
    let a2 = a * a;
    let b2 = b * b;
    assert(0 <= a2 * a <= b2 * b) by (nonlinear_arith)
        requires
            0 <= a2 <= b2,
            0 <= a <= b,
    ;
}

/// The integer cube root: the greatest `r` with `r * r * r <= n`.
pub open spec fn cbrt_floor(n: int) -> int
    decreases n,
{
    if n <= 0 {
        0
    } else {
        let r = cbrt_floor(n - 1);
        if cube(r + 1) <= n {
            r + 1
        } else {
            r
        }
    }
}

/// The integer cube root brackets its argument.
pub proof fn lemma_cbrt_floor(n: int)
    requires
        n >= 0,
    ensures
        cbrt_floor(n) >= 0,
        cube(cbrt_floor(n)) <= n < cube(cbrt_floor(n) + 1),
    decreases n,
{
    if n > 0 {
        lemma_cbrt_floor(n - 1);
        let r: int = cbrt_floor(n - 1);
        lemma_cube_monotone(r + 1, r + 2);
        assert(cube(r + 1) < cube(r + 2)) by (nonlinear_arith)
            requires
                r >= 0,
        ;
    } else {
        assert(cube(0) == 0 && cube(1) == 1) by (nonlinear_arith);
    }
}

/// Any `r` that brackets `n` is its integer cube root.
pub proof fn lemma_cbrt_floor_unique(n: int, r: int)
    requires
        r >= 0,
        cube(r) <= n < cube(r + 1),
    ensures
        r == cbrt_floor(n),
{
    lemma_cube_monotone(0, r);
    lemma_cbrt_floor(n);
    let q: int = cbrt_floor(n);
    if q < r {
        lemma_cube_monotone(q + 1, r);
    }
    if r < q {
        lemma_cube_monotone(r + 1, q);
    }
}

/// The integer cube root of a number below a cube is below that cube's
/// root.
pub proof fn lemma_cbrt_floor_below(n: int, bound: int)
    requires
        0 <= n < cube(bound),
        0 <= bound,
    ensures
        cbrt_floor(n) < bound,
{
    lemma_cbrt_floor(n);
    let r: int = cbrt_floor(n);
    if r >= bound {
        lemma_cube_monotone(bound, r);
    }
}

/// The integer cube root grows with its argument.
pub proof fn lemma_cbrt_floor_monotone(m: int, n: int)
    requires
        0 <= m <= n,
    ensures
        cbrt_floor(m) <= cbrt_floor(n),
{
    lemma_cbrt_floor(m);
    lemma_cbrt_floor(n);
    if cbrt_floor(m) > cbrt_floor(n) {
        lemma_cube_monotone(cbrt_floor(n) + 1, cbrt_floor(m));
    }
}

/// The greatest number whose cube a `u128` holds.
pub const CBRT_MAX: u128 = 6981463658331;

/// The integer cube root of `n`.
pub fn icbrt(n: u128) -> (r: u128)
    ensures
        r == cbrt_floor(n as int),
        r <= CBRT_MAX,
{
    let mut lo: u128 = 0;
    let mut hi: u128 = CBRT_MAX + 1;
    assert(cube(0) == 0 && cube(6981463658331) <= u128::MAX < cube(6981463658332))
        by (nonlinear_arith);
    while hi - lo > 1
        invariant
            lo < hi <= CBRT_MAX + 1,
            cube(lo as int) <= n < cube(hi as int),
            cube(6981463658331) <= u128::MAX,
        decreases hi - lo,
    {
        let mid: u128 = lo + (hi - lo) / 2;
        proof {
            lemma_cube_monotone(mid as int, 6981463658331);
            assert(0 <= mid * mid <= 6981463658331 * 6981463658331) by (nonlinear_arith)
                requires
                    0 <= mid <= 6981463658331,
            ;
        }
        if mid * mid * mid <= n {
            lo = mid;
        } else {
            hi = mid;
        }
    }
    proof {
        lemma_cbrt_floor_unique(n as int, lo as int);
    }
    lo
}

} // verus!
