//! Fixed-point arithmetic.
//!
//! Every real quantity of the simulation (a coordinate, a distance, a speed,
//! hit points, a number of seconds) is an integer count of thousandths:
//! `1.0` is `1000`. Products and quotients are taken exactly in wide integers
//! and rounded toward zero once, at the end.

use vstd::prelude::*;

verus! {

/// The number of fixed-point steps that make one whole unit.
pub const SCALE: i32 = 1000;

/// `SCALE` squared: the divisor after two fixed-point factors were multiplied.
pub const SCALE_SQUARED: u64 = 1_000_000;

/// `r` is the square root of `n`, rounded down.
pub open spec fn is_floor_sqrt(n: int, r: int) -> bool {
    0 <= r && r * r <= n < (r + 1) * (r + 1)
}

/// The square root of `n`, rounded down (meaningful for `n >= 0`).
pub open spec fn floor_sqrt(n: int) -> int {
    choose|r: int| is_floor_sqrt(n, r)
}

/// The quotient `a / b` rounded toward zero, for a positive divisor.
pub open spec fn div_toward_zero(a: int, b: int) -> int {
    if a >= 0 {
        a / b
    } else {
        -((-a) / b)
    }
}

/// The magnitude of `a`.
pub open spec fn abs(a: int) -> int {
    if a >= 0 {
        a
    } else {
        -a
    }
}

/// Squaring is strictly monotone on the non-negative integers.
pub proof fn lemma_square_strictly_monotone(a: int, b: int)
    by (nonlinear_arith)
    requires
        0 <= a < b,
    ensures
        a * a < b * b,
{
}

/// At most one integer is the rounded-down square root of `n`.
pub proof fn lemma_floor_sqrt_unique(n: int, r1: int, r2: int)
    requires
        is_floor_sqrt(n, r1),
        is_floor_sqrt(n, r2),
    ensures
        r1 == r2,
{
    if r1 < r2 {
        if r1 + 1 < r2 {
            lemma_square_strictly_monotone(r1 + 1, r2);
        }
    } else if r2 < r1 {
        if r2 + 1 < r1 {
            lemma_square_strictly_monotone(r2 + 1, r1);
        }
    }
}

/// Every non-negative integer has a rounded-down square root.
pub proof fn lemma_floor_sqrt_exists(n: int) -> (r: int)
    requires
        0 <= n,
    ensures
        is_floor_sqrt(n, r),
    decreases n,
{
    if n == 0 {
        assert(is_floor_sqrt(0, 0)) by (nonlinear_arith);
        0
    } else {
        let p = lemma_floor_sqrt_exists(n - 1);
        let r = p + 1;
        if r * r <= n {
            assert(r * r < (r + 1) * (r + 1)) by (nonlinear_arith)
                requires
                    0 <= r,
            ;
            r
        } else {
            p
        }
    }
}

/// `floor_sqrt` is the rounded-down square root, and the only one.
pub proof fn lemma_floor_sqrt(n: int)
    requires
        0 <= n,
    ensures
        is_floor_sqrt(n, floor_sqrt(n)),
        forall|r: int| is_floor_sqrt(n, r) ==> r == floor_sqrt(n),
{
    let w = lemma_floor_sqrt_exists(n);
    assert(is_floor_sqrt(n, floor_sqrt(n)));
    assert forall|r: int| is_floor_sqrt(n, r) implies r == floor_sqrt(n) by {
        lemma_floor_sqrt_unique(n, r, floor_sqrt(n));
    }
}

/// A perfect square has its root as square root.
pub proof fn lemma_floor_sqrt_of_square(r: int)
    requires
        0 <= r,
    ensures
        floor_sqrt(r * r) == r,
{
    assert(r * r < (r + 1) * (r + 1)) by (nonlinear_arith)
        requires
            0 <= r,
    ;
    assert(0 <= r * r) by (nonlinear_arith);
    assert(is_floor_sqrt(r * r, r));
    lemma_floor_sqrt(r * r);
}

/// The square root of `n`, rounded down.
pub fn isqrt(n: u128) -> (r: u64)
    ensures
        r == floor_sqrt(n as int),
        is_floor_sqrt(n as int, r as int),
{
    let mut low: u128 = 0;
    let mut high: u128 = 0x1_0000_0000_0000_0000;
    assert(0x1_0000_0000_0000_0000int * 0x1_0000_0000_0000_0000int > u128::MAX);
    while high - low > 1
        invariant
            low < high <= 0x1_0000_0000_0000_0000,
            low * low <= n < high * high,
        decreases high - low,
    {
        let mid: u128 = low + (high - low) / 2;
        assert(mid * mid <= 0xFFFF_FFFF_FFFF_FFFF * 0xFFFF_FFFF_FFFF_FFFF) by (nonlinear_arith)
            requires
                0 <= mid <= 0xFFFF_FFFF_FFFF_FFFF,
        ;
        if mid * mid <= n {
            low = mid;
        } else {
            high = mid;
        }
    }
    proof {
        assert(high == low + 1);
        assert(is_floor_sqrt(n as int, low as int));
        lemma_floor_sqrt(n as int);
    }
    low as u64
}

/// The magnitude of a signed 64-bit integer.
pub fn magnitude(a: i64) -> (r: u64)
    ensures
        r == abs(a as int),
{
    if a >= 0 {
        a as u64
    } else if a == i64::MIN {
        0x8000_0000_0000_0000
    } else {
        (-a) as u64
    }
}

/// A product never has a larger magnitude than the bounds of its factors allow.
pub proof fn lemma_mul_bound(a: int, b: int, a_max: int, b_max: int)
    by (nonlinear_arith)
    requires
        0 <= a <= a_max,
        0 <= b <= b_max,
    ensures
        0 <= a * b <= a_max * b_max,
{
}

/// `a * b / c`, the product taken exactly and the quotient rounded toward zero.
pub fn mul_div(a: i64, b: u64, c: u64) -> (r: i128)
    requires
        c > 0,
    ensures
        r == div_toward_zero(a * b, c as int),
        -(abs(a as int) * b) <= r <= abs(a as int) * b,
{
    let m: u64 = magnitude(a);
    proof {
        lemma_mul_bound(m as int, b as int, 0x8000_0000_0000_0000, 0xFFFF_FFFF_FFFF_FFFF);
    }
    let p: u128 = (m as u128) * (b as u128);
    let q: u128 = p / (c as u128);
    proof {
        assert(q <= p) by (nonlinear_arith)
            requires
                q == p / (c as u128),
                c > 0,
        ;
        if a >= 0 {
            assert(a * b == p);
        } else {
            assert(-(a * b) == (-a) * b) by (nonlinear_arith);
            assert(a * b <= 0) by (nonlinear_arith)
                requires
                    a < 0,
                    b >= 0,
            ;
            if a * b == 0 {
                assert(p == 0);
            }
        }
    }
    if a >= 0 {
        q as i128
    } else {
        -(q as i128)
    }
}

/// The exact product of a signed and an unsigned 32-bit integer.
pub fn mul_signed(a: i32, b: u32) -> (r: i64)
    ensures
        r == a * b,
        abs(r as int) <= 0x8000_0000 * 0xFFFF_FFFF,
{
    assert(-(0x8000_0000 * 0xFFFF_FFFF) <= a * b <= 0x8000_0000 * 0xFFFF_FFFF) by (nonlinear_arith)
        requires
            -0x8000_0000 <= a <= 0x7FFF_FFFF,
            0 <= b <= 0xFFFF_FFFF,
    ;
    (a as i64) * (b as i64)
}

} // verus!
