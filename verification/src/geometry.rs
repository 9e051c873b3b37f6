//! Points and directions of the play field, in fixed-point coordinates.

use vstd::prelude::*;
use crate::fixed::{
    abs, floor_sqrt, isqrt, lemma_floor_sqrt, lemma_mul_bound, magnitude, SCALE, SCALE_SQUARED,
};

verus! {

/// A point of the play field, or a direction in it.
#[derive(Clone, Copy, Debug, PartialEq, Eq, Structural)]
pub struct Vec2 {
    pub x: i32,
    pub y: i32,
}

/// The square of a magnitude is the square of the number.
pub proof fn lemma_abs_square(a: int)
    by (nonlinear_arith)
    ensures
        abs(a) * abs(a) == a * a,
        a * a >= 0,
{
}

/// One coordinate of the unit vector along a vector with coordinate `d` and
/// squared length `q`: `SCALE * d / sqrt(q)`, rounded toward zero.
pub open spec fn unit_component(d: int, q: int) -> int {
    let k = floor_sqrt((SCALE_SQUARED * (d * d)) / q);
    if d >= 0 {
        k
    } else {
        -k
    }
}

/// A coordinate of a unit vector is never longer than one unit.
pub proof fn lemma_unit_component_bound(d: int, q: int)
    requires
        0 < q,
        d * d <= q,
    ensures
        -SCALE <= unit_component(d, q) <= SCALE,
{
    let n = (SCALE_SQUARED * (d * d)) / q;
    lemma_abs_square(d);
    assert(0 <= n <= SCALE_SQUARED) by (nonlinear_arith)
        requires
            n == (SCALE_SQUARED * (d * d)) / q,
            0 <= d * d <= q,
            0 < q,
    ;
    lemma_floor_sqrt(n);
    let k = floor_sqrt(n);
    if k > SCALE {
        assert(k * k > SCALE_SQUARED) by (nonlinear_arith)
            requires
                k > 1000,
        ;
    }
}

/// No coordinate of a direction is longer than one unit.
pub proof fn lemma_direction_bounded(from: Vec2, target: Vec2)
    ensures
        -SCALE <= from.spec_direction_to(target).x <= SCALE,
        -SCALE <= from.spec_direction_to(target).y <= SCALE,
{
    let dx = target.x - from.x;
    let dy = target.y - from.y;
    let q = dx * dx + dy * dy;
    lemma_abs_square(dx);
    lemma_abs_square(dy);
    if q != 0 {
        lemma_unit_component_bound(dx, q);
        lemma_unit_component_bound(dy, q);
    }
}

/// The rounding of one coordinate of a unit vector: with `k` its magnitude,
/// `k * k * q <= SCALE_SQUARED * d * d < (k + 1) * (k + 1) * q`.
proof fn lemma_unit_component_rounding(d: int, q: int)
    requires
        0 < q,
        d * d <= q,
    ensures
        ({
            let k = abs(unit_component(d, q));
            &&& 0 <= k <= SCALE
            &&& k * k == unit_component(d, q) * unit_component(d, q)
            &&& k * k * q <= SCALE_SQUARED * (d * d)
            &&& SCALE_SQUARED * (d * d) < (k + 1) * (k + 1) * q
        }),
{
    let n = (SCALE_SQUARED * (d * d)) / q;
    let k = floor_sqrt(n);
    lemma_abs_square(d);
    lemma_unit_component_bound(d, q);
    assert(0 <= n && n * q <= SCALE_SQUARED * (d * d) < (n + 1) * q) by (nonlinear_arith)
        requires
            n == (SCALE_SQUARED * (d * d)) / q,
            0 <= d * d,
            0 < q,
    ;
    lemma_floor_sqrt(n);
    assert(abs(unit_component(d, q)) == k);
    lemma_abs_square(unit_component(d, q));
    assert(k * k * q <= n * q) by (nonlinear_arith)
        requires
            k * k <= n,
            0 < q,
    ;
    assert((n + 1) * q <= (k + 1) * (k + 1) * q) by (nonlinear_arith)
        requires
            n + 1 <= (k + 1) * (k + 1),
            0 < q,
    ;
}

/// A direction is a unit vector but for the rounding of its coordinates: it
/// is never longer than one unit, and shorter by less than the rounding of
/// both coordinates can take away.
pub proof fn lemma_direction_length(from: Vec2, target: Vec2)
    requires
        from != target,
    ensures
        ({
            let u = from.spec_direction_to(target);
            SCALE_SQUARED - 4 * SCALE - 2 < u.x * u.x + u.y * u.y <= SCALE_SQUARED
        }),
{
    let dx = target.x - from.x;
    let dy = target.y - from.y;
    let q = dx * dx + dy * dy;
    lemma_abs_square(dx);
    lemma_abs_square(dy);
    assert(q > 0) by (nonlinear_arith)
        requires
            q == dx * dx + dy * dy,
            dx != 0 || dy != 0,
    ;
    lemma_unit_component_rounding(dx, q);
    lemma_unit_component_rounding(dy, q);
    lemma_direction_bounded(from, target);
    let kx = abs(unit_component(dx, q));
    let ky = abs(unit_component(dy, q));
    let u = from.spec_direction_to(target);
    assert(u.x == unit_component(dx, q));
    assert(u.y == unit_component(dy, q));
    assert(kx * kx + ky * ky <= SCALE_SQUARED) by (nonlinear_arith)
        requires
            kx * kx * q <= SCALE_SQUARED * (dx * dx),
            ky * ky * q <= SCALE_SQUARED * (dy * dy),
            q == dx * dx + dy * dy,
            0 < q,
    ;
    assert(SCALE_SQUARED < (kx + 1) * (kx + 1) + (ky + 1) * (ky + 1)) by (nonlinear_arith)
        requires
            SCALE_SQUARED * (dx * dx) < (kx + 1) * (kx + 1) * q,
            SCALE_SQUARED * (dy * dy) < (ky + 1) * (ky + 1) * q,
            q == dx * dx + dy * dy,
            0 < q,
    ;
    assert((kx + 1) * (kx + 1) + (ky + 1) * (ky + 1) == kx * kx + ky * ky + 2 * kx + 2 * ky + 2)
        by (nonlinear_arith);
}

impl Vec2 {
    /// The vector with the given coordinates.
    pub fn new(x: i32, y: i32) -> (v: Vec2)
        ensures
            v == (Vec2 { x, y }),
    {
        Vec2 { x, y }
    }

    /// The squared distance between two points.
    pub open spec fn spec_distance_squared(self, other: Vec2) -> int {
        (self.x - other.x) * (self.x - other.x) + (self.y - other.y) * (self.y - other.y)
    }

    /// The distance between two points, rounded down.
    pub open spec fn spec_distance(self, other: Vec2) -> int {
        floor_sqrt(self.spec_distance_squared(other))
    }

    /// The unit vector that points from `self` to `target`, each coordinate
    /// rounded toward zero; the zero vector where the two points coincide.
    pub open spec fn spec_direction_to(self, target: Vec2) -> Vec2 {
        let dx = target.x - self.x;
        let dy = target.y - self.y;
        let q = dx * dx + dy * dy;
        if q == 0 {
            Vec2 { x: 0, y: 0 }
        } else {
            Vec2 { x: unit_component(dx, q) as i32, y: unit_component(dy, q) as i32 }
        }
    }

    /// The squared distance between two points.
    pub fn distance_squared(self, other: Vec2) -> (d: u128)
        ensures
            d == self.spec_distance_squared(other),
            d <= 2 * (0xFFFF_FFFF * 0xFFFF_FFFF),
    {
        let dx: u64 = magnitude(self.x as i64 - other.x as i64);
        let dy: u64 = magnitude(self.y as i64 - other.y as i64);
        proof {
            lemma_abs_square(self.x - other.x);
            lemma_abs_square(self.y - other.y);
            lemma_mul_bound(dx as int, dx as int, 0xFFFF_FFFF, 0xFFFF_FFFF);
            lemma_mul_bound(dy as int, dy as int, 0xFFFF_FFFF, 0xFFFF_FFFF);
        }
        (dx as u128) * (dx as u128) + (dy as u128) * (dy as u128)
    }

    /// The distance between two points, rounded down.
    pub fn distance(self, other: Vec2) -> (d: u64)
        ensures
            d == self.spec_distance(other),
            d <= 0x1_7FFF_FFFF,
            (d == 0) == (self == other),
    {
        let q: u128 = self.distance_squared(other);
        let d: u64 = isqrt(q);
        proof {
            if d > 0x1_7FFF_FFFF {
                assert(d * d > 2 * (0xFFFF_FFFF * 0xFFFF_FFFF)) by (nonlinear_arith)
                    requires
                        d >= 0x1_8000_0000,
                ;
            }
            let dx = self.x - other.x;
            let dy = self.y - other.y;
            assert(q == dx * dx + dy * dy);
            assert((dx == 0 && dy == 0) <==> dx * dx + dy * dy == 0) by (nonlinear_arith);
            assert(d == 0 <==> q == 0) by (nonlinear_arith)
                requires
                    0 <= d,
                    d * d <= q < (d + 1) * (d + 1),
            ;
        }
        d
    }

    /// The unit vector that points from `self` to `target`; the zero vector
    /// where the two points coincide.
    #[verifier::when_used_as_spec(spec_direction_to)]
    pub fn direction_to(self, target: Vec2) -> (u: Vec2)
        ensures
            u == self.spec_direction_to(target),
            -SCALE <= u.x <= SCALE,
            -SCALE <= u.y <= SCALE,
    {
        let q: u128 = target.distance_squared(self);
        if q == 0 {
            return Vec2 { x: 0, y: 0 };
        }
        let dx: i64 = target.x as i64 - self.x as i64;
        let dy: i64 = target.y as i64 - self.y as i64;
        proof {
            lemma_abs_square(dx as int);
            lemma_abs_square(dy as int);
        }
        let x: i32 = unit_coordinate(dx, q);
        let y: i32 = unit_coordinate(dy, q);
        Vec2 { x, y }
    }
}

/// One coordinate of a unit vector: see `unit_component`.
fn unit_coordinate(d: i64, q: u128) -> (k: i32)
    requires
        -0xFFFF_FFFF <= d <= 0xFFFF_FFFF,
        0 < q,
        d * d <= q,
    ensures
        k == unit_component(d as int, q as int),
        -SCALE <= k <= SCALE,
{
    let m: u64 = magnitude(d);
    proof {
        lemma_abs_square(d as int);
        lemma_mul_bound(m as int, m as int, 0xFFFF_FFFF, 0xFFFF_FFFF);
        lemma_unit_component_bound(d as int, q as int);
    }
    let square: u128 = (m as u128) * (m as u128);
    let root: u64 = isqrt((SCALE_SQUARED as u128) * square / q);
    if d >= 0 {
        root as i32
    } else {
        -(root as i32)
    }
}

} // verus!
