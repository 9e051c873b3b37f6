//! The route that enemies walk: a chain of straight segments between waypoints.
//!
//! A distance walked along the route is turned into a point of the play field
//! by finding the segment that the distance falls in and interpolating between
//! its two ends.

use vstd::prelude::*;
use crate::fixed::{div_toward_zero, lemma_floor_sqrt, lemma_floor_sqrt_of_square, mul_div};
use crate::geometry::{lemma_abs_square, Vec2};

verus! {

/// The waypoints of the route, in fixed-point coordinates.
pub const ENEMY_PATH: [(i32, i32); 6] = [
    (-400_000, 200_000),
    (-200_000, 200_000),
    (-200_000, -100_000),
    (200_000, -100_000),
    (200_000, 100_000),
    (400_000, 100_000),
];

/// The point that lies `q / len` of the way from `a` to `b`.
pub open spec fn lerp(a: Vec2, b: Vec2, q: int, len: int) -> Vec2 {
    Vec2 {
        x: (a.x + div_toward_zero((b.x - a.x) * q, len)) as i32,
        y: (a.y + div_toward_zero((b.y - a.y) * q, len)) as i32,
    }
}

/// The length of the segment that starts at waypoint `i`, rounded down.
pub open spec fn segment_length(s: Seq<Vec2>, i: int) -> int {
    s[i].spec_distance(s[i + 1])
}

/// The length of the first `n` segments together.
pub open spec fn length_upto(s: Seq<Vec2>, n: int) -> int
    decreases n,
{
    if n <= 0 {
        0
    } else {
        length_upto(s, n - 1) + segment_length(s, n - 1)
    }
}

/// The length of the whole route.
pub open spec fn path_length(s: Seq<Vec2>) -> int {
    length_upto(s, s.len() - 1)
}

/// A route has at least two waypoints, no segment of length zero, and a
/// length that a 64-bit distance can hold.
pub open spec fn valid_path(s: Seq<Vec2>) -> bool {
    &&& s.len() >= 2
    &&& forall|i: int| 0 <= i < s.len() - 1 ==> #[trigger] s[i] != s[i + 1]
    &&& path_length(s) <= i64::MAX
}

/// The point reached by walking `rest` from waypoint `i` on: on the first
/// segment that is at least as long as what is left to walk, or the last
/// waypoint where the route ends before.
pub open spec fn walk(s: Seq<Vec2>, i: int, rest: int) -> Vec2
    decreases s.len() - i,
{
    if i + 1 >= s.len() {
        s.last()
    } else if rest <= segment_length(s, i) {
        lerp(s[i], s[i + 1], rest, segment_length(s, i))
    } else {
        walk(s, i + 1, rest - segment_length(s, i))
    }
}

/// The point at distance `progress` from the start of the route. A negative
/// distance counts as zero, one beyond the end as the end.
pub open spec fn position_on_path(s: Seq<Vec2>, progress: int) -> Vec2 {
    walk(
        s,
        0,
        if progress < 0 {
            0
        } else {
            progress
        },
    )
}

/// The waypoints of `ENEMY_PATH` as points.
pub open spec fn enemy_waypoints() -> Seq<Vec2> {
    Seq::new(6, |i: int| Vec2 { x: ENEMY_PATH[i].0, y: ENEMY_PATH[i].1 })
}

/// A segment between two different waypoints is at least one step long.
pub proof fn lemma_segment_positive(s: Seq<Vec2>, i: int)
    requires
        0 <= i < s.len() - 1,
    ensures
        0 <= segment_length(s, i),
        s[i] != s[i + 1] ==> 1 <= segment_length(s, i),
{
    let dx = s[i].x - s[i + 1].x;
    let dy = s[i].y - s[i + 1].y;
    let q = s[i].spec_distance_squared(s[i + 1]);
    lemma_abs_square(dx);
    lemma_abs_square(dy);
    assert(q == dx * dx + dy * dy);
    lemma_floor_sqrt(q);
    if s[i] != s[i + 1] {
        assert(dx * dx + dy * dy >= 1) by (nonlinear_arith)
            requires
                dx != 0 || dy != 0,
        ;
    }
}

/// The length walked grows with the number of segments.
pub proof fn lemma_length_monotone(s: Seq<Vec2>, m: int, n: int)
    requires
        0 <= m <= n <= s.len() - 1,
    ensures
        0 <= length_upto(s, m) <= length_upto(s, n),
    decreases n,
{
    if n > m {
        lemma_length_monotone(s, m, n - 1);
        lemma_segment_positive(s, n - 1);
    } else if n > 0 {
        lemma_length_monotone(s, 0, n - 1);
        lemma_segment_positive(s, n - 1);
    }
}

/// A route is at least one step long.
pub proof fn lemma_path_positive(s: Seq<Vec2>)
    requires
        valid_path(s),
    ensures
        1 <= path_length(s),
{
    lemma_segment_positive(s, 0);
    lemma_length_monotone(s, 1, s.len() - 1);
    assert(length_upto(s, 1) == length_upto(s, 0) + segment_length(s, 0));
}

/// A scaled offset lies between zero and the full offset, and reaches both.
pub proof fn lemma_offset_between(d: int, q: int, len: int)
    requires
        0 <= q <= len,
        0 < len,
    ensures
        d >= 0 ==> 0 <= div_toward_zero(d * q, len) <= d,
        d <= 0 ==> d <= div_toward_zero(d * q, len) <= 0,
        q == 0 ==> div_toward_zero(d * q, len) == 0,
        q == len ==> div_toward_zero(d * q, len) == d,
{
    if d >= 0 {
        assert(0 <= d * q <= d * len) by (nonlinear_arith)
            requires
                0 <= d,
                0 <= q <= len,
        ;
        assert(0 <= (d * q) / len <= d) by (nonlinear_arith)
            requires
                0 <= d * q <= d * len,
                0 < len,
        ;
        if q == len {
            assert((d * len) / len == d) by (nonlinear_arith)
                requires
                    0 < len,
            ;
        }
    } else {
        assert(-(d * q) == (-d) * q) by (nonlinear_arith);
        let e = -d;
        assert(0 <= e * q <= e * len) by (nonlinear_arith)
            requires
                0 <= e,
                0 <= q <= len,
        ;
        assert(0 <= (e * q) / len <= e) by (nonlinear_arith)
            requires
                0 <= e * q <= e * len,
                0 < len,
        ;
        if q == len {
            assert((e * len) / len == e) by (nonlinear_arith)
                requires
                    0 < len,
            ;
        }
    }
    if q == 0 {
        assert(d * q == 0) by (nonlinear_arith)
            requires
                q == 0,
        ;
    }
}

/// Interpolation reaches both ends of a segment.
pub proof fn lemma_lerp_ends(a: Vec2, b: Vec2, len: int)
    requires
        0 < len,
    ensures
        lerp(a, b, 0, len) == a,
        lerp(a, b, len, len) == b,
{
    lemma_offset_between(b.x - a.x, 0, len);
    lemma_offset_between(b.y - a.y, 0, len);
    lemma_offset_between(b.x - a.x, len, len);
    lemma_offset_between(b.y - a.y, len, len);
}

/// A walk of no distance stays at the first waypoint.
pub proof fn lemma_position_at_start(s: Seq<Vec2>, progress: int)
    requires
        valid_path(s),
        progress <= 0,
    ensures
        position_on_path(s, progress) == s[0],
{
    lemma_segment_positive(s, 0);
    lemma_lerp_ends(s[0], s[1], segment_length(s, 0));
}

/// A walk from waypoint `i` that is at least as long as the rest of the route
/// ends at the last waypoint.
pub proof fn lemma_walk_to_end(s: Seq<Vec2>, i: int, rest: int)
    requires
        valid_path(s),
        0 <= i <= s.len() - 1,
        rest >= path_length(s) - length_upto(s, i),
    ensures
        walk(s, i, rest) == s.last(),
    decreases s.len() - i,
{
    if i + 1 < s.len() {
        lemma_segment_positive(s, i);
        lemma_length_monotone(s, i + 1, s.len() - 1);
        let len = segment_length(s, i);
        if rest <= len {
            assert(length_upto(s, i + 1) == length_upto(s, i) + len);
            assert(rest == len);
            assert(length_upto(s, i + 1) == path_length(s));
            if i + 2 < s.len() {
                lemma_length_monotone(s, i + 2, s.len() - 1);
                lemma_segment_positive(s, i + 1);
                assert(length_upto(s, i + 2) == length_upto(s, i + 1) + segment_length(s, i + 1));
            }
            lemma_lerp_ends(s[i], s[i + 1], len);
        } else {
            lemma_walk_to_end(s, i + 1, rest - len);
        }
    }
}

/// A walk of the whole length of the route or more ends at the last waypoint.
pub proof fn lemma_position_at_end(s: Seq<Vec2>, progress: int)
    requires
        valid_path(s),
        progress >= path_length(s),
    ensures
        position_on_path(s, progress) == s.last(),
{
    lemma_length_monotone(s, 0, s.len() - 1);
    lemma_walk_to_end(s, 0, progress);
}

/// A walk from waypoint `i` that ends on segment `j` is the interpolation on
/// that segment.
pub proof fn lemma_walk_on_segment(s: Seq<Vec2>, i: int, j: int, rest: int)
    requires
        valid_path(s),
        0 <= i <= j < s.len() - 1,
        length_upto(s, j) - length_upto(s, i) <= rest <= length_upto(s, j + 1) - length_upto(s, i),
        i < j ==> length_upto(s, j) - length_upto(s, i) < rest,
    ensures
        walk(s, i, rest) == lerp(
            s[j],
            s[j + 1],
            rest - (length_upto(s, j) - length_upto(s, i)),
            segment_length(s, j),
        ),
    decreases j - i,
{
    if i < j {
        lemma_length_monotone(s, i + 1, j);
        lemma_segment_positive(s, i);
        assert(length_upto(s, i + 1) == length_upto(s, i) + segment_length(s, i));
        if i + 1 < j {
            lemma_walk_on_segment(s, i + 1, j, rest - segment_length(s, i));
        } else {
            lemma_walk_on_segment(s, i + 1, j, rest - segment_length(s, i));
        }
    }
}

/// A walk that ends on segment `j` (beyond its start, unless `j` is the first)
/// is the interpolation on that segment.
pub proof fn lemma_position_on_segment(s: Seq<Vec2>, j: int, progress: int)
    requires
        valid_path(s),
        0 <= j < s.len() - 1,
        0 <= progress,
        length_upto(s, j) <= progress <= length_upto(s, j + 1),
        0 < j ==> length_upto(s, j) < progress,
    ensures
        position_on_path(s, progress) == lerp(
            s[j],
            s[j + 1],
            progress - length_upto(s, j),
            segment_length(s, j),
        ),
{
    lemma_walk_on_segment(s, 0, j, progress);
}

/// A segment along one axis is as long as its ends are apart on that axis.
pub proof fn lemma_axis_segment(a: Vec2, b: Vec2, len: int)
    requires
        0 <= len,
        (a.x == b.x && (a.y - b.y == len || b.y - a.y == len)) || (a.y == b.y && (a.x - b.x == len
            || b.x - a.x == len)),
    ensures
        a.spec_distance(b) == len,
{
    let dx = a.x - b.x;
    let dy = a.y - b.y;
    assert(dx * dx + dy * dy == len * len) by (nonlinear_arith)
        requires
            (dx == 0 && (dy == len || dy == -len)) || (dy == 0 && (dx == len || dx == -len)),
    ;
    lemma_floor_sqrt_of_square(len);
}

/// The route of `ENEMY_PATH` is valid and 1300 units long.
pub proof fn lemma_enemy_waypoints()
    ensures
        valid_path(enemy_waypoints()),
        path_length(enemy_waypoints()) == 1_300_000,
{
    let s = enemy_waypoints();
    lemma_axis_segment(s[0], s[1], 200_000);
    lemma_axis_segment(s[1], s[2], 300_000);
    lemma_axis_segment(s[2], s[3], 400_000);
    lemma_axis_segment(s[3], s[4], 200_000);
    lemma_axis_segment(s[4], s[5], 200_000);
    reveal_with_fuel(length_upto, 6);
}

/// One coordinate of an interpolated point.
fn lerp_coordinate(a: i32, b: i32, q: u64, len: u64) -> (r: i32)
    requires
        0 < len,
        q <= len,
    ensures
        r == a + div_toward_zero((b - a) * q, len as int),
{
    let offset: i128 = mul_div(b as i64 - a as i64, q, len);
    proof {
        lemma_offset_between(b - a, q as int, len as int);
    }
    (a as i128 + offset) as i32
}

/// A route, checked once when it is made.
pub struct PathTable {
    waypoints: Vec<Vec2>,
}

impl View for PathTable {
    type V = Seq<Vec2>;

    closed spec fn view(&self) -> Seq<Vec2> {
        self.waypoints@
    }
}

impl PathTable {
    #[verifier::type_invariant]
    spec fn well_formed(&self) -> bool {
        valid_path(self.waypoints@)
    }

    /// The route through the given waypoints, or nothing where they make no
    /// valid route.
    pub fn new(waypoints: Vec<Vec2>) -> (table: Option<PathTable>)
        ensures
            table is Some <==> valid_path(waypoints@),
            table matches Some(t) ==> t@ == waypoints@,
    {
        if waypoints.len() < 2 {
            return None;
        }
        let mut total: i64 = 0;
        let mut i: usize = 0;
        while i + 1 < waypoints.len()
            invariant
                0 <= i <= waypoints.len() - 1,
                total == length_upto(waypoints@, i as int),
                0 <= total,
                forall|k: int| 0 <= k < i ==> #[trigger] waypoints@[k] != waypoints@[k + 1],
            decreases waypoints.len() - i,
        {
            let segment: u64 = waypoints[i].distance(waypoints[i + 1]);
            proof {
                lemma_segment_positive(waypoints@, i as int);
            }
            if segment == 0 {
                return None;
            }
            if total > i64::MAX - segment as i64 {
                proof {
                    lemma_length_monotone(waypoints@, i + 1, waypoints@.len() - 1);
                }
                return None;
            }
            total = total + segment as i64;
            i = i + 1;
        }
        Some(PathTable { waypoints })
    }

    /// The number of waypoints.
    pub fn len(&self) -> (n: usize)
        ensures
            n == self@.len(),
            valid_path(self@),
    {
        proof {
            use_type_invariant(self);
        }
        self.waypoints.len()
    }

    /// Waypoint `i`.
    pub fn waypoint(&self, i: usize) -> (p: Vec2)
        requires
            i < self@.len(),
        ensures
            p == self@[i as int],
    {
        self.waypoints[i]
    }

    /// The length of the whole route.
    pub fn total_length(&self) -> (total: i64)
        ensures
            total == path_length(self@),
            total >= 1,
            valid_path(self@),
    {
        proof {
            use_type_invariant(self);
        }
        let mut total: i64 = 0;
        let mut i: usize = 0;
        while i + 1 < self.waypoints.len()
            invariant
                valid_path(self.waypoints@),
                0 <= i <= self.waypoints.len() - 1,
                total == length_upto(self.waypoints@, i as int),
                i >= 1 ==> total >= 1,
            decreases self.waypoints.len() - i,
        {
            let segment: u64 = self.waypoints[i].distance(self.waypoints[i + 1]);
            proof {
                lemma_segment_positive(self.waypoints@, i as int);
                lemma_length_monotone(self.waypoints@, i + 1, self.waypoints@.len() - 1);
                lemma_length_monotone(self.waypoints@, 0, i as int);
            }
            total = total + segment as i64;
            i = i + 1;
        }
        total
    }

    /// The point at distance `progress` from the start of the route.
    pub fn position_at(&self, progress: i64) -> (p: Vec2)
        ensures
            p == position_on_path(self@, progress as int),
            valid_path(self@),
    {
        proof {
            use_type_invariant(self);
        }
        let mut rest: i64 = if progress < 0 {
            0
        } else {
            progress
        };
        let mut i: usize = 0;
        while i + 1 < self.waypoints.len()
            invariant
                valid_path(self.waypoints@),
                0 <= i <= self.waypoints.len() - 1,
                0 <= rest,
                walk(self.waypoints@, i as int, rest as int) == position_on_path(
                    self.waypoints@,
                    progress as int,
                ),
            decreases self.waypoints.len() - i,
        {
            let a: Vec2 = self.waypoints[i];
            let b: Vec2 = self.waypoints[i + 1];
            let segment: u64 = a.distance(b);
            proof {
                lemma_segment_positive(self.waypoints@, i as int);
            }
            if rest <= segment as i64 {
                let x: i32 = lerp_coordinate(a.x, b.x, rest as u64, segment);
                let y: i32 = lerp_coordinate(a.y, b.y, rest as u64, segment);
                return Vec2 { x, y };
            }
            rest = rest - segment as i64;
            i = i + 1;
        }
        self.waypoints[self.waypoints.len() - 1]
    }
}

/// The route of `ENEMY_PATH`.
pub fn enemy_path() -> (table: PathTable)
    ensures
        table@ == enemy_waypoints(),
{
    let mut waypoints: Vec<Vec2> = Vec::new();
    let mut i: usize = 0;
    while i < 6
        invariant
            0 <= i <= 6,
            waypoints@ == enemy_waypoints().take(i as int),
        decreases 6 - i,
    {
        let (x, y) = ENEMY_PATH[i];
        waypoints.push(Vec2 { x, y });
        i = i + 1;
    }
    proof {
        lemma_enemy_waypoints();
        assert(waypoints@ == enemy_waypoints());
    }
    PathTable { waypoints }
}

/// The length of the route of `ENEMY_PATH`.
pub fn calculate_total_path_length() -> (total: i64)
    ensures
        total == path_length(enemy_waypoints()),
        total == 1_300_000,
{
    proof {
        lemma_enemy_waypoints();
    }
    enemy_path().total_length()
}

/// The point at distance `progress` from the start of the route of
/// `ENEMY_PATH`.
pub fn calculate_position_on_path(progress: i64) -> (p: Vec2)
    ensures
        p == position_on_path(enemy_waypoints(), progress as int),
{
    enemy_path().position_at(progress)
}

} // verus!
