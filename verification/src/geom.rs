//! Points and the primitive vector operations of the geometry kernel.
//!
//! Coordinates are integers counting thousandths of a millimeter, so every
//! cross product, squared distance and rotation formula below is exact
//! integer arithmetic; rounding happens only where a result is scaled back
//! down to coordinate units, through `div_round`.

use crate::num::{div_round, div_round_i128, isqrt_u128, lemma_div_round_err, lemma_mul_bounds, MAX_SQUARE};
use crate::trig::{cos_ppm, cos_ppm_exec, lemma_sin_ppm_bounds, sin_ppm, sin_ppm_exec, PPM};
use vstd::math::{abs, max};
use vstd::prelude::*;

verus! {

/// Coordinates count thousandths of a millimeter.
pub const UNITS_PER_MM: i64 = 1000;

/// Largest coordinate magnitude the kernel accepts; keeps every
/// intermediate product comfortably inside an `i128`.
pub const MAX_COORD: i64 = 67000000;

/// A location on (or around) the table, in thousandths of a millimeter.
#[derive(Clone, Copy, Debug, PartialEq, Eq, Structural)]
pub struct Point {
    pub x: i64,
    pub y: i64,
}

/// Whether a coordinate is within the kernel's working range.
pub open spec fn in_range(c: int) -> bool {
    -MAX_COORD <= c <= MAX_COORD
}

/// Whether both coordinates of a point are within the working range.
pub open spec fn wf_point(p: Point) -> bool {
    in_range(p.x as int) && in_range(p.y as int)
}

/// The cross product of the vectors `(ax, ay)` and `(bx, by)`: positive when
/// the second vector lies counterclockwise of the first within a half turn.
pub open spec fn cross(ax: int, ay: int, bx: int, by: int) -> int {
    ax * by - ay * bx
}

/// The squared Euclidean distance between two points.
pub open spec fn dist_sq(a: Point, b: Point) -> int {
    (a.x - b.x) * (a.x - b.x) + (a.y - b.y) * (a.y - b.y)
}

/// The integer square root, as a mathematical function.
pub open spec fn sqrt_floor(n: nat) -> nat
    decreases n,
{
    if n == 0 {
        0
    } else {
        let r = sqrt_floor((n - 1) as nat);
        if (r + 1) * (r + 1) <= n {
            r + 1
        } else {
            r
        }
    }
}

/// `sqrt_floor` is the largest integer whose square does not exceed `n`.
pub proof fn lemma_sqrt_floor_correct(n: nat)
    ensures
        sqrt_floor(n) * sqrt_floor(n) <= n,
        n < (sqrt_floor(n) + 1) * (sqrt_floor(n) + 1),
    decreases n,
{
    if n == 0 {
        let s0 = sqrt_floor(n);
        assert(s0 == 0);
        assert(n < (s0 + 1) * (s0 + 1)) by (nonlinear_arith)
            requires
                n == 0,
                s0 == 0,
        ;
    } else {
        lemma_sqrt_floor_correct((n - 1) as nat);
        let r = sqrt_floor((n - 1) as nat);
        let s = sqrt_floor(n);
        if (r + 1) * (r + 1) <= n {
            assert(s == r + 1);
            assert(s * s <= n && n < (s + 1) * (s + 1)) by (nonlinear_arith)
                requires
                    s == r + 1,
                    n - 1 < (r + 1) * (r + 1),
                    (r + 1) * (r + 1) <= n,
            ;
        } else {
            assert(s == r);
            assert(s * s <= n && n < (s + 1) * (s + 1)) by (nonlinear_arith)
                requires
                    s == r,
                    r * r <= n - 1,
                    !((r + 1) * (r + 1) <= n),
            ;
        }
    }
}

/// Any integer bracketing `n` the way `sqrt_floor` does is `sqrt_floor(n)`.
pub proof fn lemma_sqrt_floor_unique(n: nat, r: nat)
    requires
        r * r <= n,
        n < (r + 1) * (r + 1),
    ensures
        r == sqrt_floor(n),
{
    lemma_sqrt_floor_correct(n);
    let s = sqrt_floor(n);
    assert(r == s) by (nonlinear_arith)
        requires
            r * r <= n,
            n < (r + 1) * (r + 1),
            s * s <= n,
            n < (s + 1) * (s + 1),
    ;
}

/// The squared distance is symmetric and zero exactly on equal points.
pub proof fn lemma_dist_sq_symmetric(a: Point, b: Point)
    ensures
        dist_sq(a, b) == dist_sq(b, a),
        dist_sq(a, b) >= 0,
        dist_sq(a, b) == 0 <==> a == b,
{
    assert(dist_sq(a, b) == dist_sq(b, a)) by (nonlinear_arith);
    assert(dist_sq(a, b) >= 0 && (dist_sq(a, b) == 0 <==> a.x == b.x && a.y == b.y))
        by (nonlinear_arith);
}

impl Point {
    /// The squared Euclidean distance to `other`, exactly.
    pub fn distance_squared(&self, other: &Point) -> (r: i128)
        requires
            wf_point(*self),
            wf_point(*other),
        ensures
            r == dist_sq(*self, *other),
            0 <= r < MAX_SQUARE,
    {
        let dx: i128 = self.x as i128 - other.x as i128;
        let dy: i128 = self.y as i128 - other.y as i128;
        proof {
            assert(0 <= dx * dx <= 4 * (MAX_COORD as int) * (MAX_COORD as int) && 0 <= dy * dy
                <= 4 * (MAX_COORD as int) * (MAX_COORD as int)) by (nonlinear_arith)
                requires
                    -2 * MAX_COORD <= dx <= 2 * MAX_COORD,
                    -2 * MAX_COORD <= dy <= 2 * MAX_COORD,
            ;
            assert(dx * dx + dy * dy == dist_sq(*self, *other)) by (nonlinear_arith)
                requires
                    dx == self.x - other.x,
                    dy == self.y - other.y,
            ;
        }
        dx * dx + dy * dy
    }

    /// The Euclidean distance to `other`, rounded down to whole units.
    pub fn distance(&self, other: &Point) -> (r: i64)
        requires
            wf_point(*self),
            wf_point(*other),
        ensures
            r == sqrt_floor(dist_sq(*self, *other) as nat),
            0 <= r <= 3 * MAX_COORD,
    {
        let dsq: i128 = self.distance_squared(other);
        let root: u128 = isqrt_u128(dsq as u128);
        proof {
            lemma_sqrt_floor_unique(dsq as nat, root as nat);
            assert(dsq <= 8 * (MAX_COORD as int) * (MAX_COORD as int)) by (nonlinear_arith)
                requires
                    dsq == dist_sq(*self, *other),
                    wf_point(*self),
                    wf_point(*other),
            ;
            assert(root <= 3 * MAX_COORD) by (nonlinear_arith)
                requires
                    root * root <= dsq,
                    dsq <= 8 * (MAX_COORD as int) * (MAX_COORD as int),
                    MAX_COORD == 67000000,
            ;
        }
        root as i64
    }
}

/// The distance between two points does not depend on their order, and the
/// distance from a point to itself is zero.
pub proof fn lemma_distance_symmetric(a: Point, b: Point)
    ensures
        sqrt_floor(dist_sq(a, b) as nat) == sqrt_floor(dist_sq(b, a) as nat),
        sqrt_floor(dist_sq(a, a) as nat) == 0,
{
    lemma_dist_sq_symmetric(a, b);
}

/// Sine of `k` half-degrees for a full turn (`k` in `0..=720`), in parts per
/// million, by reflecting the quarter-turn table.
pub open spec fn sin_full(k: int) -> int {
    if k <= 180 {
        sin_ppm(k)
    } else if k <= 360 {
        sin_ppm(360 - k)
    } else if k <= 540 {
        -sin_ppm(k - 360)
    } else {
        -sin_ppm(720 - k)
    }
}

/// Cosine of `k` half-degrees for a full turn: the sine a quarter turn ahead.
pub open spec fn cos_full(k: int) -> int {
    if k <= 540 {
        sin_full(k + 180)
    } else {
        sin_full(k - 540)
    }
}

/// Looks the full-turn sine up.
pub fn sin_full_exec(k: u16) -> (r: i64)
    requires
        k <= 720,
    ensures
        r == sin_full(k as int),
{
    if k <= 180 {
        sin_ppm_exec(k)
    } else if k <= 360 {
        sin_ppm_exec(360 - k)
    } else if k <= 540 {
        -sin_ppm_exec(k - 360)
    } else {
        -sin_ppm_exec(720 - k)
    }
}

/// Looks the full-turn cosine up.
pub fn cos_full_exec(k: u16) -> (r: i64)
    requires
        k <= 720,
    ensures
        r == cos_full(k as int),
{
    if k <= 540 {
        sin_full_exec(k + 180)
    } else {
        sin_full_exec(k - 540)
    }
}

/// Full-turn sine and cosine stay within `[-PPM, PPM]`.
pub proof fn lemma_full_turn_bounds(k: int)
    requires
        0 <= k <= 720,
    ensures
        -PPM <= sin_full(k) <= PPM,
        -PPM <= cos_full(k) <= PPM,
{
    if k <= 180 {
        lemma_sin_ppm_bounds(k);
    } else if k <= 360 {
        lemma_sin_ppm_bounds(360 - k);
    } else if k <= 540 {
        lemma_sin_ppm_bounds(k - 360);
    } else {
        lemma_sin_ppm_bounds(720 - k);
    }
    if k + 180 <= 720 {
        if k + 180 <= 180 {
            lemma_sin_ppm_bounds(k + 180);
        } else if k + 180 <= 360 {
            lemma_sin_ppm_bounds(360 - (k + 180));
        } else if k + 180 <= 540 {
            lemma_sin_ppm_bounds(k + 180 - 360);
        } else {
            lemma_sin_ppm_bounds(720 - (k + 180));
        }
    } else {
        lemma_sin_ppm_bounds(k - 540);
    }
}

/// The x coordinate of a point rotated counterclockwise around the origin by
/// `k` half-degrees, rounded to the nearest unit.
pub open spec fn rotate_x(p: Point, k: int) -> int {
    div_round(p.x * cos_full(k) - p.y * sin_full(k), PPM as int)
}

/// The y coordinate of the same rotation.
pub open spec fn rotate_y(p: Point, k: int) -> int {
    div_round(p.y * cos_full(k) + p.x * sin_full(k), PPM as int)
}

impl Point {
    /// Rotates the point counterclockwise around the origin by `k`
    /// half-degrees.
    pub fn rotate_around_origin(&self, k: u16) -> (r: Point)
        requires
            k <= 720,
            abs(self.x as int) + abs(self.y as int) <= MAX_COORD,
        ensures
            r.x == rotate_x(*self, k as int),
            r.y == rotate_y(*self, k as int),
            abs(r.x as int) + abs(r.y as int) <= 2 * MAX_COORD + 2,
    {
        let c: i128 = cos_full_exec(k) as i128;
        let s: i128 = sin_full_exec(k) as i128;
        proof {
            lemma_full_turn_bounds(k as int);
            assert(abs(self.x * c) <= (MAX_COORD as int) * (PPM as int) && abs(self.y * s) <= (
            MAX_COORD as int) * (PPM as int) && abs(self.y * c) <= (MAX_COORD as int) * (
            PPM as int) && abs(self.x * s) <= (MAX_COORD as int) * (PPM as int) && abs(
                self.x * c - self.y * s,
            ) <= (MAX_COORD as int) * (PPM as int) && abs(self.y * c + self.x * s) <= (
            MAX_COORD as int) * (PPM as int)) by (nonlinear_arith)
                requires
                    abs(self.x as int) + abs(self.y as int) <= MAX_COORD,
                    -PPM <= c <= PPM,
                    -PPM <= s <= PPM,
            ;
        }
        let xn: i128 = self.x as i128 * c - self.y as i128 * s;
        let yn: i128 = self.y as i128 * c + self.x as i128 * s;
        proof {
            lemma_rounded_scale_bound(xn as int, MAX_COORD as int);
            lemma_rounded_scale_bound(yn as int, MAX_COORD as int);
        }
        let rx: i128 = div_round_i128(xn, PPM as i128);
        let ry: i128 = div_round_i128(yn, PPM as i128);
        Point { x: rx as i64, y: ry as i64 }
    }

    /// Rotates the point counterclockwise by `k` half-degrees around `pivot`.
    pub fn rotate_around(&self, pivot: &Point, k: u16) -> (r: Point)
        requires
            k <= 720,
            wf_point(*pivot),
            abs(self.x - pivot.x) + abs(self.y - pivot.y) <= MAX_COORD,
        ensures
            r.x == pivot.x + rotate_x(Point { x: (self.x - pivot.x) as i64, y: (self.y - pivot.y) as i64 }, k as int),
            r.y == pivot.y + rotate_y(Point { x: (self.x - pivot.x) as i64, y: (self.y - pivot.y) as i64 }, k as int),
    {
        let shifted = Point { x: self.x - pivot.x, y: self.y - pivot.y };
        let rotated = shifted.rotate_around_origin(k);
        Point { x: pivot.x + rotated.x, y: pivot.y + rotated.y }
    }
}

/// A value scaled by at most `PPM * bound` shrinks below `bound + 1` once it
/// is divided back down by `PPM` with rounding.
proof fn lemma_rounded_scale_bound(n: int, bound: int)
    requires
        bound >= 0,
        abs(n) <= bound * (PPM as int),
    ensures
        abs(div_round(n, PPM as int)) <= bound + 1,
{
    lemma_div_round_err(n, PPM as int);
    let r = div_round(n, PPM as int);
    assert(abs(r) <= bound + 1) by (nonlinear_arith)
        requires
            2 * abs(r * (PPM as int) - n) <= PPM,
            abs(n) <= bound * (PPM as int),
            bound >= 0,
            PPM == 1000000,
    ;
}

/// The sum of the x coordinates.
pub open spec fn sum_x(s: Seq<Point>) -> int
    decreases s.len(),
{
    if s.len() == 0 {
        0
    } else {
        sum_x(s.drop_last()) + s.last().x
    }
}

/// The sum of the y coordinates.
pub open spec fn sum_y(s: Seq<Point>) -> int
    decreases s.len(),
{
    if s.len() == 0 {
        0
    } else {
        sum_y(s.drop_last()) + s.last().y
    }
}

/// The unweighted centroid of a non-empty point sequence: each coordinate
/// the mean, rounded to the nearest unit.
pub open spec fn centroid(s: Seq<Point>) -> Point {
    Point {
        x: div_round(sum_x(s), s.len() as int) as i64,
        y: div_round(sum_y(s), s.len() as int) as i64,
    }
}

/// The greatest squared distance from `c` to any point of `s`.
pub open spec fn max_dist_sq(s: Seq<Point>, c: Point) -> int
    decreases s.len(),
{
    if s.len() == 0 {
        0
    } else {
        max(dist_sq(c, s.last()), max_dist_sq(s.drop_last(), c))
    }
}


/// A full-turn angle and its complement to a whole turn have equal cosines
/// and opposite sines.
proof fn lemma_full_turn_reverse(k: int)
    requires
        0 <= k <= 720,
    ensures
        cos_full(720 - k) == cos_full(k),
        sin_full(720 - k) == -sin_full(k),
{
    reveal(crate::trig::sin_ppm);
}

/// Every full-turn direction is within rounding of a unit vector:
/// its squared length differs from a unit's by at most `2 * PPM`.
proof fn lemma_full_turn_norm(k: int)
    requires
        0 <= k <= 720,
    ensures
        (PPM as int) * (PPM as int) - 2 * PPM <= cos_full(k) * cos_full(k) + sin_full(k)
            * sin_full(k),
        cos_full(k) * cos_full(k) + sin_full(k) * sin_full(k) <= (PPM as int) * (PPM as int) + 2
            * PPM,
{
    let c = cos_full(k);
    let s = sin_full(k);
    if k <= 180 {
        crate::trig::lemma_sin_cos_norm(k);
        assert(c == cos_ppm(k) && s == sin_ppm(k));
    } else if k <= 360 {
        let j = k - 180;
        crate::trig::lemma_sin_cos_norm(j);
        assert(s == sin_ppm(180 - j) && c == -sin_ppm(j));
        assert(c * c + s * s == sin_ppm(j) * sin_ppm(j) + cos_ppm(j) * cos_ppm(j))
            by (nonlinear_arith)
            requires
                c == -sin_ppm(j),
                s == sin_ppm(180 - j),
                cos_ppm(j) == sin_ppm(180 - j),
        ;
    } else if k <= 540 {
        let j = k - 360;
        crate::trig::lemma_sin_cos_norm(j);
        assert(s == -sin_ppm(j) && c == -sin_ppm(180 - j));
        assert(c * c + s * s == sin_ppm(j) * sin_ppm(j) + cos_ppm(j) * cos_ppm(j))
            by (nonlinear_arith)
            requires
                c == -sin_ppm(180 - j),
                s == -sin_ppm(j),
                cos_ppm(j) == sin_ppm(180 - j),
        ;
    } else {
        let j = k - 540;
        crate::trig::lemma_sin_cos_norm(j);
        assert(s == -sin_ppm(180 - j) && c == sin_ppm(j));
        assert(c * c + s * s == sin_ppm(j) * sin_ppm(j) + cos_ppm(j) * cos_ppm(j))
            by (nonlinear_arith)
            requires
                c == sin_ppm(j),
                s == -sin_ppm(180 - j),
                cos_ppm(j) == sin_ppm(180 - j),
        ;
    }
}

/// One step of the round-trip algebra: scaling the twice-rotated
/// coordinate by the squared direction scale isolates the rounding errors
/// and the norm deficit.
proof fn lemma_round_trip_identity(
    x: int,
    y: int,
    c: int,
    s: int,
    xr: int,
    yr: int,
    xb: int,
    yb: int,
    e1: int,
    e2: int,
    d3: int,
    d4: int,
    pp: int,
)
    requires
        e1 == xr * pp - (x * c - y * s),
        e2 == yr * pp - (y * c + x * s),
        d3 == xb * pp - (xr * c + yr * s),
        d4 == yb * pp - (yr * c - xr * s),
    ensures
        pp * pp * (xb - x) == pp * d3 + e1 * c + e2 * s + x * (c * c + s * s - pp * pp),
        pp * pp * (yb - y) == pp * d4 + e2 * c - e1 * s + y * (c * c + s * s - pp * pp),
{
    assert(pp * (xr * c + yr * s) == (xr * pp) * c + (yr * pp) * s) by (nonlinear_arith);
    assert((x * c - y * s + e1) * c == x * (c * c) - y * (s * c) + e1 * c) by (nonlinear_arith);
    assert((y * c + x * s + e2) * s == y * (c * s) + x * (s * s) + e2 * s) by (nonlinear_arith);
    assert(y * (s * c) == y * (c * s)) by (nonlinear_arith);
    assert(pp * (xb * pp) == pp * pp * xb) by (nonlinear_arith);
    assert(pp * (xb * pp - (xr * c + yr * s)) == pp * (xb * pp) - pp * (xr * c + yr * s))
        by (nonlinear_arith);
    assert(x * (c * c + s * s - pp * pp) == x * (c * c) + x * (s * s) - x * (pp * pp))
        by (nonlinear_arith);
    assert(pp * pp * x == x * (pp * pp)) by (nonlinear_arith);
    assert(pp * pp * (xb - x) == pp * pp * xb - pp * pp * x) by (nonlinear_arith);
    assert(pp * (yr * c - xr * s) == (yr * pp) * c - (xr * pp) * s) by (nonlinear_arith);
    assert((y * c + x * s + e2) * c == y * (c * c) + x * (s * c) + e2 * c) by (nonlinear_arith);
    assert((x * c - y * s + e1) * s == x * (c * s) - y * (s * s) + e1 * s) by (nonlinear_arith);
    assert(x * (s * c) == x * (c * s)) by (nonlinear_arith);
    assert(pp * (yb * pp) == pp * pp * yb) by (nonlinear_arith);
    assert(pp * (yb * pp - (yr * c - xr * s)) == pp * (yb * pp) - pp * (yr * c - xr * s))
        by (nonlinear_arith);
    assert(y * (c * c + s * s - pp * pp) == y * (c * c) + y * (s * s) - y * (pp * pp))
        by (nonlinear_arith);
    assert(pp * pp * y == y * (pp * pp)) by (nonlinear_arith);
    assert(pp * pp * (yb - y) == pp * pp * yb - pp * pp * y) by (nonlinear_arith);
}

/// Turns the round-trip identity into the final tolerance bound.
proof fn lemma_round_trip_bound(dd: int, d3: int, e1: int, e2: int, c: int, s: int, x: int, norm: int)
    requires
        1000000 * 1000000 * dd == 1000000 * d3 + e1 * c + e2 * s + x * norm,
        2 * abs(e1) <= 1000000,
        2 * abs(e2) <= 1000000,
        2 * abs(d3) <= 1000000,
        -1000000 <= c <= 1000000,
        -1000000 <= s <= 1000000,
        -2000000 <= norm <= 2000000,
    ensures
        1000000 * abs(dd) <= 2 * abs(x) + 2000000,
{
    assert(abs(1000000 * d3) <= 500000000000) by (nonlinear_arith)
        requires
            2 * abs(d3) <= 1000000,
    ;
    assert(abs(e1 * c) <= 500000000000) by (nonlinear_arith)
        requires
            2 * abs(e1) <= 1000000,
            -1000000 <= c <= 1000000,
    ;
    assert(abs(e2 * s) <= 500000000000) by (nonlinear_arith)
        requires
            2 * abs(e2) <= 1000000,
            -1000000 <= s <= 1000000,
    ;
    assert(abs(x * norm) <= abs(x) * 2000000) by (nonlinear_arith)
        requires
            -2000000 <= norm <= 2000000,
    ;
    assert(abs(1000000 * 1000000 * dd) <= 1500000000000 + abs(x) * 2000000);
    assert(1000000 * abs(dd) <= 2 * abs(x) + 2000000) by (nonlinear_arith)
        requires
            abs(1000000 * 1000000 * dd) <= 1500000000000 + abs(x) * 2000000,
    ;
}

/// Rotating a point by any angle and then by the complementary angle
/// returns it to within rounding tolerance: each coordinate lands within
/// `(2 * |coordinate| + 2 * PPM) / PPM` units of where it started — about
/// two units at table scale.
#[verifier::rlimit(60)]
pub proof fn lemma_rotation_round_trip(p: Point, k: int)
    requires
        0 <= k <= 720,
        abs(p.x as int) + abs(p.y as int) <= MAX_COORD,
    ensures
        ({
            let q = Point { x: rotate_x(p, k) as i64, y: rotate_y(p, k) as i64 };
            &&& (PPM as int) * abs(rotate_x(q, 720 - k) - p.x) <= 2 * abs(p.x as int) + 2 * PPM
            &&& (PPM as int) * abs(rotate_y(q, 720 - k) - p.y) <= 2 * abs(p.y as int) + 2 * PPM
        }),
{
    let x = p.x as int;
    let y = p.y as int;
    let c = cos_full(k);
    let s = sin_full(k);
    lemma_full_turn_reverse(k);
    lemma_full_turn_norm(k);
    lemma_full_turn_bounds(k);
    let xr = div_round(x * c - y * s, PPM as int);
    let yr = div_round(y * c + x * s, PPM as int);
    assert(abs(x * c - y * s) <= (MAX_COORD as int) * (PPM as int) && abs(y * c + x * s) <= (
    MAX_COORD as int) * (PPM as int)) by (nonlinear_arith)
        requires
            abs(x) + abs(y) <= MAX_COORD,
            -PPM <= c <= PPM,
            -PPM <= s <= PPM,
    ;
    lemma_rounded_scale_bound(x * c - y * s, MAX_COORD as int);
    lemma_rounded_scale_bound(y * c + x * s, MAX_COORD as int);
    let q = Point { x: rotate_x(p, k) as i64, y: rotate_y(p, k) as i64 };
    assert(q.x == xr && q.y == yr);
    lemma_div_round_err(x * c - y * s, PPM as int);
    lemma_div_round_err(y * c + x * s, PPM as int);
    let e1 = xr * (PPM as int) - (x * c - y * s);
    let e2 = yr * (PPM as int) - (y * c + x * s);
    let xb = rotate_x(q, 720 - k);
    let yb = rotate_y(q, 720 - k);
    assert(q.x * cos_full(720 - k) - q.y * sin_full(720 - k) == xr * c + yr * s)
        by (nonlinear_arith)
        requires
            cos_full(720 - k) == c,
            sin_full(720 - k) == -s,
            q.x == xr,
            q.y == yr,
    ;
    assert(q.y * cos_full(720 - k) + q.x * sin_full(720 - k) == yr * c - xr * s)
        by (nonlinear_arith)
        requires
            cos_full(720 - k) == c,
            sin_full(720 - k) == -s,
            q.x == xr,
            q.y == yr,
    ;
    assert(xb == div_round(xr * c + yr * s, PPM as int));
    assert(yb == div_round(yr * c - xr * s, PPM as int));
    lemma_div_round_err(xr * c + yr * s, PPM as int);
    lemma_div_round_err(yr * c - xr * s, PPM as int);
    let d3 = xb * (PPM as int) - (xr * c + yr * s);
    let d4 = yb * (PPM as int) - (yr * c - xr * s);
    lemma_round_trip_identity(x, y, c, s, xr, yr, xb, yb, e1, e2, d3, d4, PPM as int);
    let norm = c * c + s * s - (PPM as int) * (PPM as int);
    lemma_round_trip_bound(xb - x, d3, e1, e2, c, s, x, norm);
    assert((-e1) * s == -(e1 * s)) by (nonlinear_arith);
    lemma_round_trip_bound(yb - y, d4, e2, -e1, c, s, y, norm);
}


/// Whether the table direction at `k` half-degrees (first quarter) is
/// still clockwise of — or on — the direction `(ax, ay)`.
pub open spec fn quarter_at_most(k: int, ax: int, ay: int) -> bool {
    cross(cos_ppm(k), sin_ppm(k), ax, ay) >= 0
}

/// Whether `k` brackets the direction `(ax, ay)` in the first quarter:
/// the table direction at `k` is clockwise of it, the one at `k + 1` is
/// strictly counterclockwise.
pub open spec fn quarter_bracketed(k: int, ax: int, ay: int) -> bool {
    &&& 0 <= k <= 180
    &&& quarter_at_most(k, ax, ay)
    &&& (k == 180 || !quarter_at_most(k + 1, ax, ay))
}

/// Whether `r` half-degrees brackets the direction `(vx, vy)` at the
/// table's resolution, for `r` in `(-360, 360]`.  Each quadrant reduces to
/// the first by an exact quarter-turn rotation of the vector.
pub open spec fn angle_bracketed(r: int, vx: int, vy: int) -> bool {
    if vy >= 0 && vx >= 0 {
        quarter_bracketed(r, vx, vy)
    } else if vy >= 0 {
        quarter_bracketed(r - 180, vy, -vx)
    } else if vx <= 0 {
        quarter_bracketed(r + 360, -vx, -vy)
    } else {
        quarter_bracketed(r + 180, -vy, vx)
    }
}

/// Finds the bracket of a first-quarter direction by binary search over
/// the sine table.
fn quarter_angle(ax: i64, ay: i64) -> (r: u16)
    requires
        0 <= ax <= 2 * MAX_COORD,
        0 <= ay <= 2 * MAX_COORD,
    ensures
        quarter_bracketed(r as int, ax as int, ay as int),
{
    let mut lo: u16 = 0;
    let mut hi: u16 = 180;
    proof {
        lemma_sin_ppm_bounds(0);
        reveal(crate::trig::sin_ppm);
        assert(quarter_at_most(0, ax as int, ay as int));
    }
    while lo < hi
        invariant
            0 <= ax <= 2 * MAX_COORD,
            0 <= ay <= 2 * MAX_COORD,
            0 <= lo <= hi <= 180,
            quarter_at_most(lo as int, ax as int, ay as int),
            hi == 180 || !quarter_at_most(hi as int + 1, ax as int, ay as int),
        decreases hi - lo,
    {
        let mid: u16 = (lo + hi + 1) / 2;
        let c = cos_ppm_exec(mid);
        let sn = sin_ppm_exec(mid);
        proof {
            lemma_mul_bounds(c as int, ay as int, PPM as int, 2 * MAX_COORD as int);
            lemma_mul_bounds(sn as int, ax as int, PPM as int, 2 * MAX_COORD as int);
        }
        let g: i128 = c as i128 * ay as i128 - sn as i128 * ax as i128;
        if g >= 0 {
            lo = mid;
        } else {
            hi = mid - 1;
        }
    }
    lo
}

impl Point {
    /// The angle of the direction from this point toward `other`, in
    /// half-degrees within `(-360, 360]`: the table direction at the
    /// result is clockwise of — or on — that direction, and the next
    /// table step is strictly past it.  A zero vector reports zero, like
    /// a direction along the positive x axis.
    pub fn angle(&self, other: &Point) -> (r: i64)
        requires
            wf_point(*self),
            wf_point(*other),
        ensures
            -360 <= r <= 360,
            ({
                let vx = other.x - self.x;
                let vy = other.y - self.y;
                angle_bracketed(r as int, vx, vy)
            }),
    {
        let vx: i64 = other.x - self.x;
        let vy: i64 = other.y - self.y;
        if vy >= 0 && vx >= 0 {
            quarter_angle(vx, vy) as i64
        } else if vy >= 0 {
            quarter_angle(vy, -vx) as i64 + 180
        } else if vx <= 0 {
            quarter_angle(-vx, -vy) as i64 - 360
        } else {
            quarter_angle(-vy, vx) as i64 - 180
        }
    }

    /// The angle of this point's direction from the origin, in
    /// half-degrees within `(-360, 360]`.
    pub fn angle_from_origin(&self) -> (r: i64)
        requires
            wf_point(*self),
        ensures
            -360 <= r <= 360,
            angle_bracketed(r as int, self.x as int, self.y as int),
    {
        let origin = Point { x: 0, y: 0 };
        origin.angle(self)
    }
}

} // verus!
