//! Lines and segments.
//!
//! A line is given by its two construction points and doubles as an
//! infinite line or as the segment between them, chosen by a flag at each
//! intersection query.  Slopes are never formed: parallelism and incidence
//! are cross-product sign tests on the direction vector, which need no
//! special case for vertical lines.

use crate::geom::{cross, dist_sq, sqrt_floor, wf_point, Point, MAX_COORD};
use crate::num::{div_round, div_round_i128, lemma_div_round_bound, lemma_mul_bounds};
use crate::rat::{wf_rat, RatPoint, DEN_MAX};
use vstd::math::{abs, max, min};
use vstd::prelude::*;

verus! {

/// A line through `point1` and `point2`, also usable as the segment
/// between them.  Immutable after construction.
#[derive(Clone, Copy, Debug, PartialEq, Eq, Structural)]
pub struct Line {
    pub point1: Point,
    pub point2: Point,
}

/// A well-formed line: bounded coordinates and two distinct points.
pub open spec fn wf_line(l: Line) -> bool {
    wf_point(l.point1) && wf_point(l.point2) && l.point1 != l.point2
}

/// The x component of the line's direction vector.
pub open spec fn dir_x(l: Line) -> int {
    l.point2.x - l.point1.x
}

/// The y component of the line's direction vector.
pub open spec fn dir_y(l: Line) -> int {
    l.point2.y - l.point1.y
}

/// The cross product of the two lines' directions: zero exactly when the
/// lines are parallel (or coincident).
pub open spec fn lines_cross(a: Line, b: Line) -> int {
    cross(dir_x(a), dir_y(a), dir_x(b), dir_y(b))
}

/// The denominator of the exact intersection point: `|lines_cross|`.
pub open spec fn inter_den(a: Line, b: Line) -> int {
    abs(lines_cross(a, b)) as int
}

/// The first line's parameter at the intersection, scaled by
/// `lines_cross(a, b)`.
pub open spec fn inter_t(a: Line, b: Line) -> int {
    cross(b.point1.x - a.point1.x, b.point1.y - a.point1.y, dir_x(b), dir_y(b))
}

/// The x numerator of the exact intersection point, over `inter_den`.
#[verifier::opaque]
pub open spec fn inter_xn(a: Line, b: Line) -> int {
    let raw = a.point1.x * lines_cross(a, b) + inter_t(a, b) * dir_x(a);
    if lines_cross(a, b) >= 0 {
        raw
    } else {
        -raw
    }
}

/// The y numerator of the exact intersection point, over `inter_den`.
#[verifier::opaque]
pub open spec fn inter_yn(a: Line, b: Line) -> int {
    let raw = a.point1.y * lines_cross(a, b) + inter_t(a, b) * dir_y(a);
    if lines_cross(a, b) >= 0 {
        raw
    } else {
        -raw
    }
}

/// Whether the scaled point `(xn / den, yn / den)` lies within the
/// axis-aligned bounding box of the line's two construction points.
pub open spec fn rat_in_bbox(xn: int, yn: int, den: int, l: Line) -> bool {
    &&& min(l.point1.x as int, l.point2.x as int) * den <= xn
    &&& xn <= max(l.point1.x as int, l.point2.x as int) * den
    &&& min(l.point1.y as int, l.point2.y as int) * den <= yn
    &&& yn <= max(l.point1.y as int, l.point2.y as int) * den
}

/// Whether the exact intersection of `a` and `b` exists and, if
/// `on_segments_only`, lies within both segments' bounding boxes.
pub open spec fn inter_exists(a: Line, b: Line, on_segments_only: bool) -> bool {
    &&& lines_cross(a, b) != 0
    &&& (on_segments_only ==> rat_in_bbox(inter_xn(a, b), inter_yn(a, b), inter_den(a, b), a)
        && rat_in_bbox(inter_xn(a, b), inter_yn(a, b), inter_den(a, b), b))
}

/// Whether `p` is the exact intersection of `a` and `b`.
pub open spec fn is_inter(p: RatPoint, a: Line, b: Line) -> bool {
    p.xn == inter_xn(a, b) && p.yn == inter_yn(a, b) && p.den == inter_den(a, b)
}

impl Line {
    /// Builds the line through two distinct points.
    pub fn new(point1: Point, point2: Point) -> (r: Line)
        requires
            wf_point(point1),
            wf_point(point2),
            point1 != point2,
        ensures
            r.point1 == point1,
            r.point2 == point2,
            wf_line(r),
    {
        Line { point1, point2 }
    }

    /// The exact intersection of two lines: `None` when they are parallel,
    /// or when `on_segments_only` is set and the intersection falls outside
    /// either segment's bounding box.
    pub fn intersection_exact(&self, other: &Line, on_segments_only: bool) -> (r: Option<
        RatPoint,
    >)
        requires
            wf_line(*self),
            wf_line(*other),
        ensures
            r is Some <==> inter_exists(*self, *other, on_segments_only),
            r matches Some(p) ==> is_inter(p, *self, *other) && wf_rat(p),
    {
        proof {
            reveal(inter_xn);
            reveal(inter_yn);
        }
        let ax: i128 = self.point1.x as i128;
        let ay: i128 = self.point1.y as i128;
        let dax: i128 = self.point2.x as i128 - ax;
        let day: i128 = self.point2.y as i128 - ay;
        let dbx: i128 = other.point2.x as i128 - other.point1.x as i128;
        let dby: i128 = other.point2.y as i128 - other.point1.y as i128;
        proof {
            lemma_mul_bounds(dax as int, dby as int, 2 * MAX_COORD as int, 2 * MAX_COORD as int);
            lemma_mul_bounds(day as int, dbx as int, 2 * MAX_COORD as int, 2 * MAX_COORD as int);
            lemma_mul_bounds(
                other.point1.x - ax,
                dby as int,
                2 * MAX_COORD as int,
                2 * MAX_COORD as int,
            );
            lemma_mul_bounds(
                other.point1.y - ay,
                dbx as int,
                2 * MAX_COORD as int,
                2 * MAX_COORD as int,
            );
        }
        let d: i128 = dax * dby - day * dbx;
        if d == 0 {
            return None;
        }
        let t: i128 = (other.point1.x as i128 - ax) * dby - (other.point1.y as i128 - ay) * dbx;
        proof {
            lemma_mul_bounds(ax as int, d as int, MAX_COORD as int, DEN_MAX as int);
            lemma_mul_bounds(ay as int, d as int, MAX_COORD as int, DEN_MAX as int);
            lemma_mul_bounds(t as int, dax as int, DEN_MAX as int, 2 * MAX_COORD as int);
            lemma_mul_bounds(t as int, day as int, DEN_MAX as int, 2 * MAX_COORD as int);
        }
        let raw_xn: i128 = ax * d + t * dax;
        let raw_yn: i128 = ay * d + t * day;
        let p = if d >= 0 {
            RatPoint { xn: raw_xn, yn: raw_yn, den: d }
        } else {
            RatPoint { xn: -raw_xn, yn: -raw_yn, den: -d }
        };
        if on_segments_only {
            if !bbox_holds(&p, self) {
                return None;
            }
            if !bbox_holds(&p, other) {
                return None;
            }
        }
        Some(p)
    }
}

/// The x coordinate of the intersection of `a` and `b`, rounded to the
/// nearest unit.
pub open spec fn inter_round_x(a: Line, b: Line) -> int {
    div_round(inter_xn(a, b), inter_den(a, b))
}

/// The y coordinate of the intersection of `a` and `b`, rounded to the
/// nearest unit.
pub open spec fn inter_round_y(a: Line, b: Line) -> int {
    div_round(inter_yn(a, b), inter_den(a, b))
}

/// Whether the exact intersection of `a` and `b` lies within the
/// coordinate range of the kernel.
pub open spec fn inter_in_range(a: Line, b: Line) -> bool {
    -(MAX_COORD as int) * inter_den(a, b) <= inter_xn(a, b) <= (MAX_COORD as int) * inter_den(
        a,
        b,
    ) && -(MAX_COORD as int) * inter_den(a, b) <= inter_yn(a, b) <= (MAX_COORD as int)
        * inter_den(a, b)
}

impl Line {
    /// The intersection point rounded to the nearest unit: `None` when the
    /// lines are parallel, when `on_segments_only` is set and the
    /// intersection falls outside either segment's bounding box, or when it
    /// falls outside the kernel's coordinate range.
    pub fn intersection(&self, other: &Line, on_segments_only: bool) -> (r: Option<Point>)
        requires
            wf_line(*self),
            wf_line(*other),
        ensures
            r is Some <==> inter_exists(*self, *other, on_segments_only) && inter_in_range(
                *self,
                *other,
            ),
            r matches Some(q) ==> q.x == inter_round_x(*self, *other) && q.y == inter_round_y(
                *self,
                *other,
            ) && wf_point(q),
    {
        match self.intersection_exact(other, on_segments_only) {
            None => None,
            Some(p) => {
                proof {
                    lemma_mul_bounds(MAX_COORD as int, p.den as int, MAX_COORD as int, DEN_MAX as int);
                }
                let bound: i128 = (MAX_COORD as i128) * p.den;
                if -bound <= p.xn && p.xn <= bound && -bound <= p.yn && p.yn <= bound {
                    Some(p.round())
                } else {
                    None
                }
            },
        }
    }

    /// The translation applied by `parallel_line`, x component: the left or
    /// right unit normal of the line, scaled to length `distance`.
    pub open spec fn offset_x(&self, distance: int, left: bool) -> int {
        let nx = if left {
            -dir_y(*self)
        } else {
            dir_y(*self)
        };
        div_round(distance * nx, sqrt_floor(dist_sq(self.point1, self.point2) as nat) as int)
    }

    /// The translation applied by `parallel_line`, y component.
    pub open spec fn offset_y(&self, distance: int, left: bool) -> int {
        let ny = if left {
            dir_x(*self)
        } else {
            -dir_x(*self)
        };
        div_round(distance * ny, sqrt_floor(dist_sq(self.point1, self.point2) as nat) as int)
    }

    /// Builds the line parallel to this one at (approximately) the given
    /// perpendicular distance, on the left side of the direction
    /// `point1 -> point2` when `left` is set, on the right side otherwise.
    /// Both construction points are translated by one shared vector, so the
    /// result's direction is exactly the original's.
    pub fn parallel_line(&self, distance: i64, left: bool) -> (r: Line)
        requires
            wf_line(*self),
            0 <= distance,
            abs(self.point1.x as int) + distance + 1 <= MAX_COORD,
            abs(self.point1.y as int) + distance + 1 <= MAX_COORD,
            abs(self.point2.x as int) + distance + 1 <= MAX_COORD,
            abs(self.point2.y as int) + distance + 1 <= MAX_COORD,
        ensures
            r.point1.x == self.point1.x + self.offset_x(distance as int, left),
            r.point1.y == self.point1.y + self.offset_y(distance as int, left),
            r.point2.x == self.point2.x + self.offset_x(distance as int, left),
            r.point2.y == self.point2.y + self.offset_y(distance as int, left),
            dir_x(r) == dir_x(*self) && dir_y(r) == dir_y(*self),
            wf_line(r),
    {
        let len: i64 = self.point1.distance(&self.point2);
        proof {
            lemma_offset_magnitude(*self, distance as int, left);
        }
        let nx: i128 = if left {
            self.point1.y as i128 - self.point2.y as i128
        } else {
            self.point2.y as i128 - self.point1.y as i128
        };
        let ny: i128 = if left {
            self.point2.x as i128 - self.point1.x as i128
        } else {
            self.point1.x as i128 - self.point2.x as i128
        };
        proof {
            lemma_mul_bounds(distance as int, nx as int, MAX_COORD as int, 2 * MAX_COORD as int);
            lemma_mul_bounds(distance as int, ny as int, MAX_COORD as int, 2 * MAX_COORD as int);
        }
        let tx: i128 = div_round_i128(distance as i128 * nx, len as i128);
        let ty: i128 = div_round_i128(distance as i128 * ny, len as i128);
        let p1 = Point { x: self.point1.x + tx as i64, y: self.point1.y + ty as i64 };
        let p2 = Point { x: self.point2.x + tx as i64, y: self.point2.y + ty as i64 };
        Line { point1: p1, point2: p2 }
    }
}

/// The translation built by `parallel_line` has components no longer than
/// the requested distance plus one, and the length of a well-formed line is
/// at least one.
proof fn lemma_offset_magnitude(l: Line, distance: int, left: bool)
    requires
        wf_line(l),
        0 <= distance,
    ensures
        1 <= sqrt_floor(dist_sq(l.point1, l.point2) as nat),
        abs(l.offset_x(distance, left)) <= distance + 1,
        abs(l.offset_y(distance, left)) <= distance + 1,
{
    let dsq = dist_sq(l.point1, l.point2);
    crate::geom::lemma_dist_sq_symmetric(l.point1, l.point2);
    crate::geom::lemma_sqrt_floor_correct(dsq as nat);
    let len = sqrt_floor(dsq as nat) as int;
    if len < 1 {
        assert(dsq < (len + 1) * (len + 1));
        assert(false) by (nonlinear_arith)
            requires
                len == 0,
                dsq >= 1,
                dsq < (len + 1) * (len + 1),
        ;
    }
    let nx = if left {
        -dir_y(l)
    } else {
        dir_y(l)
    };
    let ny = if left {
        dir_x(l)
    } else {
        -dir_x(l)
    };
    assert(nx * nx + ny * ny == dsq) by (nonlinear_arith)
        requires
            nx == (if left { l.point1.y - l.point2.y } else { l.point2.y - l.point1.y }),
            ny == (if left { l.point2.x - l.point1.x } else { l.point1.x - l.point2.x }),
            dsq == dist_sq(l.point1, l.point2),
    ;
    assert(nx * nx <= dsq && ny * ny <= dsq) by (nonlinear_arith)
        requires
            nx * nx + ny * ny == dsq,
    ;
    assert(abs(nx) <= len && abs(ny) <= len) by (nonlinear_arith)
        requires
            nx * nx <= dsq,
            ny * ny <= dsq,
            dsq < (len + 1) * (len + 1),
            len >= 1,
    ;
    lemma_mul_bounds(distance, nx, distance, len);
    lemma_mul_bounds(distance, ny, distance, len);
    lemma_div_round_bound(distance * nx, len, distance);
    lemma_div_round_bound(distance * ny, len, distance);
}

/// For two non-parallel lines the exact intersection is the same whichever
/// line the query starts from, segment restriction included.
pub proof fn lemma_intersection_symmetric(a: Line, b: Line, on_segments_only: bool)
    requires
        lines_cross(a, b) != 0,
    ensures
        inter_den(a, b) == inter_den(b, a),
        inter_xn(a, b) == inter_xn(b, a),
        inter_yn(a, b) == inter_yn(b, a),
        inter_exists(a, b, on_segments_only) == inter_exists(b, a, on_segments_only),
{
    reveal(inter_xn);
    reveal(inter_yn);
    assert(lines_cross(b, a) == -lines_cross(a, b)) by (nonlinear_arith);
    lemma_swap_numerator(
        a.point1.x as int,
        a.point1.y as int,
        b.point1.x as int,
        b.point1.y as int,
        dir_x(a),
        dir_y(a),
        dir_x(b),
        dir_y(b),
    );
}

/// The raw intersection numerators of a swapped query are the negations of
/// the original ones; here `(px, py)` anchors the first line with direction
/// `(rx, ry)`, and `(qx, qy)` the second with direction `(sx, sy)`.
#[verifier::rlimit(50)]
proof fn lemma_swap_numerator(
    px: int,
    py: int,
    qx: int,
    qy: int,
    rx: int,
    ry: int,
    sx: int,
    sy: int,
)
    ensures
        qx * -(rx * sy - ry * sx) + ((px - qx) * ry - (py - qy) * rx) * sx == -(px * (rx * sy - ry
            * sx) + ((qx - px) * sy - (qy - py) * sx) * rx),
        qy * -(rx * sy - ry * sx) + ((px - qx) * ry - (py - qy) * rx) * sy == -(py * (rx * sy - ry
            * sx) + ((qx - px) * sy - (qy - py) * sx) * ry),
{
    assert(qx * -(rx * sy - ry * sx) == qx * ry * sx - qx * rx * sy) by (nonlinear_arith);
    assert(((px - qx) * ry - (py - qy) * rx) * sx == px * ry * sx - qx * ry * sx - py * rx * sx
        + qy * rx * sx) by (nonlinear_arith);
    assert(px * (rx * sy - ry * sx) == px * rx * sy - px * ry * sx) by (nonlinear_arith);
    assert(((qx - px) * sy - (qy - py) * sx) * rx == qx * rx * sy - px * rx * sy - qy * rx * sx
        + py * rx * sx) by (nonlinear_arith);
    assert(qy * -(rx * sy - ry * sx) == qy * ry * sx - qy * rx * sy) by (nonlinear_arith);
    assert(((px - qx) * ry - (py - qy) * rx) * sy == px * ry * sy - qx * ry * sy - py * rx * sy
        + qy * rx * sy) by (nonlinear_arith);
    assert(py * (rx * sy - ry * sx) == py * rx * sy - py * ry * sx) by (nonlinear_arith);
    assert(((qx - px) * sy - (qy - py) * sx) * ry == qx * ry * sy - px * ry * sy - qy * ry * sx
        + py * ry * sx) by (nonlinear_arith);
}

/// A line translated by the given offset.
pub open spec fn translate_line(l: Line, tx: int, ty: int) -> Line {
    Line {
        point1: Point { x: (l.point1.x + tx) as i64, y: (l.point1.y + ty) as i64 },
        point2: Point { x: (l.point2.x + tx) as i64, y: (l.point2.y + ty) as i64 },
    }
}

/// Checks the bounding-box condition of `rat_in_bbox` at run time.
fn bbox_holds(p: &RatPoint, l: &Line) -> (r: bool)
    requires
        wf_rat(*p),
        wf_line(*l),
    ensures
        r == rat_in_bbox(p.xn as int, p.yn as int, p.den as int, *l),
{
    let min_x: i128 = if l.point1.x <= l.point2.x {
        l.point1.x as i128
    } else {
        l.point2.x as i128
    };
    let max_x: i128 = if l.point1.x <= l.point2.x {
        l.point2.x as i128
    } else {
        l.point1.x as i128
    };
    let min_y: i128 = if l.point1.y <= l.point2.y {
        l.point1.y as i128
    } else {
        l.point2.y as i128
    };
    let max_y: i128 = if l.point1.y <= l.point2.y {
        l.point2.y as i128
    } else {
        l.point1.y as i128
    };
    proof {
        lemma_mul_bounds(min_x as int, p.den as int, MAX_COORD as int, DEN_MAX as int);
        lemma_mul_bounds(max_x as int, p.den as int, MAX_COORD as int, DEN_MAX as int);
        lemma_mul_bounds(min_y as int, p.den as int, MAX_COORD as int, DEN_MAX as int);
        lemma_mul_bounds(max_y as int, p.den as int, MAX_COORD as int, DEN_MAX as int);
    }
    min_x * p.den <= p.xn && p.xn <= max_x * p.den && min_y * p.den <= p.yn && p.yn <= max_y
        * p.den
}

} // verus!
