//! Exact rational points.
//!
//! The intersection of two integer lines has rational coordinates.  Keeping
//! the exact numerators and the (positive) common denominator lets every
//! later test — segment bounds, cone membership, duplicate detection — be an
//! exact integer comparison; a candidate is rounded to a plain `Point` only
//! when a centroid is finally formed.

use crate::geom::{in_range, Point, MAX_COORD};
use crate::num::{div_round, div_round_i128, lemma_div_round_err};
use vstd::math::abs;
use vstd::prelude::*;

verus! {

/// Largest denominator a well-formed rational point can carry: the cross
/// product of two direction vectors with coordinates up to `2 * MAX_COORD`.
pub const DEN_MAX: i128 = 36000000000000000;

/// Largest numerator magnitude of a well-formed rational point.
pub const NUM_MAX: i128 = 7300000000000000000000000;

/// A point with exact rational coordinates `(xn / den, yn / den)`.
#[derive(Clone, Copy, Debug, PartialEq, Eq, Structural)]
pub struct RatPoint {
    pub xn: i128,
    pub yn: i128,
    pub den: i128,
}

/// A well-formed rational point: positive denominator, bounded entries.
pub open spec fn wf_rat(p: RatPoint) -> bool {
    &&& 1 <= p.den <= DEN_MAX
    &&& -NUM_MAX <= p.xn <= NUM_MAX
    &&& -NUM_MAX <= p.yn <= NUM_MAX
}

/// Whether the rational point is exactly the integer point `q`.
pub open spec fn rat_is_point(p: RatPoint, q: Point) -> bool {
    p.xn == q.x * p.den && p.yn == q.y * p.den
}

/// The x coordinate of the nearest integer point.
pub open spec fn round_x(p: RatPoint) -> int {
    div_round(p.xn as int, p.den as int)
}

/// The y coordinate of the nearest integer point.
pub open spec fn round_y(p: RatPoint) -> int {
    div_round(p.yn as int, p.den as int)
}

/// Whether both rational coordinates lie within the coordinate range, so
/// that rounding yields a well-formed `Point`.
pub open spec fn rat_in_coord_range(p: RatPoint) -> bool {
    -(MAX_COORD as int) * p.den <= p.xn <= (MAX_COORD as int) * p.den
        && -(MAX_COORD as int) * p.den <= p.yn <= (MAX_COORD as int) * p.den
}

impl RatPoint {
    /// Wraps an integer point as a rational point with denominator one.
    pub fn from_point(q: Point) -> (r: RatPoint)
        ensures
            r.den == 1,
            r.xn == q.x,
            r.yn == q.y,
            rat_is_point(r, q),
            wf_rat(r),
    {
        RatPoint { xn: q.x as i128, yn: q.y as i128, den: 1 }
    }

    /// Rounds each coordinate to the nearest integer.
    pub fn round(&self) -> (r: Point)
        requires
            wf_rat(*self),
            rat_in_coord_range(*self),
        ensures
            r.x == round_x(*self),
            r.y == round_y(*self),
            in_range(r.x as int),
            in_range(r.y as int),
    {
        proof {
            lemma_round_in_range(self.xn as int, self.den as int);
            lemma_round_in_range(self.yn as int, self.den as int);
        }
        let x = div_round_i128(self.xn, self.den);
        let y = div_round_i128(self.yn, self.den);
        Point { x: x as i64, y: y as i64 }
    }
}

/// Rounding a ratio whose value lies within the coordinate range yields an
/// integer within the coordinate range.
pub proof fn lemma_round_in_range(n: int, d: int)
    requires
        1 <= d,
        -(MAX_COORD as int) * d <= n <= (MAX_COORD as int) * d,
    ensures
        -MAX_COORD <= div_round(n, d) <= MAX_COORD,
{
    lemma_div_round_err(n, d);
    let r = div_round(n, d);
    assert(-MAX_COORD <= r <= MAX_COORD) by (nonlinear_arith)
        requires
            1 <= d,
            -(MAX_COORD as int) * d <= n <= (MAX_COORD as int) * d,
            2 * abs(r * d - n) <= d,
    ;
}

} // verus!
