//! The receiver model: a fixed optical sensor with a conical field of view.
//!
//! A receiver's cone is represented by the direction vectors of its two
//! boundary rays, so visibility is decided by exact cross-product sign
//! tests: a point is seen when it lies between the two rays.  The expanded
//! cone — the same rays pushed outward by the mini's radius — shares the
//! boundary directions and has its own apex behind the receiver, so it
//! contains the nominal cone.

use crate::geom::{cross, in_range, wf_point, Point, MAX_COORD};
use crate::line::{
    dir_x, dir_y, inter_exists, inter_round_x, inter_round_y, translate_line, wf_line, Line,
};
use crate::num::{div_round, div_round_i128, lemma_div_round_bound, lemma_mul_bounds};
use crate::rat::{wf_rat, RatPoint, DEN_MAX};
use crate::trig::{cos_ppm, cos_ppm_exec, lemma_sin_ppm_bounds, sin_ppm, sin_ppm_exec, PPM};
use vstd::prelude::*;

verus! {

/// The outward offset applied to a receiver's boundary rays, accounting for
/// the mini's physical size: one inch, in thousandths of a millimeter.
pub const EXPANSION_MARGIN: i64 = 25400;

/// Smallest table side the engine accepts, in thousandths of a millimeter.
pub const MIN_DIM: i64 = 100000;

/// Largest table side the engine accepts, in thousandths of a millimeter.
pub const MAX_DIM: i64 = 4000000;

/// Largest magnitude of a scaled cone-test vector: a rational numerator
/// plus a coordinate times a denominator.
pub const CONE_VEC_MAX: i128 = 10000000000000000000000000;

/// The errors the engine reports: a receiver configuration rejected at
/// construction, or a visibility snapshot no table point can satisfy.
#[derive(Clone, Copy, Debug, PartialEq, Eq, Structural)]
pub enum TrackerError {
    /// The view angle must be strictly between zero and a half turn.
    InvalidViewAngle,
    /// The derived boundary geometry collapsed (parallel expanded bounds,
    /// an apex out of range, or a cone not containing its facing).
    DegenerateGeometry,
    /// No candidate point satisfies every receiver's visibility report.
    ContradictoryVisibility,
}

/// The four cardinal facings a receiver is mounted with.
#[derive(Clone, Copy, Debug, PartialEq, Eq, Structural)]
pub enum Direction {
    Up,
    Down,
    Left,
    Right,
}

impl Direction {
    /// The facing angle in whole degrees, counterclockwise from the
    /// positive x axis.
    pub fn to_degrees(&self) -> (r: u16)
        ensures
            r == match *self {
                Direction::Up => 90u16,
                Direction::Down => 270u16,
                Direction::Left => 180u16,
                Direction::Right => 0u16,
            },
    {
        match self {
            Direction::Up => 90,
            Direction::Down => 270,
            Direction::Left => 180,
            Direction::Right => 0,
        }
    }
}

/// The x component of the facing's unit vector.
pub open spec fn facing_x(f: Direction) -> int {
    match f {
        Direction::Up => 0,
        Direction::Down => 0,
        Direction::Left => -1,
        Direction::Right => 1,
    }
}

/// The y component of the facing's unit vector.
pub open spec fn facing_y(f: Direction) -> int {
    match f {
        Direction::Up => 1,
        Direction::Down => -1,
        Direction::Left => 0,
        Direction::Right => 0,
    }
}

/// The x component of `(x, y)` rotated by the facing angle.
pub open spec fn rot_x(f: Direction, x: int, y: int) -> int {
    match f {
        Direction::Right => x,
        Direction::Up => -y,
        Direction::Left => -x,
        Direction::Down => y,
    }
}

/// The y component of `(x, y)` rotated by the facing angle.
pub open spec fn rot_y(f: Direction, x: int, y: int) -> int {
    match f {
        Direction::Right => y,
        Direction::Up => x,
        Direction::Left => -y,
        Direction::Down => -x,
    }
}

/// Whether the vector `(vx, vy)` lies in the closed convex cone spanned
/// clockwise from boundary direction one to boundary direction two.
pub open spec fn in_closed_cone(
    d1x: int,
    d1y: int,
    d2x: int,
    d2y: int,
    vx: int,
    vy: int,
) -> bool {
    cross(d2x, d2y, vx, vy) >= 0 && cross(vx, vy, d1x, d1y) >= 0
}

/// Whether the vector lies strictly inside the same cone.
pub open spec fn in_open_cone(d1x: int, d1y: int, d2x: int, d2y: int, vx: int, vy: int) -> bool {
    cross(d2x, d2y, vx, vy) > 0 && cross(vx, vy, d1x, d1y) > 0
}

/// A fixed receiver: its position, facing, view angle, the two boundary
/// rays of its cone, and the outward-expanded pair with their apex.
/// All derived fields are computed once at construction and never mutated.
#[derive(Clone, Copy, Debug, PartialEq, Eq, Structural)]
pub struct Receiver {
    pub view_angle: u16,
    pub location: Point,
    pub facing: Direction,
    pub view_bound1: Line,
    pub view_bound2: Line,
    pub expanded_view_bound1: Line,
    pub expanded_view_bound2: Line,
    pub expanded_view_location: Point,
}

/// The x component of the first boundary direction (facing plus half the
/// view angle).
pub open spec fn d1x(r: Receiver) -> int {
    dir_x(r.view_bound1)
}

/// The y component of the first boundary direction.
pub open spec fn d1y(r: Receiver) -> int {
    dir_y(r.view_bound1)
}

/// The x component of the second boundary direction (facing minus half the
/// view angle).
pub open spec fn d2x(r: Receiver) -> int {
    dir_x(r.view_bound2)
}

/// The y component of the second boundary direction.
pub open spec fn d2y(r: Receiver) -> int {
    dir_y(r.view_bound2)
}

/// A structurally sound receiver.  Beyond field well-formedness this
/// records the geometric facts the visibility predicates rely on: both
/// boundary rays start at the receiver, the expanded bounds are exact
/// translates of the nominal ones, the cone spans less than a half turn
/// and strictly contains its facing direction, and the expanded apex lies
/// behind the receiver, inside its own cone.
pub open spec fn wf_receiver(r: Receiver) -> bool {
    &&& wf_point(r.location)
    &&& wf_point(r.expanded_view_location)
    &&& 1 <= r.view_angle <= 179
    &&& wf_line(r.view_bound1)
    &&& wf_line(r.view_bound2)
    &&& wf_line(r.expanded_view_bound1)
    &&& wf_line(r.expanded_view_bound2)
    &&& r.view_bound1.point1 == r.location
    &&& r.view_bound2.point1 == r.location
    &&& dir_x(r.expanded_view_bound1) == d1x(r) && dir_y(r.expanded_view_bound1) == d1y(r)
    &&& dir_x(r.expanded_view_bound2) == d2x(r) && dir_y(r.expanded_view_bound2) == d2y(r)
    &&& cross(d2x(r), d2y(r), d1x(r), d1y(r)) > 0
    &&& in_open_cone(
        d1x(r),
        d1y(r),
        d2x(r),
        d2y(r),
        facing_x(r.facing),
        facing_y(r.facing),
    )
    &&& in_closed_cone(
        d1x(r),
        d1y(r),
        d2x(r),
        d2y(r),
        r.location.x - r.expanded_view_location.x,
        r.location.y - r.expanded_view_location.y,
    )
}

/// Whether the receiver sees the point: the vector from the receiver to
/// the point lies in the closed nominal cone.
pub open spec fn sees(r: Receiver, p: Point) -> bool {
    in_closed_cone(d1x(r), d1y(r), d2x(r), d2y(r), p.x - r.location.x, p.y - r.location.y)
}

/// Whether the point lies strictly inside the nominal cone; the boundary
/// rays themselves form the dead zone between `sees` and its negation.
pub open spec fn sees_strictly(r: Receiver, p: Point) -> bool {
    in_open_cone(d1x(r), d1y(r), d2x(r), d2y(r), p.x - r.location.x, p.y - r.location.y)
}

/// Whether the receiver sees the point under the expanded cone: the same
/// boundary directions, measured from the expanded apex.
pub open spec fn sees_estimated(r: Receiver, p: Point) -> bool {
    in_closed_cone(
        d1x(r),
        d1y(r),
        d2x(r),
        d2y(r),
        p.x - r.expanded_view_location.x,
        p.y - r.expanded_view_location.y,
    )
}

/// `sees` at an exact rational point: the cone test on the vector scaled
/// by the point's denominator, whose positive sign leaves it unchanged.
pub open spec fn sees_rat(r: Receiver, p: RatPoint) -> bool {
    in_closed_cone(
        d1x(r),
        d1y(r),
        d2x(r),
        d2y(r),
        p.xn - r.location.x * p.den,
        p.yn - r.location.y * p.den,
    )
}

/// `sees_strictly` at an exact rational point.
pub open spec fn sees_strictly_rat(r: Receiver, p: RatPoint) -> bool {
    in_open_cone(
        d1x(r),
        d1y(r),
        d2x(r),
        d2y(r),
        p.xn - r.location.x * p.den,
        p.yn - r.location.y * p.den,
    )
}

/// `sees_estimated` at an exact rational point.
pub open spec fn sees_estimated_rat(r: Receiver, p: RatPoint) -> bool {
    in_closed_cone(
        d1x(r),
        d1y(r),
        d2x(r),
        d2y(r),
        p.xn - r.expanded_view_location.x * p.den,
        p.yn - r.expanded_view_location.y * p.den,
    )
}

/// Runs the closed-cone test on in-range integer inputs.
fn closed_cone_exec(d1x: i64, d1y: i64, d2x: i64, d2y: i64, vx: i128, vy: i128) -> (r: bool)
    requires
        -2 * MAX_COORD <= d1x <= 2 * MAX_COORD,
        -2 * MAX_COORD <= d1y <= 2 * MAX_COORD,
        -2 * MAX_COORD <= d2x <= 2 * MAX_COORD,
        -2 * MAX_COORD <= d2y <= 2 * MAX_COORD,
        -CONE_VEC_MAX <= vx <= CONE_VEC_MAX,
        -CONE_VEC_MAX <= vy <= CONE_VEC_MAX,
    ensures
        r == in_closed_cone(d1x as int, d1y as int, d2x as int, d2y as int, vx as int, vy as int),
{
    proof {
        lemma_mul_bounds(vx as int, d1y as int, CONE_VEC_MAX as int, 2 * MAX_COORD as int);
        lemma_mul_bounds(vy as int, d1x as int, CONE_VEC_MAX as int, 2 * MAX_COORD as int);
        lemma_mul_bounds(d2x as int, vy as int, 2 * MAX_COORD as int, CONE_VEC_MAX as int);
        lemma_mul_bounds(d2y as int, vx as int, 2 * MAX_COORD as int, CONE_VEC_MAX as int);
    }
    (d2x as i128) * vy - (d2y as i128) * vx >= 0 && vx * (d1y as i128) - vy * (d1x as i128) >= 0
}

/// Runs the open-cone test on in-range integer inputs.
fn open_cone_exec(d1x: i64, d1y: i64, d2x: i64, d2y: i64, vx: i128, vy: i128) -> (r: bool)
    requires
        -2 * MAX_COORD <= d1x <= 2 * MAX_COORD,
        -2 * MAX_COORD <= d1y <= 2 * MAX_COORD,
        -2 * MAX_COORD <= d2x <= 2 * MAX_COORD,
        -2 * MAX_COORD <= d2y <= 2 * MAX_COORD,
        -CONE_VEC_MAX <= vx <= CONE_VEC_MAX,
        -CONE_VEC_MAX <= vy <= CONE_VEC_MAX,
    ensures
        r == in_open_cone(d1x as int, d1y as int, d2x as int, d2y as int, vx as int, vy as int),
{
    proof {
        lemma_mul_bounds(vx as int, d1y as int, CONE_VEC_MAX as int, 2 * MAX_COORD as int);
        lemma_mul_bounds(vy as int, d1x as int, CONE_VEC_MAX as int, 2 * MAX_COORD as int);
        lemma_mul_bounds(d2x as int, vy as int, 2 * MAX_COORD as int, CONE_VEC_MAX as int);
        lemma_mul_bounds(d2y as int, vx as int, 2 * MAX_COORD as int, CONE_VEC_MAX as int);
    }
    (d2x as i128) * vy - (d2y as i128) * vx > 0 && vx * (d1y as i128) - vy * (d1x as i128) > 0
}

impl Receiver {
    /// Whether this receiver sees the given point (closed nominal cone).
    pub fn can_see(&self, point: &Point) -> (r: bool)
        requires
            wf_receiver(*self),
            wf_point(*point),
        ensures
            r == sees(*self, *point),
    {
        let vx: i128 = point.x as i128 - self.location.x as i128;
        let vy: i128 = point.y as i128 - self.location.y as i128;
        closed_cone_exec(
            self.view_bound1.point2.x - self.location.x,
            self.view_bound1.point2.y - self.location.y,
            self.view_bound2.point2.x - self.location.x,
            self.view_bound2.point2.y - self.location.y,
            vx,
            vy,
        )
    }

    /// Whether this receiver sees the given point under its expanded cone,
    /// used when the receiver has reported the mini visible: the mini's
    /// edge, not its center, crosses the cone boundary first.
    pub fn can_see_estimated(&self, point: &Point) -> (r: bool)
        requires
            wf_receiver(*self),
            wf_point(*point),
        ensures
            r == sees_estimated(*self, *point),
    {
        let vx: i128 = point.x as i128 - self.expanded_view_location.x as i128;
        let vy: i128 = point.y as i128 - self.expanded_view_location.y as i128;
        closed_cone_exec(
            self.view_bound1.point2.x - self.location.x,
            self.view_bound1.point2.y - self.location.y,
            self.view_bound2.point2.x - self.location.x,
            self.view_bound2.point2.y - self.location.y,
            vx,
            vy,
        )
    }

    /// Whether this receiver is sure not to see the given point: the strict
    /// complement test, so points exactly on a boundary ray are neither
    /// seen nor ruled out.
    pub fn cannot_see(&self, point: &Point) -> (r: bool)
        requires
            wf_receiver(*self),
            wf_point(*point),
        ensures
            r == !sees_strictly(*self, *point),
    {
        let vx: i128 = point.x as i128 - self.location.x as i128;
        let vy: i128 = point.y as i128 - self.location.y as i128;
        !open_cone_exec(
            self.view_bound1.point2.x - self.location.x,
            self.view_bound1.point2.y - self.location.y,
            self.view_bound2.point2.x - self.location.x,
            self.view_bound2.point2.y - self.location.y,
            vx,
            vy,
        )
    }

    /// `can_see_estimated` at an exact rational candidate point.
    pub fn can_see_estimated_rat(&self, p: &RatPoint) -> (r: bool)
        requires
            wf_receiver(*self),
            wf_rat(*p),
        ensures
            r == sees_estimated_rat(*self, *p),
    {
        proof {
            lemma_mul_bounds(
                self.expanded_view_location.x as int,
                p.den as int,
                MAX_COORD as int,
                DEN_MAX as int,
            );
            lemma_mul_bounds(
                self.expanded_view_location.y as int,
                p.den as int,
                MAX_COORD as int,
                DEN_MAX as int,
            );
        }
        let vx: i128 = p.xn - self.expanded_view_location.x as i128 * p.den;
        let vy: i128 = p.yn - self.expanded_view_location.y as i128 * p.den;
        closed_cone_exec(
            self.view_bound1.point2.x - self.location.x,
            self.view_bound1.point2.y - self.location.y,
            self.view_bound2.point2.x - self.location.x,
            self.view_bound2.point2.y - self.location.y,
            vx,
            vy,
        )
    }

    /// `cannot_see` at an exact rational candidate point.
    pub fn cannot_see_rat(&self, p: &RatPoint) -> (r: bool)
        requires
            wf_receiver(*self),
            wf_rat(*p),
        ensures
            r == !sees_strictly_rat(*self, *p),
    {
        proof {
            lemma_mul_bounds(
                self.location.x as int,
                p.den as int,
                MAX_COORD as int,
                DEN_MAX as int,
            );
            lemma_mul_bounds(
                self.location.y as int,
                p.den as int,
                MAX_COORD as int,
                DEN_MAX as int,
            );
        }
        let vx: i128 = p.xn - self.location.x as i128 * p.den;
        let vy: i128 = p.yn - self.location.y as i128 * p.den;
        !open_cone_exec(
            self.view_bound1.point2.x - self.location.x,
            self.view_bound1.point2.y - self.location.y,
            self.view_bound2.point2.x - self.location.x,
            self.view_bound2.point2.y - self.location.y,
            vx,
            vy,
        )
    }
}

/// The length every boundary ray is drawn to: twice the table's
/// half-perimeter, which exceeds the diagonal, so a ray always crosses the
/// table boundary.
pub open spec fn bound_len(w: int, h: int) -> int {
    2 * (w + h)
}

/// The x component of the first boundary ray's unit direction (facing plus
/// half the view angle), in parts per million.
pub open spec fn ray1_x(va: u16, f: Direction) -> int {
    rot_x(f, cos_ppm(va as int), sin_ppm(va as int))
}

/// The y component of the first boundary ray's unit direction.
pub open spec fn ray1_y(va: u16, f: Direction) -> int {
    rot_y(f, cos_ppm(va as int), sin_ppm(va as int))
}

/// The x component of the second boundary ray's unit direction (facing
/// minus half the view angle).
pub open spec fn ray2_x(va: u16, f: Direction) -> int {
    rot_x(f, cos_ppm(va as int), -sin_ppm(va as int))
}

/// The y component of the second boundary ray's unit direction.
pub open spec fn ray2_y(va: u16, f: Direction) -> int {
    rot_y(f, cos_ppm(va as int), -sin_ppm(va as int))
}

/// The far end of the first boundary ray.
pub open spec fn far_point1(w: i64, h: i64, va: u16, loc: Point, f: Direction) -> Point {
    Point {
        x: (loc.x + div_round(bound_len(w as int, h as int) * ray1_x(va, f), PPM as int)) as i64,
        y: (loc.y + div_round(bound_len(w as int, h as int) * ray1_y(va, f), PPM as int)) as i64,
    }
}

/// The far end of the second boundary ray.
pub open spec fn far_point2(w: i64, h: i64, va: u16, loc: Point, f: Direction) -> Point {
    Point {
        x: (loc.x + div_round(bound_len(w as int, h as int) * ray2_x(va, f), PPM as int)) as i64,
        y: (loc.y + div_round(bound_len(w as int, h as int) * ray2_y(va, f), PPM as int)) as i64,
    }
}

/// The first boundary ray as a segment from the receiver.
pub open spec fn view_bound1_spec(w: i64, h: i64, va: u16, loc: Point, f: Direction) -> Line {
    Line { point1: loc, point2: far_point1(w, h, va, loc, f) }
}

/// The second boundary ray as a segment from the receiver.
pub open spec fn view_bound2_spec(w: i64, h: i64, va: u16, loc: Point, f: Direction) -> Line {
    Line { point1: loc, point2: far_point2(w, h, va, loc, f) }
}

/// The first boundary ray pushed outward (to its left) by the margin.
pub open spec fn expanded_bound1_spec(w: i64, h: i64, va: u16, loc: Point, f: Direction) -> Line {
    let b = view_bound1_spec(w, h, va, loc, f);
    translate_line(
        b,
        b.offset_x(EXPANSION_MARGIN as int, true),
        b.offset_y(EXPANSION_MARGIN as int, true),
    )
}

/// The second boundary ray pushed outward (to its right) by the margin.
pub open spec fn expanded_bound2_spec(w: i64, h: i64, va: u16, loc: Point, f: Direction) -> Line {
    let b = view_bound2_spec(w, h, va, loc, f);
    translate_line(
        b,
        b.offset_x(EXPANSION_MARGIN as int, false),
        b.offset_y(EXPANSION_MARGIN as int, false),
    )
}

/// The apex of the expanded cone: the two expanded bounds' intersection,
/// rounded to the nearest unit.
pub open spec fn expanded_apex_spec(w: i64, h: i64, va: u16, loc: Point, f: Direction) -> Point {
    let e1 = expanded_bound1_spec(w, h, va, loc, f);
    let e2 = expanded_bound2_spec(w, h, va, loc, f);
    Point { x: inter_round_x(e1, e2) as i64, y: inter_round_y(e1, e2) as i64 }
}

/// The receiver every successful construction returns.
pub open spec fn receiver_spec(w: i64, h: i64, va: u16, loc: Point, f: Direction) -> Receiver {
    Receiver {
        view_angle: va,
        location: loc,
        facing: f,
        view_bound1: view_bound1_spec(w, h, va, loc, f),
        view_bound2: view_bound2_spec(w, h, va, loc, f),
        expanded_view_bound1: expanded_bound1_spec(w, h, va, loc, f),
        expanded_view_bound2: expanded_bound2_spec(w, h, va, loc, f),
        expanded_view_location: expanded_apex_spec(w, h, va, loc, f),
    }
}

/// Whether construction succeeds for these inputs (given a valid view
/// angle): the expanded bounds must meet inside the coordinate range, and
/// the assembled receiver must satisfy the full invariant.
pub open spec fn receiver_buildable(w: i64, h: i64, va: u16, loc: Point, f: Direction) -> bool {
    let e1 = expanded_bound1_spec(w, h, va, loc, f);
    let e2 = expanded_bound2_spec(w, h, va, loc, f);
    &&& far_point1(w, h, va, loc, f) != loc
    &&& far_point2(w, h, va, loc, f) != loc
    &&& inter_exists(e1, e2, false)
    &&& crate::line::inter_in_range(e1, e2)
    &&& wf_receiver(receiver_spec(w, h, va, loc, f))
}

/// Checks a coordinate against the kernel's working range.
fn in_range_exec(c: i64) -> (r: bool)
    ensures
        r == in_range(c as int),
{
    -MAX_COORD <= c && c <= MAX_COORD
}

/// Decides the receiver invariant at run time.
fn check_wf(rc: &Receiver) -> (r: bool)
    ensures
        r == wf_receiver(*rc),
{
    if !(in_range_exec(rc.location.x) && in_range_exec(rc.location.y) && in_range_exec(
        rc.expanded_view_location.x,
    ) && in_range_exec(rc.expanded_view_location.y)) {
        return false;
    }
    if !(1 <= rc.view_angle && rc.view_angle <= 179) {
        return false;
    }
    if !(check_wf_line(&rc.view_bound1) && check_wf_line(&rc.view_bound2) && check_wf_line(
        &rc.expanded_view_bound1,
    ) && check_wf_line(&rc.expanded_view_bound2)) {
        return false;
    }
    if !(rc.view_bound1.point1 == rc.location && rc.view_bound2.point1 == rc.location) {
        return false;
    }
    let d1x_e: i64 = rc.view_bound1.point2.x - rc.view_bound1.point1.x;
    let d1y_e: i64 = rc.view_bound1.point2.y - rc.view_bound1.point1.y;
    let d2x_e: i64 = rc.view_bound2.point2.x - rc.view_bound2.point1.x;
    let d2y_e: i64 = rc.view_bound2.point2.y - rc.view_bound2.point1.y;
    if !(rc.expanded_view_bound1.point2.x - rc.expanded_view_bound1.point1.x == d1x_e
        && rc.expanded_view_bound1.point2.y - rc.expanded_view_bound1.point1.y == d1y_e
        && rc.expanded_view_bound2.point2.x - rc.expanded_view_bound2.point1.x == d2x_e
        && rc.expanded_view_bound2.point2.y - rc.expanded_view_bound2.point1.y == d2y_e) {
        return false;
    }
    proof {
        lemma_mul_bounds(d2x_e as int, d1y_e as int, 2 * MAX_COORD as int, 2 * MAX_COORD as int);
        lemma_mul_bounds(d2y_e as int, d1x_e as int, 2 * MAX_COORD as int, 2 * MAX_COORD as int);
    }
    if !((d2x_e as i128) * (d1y_e as i128) - (d2y_e as i128) * (d1x_e as i128) > 0) {
        return false;
    }
    let fx: i128 = match rc.facing {
        Direction::Up => 0,
        Direction::Down => 0,
        Direction::Left => -1,
        Direction::Right => 1,
    };
    let fy: i128 = match rc.facing {
        Direction::Up => 1,
        Direction::Down => -1,
        Direction::Left => 0,
        Direction::Right => 0,
    };
    if !open_cone_exec(d1x_e, d1y_e, d2x_e, d2y_e, fx, fy) {
        return false;
    }
    let ax: i128 = rc.location.x as i128 - rc.expanded_view_location.x as i128;
    let ay: i128 = rc.location.y as i128 - rc.expanded_view_location.y as i128;
    closed_cone_exec(d1x_e, d1y_e, d2x_e, d2y_e, ax, ay)
}

/// Decides line well-formedness at run time.
fn check_wf_line(l: &Line) -> (r: bool)
    ensures
        r == wf_line(*l),
{
    in_range_exec(l.point1.x) && in_range_exec(l.point1.y) && in_range_exec(l.point2.x)
        && in_range_exec(l.point2.y) && !(l.point1 == l.point2)
}

impl Receiver {
    /// Builds a receiver at `location` facing `facing` with the given full
    /// cone width in whole degrees, on a table of the given size.  Rejects
    /// a view angle outside `1..=179` and any configuration whose derived
    /// geometry degenerates; a rejected configuration is reported here, at
    /// construction, never later as a wrong answer.
    #[verifier::rlimit(50)]
    pub fn new(
        table_width: i64,
        table_height: i64,
        view_angle: u16,
        location: Point,
        facing: Direction,
    ) -> (result: Result<Receiver, TrackerError>)
        requires
            MIN_DIM <= table_width <= MAX_DIM,
            MIN_DIM <= table_height <= MAX_DIM,
            -MAX_DIM <= location.x <= 2 * MAX_DIM,
            -MAX_DIM <= location.y <= 2 * MAX_DIM,
        ensures
            result == Err::<Receiver, TrackerError>(TrackerError::InvalidViewAngle) <==> !(1
                <= view_angle <= 179),
            1 <= view_angle <= 179 ==> ((result is Ok) <==> receiver_buildable(
                table_width,
                table_height,
                view_angle,
                location,
                facing,
            )),
            result matches Ok(rc) ==> rc == receiver_spec(
                table_width,
                table_height,
                view_angle,
                location,
                facing,
            ) && wf_receiver(rc),
    {
        if view_angle < 1 || view_angle > 179 {
            return Err(TrackerError::InvalidViewAngle);
        }
        let w = table_width;
        let h = table_height;
        let c: i64 = cos_ppm_exec(view_angle);
        let s: i64 = sin_ppm_exec(view_angle);
        proof {
            lemma_sin_ppm_bounds(view_angle as int);
            lemma_sin_ppm_bounds(180 - view_angle as int);
        }
        let d1x_e: i64 = match facing {
            Direction::Right => c,
            Direction::Up => -s,
            Direction::Left => -c,
            Direction::Down => s,
        };
        let d1y_e: i64 = match facing {
            Direction::Right => s,
            Direction::Up => c,
            Direction::Left => -s,
            Direction::Down => -c,
        };
        let d2x_e: i64 = match facing {
            Direction::Right => c,
            Direction::Up => s,
            Direction::Left => -c,
            Direction::Down => -s,
        };
        let d2y_e: i64 = match facing {
            Direction::Right => -s,
            Direction::Up => c,
            Direction::Left => s,
            Direction::Down => -c,
        };
        let len: i64 = 2 * (w + h);
        proof {
            lemma_mul_bounds(len as int, d1x_e as int, len as int, PPM as int);
            lemma_mul_bounds(len as int, d1y_e as int, len as int, PPM as int);
            lemma_mul_bounds(len as int, d2x_e as int, len as int, PPM as int);
            lemma_mul_bounds(len as int, d2y_e as int, len as int, PPM as int);
            lemma_div_round_bound(len * d1x_e, PPM as int, len as int);
            lemma_div_round_bound(len * d1y_e, PPM as int, len as int);
            lemma_div_round_bound(len * d2x_e, PPM as int, len as int);
            lemma_div_round_bound(len * d2y_e, PPM as int, len as int);
        }
        let far1 = Point {
            x: location.x + div_round_i128(len as i128 * d1x_e as i128, PPM as i128) as i64,
            y: location.y + div_round_i128(len as i128 * d1y_e as i128, PPM as i128) as i64,
        };
        let far2 = Point {
            x: location.x + div_round_i128(len as i128 * d2x_e as i128, PPM as i128) as i64,
            y: location.y + div_round_i128(len as i128 * d2y_e as i128, PPM as i128) as i64,
        };
        proof {
            assert(far1 == far_point1(w, h, view_angle, location, facing));
            assert(far2 == far_point2(w, h, view_angle, location, facing));
        }
        if far1 == location || far2 == location {
            return Err(TrackerError::DegenerateGeometry);
        }
        let vb1 = Line::new(location, far1);
        let vb2 = Line::new(location, far2);
        let evb1 = vb1.parallel_line(EXPANSION_MARGIN, true);
        let evb2 = vb2.parallel_line(EXPANSION_MARGIN, false);
        proof {
            assert(evb1 == expanded_bound1_spec(w, h, view_angle, location, facing));
            assert(evb2 == expanded_bound2_spec(w, h, view_angle, location, facing));
        }
        let apex_opt = evb1.intersection(&evb2, false);
        match apex_opt {
            None => Err(TrackerError::DegenerateGeometry),
            Some(apex) => {
                let rc = Receiver {
                    view_angle,
                    location,
                    facing,
                    view_bound1: vb1,
                    view_bound2: vb2,
                    expanded_view_bound1: evb1,
                    expanded_view_bound2: evb2,
                    expanded_view_location: apex,
                };
                proof {
                    assert(rc == receiver_spec(w, h, view_angle, location, facing));
                }
                if check_wf(&rc) {
                    Ok(rc)
                } else {
                    Err(TrackerError::DegenerateGeometry)
                }
            },
        }
    }
}

/// Whatever the nominal cone sees, the expanded cone sees too: the
/// expanded apex lies inside its own cone, and a convex cone of vectors is
/// closed under addition.
pub proof fn lemma_sees_implies_sees_estimated(r: Receiver, p: Point)
    requires
        wf_receiver(r),
        sees(r, p),
    ensures
        sees_estimated(r, p),
{
    let ux = r.location.x - r.expanded_view_location.x;
    let uy = r.location.y - r.expanded_view_location.y;
    let vx = p.x - r.location.x;
    let vy = p.y - r.location.y;
    assert(cross(d2x(r), d2y(r), ux + vx, uy + vy) == cross(d2x(r), d2y(r), ux, uy) + cross(
        d2x(r),
        d2y(r),
        vx,
        vy,
    )) by (nonlinear_arith);
    assert(cross(ux + vx, uy + vy, d1x(r), d1y(r)) == cross(ux, uy, d1x(r), d1y(r)) + cross(
        vx,
        vy,
        d1x(r),
        d1y(r),
    )) by (nonlinear_arith);
    assert(p.x - r.expanded_view_location.x == ux + vx);
    assert(p.y - r.expanded_view_location.y == uy + vy);
}

/// A well-formed receiver always sees straight ahead and never straight
/// behind: the point `t` units along the facing direction is seen for any
/// positive `t`, and the point `t` units against it never is.
pub proof fn lemma_sees_ahead_not_behind(r: Receiver, t: int)
    requires
        wf_receiver(r),
        t >= 1,
        in_range(r.location.x + t * facing_x(r.facing)),
        in_range(r.location.y + t * facing_y(r.facing)),
        in_range(r.location.x - t * facing_x(r.facing)),
        in_range(r.location.y - t * facing_y(r.facing)),
    ensures
        sees(
            r,
            Point {
                x: (r.location.x + t * facing_x(r.facing)) as i64,
                y: (r.location.y + t * facing_y(r.facing)) as i64,
            },
        ),
        !sees(
            r,
            Point {
                x: (r.location.x - t * facing_x(r.facing)) as i64,
                y: (r.location.y - t * facing_y(r.facing)) as i64,
            },
        ),
{
    let fx = facing_x(r.facing);
    let fy = facing_y(r.facing);
    assert(cross(d2x(r), d2y(r), t * fx, t * fy) == t * cross(d2x(r), d2y(r), fx, fy) && cross(
        t * fx,
        t * fy,
        d1x(r),
        d1y(r),
    ) == t * cross(fx, fy, d1x(r), d1y(r))) by (nonlinear_arith);
    assert(cross(d2x(r), d2y(r), -(t * fx), -(t * fy)) == -(t * cross(d2x(r), d2y(r), fx, fy)))
        by (nonlinear_arith);
    assert(t * cross(d2x(r), d2y(r), fx, fy) > 0) by (nonlinear_arith)
        requires
            t >= 1,
            cross(d2x(r), d2y(r), fx, fy) > 0,
    ;
    assert(t * cross(fx, fy, d1x(r), d1y(r)) > 0) by (nonlinear_arith)
        requires
            t >= 1,
            cross(fx, fy, d1x(r), d1y(r)) > 0,
    ;
}

} // verus!
