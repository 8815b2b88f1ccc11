//! Polygons over the engine's candidate points.
//!
//! A polygon is an ordered ring of vertices, sorted clockwise (by
//! decreasing angle, ties broken by decreasing distance) around the exact
//! centroid of the raw point set, together with the wraparound edge list.
//! The ordering is decided without trigonometry: vectors from the pivot
//! are compared by half-plane and by the sign of their cross product,
//! which is exact in integer arithmetic.

use crate::geom::{
    centroid, cross, dist_sq, in_range, max_dist_sq, sqrt_floor, sum_x, sum_y, wf_point, Point,
    MAX_COORD,
};
use crate::line::{wf_line, Line};
use crate::num::{
    div_round, div_round_i128, isqrt_u128, lemma_mul_bounds, MAX_DIV_OPERAND,
};
use vstd::arithmetic::div_mod::{lemma_mod_self_0, lemma_small_mod};
use vstd::math::{abs, max};
use vstd::multiset::Multiset;
use vstd::prelude::*;

verus! {

/// Largest number of vertices a polygon may carry.
pub const POLY_MAX: usize = 1000000;

/// Largest magnitude of a pivot-scaled vector component.
pub const PIV_MAX: i128 = 134000000000000;

/// The x component of the vector from the pivot `(sx / n, sy / n)` to `p`,
/// scaled by `n`.
pub open spec fn piv_x(p: Point, sx: int, n: int) -> int {
    n * p.x - sx
}

/// The y component of the same scaled vector.
pub open spec fn piv_y(p: Point, sy: int, n: int) -> int {
    n * p.y - sy
}

/// The coarse position of a vector in the clockwise sweep that starts at
/// a half turn: the negative x axis first, then the open upper half
/// plane, then the nonnegative x axis (where the zero vector also lands),
/// then the open lower half plane.
pub open spec fn angle_group(vx: int, vy: int) -> int {
    if vy == 0 && vx < 0 {
        0
    } else if vy > 0 {
        1
    } else if vy == 0 {
        2
    } else {
        3
    }
}

/// Clockwise order on pivot-scaled vectors: by group, then by decreasing
/// angle (a cross-product sign), with exact ties broken by decreasing
/// squared distance from the pivot.
pub open spec fn clock_le_vec(ax: int, ay: int, bx: int, by: int) -> bool {
    let ga = angle_group(ax, ay);
    let gb = angle_group(bx, by);
    if ga != gb {
        ga < gb
    } else if ga == 1 || ga == 3 {
        cross(ax, ay, bx, by) < 0 || (cross(ax, ay, bx, by) == 0 && ax * ax + ay * ay >= bx * bx
            + by * by)
    } else {
        ax * ax + ay * ay >= bx * bx + by * by
    }
}

/// Clockwise order on points around the pivot `(sx / n, sy / n)`.
pub open spec fn clock_le(a: Point, b: Point, sx: int, sy: int, n: int) -> bool {
    clock_le_vec(piv_x(a, sx, n), piv_y(a, sy, n), piv_x(b, sx, n), piv_y(b, sy, n))
}

/// A sequence sorted clockwise around the pivot.
pub open spec fn sorted_clockwise(s: Seq<Point>, sx: int, sy: int, n: int) -> bool {
    forall|i: int, j: int|
        0 <= i < j < s.len() ==> #[trigger] clock_le(s[i], s[j], sx, sy, n)
}

/// Any two vectors are comparable in the clockwise order.
pub proof fn lemma_clock_total(ax: int, ay: int, bx: int, by: int)
    ensures
        clock_le_vec(ax, ay, bx, by) || clock_le_vec(bx, by, ax, ay),
{
    assert(cross(bx, by, ax, ay) == -cross(ax, ay, bx, by)) by (nonlinear_arith);
}

/// The pivot identity behind transitivity: the middle vector's y
/// component weighs the outer cross product into the two inner ones.
proof fn lemma_cross_identity(ax: int, ay: int, bx: int, by: int, cx: int, cy: int)
    ensures
        by * cross(ax, ay, cx, cy) == cy * cross(ax, ay, bx, by) + ay * cross(bx, by, cx, cy),
{
    assert(by * (ax * cy - ay * cx) == ax * by * cy - ay * by * cx) by (nonlinear_arith);
    assert(cy * (ax * by - ay * bx) == ax * by * cy - ay * bx * cy) by (nonlinear_arith);
    assert(ay * (bx * cy - by * cx) == ay * bx * cy - ay * by * cx) by (nonlinear_arith);
}

/// The clockwise order is transitive.
pub proof fn lemma_clock_trans(ax: int, ay: int, bx: int, by: int, cx: int, cy: int)
    requires
        clock_le_vec(ax, ay, bx, by),
        clock_le_vec(bx, by, cx, cy),
    ensures
        clock_le_vec(ax, ay, cx, cy),
{
    let ga = angle_group(ax, ay);
    let gb = angle_group(bx, by);
    let gc = angle_group(cx, cy);
    if ga == gb && gb == gc && (ga == 1 || ga == 3) {
        lemma_cross_identity(ax, ay, bx, by, cx, cy);
        let cab = cross(ax, ay, bx, by);
        let cbc = cross(bx, by, cx, cy);
        let cac = cross(ax, ay, cx, cy);
        if ga == 1 {
            if cab < 0 || cbc < 0 {
                assert(by * cac < 0) by (nonlinear_arith)
                    requires
                        by > 0,
                        cy > 0,
                        ay > 0,
                        cab <= 0,
                        cbc <= 0,
                        cab < 0 || cbc < 0,
                        by * cac == cy * cab + ay * cbc,
                ;
                assert(cac < 0) by (nonlinear_arith)
                    requires
                        by > 0,
                        by * cac < 0,
                ;
            } else {
                assert(by * cac == 0) by (nonlinear_arith)
                    requires
                        cab == 0,
                        cbc == 0,
                        by * cac == cy * cab + ay * cbc,
                ;
                assert(cac == 0) by (nonlinear_arith)
                    requires
                        by > 0,
                        by * cac == 0,
                ;
            }
        } else {
            if cab < 0 || cbc < 0 {
                assert(by * cac > 0) by (nonlinear_arith)
                    requires
                        by < 0,
                        cy < 0,
                        ay < 0,
                        cab <= 0,
                        cbc <= 0,
                        cab < 0 || cbc < 0,
                        by * cac == cy * cab + ay * cbc,
                ;
                assert(cac < 0) by (nonlinear_arith)
                    requires
                        by < 0,
                        by * cac > 0,
                ;
            } else {
                assert(by * cac == 0) by (nonlinear_arith)
                    requires
                        cab == 0,
                        cbc == 0,
                        by * cac == cy * cab + ay * cbc,
                ;
                assert(cac == 0) by (nonlinear_arith)
                    requires
                        by < 0,
                        by * cac == 0,
                ;
            }
        }
    }
}

/// Decides the clockwise order at run time.
fn clock_le_exec(a: &Point, b: &Point, sx: i128, sy: i128, n: usize) -> (r: bool)
    requires
        wf_point(*a),
        wf_point(*b),
        1 <= n <= POLY_MAX,
        -(n as int) * (MAX_COORD as int) <= sx <= (n as int) * (MAX_COORD as int),
        -(n as int) * (MAX_COORD as int) <= sy <= (n as int) * (MAX_COORD as int),
    ensures
        r == clock_le(*a, *b, sx as int, sy as int, n as int),
{
    proof {
        lemma_mul_bounds(n as int, a.x as int, POLY_MAX as int, MAX_COORD as int);
        lemma_mul_bounds(n as int, a.y as int, POLY_MAX as int, MAX_COORD as int);
        lemma_mul_bounds(n as int, b.x as int, POLY_MAX as int, MAX_COORD as int);
        lemma_mul_bounds(n as int, b.y as int, POLY_MAX as int, MAX_COORD as int);
    }
    let ax: i128 = n as i128 * a.x as i128 - sx;
    let ay: i128 = n as i128 * a.y as i128 - sy;
    let bx: i128 = n as i128 * b.x as i128 - sx;
    let by: i128 = n as i128 * b.y as i128 - sy;
    proof {
        lemma_mul_bounds(ax as int, by as int, PIV_MAX as int, PIV_MAX as int);
        lemma_mul_bounds(ay as int, bx as int, PIV_MAX as int, PIV_MAX as int);
        lemma_mul_bounds(ax as int, ax as int, PIV_MAX as int, PIV_MAX as int);
        lemma_mul_bounds(ay as int, ay as int, PIV_MAX as int, PIV_MAX as int);
        lemma_mul_bounds(bx as int, bx as int, PIV_MAX as int, PIV_MAX as int);
        lemma_mul_bounds(by as int, by as int, PIV_MAX as int, PIV_MAX as int);
    }
    let ga: u8 = if ay == 0 && ax < 0 {
        0
    } else if ay > 0 {
        1
    } else if ay == 0 {
        2
    } else {
        3
    };
    let gb: u8 = if by == 0 && bx < 0 {
        0
    } else if by > 0 {
        1
    } else if by == 0 {
        2
    } else {
        3
    };
    if ga != gb {
        ga < gb
    } else if ga == 1 || ga == 3 {
        let cr: i128 = ax * by - ay * bx;
        cr < 0 || (cr == 0 && ax * ax + ay * ay >= bx * bx + by * by)
    } else {
        ax * ax + ay * ay >= bx * bx + by * by
    }
}

/// Sorts points clockwise around the pivot `(sx / n, sy / n)` by repeated
/// selection of a least remaining element; the result is a permutation of
/// the input.
fn sort_clockwise(input: Vec<Point>, sx: i128, sy: i128) -> (out: Vec<Point>)
    requires
        1 <= input@.len() <= POLY_MAX,
        forall|i: int| #![trigger input@[i]] 0 <= i < input@.len() ==> wf_point(input@[i]),
        -(input@.len() as int) * (MAX_COORD as int) <= sx <= (input@.len() as int) * (
        MAX_COORD as int),
        -(input@.len() as int) * (MAX_COORD as int) <= sy <= (input@.len() as int) * (
        MAX_COORD as int),
    ensures
        out@.len() == input@.len(),
        out@.to_multiset() == input@.to_multiset(),
        sorted_clockwise(out@, sx as int, sy as int, input@.len() as int),
        forall|i: int| #![trigger out@[i]] 0 <= i < out@.len() ==> wf_point(out@[i]),
{
    let n = input.len();
    let ghost gsx = sx as int;
    let ghost gn0 = n;
    let ghost gsy = sy as int;
    let ghost gn = input@.len() as int;
    let mut rem = input;
    let mut out: Vec<Point> = Vec::new();
    proof {
        broadcast use vstd::seq_lib::group_to_multiset_ensures;

        assert(out@.to_multiset().add(rem@.to_multiset()) =~= input@.to_multiset());
    }
    while rem.len() > 0
        invariant
            gsx == sx as int,
            gsy == sy as int,
            gn == input@.len() as int,
            n as int == gn,
            1 <= gn <= POLY_MAX,
            -gn * (MAX_COORD as int) <= sx <= gn * (MAX_COORD as int),
            -gn * (MAX_COORD as int) <= sy <= gn * (MAX_COORD as int),
            out@.len() + rem@.len() == gn,
            out@.to_multiset().add(rem@.to_multiset()) == input@.to_multiset(),
            forall|i: int| #![trigger rem@[i]] 0 <= i < rem@.len() ==> wf_point(rem@[i]),
            forall|i: int| #![trigger out@[i]] 0 <= i < out@.len() ==> wf_point(out@[i]),
            sorted_clockwise(out@, gsx, gsy, gn),
            forall|i: int, j: int|
                0 <= i < out@.len() && 0 <= j < rem@.len() ==> #[trigger] clock_le(
                    out@[i],
                    rem@[j],
                    gsx,
                    gsy,
                    gn,
                ),
        decreases rem@.len(),
    {
        let m = rem.len();
        let mut best: usize = 0;
        let mut q: usize = 1;
        while q < m
            invariant
                gsx == sx as int,
                gsy == sy as int,
                m == rem@.len(),
                1 <= m,
                gn == input@.len() as int,
                n as int == gn,
                1 <= gn <= POLY_MAX,
                m <= gn,
                -gn * (MAX_COORD as int) <= sx <= gn * (MAX_COORD as int),
                -gn * (MAX_COORD as int) <= sy <= gn * (MAX_COORD as int),
                forall|i: int| #![trigger rem@[i]] 0 <= i < rem@.len() ==> wf_point(rem@[i]),
                0 <= best < m,
                1 <= q <= m,
                forall|t: int|
                    0 <= t < q ==> #[trigger] clock_le(rem@[best as int], rem@[t], gsx, gsy, gn),
            decreases m - q,
        {
            let rb = rem[best];
            let rq = rem[q];
            if !clock_le_exec(&rb, &rq, sx, sy, n) {
                proof {
                    lemma_clock_total(
                        piv_x(rb, gsx, gn),
                        piv_y(rb, gsy, gn),
                        piv_x(rq, gsx, gn),
                        piv_y(rq, gsy, gn),
                    );
                    assert(clock_le(rq, rb, gsx, gsy, gn));
                    assert forall|t: int| 0 <= t < q + 1 implies #[trigger] clock_le(
                        rem@[q as int],
                        rem@[t],
                        gsx,
                        gsy,
                        gn,
                    ) by {
                        if t < q {
                            assert(clock_le(rem@[best as int], rem@[t], gsx, gsy, gn));
                            lemma_clock_trans(
                                piv_x(rem@[q as int], gsx, gn),
                                piv_y(rem@[q as int], gsy, gn),
                                piv_x(rem@[best as int], gsx, gn),
                                piv_y(rem@[best as int], gsy, gn),
                                piv_x(rem@[t], gsx, gn),
                                piv_y(rem@[t], gsy, gn),
                            );
                        } else if t == q {
                            lemma_clock_total(
                                piv_x(rem@[t], gsx, gn),
                                piv_y(rem@[t], gsy, gn),
                                piv_x(rem@[t], gsx, gn),
                                piv_y(rem@[t], gsy, gn),
                            );
                        }
                    }
                }
                best = q;
            }
            q = q + 1;
        }
        let chosen = rem[best];
        let ghost old_out = out@;
        let ghost old_rem = rem@;
        out.push(chosen);
        let _ = rem.remove(best);
        proof {
            broadcast use vstd::seq_lib::group_to_multiset_ensures;

            assert(old_rem.contains(old_rem[best as int]));
            assert(out@.to_multiset() =~= old_out.to_multiset().insert(chosen));
            assert(rem@.to_multiset() =~= old_rem.to_multiset().remove(chosen));
            assert(out@.to_multiset().add(rem@.to_multiset()) =~= old_out.to_multiset().add(
                old_rem.to_multiset(),
            ));
            assert forall|i: int, j: int|
                0 <= i < out@.len() && 0 <= j < rem@.len() implies #[trigger] clock_le(
                out@[i],
                rem@[j],
                gsx,
                gsy,
                gn,
            ) by {
                let rj = rem@[j];
                assert(rj == if j < best as int {
                    old_rem[j]
                } else {
                    old_rem[j + 1]
                });
                assert(clock_le(chosen, rj, gsx, gsy, gn));
                if i < out@.len() - 1 {
                    assert(clock_le(out@[i], chosen, gsx, gsy, gn));
                    lemma_clock_trans(
                        piv_x(out@[i], gsx, gn),
                        piv_y(out@[i], gsy, gn),
                        piv_x(chosen, gsx, gn),
                        piv_y(chosen, gsy, gn),
                        piv_x(rj, gsx, gn),
                        piv_y(rj, gsy, gn),
                    );
                }
            }
        }
    }
    proof {
        broadcast use vstd::seq_lib::group_to_multiset_ensures;

        assert(rem@.to_multiset() =~= Multiset::<Point>::empty());
        assert(out@.to_multiset().add(rem@.to_multiset()) =~= out@.to_multiset());
        assert(out@.len() == out@.to_multiset().len());
        assert(input@.len() == input@.to_multiset().len());
    }
    out
}


/// An ordered polygon: vertices sorted clockwise around the centroid of
/// the raw point set, and the wraparound edges connecting them.
/// Constructed fresh from an unordered point set; never mutated.
#[derive(Clone, Debug)]
pub struct Polygon {
    pub points: Vec<Point>,
    pub lines: Vec<Line>,
}

/// A structurally sound polygon: as many edges as vertices, each edge
/// connecting a vertex to its successor around the ring.
pub open spec fn wf_polygon(pg: Polygon) -> bool {
    &&& 1 <= pg.points@.len() <= POLY_MAX
    &&& pg.lines@.len() == pg.points@.len()
    &&& forall|i: int|
        #![trigger pg.points@[i]]
        0 <= i < pg.points@.len() ==> wf_point(pg.points@[i])
    &&& forall|i: int|
        #![trigger pg.lines@[i]]
        0 <= i < pg.lines@.len() ==> pg.lines@[i].point1 == pg.points@[i]
            && pg.lines@[i].point2 == pg.points@[(i + 1) % (pg.points@.len() as int)]
}

/// Sums both coordinates of a point sequence.
fn coord_sums(pts: &Vec<Point>) -> (r: (i128, i128))
    requires
        pts@.len() <= POLY_MAX,
        forall|i: int| #![trigger pts@[i]] 0 <= i < pts@.len() ==> wf_point(pts@[i]),
    ensures
        r.0 == sum_x(pts@),
        r.1 == sum_y(pts@),
        -(pts@.len() as int) * (MAX_COORD as int) <= r.0 <= (pts@.len() as int) * (
        MAX_COORD as int),
        -(pts@.len() as int) * (MAX_COORD as int) <= r.1 <= (pts@.len() as int) * (
        MAX_COORD as int),
{
    let n = pts.len();
    let mut sx: i128 = 0;
    let mut sy: i128 = 0;
    let mut k: usize = 0;
    while k < n
        invariant
            n == pts@.len(),
            n <= POLY_MAX,
            0 <= k <= n,
            forall|i: int| #![trigger pts@[i]] 0 <= i < pts@.len() ==> wf_point(pts@[i]),
            sx == sum_x(pts@.subrange(0, k as int)),
            sy == sum_y(pts@.subrange(0, k as int)),
            -(k as int) * (MAX_COORD as int) <= sx <= (k as int) * (MAX_COORD as int),
            -(k as int) * (MAX_COORD as int) <= sy <= (k as int) * (MAX_COORD as int),
        decreases n - k,
    {
        let pt = pts[k];
        proof {
            let pre = pts@.subrange(0, k as int);
            let post = pts@.subrange(0, k as int + 1);
            assert(post.drop_last() =~= pre);
            assert(post.last() == pts@[k as int]);
            assert((k as int + 1) * (MAX_COORD as int) == (k as int) * (MAX_COORD as int)
                + MAX_COORD) by (nonlinear_arith);
        }
        sx = sx + pt.x as i128;
        sy = sy + pt.y as i128;
        k = k + 1;
    }
    proof {
        assert(pts@.subrange(0, n as int) =~= pts@);
    }
    (sx, sy)
}

impl Polygon {
    /// Builds a polygon from an unordered, non-empty point set: the points
    /// are sorted clockwise around their exact centroid (ties broken by
    /// decreasing distance, so coincident points stay deterministically
    /// ordered), and the wraparound edge list connects the sorted ring.
    pub fn new(points: Vec<Point>) -> (r: Polygon)
        requires
            1 <= points@.len() <= POLY_MAX,
            forall|i: int| #![trigger points@[i]] 0 <= i < points@.len() ==> wf_point(points@[i]),
        ensures
            r.points@.len() == points@.len(),
            r.points@.to_multiset() == points@.to_multiset(),
            sorted_clockwise(r.points@, sum_x(points@), sum_y(points@), points@.len() as int),
            wf_polygon(r),
    {
        let (sx, sy) = coord_sums(&points);
        let sorted = sort_clockwise(points, sx, sy);
        let lines = ring_lines(&sorted);
        Polygon { points: sorted, lines }
    }
}

/// Builds the wraparound edge list of a vertex ring.
fn ring_lines(pts: &Vec<Point>) -> (lines: Vec<Line>)
    requires
        1 <= pts@.len() <= POLY_MAX,
    ensures
        lines@.len() == pts@.len(),
        forall|k: int|
            #![trigger lines@[k]]
            0 <= k < lines@.len() ==> lines@[k].point1 == pts@[k] && lines@[k].point2 == pts@[(k
                + 1) % (pts@.len() as int)],
{
    let n = pts.len();
    let mut lines: Vec<Line> = Vec::new();
    let mut i: usize = 0;
    while i < n
        invariant
            n == pts@.len(),
            0 <= i <= n,
            1 <= n <= POLY_MAX,
            lines@.len() == i,
            forall|k: int|
                #![trigger lines@[k]]
                0 <= k < i ==> lines@[k].point1 == pts@[k] && lines@[k].point2 == pts@[(k + 1) % (
                n as int)],
        decreases n - i,
    {
        let succ: usize = if i + 1 == n {
            0
        } else {
            i + 1
        };
        proof {
            if succ == 0 {
                lemma_mod_self_0(n as int);
            } else {
                lemma_small_mod((i + 1) as nat, n as nat);
            }
            assert((i as int + 1) % (n as int) == succ as int);
        }
        lines.push(Line { point1: pts[i], point2: pts[succ] });
        i = i + 1;
    }
    lines
}

/// The running shoelace sum over the first `k` edges: each edge
/// contributes the cross product of its two endpoints' position vectors.
pub open spec fn shoelace_upto(s: Seq<Point>, k: int) -> int
    decreases k,
{
    if k <= 0 {
        0
    } else {
        let n = s.len() as int;
        shoelace_upto(s, k - 1) + cross(s[k - 1].x as int, s[k - 1].y as int, s[k % n].x as int, s[k % n].y as int)
    }
}

/// The full shoelace sum of the vertex ring: twice the signed area.
pub open spec fn shoelace(s: Seq<Point>) -> int {
    shoelace_upto(s, s.len() as int)
}

impl Polygon {
    /// The signed shoelace sum of the vertex ring.
    fn shoelace_exec(&self) -> (r: i128)
        requires
            wf_polygon(*self),
        ensures
            r == shoelace(self.points@),
            -(self.points@.len() as int) * 8 * (MAX_COORD as int) * (MAX_COORD as int) <= r,
            r <= (self.points@.len() as int) * 8 * (MAX_COORD as int) * (MAX_COORD as int),
    {
        let n = self.points.len();
        let mut acc: i128 = 0;
        let mut k: usize = 0;
        while k < n
            invariant
                wf_polygon(*self),
                n == self.points@.len(),
                0 <= k <= n,
                acc == shoelace_upto(self.points@, k as int),
                -(k as int) * 8 * (MAX_COORD as int) * (MAX_COORD as int) <= acc,
                acc <= (k as int) * 8 * (MAX_COORD as int) * (MAX_COORD as int),
            decreases n - k,
        {
            let succ: usize = if k + 1 == n {
                0
            } else {
                k + 1
            };
            proof {
                if succ == 0 {
                    lemma_mod_self_0(n as int);
                } else {
                    lemma_small_mod((k + 1) as nat, n as nat);
                }
                assert((k as int + 1) % (n as int) == succ as int);
            }
            let a = self.points[k];
            let b = self.points[succ];
            proof {
                lemma_mul_bounds(a.x as int, b.y as int, MAX_COORD as int, MAX_COORD as int);
                lemma_mul_bounds(a.y as int, b.x as int, MAX_COORD as int, MAX_COORD as int);
            }
            let term: i128 = a.x as i128 * b.y as i128 - a.y as i128 * b.x as i128;
            proof {
                assert(-8 * (MAX_COORD as int) * (MAX_COORD as int) <= term <= 8 * (
                MAX_COORD as int) * (MAX_COORD as int)) by (nonlinear_arith)
                    requires
                        term == a.x * b.y - a.y * b.x,
                        wf_point(a),
                        wf_point(b),
                ;
                assert((k as int + 1) * 8 * (MAX_COORD as int) * (MAX_COORD as int) == (k as int)
                    * 8 * (MAX_COORD as int) * (MAX_COORD as int) + 8 * (MAX_COORD as int) * (
                MAX_COORD as int)) by (nonlinear_arith);
            }
            acc = acc + term;
            k = k + 1;
        }
        acc
    }

    /// Twice the polygon's area, exactly: the absolute shoelace sum of the
    /// clockwise vertex ring.
    pub fn area_doubled(&self) -> (r: i128)
        requires
            wf_polygon(*self),
        ensures
            r == abs(shoelace(self.points@)),
            r <= (self.points@.len() as int) * 8 * (MAX_COORD as int) * (MAX_COORD as int),
    {
        let sl = self.shoelace_exec();
        if sl >= 0 {
            sl
        } else {
            -sl
        }
    }

    /// The polygon's area in squared units, rounded to the nearest unit.
    pub fn area(&self) -> (r: i128)
        requires
            wf_polygon(*self),
        ensures
            r == div_round(abs(shoelace(self.points@)) as int, 2),
    {
        let d = self.area_doubled();
        proof {
            assert((self.points@.len() as int) * 8 * (MAX_COORD as int) * (MAX_COORD as int)
                <= MAX_DIV_OPERAND) by (nonlinear_arith)
                requires
                    self.points@.len() <= POLY_MAX,
                    MAX_COORD == 67000000,
                    POLY_MAX == 1000000,
                    MAX_DIV_OPERAND == 0x1000000000000000000000000000000,
            ;
        }
        div_round_i128(d, 2)
    }
}

/// The greatest squared distance between any two vertices among the first
/// `k` of the ring.
pub open spec fn max_pair_dsq(s: Seq<Point>, k: int) -> int
    decreases k,
{
    if k <= 0 {
        0
    } else {
        max(max_dist_sq(s.subrange(0, k - 1), s[k - 1]), max_pair_dsq(s, k - 1))
    }
}

impl Polygon {
    /// The polygon's maximum width: the greatest distance between any two
    /// of its vertices, rounded down to whole units.
    pub fn max_width(&self) -> (r: i64)
        requires
            wf_polygon(*self),
        ensures
            r == sqrt_floor(max_pair_dsq(self.points@, self.points@.len() as int) as nat),
            0 <= r <= 3 * MAX_COORD,
    {
        let n = self.points.len();
        let mut md: i128 = 0;
        let mut i: usize = 0;
        while i < n
            invariant
                wf_polygon(*self),
                n == self.points@.len(),
                0 <= i <= n,
                md == max_pair_dsq(self.points@, i as int),
                0 <= md <= 8 * (MAX_COORD as int) * (MAX_COORD as int),
            decreases n - i,
        {
            let pi = self.points[i];
            let mut j: usize = 0;
            while j < i
                invariant
                    wf_polygon(*self),
                    n == self.points@.len(),
                    0 <= j <= i < n,
                    pi == self.points@[i as int],
                    md == max(
                        max_dist_sq(self.points@.subrange(0, j as int), pi),
                        max_pair_dsq(self.points@, i as int),
                    ),
                    0 <= md <= 8 * (MAX_COORD as int) * (MAX_COORD as int),
                decreases i - j,
            {
                let d = pi.distance_squared(&self.points[j]);
                proof {
                    let pre = self.points@.subrange(0, j as int);
                    let post = self.points@.subrange(0, j as int + 1);
                    assert(post.drop_last() =~= pre);
                    assert(post.last() == self.points@[j as int]);
                    assert(d <= 8 * (MAX_COORD as int) * (MAX_COORD as int)) by (nonlinear_arith)
                        requires
                            d == dist_sq(pi, self.points@[j as int]),
                            wf_point(pi),
                            wf_point(self.points@[j as int]),
                    ;
                }
                if d > md {
                    md = d;
                }
                j = j + 1;
            }
            proof {
                assert(max_pair_dsq(self.points@, i as int + 1) == max(
                    max_dist_sq(self.points@.subrange(0, i as int), self.points@[i as int]),
                    max_pair_dsq(self.points@, i as int),
                ));
            }
            i = i + 1;
        }
        let r = isqrt_u128(md as u128);
        proof {
            crate::geom::lemma_sqrt_floor_unique(md as nat, r as nat);
            assert(r <= 3 * MAX_COORD) by (nonlinear_arith)
                requires
                    r * r <= md,
                    md <= 8 * (MAX_COORD as int) * (MAX_COORD as int),
                    MAX_COORD == 67000000,
            ;
        }
        r as i64
    }
}


/// The running x weight of the area-weighted centroid over the first `k`
/// edges: each edge contributes its endpoints' x sum times its shoelace
/// cross product.
pub open spec fn cweight_x_upto(s: Seq<Point>, k: int) -> int
    decreases k,
{
    if k <= 0 {
        0
    } else {
        let n = s.len() as int;
        cweight_x_upto(s, k - 1) + (s[k - 1].x + s[k % n].x) * cross(
            s[k - 1].x as int,
            s[k - 1].y as int,
            s[k % n].x as int,
            s[k % n].y as int,
        )
    }
}

/// The running y weight of the area-weighted centroid.
pub open spec fn cweight_y_upto(s: Seq<Point>, k: int) -> int
    decreases k,
{
    if k <= 0 {
        0
    } else {
        let n = s.len() as int;
        cweight_y_upto(s, k - 1) + (s[k - 1].y + s[k % n].y) * cross(
            s[k - 1].x as int,
            s[k - 1].y as int,
            s[k % n].x as int,
            s[k % n].y as int,
        )
    }
}

/// The polygon's center: the area-weighted centroid for three or more
/// vertices with nonzero area (whenever it lies in the coordinate range),
/// and the plain vertex mean otherwise — which is the midpoint for two
/// vertices and the point itself for one.
pub open spec fn polygon_center(s: Seq<Point>) -> Point {
    let n = s.len() as int;
    let sl = shoelace(s);
    let den = 3 * abs(sl) as int;
    let numx = if sl >= 0 {
        cweight_x_upto(s, n)
    } else {
        -cweight_x_upto(s, n)
    };
    let numy = if sl >= 0 {
        cweight_y_upto(s, n)
    } else {
        -cweight_y_upto(s, n)
    };
    if n >= 3 && sl != 0 && -(MAX_COORD as int) * den <= numx <= (MAX_COORD as int) * den && -(
    MAX_COORD as int) * den <= numy <= (MAX_COORD as int) * den {
        Point { x: div_round(numx, den) as i64, y: div_round(numy, den) as i64 }
    } else {
        centroid(s)
    }
}

impl Polygon {
    /// The running centroid weights of the whole ring.
    fn cweights_exec(&self) -> (r: (i128, i128))
        requires
            wf_polygon(*self),
        ensures
            r.0 == cweight_x_upto(self.points@, self.points@.len() as int),
            r.1 == cweight_y_upto(self.points@, self.points@.len() as int),
            abs(r.0 as int) <= (self.points@.len() as int) * 16 * (MAX_COORD as int) * (
            MAX_COORD as int) * (MAX_COORD as int),
            abs(r.1 as int) <= (self.points@.len() as int) * 16 * (MAX_COORD as int) * (
            MAX_COORD as int) * (MAX_COORD as int),
    {
        let n = self.points.len();
        let ghost m3 = 16 * (MAX_COORD as int) * (MAX_COORD as int) * (MAX_COORD as int);
        proof {
            assert(m3 == 4812208000000000000000000) by (nonlinear_arith)
                requires
                    m3 == 16 * (MAX_COORD as int) * (MAX_COORD as int) * (MAX_COORD as int),
                    MAX_COORD == 67000000,
            ;
        }
        let mut wx: i128 = 0;
        let mut wy: i128 = 0;
        let mut k: usize = 0;
        while k < n
            invariant
                wf_polygon(*self),
                n == self.points@.len(),
                m3 == 16 * (MAX_COORD as int) * (MAX_COORD as int) * (MAX_COORD as int),
                m3 == 4812208000000000000000000,
                0 <= k <= n,
                wx == cweight_x_upto(self.points@, k as int),
                wy == cweight_y_upto(self.points@, k as int),
                abs(wx as int) <= (k as int) * m3,
                abs(wy as int) <= (k as int) * m3,
            decreases n - k,
        {
            let succ: usize = if k + 1 == n {
                0
            } else {
                k + 1
            };
            proof {
                if succ == 0 {
                    lemma_mod_self_0(n as int);
                } else {
                    lemma_small_mod((k + 1) as nat, n as nat);
                }
                assert((k as int + 1) % (n as int) == succ as int);
            }
            let a = self.points[k];
            let b = self.points[succ];
            proof {
                lemma_mul_bounds(a.x as int, b.y as int, MAX_COORD as int, MAX_COORD as int);
                lemma_mul_bounds(a.y as int, b.x as int, MAX_COORD as int, MAX_COORD as int);
            }
            let cr: i128 = a.x as i128 * b.y as i128 - a.y as i128 * b.x as i128;
            let axbx: i128 = a.x as i128 + b.x as i128;
            let ayby: i128 = a.y as i128 + b.y as i128;
            proof {
                assert(abs(axbx * cr) <= m3 && abs(ayby * cr) <= m3) by (nonlinear_arith)
                    requires
                        cr == a.x * b.y - a.y * b.x,
                        axbx == a.x + b.x,
                        ayby == a.y + b.y,
                        wf_point(a),
                        wf_point(b),
                        m3 == 16 * (MAX_COORD as int) * (MAX_COORD as int) * (MAX_COORD as int),
                        MAX_COORD == 67000000,
                ;
                assert((k as int + 1) * m3 == (k as int) * m3 + m3) by (nonlinear_arith);
            }
            let tx: i128 = axbx * cr;
            let ty: i128 = ayby * cr;
            wx = wx + tx;
            wy = wy + ty;
            k = k + 1;
        }
        proof {
            assert((n as int) * m3 == (n as int) * 16 * (MAX_COORD as int) * (MAX_COORD as int) * (
            MAX_COORD as int)) by (nonlinear_arith)
                requires
                    m3 == 16 * (MAX_COORD as int) * (MAX_COORD as int) * (MAX_COORD as int),
            ;
        }
        (wx, wy)
    }

    /// The polygon's center point.
    pub fn center(&self) -> (r: Point)
        requires
            wf_polygon(*self),
        ensures
            r == polygon_center(self.points@),
            wf_point(r),
    {
        let n = self.points.len();
        let sl = self.shoelace_exec();
        if n >= 3 && sl != 0 {
            let (wx, wy) = self.cweights_exec();
            let den: i128 = if sl >= 0 {
                3 * sl
            } else {
                3 * -sl
            };
            let numx: i128 = if sl >= 0 {
                wx
            } else {
                -wx
            };
            let numy: i128 = if sl >= 0 {
                wy
            } else {
                -wy
            };
            proof {
                lemma_mul_bounds(MAX_COORD as int, den as int, MAX_COORD as int, 24 * (
                POLY_MAX as int) * (MAX_COORD as int) * (MAX_COORD as int));
            }
            let bound: i128 = MAX_COORD as i128 * den;
            if -bound <= numx && numx <= bound && -bound <= numy && numy <= bound {
                proof {
                    crate::rat::lemma_round_in_range(numx as int, den as int);
                    crate::rat::lemma_round_in_range(numy as int, den as int);
                    assert((self.points@.len() as int) * 16 * (MAX_COORD as int) * (
                    MAX_COORD as int) * (MAX_COORD as int) <= MAX_DIV_OPERAND && 3 * (
                    self.points@.len() as int) * 8 * (MAX_COORD as int) * (MAX_COORD as int)
                        <= MAX_DIV_OPERAND) by (nonlinear_arith)
                        requires
                            self.points@.len() <= POLY_MAX,
                            MAX_COORD == 67000000,
                            POLY_MAX == 1000000,
                            MAX_DIV_OPERAND == 0x1000000000000000000000000000000,
                    ;
                }
                let cx = div_round_i128(numx, den);
                let cy = div_round_i128(numy, den);
                Point { x: cx as i64, y: cy as i64 }
            } else {
                self.vertex_mean()
            }
        } else {
            self.vertex_mean()
        }
    }

    /// The plain mean of the vertices, rounded to the nearest unit.
    fn vertex_mean(&self) -> (r: Point)
        requires
            wf_polygon(*self),
        ensures
            r == centroid(self.points@),
            wf_point(r),
    {
        let n = self.points.len();
        let (sx, sy) = coord_sums(&self.points);
        proof {
            crate::rat::lemma_round_in_range(sx as int, n as int);
            crate::rat::lemma_round_in_range(sy as int, n as int);
            assert(-(MAX_COORD as int) * (n as int) <= sx <= (MAX_COORD as int) * (n as int)
                && -(MAX_COORD as int) * (n as int) <= sy <= (MAX_COORD as int) * (n as int))
                by (nonlinear_arith)
                requires
                    -(n as int) * (MAX_COORD as int) <= sx <= (n as int) * (MAX_COORD as int),
                    -(n as int) * (MAX_COORD as int) <= sy <= (n as int) * (MAX_COORD as int),
            ;
        }
        let cx = div_round_i128(sx, n as i128);
        let cy = div_round_i128(sy, n as i128);
        Point { x: cx as i64, y: cy as i64 }
    }
}


/// Largest vertex count `shrink` accepts: its candidate set is quadratic
/// in the edge count and must stay within a polygon's capacity.
pub const SHRINK_MAX: usize = 1000;

/// Largest inward margin `shrink` accepts.
pub const SHRINK_MARGIN_MAX: i64 = 1000000;

/// An edge that can be pushed inward: nondegenerate, with enough
/// coordinate headroom for the translation.
pub open spec fn shrinkable_edge(l: Line, margin: int) -> bool {
    &&& l.point1 != l.point2
    &&& abs(l.point1.x as int) + margin + 1 <= MAX_COORD
    &&& abs(l.point1.y as int) + margin + 1 <= MAX_COORD
    &&& abs(l.point2.x as int) + margin + 1 <= MAX_COORD
    &&& abs(l.point2.y as int) + margin + 1 <= MAX_COORD
}

/// An edge of a clockwise ring pushed toward the interior: offset to the
/// right of its direction.
pub open spec fn offset_edge(l: Line, margin: int) -> Line {
    crate::line::translate_line(l, l.offset_x(margin, false), l.offset_y(margin, false))
}

/// The inward offsets of the first `k` edges that admit one.
#[verifier::opaque]
pub open spec fn offset_edges(s: Seq<Line>, margin: int, k: int) -> Seq<Line>
    decreases k,
{
    if k <= 0 {
        Seq::empty()
    } else {
        offset_edges(s, margin, k - 1) + (if shrinkable_edge(s[k - 1], margin) {
            seq![offset_edge(s[k - 1], margin)]
        } else {
            Seq::empty()
        })
    }
}

/// Whether the segment from `c` to `q` is crossed by the segment `l`.
pub open spec fn seg_blocked(c: Point, q: Point, l: Line) -> bool {
    c != q && crate::line::inter_exists(Line { point1: c, point2: q }, l, true)
}

/// Whether `q` can be joined to the center without crossing any offset
/// edge other than the two that produced it.
pub open spec fn visible_from(off: Seq<Line>, c: Point, q: Point, i: int, j: int) -> bool {
    forall|k: int|
        0 <= k < off.len() && k != i && k != j ==> !seg_blocked(c, q, #[trigger] off[k])
}

/// Whether `q` lies on the interior side of every offset edge of the
/// clockwise ring: to the right of each directed edge, boundary included.
/// A margin wider than the region leaves no such point, and the erosion
/// reports that it eliminated the polygon.
pub open spec fn in_offset_interior(off: Seq<Line>, q: Point) -> bool {
    forall|k: int|
        0 <= k < off.len() ==> cross(
            crate::line::dir_x(#[trigger] off[k]),
            crate::line::dir_y(off[k]),
            q.x - off[k].point1.x,
            q.y - off[k].point1.y,
        ) <= 0
}

/// A singleton or empty sequence from an optional point.
pub open spec fn opt_pt_seq(o: Option<Point>) -> Seq<Point> {
    match o {
        Some(p) => seq![p],
        None => Seq::empty(),
    }
}

/// The candidate the offset edges `i` and `j` contribute: their rounded
/// intersection, kept when it lies in range and is visible from `c`.
pub open spec fn shrink_cand(off: Seq<Line>, c: Point, i: int, j: int) -> Option<Point> {
    if crate::line::inter_exists(off[i], off[j], false) && crate::line::inter_in_range(
        off[i],
        off[j],
    ) {
        let q = Point {
            x: crate::line::inter_round_x(off[i], off[j]) as i64,
            y: crate::line::inter_round_y(off[i], off[j]) as i64,
        };
        if in_offset_interior(off, q) && visible_from(off, c, q, i, j) {
            Some(q)
        } else {
            None
        }
    } else {
        None
    }
}

/// The candidates edge `i` contributes against edges `i + 1 .. j`.
#[verifier::opaque]
pub open spec fn shrink_pair_cands(off: Seq<Line>, c: Point, i: int, j: int) -> Seq<Point>
    decreases j - i,
{
    if j <= i + 1 {
        Seq::empty()
    } else {
        shrink_pair_cands(off, c, i, j - 1) + opt_pt_seq(shrink_cand(off, c, i, j - 1))
    }
}

/// All surviving shrink candidates from the first `i` edges.
#[verifier::opaque]
pub open spec fn shrink_cands(off: Seq<Line>, c: Point, i: int) -> Seq<Point>
    decreases i,
{
    if i <= 0 {
        Seq::empty()
    } else {
        shrink_cands(off, c, i - 1) + shrink_pair_cands(off, c, i - 1, off.len() as int)
    }
}

/// Edge `i` contributes at most `j - i - 1` candidates.
proof fn lemma_shrink_pair_cands_len(off: Seq<Line>, c: Point, i: int, j: int)
    ensures
        shrink_pair_cands(off, c, i, j).len() <= (if j >= i + 1 {
            j - i - 1
        } else {
            0
        }),
    decreases j - i,
{
    reveal(shrink_pair_cands);
    if j > i + 1 {
        lemma_shrink_pair_cands_len(off, c, i, j - 1);
    }
}

/// The first `i` edges contribute at most `i * off.len()` candidates.
proof fn lemma_shrink_cands_len(off: Seq<Line>, c: Point, i: int)
    requires
        0 <= i,
    ensures
        shrink_cands(off, c, i).len() <= i * off.len(),
    decreases i,
{
    reveal(shrink_cands);
    if i > 0 {
        lemma_shrink_cands_len(off, c, i - 1);
        lemma_shrink_pair_cands_len(off, c, i - 1, off.len() as int);
        assert((i - 1) * off.len() + off.len() == i * off.len()) by (nonlinear_arith);
    }
}

/// Decides the interior half-plane test at run time.
fn in_offset_interior_exec(off: &Vec<Line>, q: Point) -> (r: bool)
    requires
        forall|k: int| #![trigger off@[k]] 0 <= k < off@.len() ==> wf_line(off@[k]),
        wf_point(q),
    ensures
        r == in_offset_interior(off@, q),
{
    let n = off.len();
    let mut k: usize = 0;
    while k < n
        invariant
            n == off@.len(),
            0 <= k <= n,
            forall|t: int| #![trigger off@[t]] 0 <= t < off@.len() ==> wf_line(off@[t]),
            wf_point(q),
            forall|t: int|
                0 <= t < k ==> cross(
                    crate::line::dir_x(#[trigger] off@[t]),
                    crate::line::dir_y(off@[t]),
                    q.x - off@[t].point1.x,
                    q.y - off@[t].point1.y,
                ) <= 0,
        decreases n - k,
    {
        let l = off[k];
        proof {
            lemma_mul_bounds(
                l.point2.x - l.point1.x,
                q.y - l.point1.y,
                2 * MAX_COORD as int,
                2 * MAX_COORD as int,
            );
            lemma_mul_bounds(
                l.point2.y - l.point1.y,
                q.x - l.point1.x,
                2 * MAX_COORD as int,
                2 * MAX_COORD as int,
            );
        }
        let cr: i128 = (l.point2.x as i128 - l.point1.x as i128) * (q.y as i128
            - l.point1.y as i128) - (l.point2.y as i128 - l.point1.y as i128) * (q.x as i128
            - l.point1.x as i128);
        if cr > 0 {
            return false;
        }
        k = k + 1;
    }
    true
}

/// Decides visibility from the center at run time.
fn visible_from_exec(off: &Vec<Line>, c: Point, q: Point, i: usize, j: usize) -> (r: bool)
    requires
        forall|k: int| #![trigger off@[k]] 0 <= k < off@.len() ==> wf_line(off@[k]),
        wf_point(c),
        wf_point(q),
    ensures
        r == visible_from(off@, c, q, i as int, j as int),
{
    if c == q {
        return true;
    }
    let cq = Line { point1: c, point2: q };
    let n = off.len();
    let mut k: usize = 0;
    while k < n
        invariant
            n == off@.len(),
            0 <= k <= n,
            forall|t: int| #![trigger off@[t]] 0 <= t < off@.len() ==> wf_line(off@[t]),
            wf_point(c),
            wf_point(q),
            c != q,
            cq == (Line { point1: c, point2: q }),
            forall|t: int|
                0 <= t < k && t != i as int && t != j as int ==> !seg_blocked(
                    c,
                    q,
                    #[trigger] off@[t],
                ),
        decreases n - k,
    {
        if k != i && k != j {
            let hit = cq.intersection_exact(&off[k], true);
            if hit.is_some() {
                return false;
            }
        }
        k = k + 1;
    }
    true
}

impl Polygon {
    /// Erodes the polygon by pushing every edge inward by `margin`,
    /// intersecting the offset edges pairwise, and keeping each
    /// intersection that still lies inside every offset edge's half-plane
    /// and can see the polygon's center past every other offset edge; the
    /// survivors form the eroded polygon.  Returns `None` when the margin
    /// eliminates the region entirely.
    pub fn shrink(&self, margin: i64) -> (r: Option<Polygon>)
        requires
            wf_polygon(*self),
            self.points@.len() <= SHRINK_MAX,
            0 <= margin <= SHRINK_MARGIN_MAX,
        ensures
            ({
                let off = offset_edges(self.lines@, margin as int, self.lines@.len() as int);
                let cands = shrink_cands(off, polygon_center(self.points@), off.len() as int);
                &&& (r is Some <==> cands.len() > 0)
                &&& (r matches Some(pg) ==> pg.points@.len() == cands.len()
                    && pg.points@.to_multiset() == cands.to_multiset() && wf_polygon(pg)
                    && sorted_clockwise(
                    pg.points@,
                    sum_x(cands),
                    sum_y(cands),
                    cands.len() as int,
                ))
            }),
    {
        let c = self.center();
        let n = self.lines.len();
        let ghost gm = margin as int;
        let mut off: Vec<Line> = Vec::new();
        proof {
            reveal(offset_edges);
        }
        let mut k: usize = 0;
        while k < n
            invariant
                wf_polygon(*self),
                n == self.lines@.len(),
                0 <= k <= n,
                0 <= margin <= SHRINK_MARGIN_MAX,
                gm == margin as int,
                off@ == offset_edges(self.lines@, gm, k as int),
                off@.len() <= k,
                forall|t: int| #![trigger off@[t]] 0 <= t < off@.len() ==> wf_line(off@[t]),
            decreases n - k,
        {
            let l = self.lines[k];
            let shrinkable = !(l.point1 == l.point2) && -MAX_COORD + margin + 1 <= l.point1.x
                && l.point1.x <= MAX_COORD - margin - 1 && -MAX_COORD + margin + 1 <= l.point1.y
                && l.point1.y <= MAX_COORD - margin - 1 && -MAX_COORD + margin + 1 <= l.point2.x
                && l.point2.x <= MAX_COORD - margin - 1 && -MAX_COORD + margin + 1 <= l.point2.y
                && l.point2.y <= MAX_COORD - margin - 1;
            proof {
                reveal(offset_edges);
                assert(shrinkable == shrinkable_edge(l, gm));
            }
            if shrinkable {
                let o = l.parallel_line(margin, false);
                proof {
                    assert(o == offset_edge(l, gm));
                }
                off.push(o);
            }
            k = k + 1;
        }
        let m = off.len();
        let ghost offs = off@;
        let mut cands: Vec<Point> = Vec::new();
        proof {
            reveal(shrink_cands);
        }
        let mut i: usize = 0;
        while i < m
            invariant
                m == offs.len(),
                offs == off@,
                m <= n,
                n == self.lines@.len(),
                wf_polygon(*self),
                self.points@.len() <= SHRINK_MAX,
                c == polygon_center(self.points@),
                wf_point(c),
                0 <= i <= m,
                forall|t: int| #![trigger off@[t]] 0 <= t < off@.len() ==> wf_line(off@[t]),
                cands@ == shrink_cands(offs, c, i as int),
                forall|t: int| #![trigger cands@[t]] 0 <= t < cands@.len() ==> wf_point(cands@[t]),
            decreases m - i,
        {
            proof {
                reveal(shrink_pair_cands);
            }
            let mut j: usize = i + 1;
            while j < m
                invariant
                    m == offs.len(),
                    offs == off@,
                    wf_point(c),
                    0 <= i < m,
                    i + 1 <= j <= m,
                    forall|t: int| #![trigger off@[t]] 0 <= t < off@.len() ==> wf_line(off@[t]),
                    cands@ == shrink_cands(offs, c, i as int) + shrink_pair_cands(
                        offs,
                        c,
                        i as int,
                        j as int,
                    ),
                    forall|t: int|
                        #![trigger cands@[t]]
                        0 <= t < cands@.len() ==> wf_point(cands@[t]),
                decreases m - j,
            {
                let ghost before = cands@;
                match off[i].intersection(&off[j], false) {
                    Some(q) => {
                        if in_offset_interior_exec(&off, q) {
                            if visible_from_exec(&off, c, q, i, j) {
                                cands.push(q);
                            }
                        }
                    },
                    None => {},
                }
                proof {
                    reveal(shrink_pair_cands);
                    assert(shrink_pair_cands(offs, c, i as int, j as int + 1)
                        =~= shrink_pair_cands(offs, c, i as int, j as int) + opt_pt_seq(
                        shrink_cand(offs, c, i as int, j as int),
                    ));
                    assert(cands@ =~= before + opt_pt_seq(shrink_cand(offs, c, i as int, j as int)));
                }
                j = j + 1;
            }
            proof {
                reveal(shrink_cands);
                assert(shrink_cands(offs, c, i as int + 1) =~= shrink_cands(offs, c, i as int)
                    + shrink_pair_cands(offs, c, i as int, offs.len() as int));
            }
            i = i + 1;
        }
        if cands.len() == 0 {
            return None;
        }
        proof {
            lemma_shrink_cands_len(offs, c, m as int);
            assert((m as int) * (offs.len() as int) <= POLY_MAX) by (nonlinear_arith)
                requires
                    offs.len() == m,
                    0 <= m <= SHRINK_MAX,
                    SHRINK_MAX == 1000,
                    POLY_MAX == 1000000,
            ;
        }
        Some(Polygon::new(cands))
    }

    /// The turning cross product at vertex `i` of the ring: zero exactly
    /// when the vertex lies on the straight line through its neighbours.
    pub open spec fn turn_at(s: Seq<Point>, i: int) -> int {
        let n = s.len() as int;
        let prev = s[(i + n - 1) % n];
        let cur = s[i];
        let nxt = s[(i + 1) % n];
        cross(
            cur.x - prev.x,
            cur.y - prev.y,
            nxt.x - cur.x,
            nxt.y - cur.y,
        )
    }
}

/// The vertices among the first `k` whose incident edges actually turn.
#[verifier::opaque]
pub open spec fn noncolinear_points(s: Seq<Point>, k: int) -> Seq<Point>
    decreases k,
{
    if k <= 0 {
        Seq::empty()
    } else {
        noncolinear_points(s, k - 1) + (if Polygon::turn_at(s, k - 1) != 0 {
            seq![s[k - 1]]
        } else {
            Seq::empty()
        })
    }
}

impl Polygon {
    /// Drops every vertex that lies exactly on the straight line through
    /// its two ring neighbours and rebuilds the edge list over the kept
    /// vertices, preserving their order.  Returns `None` when every vertex
    /// is colinear.
    pub fn remove_colinear_points(&self) -> (r: Option<Polygon>)
        requires
            wf_polygon(*self),
        ensures
            ({
                let kept = noncolinear_points(self.points@, self.points@.len() as int);
                &&& (r is Some <==> kept.len() > 0)
                &&& (r matches Some(pg) ==> pg.points@ == kept && wf_polygon(pg))
            }),
    {
        let n = self.points.len();
        let mut kept: Vec<Point> = Vec::new();
        proof {
            reveal(noncolinear_points);
        }
        let mut i: usize = 0;
        while i < n
            invariant
                wf_polygon(*self),
                n == self.points@.len(),
                0 <= i <= n,
                kept@ == noncolinear_points(self.points@, i as int),
                kept@.len() <= i,
                forall|t: int| #![trigger kept@[t]] 0 <= t < kept@.len() ==> wf_point(kept@[t]),
            decreases n - i,
        {
            let prev_i: usize = if i == 0 {
                n - 1
            } else {
                i - 1
            };
            let next_i: usize = if i + 1 == n {
                0
            } else {
                i + 1
            };
            proof {
                reveal(noncolinear_points);
                if next_i == 0 {
                    lemma_mod_self_0(n as int);
                } else {
                    lemma_small_mod((i + 1) as nat, n as nat);
                }
                lemma_small_mod(prev_i as nat, n as nat);
                if i > 0 {
                    vstd::arithmetic::div_mod::lemma_mod_add_multiples_vanish(
                        i as int - 1,
                        n as int,
                    );
                }
                assert((i as int + n as int - 1) % (n as int) == prev_i as int);
                assert((i as int + 1) % (n as int) == next_i as int);
            }
            let prev = self.points[prev_i];
            let cur = self.points[i];
            let nxt = self.points[next_i];
            proof {
                lemma_mul_bounds(cur.x - prev.x, nxt.y - cur.y, 2 * MAX_COORD as int, 2
                    * MAX_COORD as int);
                lemma_mul_bounds(cur.y - prev.y, nxt.x - cur.x, 2 * MAX_COORD as int, 2
                    * MAX_COORD as int);
            }
            let turn: i128 = (cur.x as i128 - prev.x as i128) * (nxt.y as i128 - cur.y as i128) - (
            cur.y as i128 - prev.y as i128) * (nxt.x as i128 - cur.x as i128);
            if turn != 0 {
                kept.push(cur);
            }
            i = i + 1;
        }
        if kept.len() == 0 {
            return None;
        }
        let lines = ring_lines(&kept);
        Some(Polygon { points: kept, lines })
    }
}


/// Law: building a polygon over the four corners of an axis-aligned
/// rectangle of positive width `w` and height `h` yields the exact area
/// `w * h` — the clockwise ring's shoelace sum is `-2 * w * h`.  The
/// hypotheses are exactly what `Polygon::new` ensures for the four-corner
/// input `[a, b, c, d]` listed counterclockwise from the lower-left.
pub proof fn lemma_rectangle_area(pts: Seq<Point>, x0: i64, y0: i64, w: i64, h: i64)
    requires
        1 <= w,
        1 <= h,
        in_range(x0 as int),
        in_range(y0 as int),
        in_range(x0 + w),
        in_range(y0 + h),
        pts.len() == 4,
        pts.to_multiset() == rect_corners(x0, y0, w, h).to_multiset(),
        sorted_clockwise(
            pts,
            sum_x(rect_corners(x0, y0, w, h)),
            sum_y(rect_corners(x0, y0, w, h)),
            4,
        ),
    ensures
        abs(shoelace(pts)) == 2 * w * h,
        div_round(abs(shoelace(pts)) as int, 2) == w * h,
{
    let corners = rect_corners(x0, y0, w, h);
    let a = corners[0];
    let b = corners[1];
    let c = corners[2];
    let d = corners[3];
    let sx = sum_x(corners);
    let sy = sum_y(corners);
    assert(sx == 4 * x0 + 2 * w && sy == 4 * y0 + 2 * h) by {
        reveal_with_fuel(sum_x, 5);
        reveal_with_fuel(sum_y, 5);
        assert(corners.drop_last() =~= seq![a, b, c]);
        assert(seq![a, b, c].drop_last() =~= seq![a, b]);
        assert(seq![a, b].drop_last() =~= seq![a]);
        assert(seq![a].drop_last() =~= Seq::<Point>::empty());
    }
    // The pivot-scaled vectors of the four corners.
    assert(piv_x(a, sx, 4) == -2 * w && piv_y(a, sy, 4) == -2 * h) by (nonlinear_arith)
        requires
            a.x == x0 && a.y == y0 && sx == 4 * x0 + 2 * w && sy == 4 * y0 + 2 * h,
    ;
    assert(piv_x(b, sx, 4) == 2 * w && piv_y(b, sy, 4) == -2 * h) by (nonlinear_arith)
        requires
            b.x == x0 + w && b.y == y0 && sx == 4 * x0 + 2 * w && sy == 4 * y0 + 2 * h,
    ;
    assert(piv_x(c, sx, 4) == 2 * w && piv_y(c, sy, 4) == 2 * h) by (nonlinear_arith)
        requires
            c.x == x0 + w && c.y == y0 + h && sx == 4 * x0 + 2 * w && sy == 4 * y0 + 2 * h,
    ;
    assert(piv_x(d, sx, 4) == -2 * w && piv_y(d, sy, 4) == 2 * h) by (nonlinear_arith)
        requires
            d.x == x0 && d.y == y0 + h && sx == 4 * x0 + 2 * w && sy == 4 * y0 + 2 * h,
    ;
    // Their strict clockwise order is d, c, b, a.
    assert(cross(-2 * w, 2 * h, 2 * w, 2 * h) < 0 && cross(2 * w, 2 * h, -2 * w, 2 * h) > 0
        && cross(2 * w, -2 * h, -2 * w, -2 * h) < 0 && cross(-2 * w, -2 * h, 2 * w, -2 * h) > 0)
        by (nonlinear_arith)
        requires
            w >= 1,
            h >= 1,
    ;
    assert(clock_le(d, c, sx, sy, 4) && !clock_le(c, d, sx, sy, 4));
    assert(clock_le(b, a, sx, sy, 4) && !clock_le(a, b, sx, sy, 4));
    assert(!clock_le(b, c, sx, sy, 4) && !clock_le(a, c, sx, sy, 4));
    assert(!clock_le(b, d, sx, sy, 4) && !clock_le(a, d, sx, sy, 4));
    assert(!clock_le(a, b, sx, sy, 4));
    // Each corner occurs in the ring.
    broadcast use vstd::seq_lib::group_to_multiset_ensures;

    assert(corners.contains(a) && corners.contains(b) && corners.contains(c) && corners.contains(
        d,
    ));
    assert(corners.to_multiset().count(a) > 0 && corners.to_multiset().count(b) > 0
        && corners.to_multiset().count(c) > 0 && corners.to_multiset().count(d) > 0);
    assert(pts.to_multiset().count(a) > 0 && pts.to_multiset().count(b) > 0
        && pts.to_multiset().count(c) > 0 && pts.to_multiset().count(d) > 0);
    assert(pts.contains(a) && pts.contains(b) && pts.contains(c) && pts.contains(d));
    let i3 = choose|i: int| 0 <= i < 4 && pts[i] == a;
    let i2 = choose|i: int| 0 <= i < 4 && pts[i] == b;
    let i1 = choose|i: int| 0 <= i < 4 && pts[i] == c;
    let i0 = choose|i: int| 0 <= i < 4 && pts[i] == d;
    // The points are pairwise distinct, and sortedness forbids every
    // out-of-order pair, so the indices are forced.
    assert(a != b && a != c && a != d && b != c && b != d && c != d);
    assert(i0 < i1) by {
        if i1 < i0 {
            assert(clock_le(pts[i1], pts[i0], sx, sy, 4));
        }
    }
    assert(i1 < i2) by {
        if i2 < i1 {
            assert(clock_le(pts[i2], pts[i1], sx, sy, 4));
        }
    }
    assert(i2 < i3) by {
        if i3 < i2 {
            assert(clock_le(pts[i3], pts[i2], sx, sy, 4));
        }
    }
    assert(exists|i: int| 0 <= i < 4 && pts[i] == d);
    assert(exists|i: int| 0 <= i < 4 && pts[i] == c);
    assert(exists|i: int| 0 <= i < 4 && pts[i] == b);
    assert(exists|i: int| 0 <= i < 4 && pts[i] == a);
    assert(0 <= i0 < 4 && pts[i0] == d);
    assert(0 <= i1 < 4 && pts[i1] == c);
    assert(0 <= i2 < 4 && pts[i2] == b);
    assert(0 <= i3 < 4 && pts[i3] == a);
    assert(i0 == 0 && i1 == 1 && i2 == 2 && i3 == 3);
    assert(pts[0] == d && pts[1] == c && pts[2] == b && pts[3] == a);
    assert(pts =~= seq![d, c, b, a]);
    // The shoelace sum of the clockwise rectangle ring.
    reveal_with_fuel(shoelace_upto, 5);
    assert(shoelace(pts) == cross(d.x as int, d.y as int, c.x as int, c.y as int) + cross(
        c.x as int,
        c.y as int,
        b.x as int,
        b.y as int,
    ) + cross(b.x as int, b.y as int, a.x as int, a.y as int) + cross(
        a.x as int,
        a.y as int,
        d.x as int,
        d.y as int,
    ));
    assert(shoelace(pts) == -2 * w * h) by (nonlinear_arith)
        requires
            shoelace(pts) == cross(x0 as int, (y0 + h) as int, (x0 + w) as int, (y0 + h) as int)
                + cross((x0 + w) as int, (y0 + h) as int, (x0 + w) as int, y0 as int) + cross(
                (x0 + w) as int,
                y0 as int,
                x0 as int,
                y0 as int,
            ) + cross(x0 as int, y0 as int, x0 as int, (y0 + h) as int),
            in_range(x0 as int),
            in_range(y0 as int),
            in_range(x0 + w),
            in_range(y0 + h),
    ;
    assert(abs(shoelace(pts)) == 2 * w * h) by (nonlinear_arith)
        requires
            shoelace(pts) == -2 * w * h,
            w >= 1,
            h >= 1,
    ;
    assert(2 * w * h == 2 * ((w * h) as int) && abs(shoelace(pts)) == 2 * ((w * h) as int))
        by (nonlinear_arith)
        requires
            abs(shoelace(pts)) == 2 * w * h,
    ;
    lemma_halving_doubled((w * h) as int);
}

/// The four corners of an axis-aligned rectangle, counterclockwise from
/// the lower-left.
pub open spec fn rect_corners(x0: i64, y0: i64, w: i64, h: i64) -> Seq<Point> {
    seq![
        Point { x: x0, y: y0 },
        Point { x: (x0 + w) as i64, y: y0 },
        Point { x: (x0 + w) as i64, y: (y0 + h) as i64 },
        Point { x: x0, y: (y0 + h) as i64 },
    ]
}

/// Halving an exact doubled quantity recovers it.
proof fn lemma_halving_doubled(n: int)
    requires
        n >= 0,
    ensures
        div_round(2 * n, 2) == n,
{
    assert(div_round(2 * n, 2) == (2 * (2 * n) + 2) / 4);
    assert((2 * (2 * n) + 2) / 4 == n) by (nonlinear_arith);
}


/// The coordinate sums of a point sequence stay between the extremes of
/// its coordinates.
proof fn lemma_sum_bounds(s: Seq<Point>, lox: int, hix: int, loy: int, hiy: int)
    requires
        forall|i: int| #![trigger s[i]] 0 <= i < s.len() ==> lox <= s[i].x <= hix,
        forall|i: int| #![trigger s[i]] 0 <= i < s.len() ==> loy <= s[i].y <= hiy,
    ensures
        (s.len() as int) * lox <= sum_x(s) <= (s.len() as int) * hix,
        (s.len() as int) * loy <= sum_y(s) <= (s.len() as int) * hiy,
    decreases s.len(),
{
    if s.len() > 0 {
        lemma_sum_bounds(s.drop_last(), lox, hix, loy, hiy);
        let n = s.len() as int;
        assert(n * lox == (n - 1) * lox + lox && n * hix == (n - 1) * hix + hix && n * loy == (n
            - 1) * loy + loy && n * hiy == (n - 1) * hiy + hiy) by (nonlinear_arith);
    }
}

/// Law (centroid containment, the vertex-mean cases): wherever `center`
/// returns the plain vertex mean — always for one or two vertices, where
/// the mean is the point itself or the midpoint — that mean lies within
/// the vertices' axis-aligned bounding box, and so within their convex
/// hull for the one- and two-vertex rings.
pub proof fn lemma_vertex_mean_in_bounding_box(
    s: Seq<Point>,
    lox: int,
    hix: int,
    loy: int,
    hiy: int,
)
    requires
        1 <= s.len(),
        forall|i: int| #![trigger s[i]] 0 <= i < s.len() ==> lox <= s[i].x <= hix,
        forall|i: int| #![trigger s[i]] 0 <= i < s.len() ==> loy <= s[i].y <= hiy,
    ensures
        lox <= div_round(sum_x(s), s.len() as int) <= hix,
        loy <= div_round(sum_y(s), s.len() as int) <= hiy,
{
    lemma_sum_bounds(s, lox, hix, loy, hiy);
    let n = s.len() as int;
    crate::num::lemma_div_round_err(sum_x(s), n);
    crate::num::lemma_div_round_err(sum_y(s), n);
    assert(lox <= div_round(sum_x(s), n) <= hix) by (nonlinear_arith)
        requires
            n >= 1,
            n * lox <= sum_x(s) <= n * hix,
            2 * abs(div_round(sum_x(s), n) * n - sum_x(s)) <= n,
    ;
    assert(loy <= div_round(sum_y(s), n) <= hiy) by (nonlinear_arith)
        requires
            n >= 1,
            n * loy <= sum_y(s) <= n * hiy,
            2 * abs(div_round(sum_y(s), n) * n - sum_y(s)) <= n,
    ;
}

} // verus!
