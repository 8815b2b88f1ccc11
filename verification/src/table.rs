//! The table and its position engine.
//!
//! The engine reduces one instantaneous visibility snapshot — a list of
//! `(Receiver, bool)` pairs — to the set of candidate points consistent
//! with every report: it intersects each receiver's boundary rays with the
//! table edges and with every boundary ray introduced before it, and keeps
//! exactly those intersection points that every positive receiver accepts
//! under its expanded cone and no negative receiver sees strictly.  The
//! surviving candidates are collapsed to a centroid with a conservative
//! error radius, or wrapped in a polygon describing the feasible region.

use crate::geom::{centroid, dist_sq, max_dist_sq, sqrt_floor, sum_x, sum_y, wf_point, Point, MAX_COORD};
use crate::line::{inter_den, inter_exists, inter_xn, inter_yn, rat_in_bbox, wf_line, Line};
use crate::num::{div_round_i128, lemma_mul_bounds};
use crate::rat::{
    lemma_round_in_range, rat_in_coord_range, rat_is_point, round_x, round_y, wf_rat, RatPoint,
    DEN_MAX,
};
use crate::polygon::{sorted_clockwise, wf_polygon, Polygon, POLY_MAX};
use crate::receiver::{
    sees_estimated_rat, sees_strictly_rat, wf_receiver, Receiver, TrackerError, MAX_DIM, MIN_DIM,
};
use vstd::prelude::*;

verus! {

/// Largest number of receivers one snapshot may carry; keeps the candidate
/// count within a polygon's capacity.
pub const SNAP_MAX: usize = 240;

/// The playing surface: its four boundary edges and the mounted receivers.
/// Built once per hardware configuration and read-only afterwards.
pub struct Table {
    pub receivers: Vec<Receiver>,
    pub table_top: Line,
    pub table_bottom: Line,
    pub table_left: Line,
    pub table_right: Line,
}

/// A structurally sound table: four well-formed boundary edges.
pub open spec fn wf_table(t: Table) -> bool {
    wf_line(t.table_top) && wf_line(t.table_bottom) && wf_line(t.table_left) && wf_line(
        t.table_right,
    )
}

/// A snapshot whose receivers all satisfy the receiver invariant.
pub open spec fn snapshot_wf(snap: Seq<(Receiver, bool)>) -> bool {
    forall|i: int| #![trigger snap[i]] 0 <= i < snap.len() ==> wf_receiver(snap[i].0)
}

impl Table {
    /// Builds the table's four axis-aligned boundary edges and takes
    /// ownership of the receivers.
    pub fn new(table_width: i64, table_height: i64, receivers: Vec<Receiver>) -> (r: Table)
        requires
            MIN_DIM <= table_width <= MAX_DIM,
            MIN_DIM <= table_height <= MAX_DIM,
        ensures
            r.receivers == receivers,
            r.table_top == (Line {
                point1: Point { x: 0, y: table_height },
                point2: Point { x: table_width, y: table_height },
            }),
            r.table_bottom == (Line {
                point1: Point { x: 0, y: 0 },
                point2: Point { x: table_width, y: 0 },
            }),
            r.table_left == (Line {
                point1: Point { x: 0, y: 0 },
                point2: Point { x: 0, y: table_height },
            }),
            r.table_right == (Line {
                point1: Point { x: table_width, y: 0 },
                point2: Point { x: table_width, y: table_height },
            }),
            wf_table(r),
    {
        let table_top = Line::new(
            Point { x: 0, y: table_height },
            Point { x: table_width, y: table_height },
        );
        let table_bottom = Line::new(Point { x: 0, y: 0 }, Point { x: table_width, y: 0 });
        let table_left = Line::new(Point { x: 0, y: 0 }, Point { x: 0, y: table_height });
        let table_right = Line::new(
            Point { x: table_width, y: 0 },
            Point { x: table_width, y: table_height },
        );
        Table { receivers, table_top, table_bottom, table_left, table_right }
    }

    /// A placeholder for the synchronization trigger the surrounding system
    /// sends to its receivers; the engine itself keeps no such state.
    pub fn send_sync(&self) {
    }
}

/// The `j`-th constraint line available while a snapshot is processed: the
/// four table edges first, then four boundary lines per receiver, in the
/// order they are appended.
#[verifier::opaque]
pub open spec fn line_at(t: Table, snap: Seq<(Receiver, bool)>, j: int) -> Line {
    if j == 0 {
        t.table_top
    } else if j == 1 {
        t.table_bottom
    } else if j == 2 {
        t.table_left
    } else if j == 3 {
        t.table_right
    } else {
        let r = snap[(j - 4) / 4].0;
        let k = (j - 4) % 4;
        if k == 0 {
            r.expanded_view_bound1
        } else if k == 1 {
            r.expanded_view_bound2
        } else if k == 2 {
            r.view_bound1
        } else {
            r.view_bound2
        }
    }
}

/// The first four constraint lines are the table edges.
proof fn lemma_line_at_base(t: Table, snap: Seq<(Receiver, bool)>)
    ensures
        line_at(t, snap, 0) == t.table_top,
        line_at(t, snap, 1) == t.table_bottom,
        line_at(t, snap, 2) == t.table_left,
        line_at(t, snap, 3) == t.table_right,
{
    reveal(line_at);
}

/// The four constraint lines receiver `i` appends sit at positions
/// `4 + 4 * i` through `7 + 4 * i`.
proof fn lemma_line_at_receiver(t: Table, snap: Seq<(Receiver, bool)>, i: int)
    requires
        0 <= i,
    ensures
        line_at(t, snap, 4 + 4 * i) == snap[i].0.expanded_view_bound1,
        line_at(t, snap, 5 + 4 * i) == snap[i].0.expanded_view_bound2,
        line_at(t, snap, 6 + 4 * i) == snap[i].0.view_bound1,
        line_at(t, snap, 7 + 4 * i) == snap[i].0.view_bound2,
{
    reveal(line_at);
    assert((4 + 4 * i - 4) / 4 == i && (4 + 4 * i - 4) % 4 == 0);
    assert((5 + 4 * i - 4) / 4 == i && (5 + 4 * i - 4) % 4 == 1);
    assert((6 + 4 * i - 4) / 4 == i && (6 + 4 * i - 4) % 4 == 2);
    assert((7 + 4 * i - 4) / 4 == i && (7 + 4 * i - 4) % 4 == 3);
}

/// A singleton or empty sequence from an optional candidate.
pub open spec fn opt_seq(o: Option<RatPoint>) -> Seq<RatPoint> {
    match o {
        Some(p) => seq![p],
        None => Seq::empty(),
    }
}

/// The exact intersection of two segments as an optional candidate.
#[verifier::opaque]
pub open spec fn seg_inter_opt(l: Line, b: Line) -> Option<RatPoint> {
    if inter_exists(l, b, true) {
        Some(
            RatPoint {
                xn: inter_xn(l, b) as i128,
                yn: inter_yn(l, b) as i128,
                den: inter_den(l, b) as i128,
            },
        )
    } else {
        None
    }
}

/// Discards a candidate that coincides exactly with the receiver's own
/// location (a nominal boundary ray always meets the table edge there).
pub open spec fn drop_at_loc(o: Option<RatPoint>, loc: Point) -> Option<RatPoint> {
    match o {
        Some(p) => if rat_is_point(p, loc) {
            None
        } else {
            Some(p)
        },
        None => None,
    }
}

/// The candidates one constraint line contributes against one receiver:
/// its intersections with the receiver's two expanded bounds and its two
/// nominal bounds, the latter with hits at the receiver's location dropped.
#[verifier::opaque]
pub open spec fn pair_cands(l: Line, r: Receiver) -> Seq<RatPoint> {
    opt_seq(seg_inter_opt(l, r.expanded_view_bound1)) + opt_seq(
        seg_inter_opt(l, r.expanded_view_bound2),
    ) + opt_seq(drop_at_loc(seg_inter_opt(l, r.view_bound1), r.location)) + opt_seq(
        drop_at_loc(seg_inter_opt(l, r.view_bound2), r.location),
    )
}

/// A receiver's location as an exact candidate.
pub open spec fn rat_of_point(p: Point) -> RatPoint {
    RatPoint { xn: p.x as i128, yn: p.y as i128, den: 1 }
}

/// The candidates receiver `i` gathers from the first `j` constraint
/// lines.
#[verifier::opaque]
pub open spec fn rcv_line_cands(t: Table, snap: Seq<(Receiver, bool)>, i: int, j: int) -> Seq<
    RatPoint,
>
    decreases j,
{
    if j <= 0 {
        Seq::empty()
    } else {
        rcv_line_cands(t, snap, i, j - 1) + pair_cands(line_at(t, snap, j - 1), snap[i].0)
    }
}

/// Everything receiver `i` contributes: intersections with every earlier
/// constraint line, plus its own location when it reports the mini
/// visible.
pub open spec fn rcv_cands(t: Table, snap: Seq<(Receiver, bool)>, i: int) -> Seq<RatPoint> {
    rcv_line_cands(t, snap, i, 4 + 4 * i) + (if snap[i].1 {
        seq![rat_of_point(snap[i].0.location)]
    } else {
        Seq::empty()
    })
}

/// The raw candidate sequence of the snapshot's first `i` receivers, in
/// processing order and with duplicates retained.
#[verifier::opaque]
pub open spec fn raw_cands(t: Table, snap: Seq<(Receiver, bool)>, i: int) -> Seq<RatPoint>
    decreases i,
{
    if i <= 0 {
        Seq::empty()
    } else {
        raw_cands(t, snap, i - 1) + rcv_cands(t, snap, i - 1)
    }
}

/// The retention test: every receiver that reported the mini visible must
/// accept the candidate under its expanded cone, and no receiver that
/// reported it invisible may see it strictly.
pub open spec fn keep(snap: Seq<(Receiver, bool)>, p: RatPoint) -> bool {
    forall|i: int|
        #![trigger snap[i]]
        0 <= i < snap.len() ==> ((snap[i].1 ==> sees_estimated_rat(snap[i].0, p)) && (!snap[i].1
            ==> !sees_strictly_rat(snap[i].0, p)))
}

/// The retention test as a function value, for use with `filter`.
pub open spec fn keep_fn(snap: Seq<(Receiver, bool)>) -> spec_fn(RatPoint) -> bool {
    |p: RatPoint| keep(snap, p)
}

/// The candidates that survive every receiver's report.
pub open spec fn survivors(t: Table, snap: Seq<(Receiver, bool)>) -> Seq<RatPoint> {
    raw_cands(t, snap, snap.len() as int).filter(keep_fn(snap))
}

/// Decides the retention test at run time.
fn keep_exec(snapshot: &Vec<(Receiver, bool)>, p: &RatPoint) -> (r: bool)
    requires
        snapshot_wf(snapshot@),
        wf_rat(*p),
    ensures
        r == keep(snapshot@, *p),
{
    let n = snapshot.len();
    let mut i: usize = 0;
    while i < n
        invariant
            n == snapshot@.len(),
            0 <= i <= n,
            snapshot_wf(snapshot@),
            wf_rat(*p),
            forall|k: int|
                #![trigger snapshot@[k]]
                0 <= k < i ==> ((snapshot@[k].1 ==> sees_estimated_rat(snapshot@[k].0, *p)) && (
                !snapshot@[k].1 ==> !sees_strictly_rat(snapshot@[k].0, *p))),
        decreases n - i,
    {
        let pair = snapshot[i];
        if pair.1 {
            if !pair.0.can_see_estimated_rat(p) {
                return false;
            }
        } else {
            if !pair.0.cannot_see_rat(p) {
                return false;
            }
        }
        i = i + 1;
    }
    true
}

/// A candidate inside a well-formed segment's bounding box lies within the
/// kernel's coordinate range.
proof fn lemma_bbox_in_coord_range(p: RatPoint, l: Line)
    requires
        wf_rat(p),
        wf_line(l),
        rat_in_bbox(p.xn as int, p.yn as int, p.den as int, l),
    ensures
        rat_in_coord_range(p),
{
    assert(rat_in_coord_range(p)) by (nonlinear_arith)
        requires
            wf_rat(p),
            wf_line(l),
            rat_in_bbox(p.xn as int, p.yn as int, p.den as int, l),
            MAX_COORD == 67000000,
    ;
}

/// A singleton's filtering keeps or drops its one element.
proof fn lemma_filter_singleton(p: RatPoint, pred: spec_fn(RatPoint) -> bool)
    ensures
        seq![p].filter(pred) == if pred(p) {
            seq![p]
        } else {
            Seq::<RatPoint>::empty()
        },
{
    reveal(Seq::filter);
    let s = seq![p];
    assert(s.drop_last() =~= Seq::<RatPoint>::empty());
    assert(Seq::<RatPoint>::empty().filter(pred) =~= Seq::<RatPoint>::empty());
    if pred(p) {
        assert(s.filter(pred) =~= seq![p]);
    } else {
        assert(s.filter(pred) =~= Seq::<RatPoint>::empty());
    }
}

/// The empty sequence filters to itself.
proof fn lemma_filter_empty(pred: spec_fn(RatPoint) -> bool)
    ensures
        Seq::<RatPoint>::empty().filter(pred) == Seq::<RatPoint>::empty(),
{
    reveal(Seq::filter);
    assert(Seq::<RatPoint>::empty().filter(pred) =~= Seq::<RatPoint>::empty());
}

/// Appends an optional candidate to `cands` when it survives the
/// retention test.
fn push_opt_cand(cands: &mut Vec<RatPoint>, o: Option<RatPoint>, receivers: &Vec<(Receiver, bool)>)
    requires
        snapshot_wf(receivers@),
        o matches Some(p) ==> wf_rat(p) && rat_in_coord_range(p),
    ensures
        final(cands)@ == old(cands)@ + opt_seq(o).filter(keep_fn(receivers@)),
        forall|k: int|
            #![trigger final(cands)@[k]]
            old(cands)@.len() <= k < final(cands)@.len() ==> wf_rat(final(cands)@[k])
                && rat_in_coord_range(final(cands)@[k]),
{
    let ghost keepf = keep_fn(receivers@);
    if let Some(p) = o {
        proof {
            lemma_filter_singleton(p, keepf);
        }
        if keep_exec(receivers, &p) {
            cands.push(p);
        }
        proof {
            assert(cands@ =~= old(cands)@ + opt_seq(o).filter(keepf));
        }
    } else {
        proof {
            lemma_filter_empty(keepf);
            assert(cands@ =~= old(cands)@ + opt_seq(o).filter(keepf));
        }
    }
}

/// Drops an optional candidate that coincides with the given location,
/// deciding `drop_at_loc` at run time.
fn drop_at_loc_exec(o: Option<RatPoint>, loc: Point) -> (r: Option<RatPoint>)
    requires
        wf_point(loc),
        o matches Some(p) ==> wf_rat(p),
    ensures
        r == drop_at_loc(o, loc),
{
    match o {
        Some(p) => {
            proof {
                lemma_mul_bounds(loc.x as int, p.den as int, MAX_COORD as int, DEN_MAX as int);
                lemma_mul_bounds(loc.y as int, p.den as int, MAX_COORD as int, DEN_MAX as int);
            }
            if p.xn == loc.x as i128 * p.den && p.yn == loc.y as i128 * p.den {
                None
            } else {
                Some(p)
            }
        },
        None => None,
    }
}

/// Computes the exact intersection of two segments as an optional
/// candidate, with the bounds the candidate store relies on.
fn seg_inter_exec(l: &Line, b: &Line) -> (r: Option<RatPoint>)
    requires
        wf_line(*l),
        wf_line(*b),
    ensures
        r == seg_inter_opt(*l, *b),
        r matches Some(p) ==> wf_rat(p) && rat_in_coord_range(p),
{
    let o = l.intersection_exact(b, true);
    proof {
        reveal(seg_inter_opt);
        if o is Some {
            lemma_bbox_in_coord_range(o->Some_0, *l);
        }
        assert(o == seg_inter_opt(*l, *b));
    }
    o
}

/// Appends to `cands` the candidates that one constraint line contributes
/// against one receiver and that survive the retention test.
fn push_pair_cands(
    cands: &mut Vec<RatPoint>,
    l: Line,
    rcv: Receiver,
    receivers: &Vec<(Receiver, bool)>,
)
    requires
        wf_line(l),
        wf_receiver(rcv),
        snapshot_wf(receivers@),
    ensures
        final(cands)@ == old(cands)@ + pair_cands(l, rcv).filter(keep_fn(receivers@)),
        forall|k: int|
            #![trigger final(cands)@[k]]
            old(cands)@.len() <= k < final(cands)@.len() ==> wf_rat(final(cands)@[k])
                && rat_in_coord_range(final(cands)@[k]),
{
    let ghost keepf = keep_fn(receivers@);
    let e1 = seg_inter_exec(&l, &rcv.expanded_view_bound1);
    let e2 = seg_inter_exec(&l, &rcv.expanded_view_bound2);
    let b1 = seg_inter_exec(&l, &rcv.view_bound1);
    let b2 = seg_inter_exec(&l, &rcv.view_bound2);
    let b1f = drop_at_loc_exec(b1, rcv.location);
    let b2f = drop_at_loc_exec(b2, rcv.location);
    let ghost cands0 = cands@;
    push_opt_cand(cands, e1, receivers);
    push_opt_cand(cands, e2, receivers);
    push_opt_cand(cands, b1f, receivers);
    push_opt_cand(cands, b2f, receivers);
    proof {
        Seq::filter_distributes_over_add(opt_seq(e1), opt_seq(e2), keepf);
        Seq::filter_distributes_over_add(
            opt_seq(e1) + opt_seq(e2),
            opt_seq(drop_at_loc(b1, rcv.location)),
            keepf,
        );
        Seq::filter_distributes_over_add(
            opt_seq(e1) + opt_seq(e2) + opt_seq(drop_at_loc(b1, rcv.location)),
            opt_seq(drop_at_loc(b2, rcv.location)),
            keepf,
        );
        reveal(pair_cands);
        assert(pair_cands(l, rcv) =~= opt_seq(e1) + opt_seq(e2) + opt_seq(
            drop_at_loc(b1, rcv.location),
        ) + opt_seq(drop_at_loc(b2, rcv.location)));
        assert(cands@ =~= cands0 + pair_cands(l, rcv).filter(keepf));
    }
}

impl Table {
    /// Collects the exact candidate points of a snapshot that survive
    /// every receiver's visibility report, in processing order.
    #[verifier::rlimit(50)]
    fn collect_candidates(&self, receivers: &Vec<(Receiver, bool)>) -> (out: Vec<RatPoint>)
        requires
            wf_table(*self),
            snapshot_wf(receivers@),
            receivers@.len() <= SNAP_MAX,
        ensures
            out@ == survivors(*self, receivers@),
            forall|k: int|
                #![trigger out@[k]]
                0 <= k < out@.len() ==> wf_rat(out@[k]) && rat_in_coord_range(out@[k]),
    {
        let ghost snap = receivers@;
        let ghost keepf = keep_fn(snap);
        let n = receivers.len();
        let mut lines: Vec<Line> = Vec::new();
        lines.push(self.table_top);
        lines.push(self.table_bottom);
        lines.push(self.table_left);
        lines.push(self.table_right);
        let mut cands: Vec<RatPoint> = Vec::new();
        proof {
            lemma_filter_empty(keepf);
            reveal(raw_cands);
            lemma_line_at_base(*self, snap);
            assert(cands@ =~= raw_cands(*self, snap, 0).filter(keepf));
        }
        let mut i: usize = 0;
        #[verifier::rlimit(50)]
        while i < n
            invariant
                n == snap.len(),
                snap == receivers@,
                keepf == keep_fn(snap),
                0 <= i <= n,
                n <= SNAP_MAX,
                wf_table(*self),
                snapshot_wf(snap),
                lines@.len() == 4 + 4 * i,
                forall|j: int|
                    #![trigger lines@[j]]
                    0 <= j < lines@.len() ==> lines@[j] == line_at(*self, snap, j) && wf_line(
                        lines@[j],
                    ),
                cands@ == raw_cands(*self, snap, i as int).filter(keepf),
                forall|k: int|
                    #![trigger cands@[k]]
                    0 <= k < cands@.len() ==> wf_rat(cands@[k]) && rat_in_coord_range(cands@[k]),
            decreases n - i,
        {
            let pair = receivers[i];
            let rcv = pair.0;
            let m = lines.len();
            proof {
                reveal(rcv_line_cands);
                assert(raw_cands(*self, snap, i as int) + rcv_line_cands(*self, snap, i as int, 0)
                    =~= raw_cands(*self, snap, i as int));
            }
            let mut j: usize = 0;
            while j < m
                invariant
                    n == snap.len(),
                    snap == receivers@,
                    keepf == keep_fn(snap),
                    0 <= i < n,
                    n <= SNAP_MAX,
                    rcv == snap[i as int].0,
                    wf_receiver(rcv),
                    0 <= j <= m,
                    m == lines@.len(),
                    lines@.len() == 4 + 4 * i,
                    wf_table(*self),
                    snapshot_wf(snap),
                    forall|q: int|
                        #![trigger lines@[q]]
                        0 <= q < lines@.len() ==> lines@[q] == line_at(*self, snap, q) && wf_line(
                            lines@[q],
                        ),
                    cands@ == (raw_cands(*self, snap, i as int) + rcv_line_cands(
                        *self,
                        snap,
                        i as int,
                        j as int,
                    )).filter(keepf),
                    forall|k: int|
                        #![trigger cands@[k]]
                        0 <= k < cands@.len() ==> wf_rat(cands@[k]) && rat_in_coord_range(
                            cands@[k],
                        ),
                decreases m - j,
            {
                let l = lines[j];
                let ghost before = raw_cands(*self, snap, i as int) + rcv_line_cands(
                    *self,
                    snap,
                    i as int,
                    j as int,
                );
                push_pair_cands(&mut cands, l, rcv, receivers);
                proof {
                    Seq::filter_distributes_over_add(before, pair_cands(l, rcv), keepf);
                    reveal(rcv_line_cands);
                    assert(rcv_line_cands(*self, snap, i as int, j as int + 1) =~= rcv_line_cands(
                        *self,
                        snap,
                        i as int,
                        j as int,
                    ) + pair_cands(l, rcv));
                    assert(before + pair_cands(l, rcv) =~= raw_cands(*self, snap, i as int)
                        + rcv_line_cands(*self, snap, i as int, j as int + 1));
                    assert(cands@ =~= (raw_cands(*self, snap, i as int) + rcv_line_cands(
                        *self,
                        snap,
                        i as int,
                        j as int + 1,
                    )).filter(keepf));
                }
                j = j + 1;
            }
            proof {
                reveal(rcv_line_cands);
            }
            let ghost mid = raw_cands(*self, snap, i as int) + rcv_line_cands(
                *self,
                snap,
                i as int,
                4 + 4 * i as int,
            );
            if pair.1 {
                let locp = RatPoint {
                    xn: rcv.location.x as i128,
                    yn: rcv.location.y as i128,
                    den: 1,
                };
                proof {
                    assert(locp == rat_of_point(rcv.location));
                    lemma_filter_singleton(locp, keepf);
                    assert(rat_in_coord_range(locp)) by (nonlinear_arith)
                        requires
                            locp.den == 1,
                            locp.xn == rcv.location.x,
                            locp.yn == rcv.location.y,
                            wf_point(rcv.location),
                            MAX_COORD == 67000000,
                    ;
                }
                if keep_exec(receivers, &locp) {
                    cands.push(locp);
                }
                proof {
                    Seq::filter_distributes_over_add(
                        mid,
                        seq![rat_of_point(snap[i as int].0.location)],
                        keepf,
                    );
                }
            } else {
                proof {
                    lemma_filter_empty(keepf);
                    Seq::filter_distributes_over_add(mid, Seq::<RatPoint>::empty(), keepf);
                }
            }
            proof {
                let locseq = if snap[i as int].1 {
                    seq![rat_of_point(snap[i as int].0.location)]
                } else {
                    Seq::<RatPoint>::empty()
                };
                reveal(raw_cands);
                assert(rcv_cands(*self, snap, i as int) =~= rcv_line_cands(
                    *self,
                    snap,
                    i as int,
                    4 + 4 * i as int,
                ) + locseq);
                assert(raw_cands(*self, snap, i as int + 1) =~= mid + locseq);
                assert(cands@ =~= raw_cands(*self, snap, i as int + 1).filter(keepf));
            }
            lines.push(rcv.expanded_view_bound1);
            lines.push(rcv.expanded_view_bound2);
            lines.push(rcv.view_bound1);
            lines.push(rcv.view_bound2);
            proof {
                lemma_line_at_receiver(*self, snap, i as int);
            }
            i = i + 1;
        }
        proof {
            assert(cands@ =~= survivors(*self, snap));
        }
        cands
    }
}


/// The surviving candidates rounded to the nearest integer points, in
/// order and with duplicates retained.
pub open spec fn rounded(s: Seq<RatPoint>) -> Seq<Point> {
    s.map_values(|p: RatPoint| Point { x: round_x(p) as i64, y: round_y(p) as i64 })
}

impl Table {
    /// Estimates the mini's location from one visibility snapshot: the
    /// centroid of all surviving candidate points, together with a
    /// conservative error radius — the distance to the farthest survivor,
    /// rounded down.  Reports `ContradictoryVisibility` exactly when no
    /// candidate point is consistent with every receiver's report.
    pub fn get_location(&self, receivers: &Vec<(Receiver, bool)>) -> (r: Result<
        (Point, i64),
        TrackerError,
    >)
        requires
            wf_table(*self),
            snapshot_wf(receivers@),
            receivers@.len() <= SNAP_MAX,
        ensures
            r is Err <==> survivors(*self, receivers@).len() == 0,
            r matches Err(e) ==> e == TrackerError::ContradictoryVisibility,
            r matches Ok((c, e)) ==> {
                let pts = rounded(survivors(*self, receivers@));
                &&& c == centroid(pts)
                &&& wf_point(c)
                &&& e == sqrt_floor(max_dist_sq(pts, c) as nat)
            },
    {
        let cands = self.collect_candidates(receivers);
        let n = cands.len();
        if n == 0 {
            proof {
                assert(rounded(survivors(*self, receivers@)).len() == 0);
            }
            return Err(TrackerError::ContradictoryVisibility);
        }
        let ghost pts_spec = rounded(survivors(*self, receivers@));
        let mut pts: Vec<Point> = Vec::new();
        let mut k: usize = 0;
        while k < n
            invariant
                n == cands@.len(),
                cands@ == survivors(*self, receivers@),
                pts_spec == rounded(survivors(*self, receivers@)),
                forall|q: int|
                    #![trigger cands@[q]]
                    0 <= q < cands@.len() ==> wf_rat(cands@[q]) && rat_in_coord_range(cands@[q]),
                0 <= k <= n,
                pts@.len() == k,
                forall|q: int| #![trigger pts@[q]] 0 <= q < k ==> pts@[q] == pts_spec[q],
                forall|q: int| #![trigger pts@[q]] 0 <= q < k ==> wf_point(pts@[q]),
            decreases n - k,
        {
            let p = cands[k].round();
            pts.push(p);
            k = k + 1;
        }
        proof {
            assert(pts@ =~= pts_spec);
        }
        let mut sx: i128 = 0;
        let mut sy: i128 = 0;
        let mut k: usize = 0;
        while k < n
            invariant
                n == pts@.len(),
                0 <= k <= n,
                n <= usize::MAX,
                forall|q: int| #![trigger pts@[q]] 0 <= q < n ==> wf_point(pts@[q]),
                sx == sum_x(pts@.subrange(0, k as int)),
                sy == sum_y(pts@.subrange(0, k as int)),
                -(k as int) * (MAX_COORD as int) <= sx <= (k as int) * (MAX_COORD as int),
                -(k as int) * (MAX_COORD as int) <= sy <= (k as int) * (MAX_COORD as int),
            decreases n - k,
        {
            let p = pts[k];
            proof {
                let pre = pts@.subrange(0, k as int);
                let post = pts@.subrange(0, k as int + 1);
                assert(post.drop_last() =~= pre);
                assert(post.last() == pts@[k as int]);
                assert((k as int + 1) * (MAX_COORD as int) == (k as int) * (MAX_COORD as int)
                    + MAX_COORD) by (nonlinear_arith);
            }
            sx = sx + p.x as i128;
            sy = sy + p.y as i128;
            k = k + 1;
        }
        proof {
            assert(pts@.subrange(0, n as int) =~= pts@);
            lemma_round_in_range(sx as int, n as int);
            lemma_round_in_range(sy as int, n as int);
            assert(-(MAX_COORD as int) * (n as int) <= sx <= (MAX_COORD as int) * (n as int))
                by (nonlinear_arith)
                requires
                    -(n as int) * (MAX_COORD as int) <= sx <= (n as int) * (MAX_COORD as int),
            ;
            assert(-(MAX_COORD as int) * (n as int) <= sy <= (MAX_COORD as int) * (n as int))
                by (nonlinear_arith)
                requires
                    -(n as int) * (MAX_COORD as int) <= sy <= (n as int) * (MAX_COORD as int),
            ;
        }
        let cx = div_round_i128(sx, n as i128);
        let cy = div_round_i128(sy, n as i128);
        let c = Point { x: cx as i64, y: cy as i64 };
        proof {
            assert(c == centroid(pts@));
        }
        let mut md: i128 = 0;
        let mut k: usize = 0;
        while k < n
            invariant
                n == pts@.len(),
                0 <= k <= n,
                wf_point(c),
                forall|q: int| #![trigger pts@[q]] 0 <= q < n ==> wf_point(pts@[q]),
                md == max_dist_sq(pts@.subrange(0, k as int), c),
                0 <= md <= 8 * (MAX_COORD as int) * (MAX_COORD as int),
            decreases n - k,
        {
            let p = pts[k];
            let d = c.distance_squared(&p);
            proof {
                let pre = pts@.subrange(0, k as int);
                let post = pts@.subrange(0, k as int + 1);
                assert(post.drop_last() =~= pre);
                assert(post.last() == pts@[k as int]);
                assert(d <= 8 * (MAX_COORD as int) * (MAX_COORD as int)) by (nonlinear_arith)
                    requires
                        d == dist_sq(c, pts@[k as int]),
                        wf_point(c),
                        wf_point(pts@[k as int]),
                ;
            }
            if d > md {
                md = d;
            }
            k = k + 1;
        }
        proof {
            assert(pts@.subrange(0, n as int) =~= pts@);
        }
        let e = crate::num::isqrt_u128(md as u128);
        proof {
            crate::geom::lemma_sqrt_floor_unique(md as nat, e as nat);
            assert(e * e <= md);
            assert(e <= 3 * MAX_COORD) by (nonlinear_arith)
                requires
                    e * e <= md,
                    md <= 8 * (MAX_COORD as int) * (MAX_COORD as int),
                    MAX_COORD == 67000000,
            ;
        }
        Ok((c, e as i64))
    }
}


/// One line pair yields at most four candidates.
proof fn lemma_pair_cands_len(l: Line, r: Receiver)
    ensures
        pair_cands(l, r).len() <= 4,
{
    reveal(pair_cands);
}

/// The first `j` constraint lines yield at most `4 * j` candidates for one
/// receiver.
proof fn lemma_rcv_line_cands_len(t: Table, snap: Seq<(Receiver, bool)>, i: int, j: int)
    requires
        j >= 0,
    ensures
        rcv_line_cands(t, snap, i, j).len() <= 4 * j,
    decreases j,
{
    reveal(rcv_line_cands);
    if j > 0 {
        lemma_rcv_line_cands_len(t, snap, i, j - 1);
        lemma_pair_cands_len(line_at(t, snap, j - 1), snap[i].0);
    }
}

/// The first `i` receivers yield at most `16 * i * i + 17 * i` raw
/// candidates.
proof fn lemma_raw_cands_len(t: Table, snap: Seq<(Receiver, bool)>, i: int)
    requires
        i >= 0,
    ensures
        raw_cands(t, snap, i).len() <= 16 * i * i + 17 * i,
    decreases i,
{
    reveal(raw_cands);
    if i > 0 {
        lemma_raw_cands_len(t, snap, i - 1);
        lemma_rcv_line_cands_len(t, snap, i - 1, 4 + 4 * (i - 1));
        assert(rcv_cands(t, snap, i - 1).len() <= 4 * (4 + 4 * (i - 1)) + 1);
        assert(16 * (i - 1) * (i - 1) + 17 * (i - 1) + 4 * (4 + 4 * (i - 1)) + 1 <= 16 * i * i
            + 17 * i) by (nonlinear_arith)
            requires
                i >= 1,
        ;
    }
}

/// A snapshot within the receiver cap yields at most `POLY_MAX` surviving
/// candidates.
proof fn lemma_survivors_len(t: Table, snap: Seq<(Receiver, bool)>)
    requires
        snap.len() <= SNAP_MAX,
    ensures
        survivors(t, snap).len() <= POLY_MAX,
{
    lemma_raw_cands_len(t, snap, snap.len() as int);
    let raw = raw_cands(t, snap, snap.len() as int);
    raw.lemma_filter_len(keep_fn(snap));
    assert(16 * (snap.len() as int) * (snap.len() as int) + 17 * (snap.len() as int) <= POLY_MAX)
        by (nonlinear_arith)
        requires
            0 <= snap.len() <= SNAP_MAX,
            SNAP_MAX == 240,
            POLY_MAX == 1000000,
    ;
}

impl Table {
    /// Computes the full feasible region of one visibility snapshot: the
    /// polygon over all surviving candidate points (rounded to the nearest
    /// unit), or `None` when the snapshot is contradictory and no point
    /// survives.
    pub fn get_bounding_polygon(&self, receivers: &Vec<(Receiver, bool)>) -> (r: Option<Polygon>)
        requires
            wf_table(*self),
            snapshot_wf(receivers@),
            receivers@.len() <= SNAP_MAX,
        ensures
            r is Some <==> survivors(*self, receivers@).len() > 0,
            r matches Some(pg) ==> {
                let pts = rounded(survivors(*self, receivers@));
                &&& pg.points@.len() == pts.len()
                &&& pg.points@.to_multiset() == pts.to_multiset()
                &&& sorted_clockwise(pg.points@, sum_x(pts), sum_y(pts), pts.len() as int)
                &&& wf_polygon(pg)
            },
    {
        let cands = self.collect_candidates(receivers);
        let n = cands.len();
        if n == 0 {
            return None;
        }
        proof {
            lemma_survivors_len(*self, receivers@);
        }
        let ghost pts_spec = rounded(survivors(*self, receivers@));
        let mut pts: Vec<Point> = Vec::new();
        let mut k: usize = 0;
        while k < n
            invariant
                n == cands@.len(),
                cands@ == survivors(*self, receivers@),
                pts_spec == rounded(survivors(*self, receivers@)),
                forall|q: int|
                    #![trigger cands@[q]]
                    0 <= q < cands@.len() ==> wf_rat(cands@[q]) && rat_in_coord_range(cands@[q]),
                0 <= k <= n,
                pts@.len() == k,
                forall|q: int| #![trigger pts@[q]] 0 <= q < k ==> pts@[q] == pts_spec[q],
                forall|q: int| #![trigger pts@[q]] 0 <= q < k ==> wf_point(pts@[q]),
            decreases n - k,
        {
            let p = cands[k].round();
            pts.push(p);
            k = k + 1;
        }
        proof {
            assert(pts@ =~= pts_spec);
        }
        Some(Polygon::new(pts))
    }
}

} // verus!
