//! Camber refinement: subdividing the station polyline to a tolerance.

use vstd::prelude::*;

verus! {

use vstd::arithmetic::div_mod::{
    lemma_div_is_ordered_by_denominator, lemma_div_pos_is_pos,
};
use crate::curve::BoundaryCurve;
use crate::geom2::{normalize_spec, pt_in, sq_dist, sq_dist_e, Point2, Vector2};
use crate::num::{
    div_nn, isqrt, lemma_sqrt_exists, mul_div, scale_trunc, sqrt_floor, CENTER_LIMIT, DIR_SCALE,
};
use crate::station::{circle_wf, station_at, station_spec, InscribedCircle};

/// The centers of a station sequence, in order.
pub open spec fn centers_of(sts: Seq<InscribedCircle>) -> Seq<Point2> {
    sts.map_values(|st: InscribedCircle| st.center)
}

/// Rounded-down distance between two points.
pub open spec fn dist_of(p: Point2, q: Point2) -> int {
    sqrt_floor(sq_dist(p, q))
}

/// How many sub-segments a span of length `d` is cut into at tolerance
/// `tol`: one more than the whole tolerances that fit in `d`.
pub open spec fn seg_count(d: int, tol: int) -> int {
    d / tol + 1
}

/// Number of points of the polyline through `centers` after each segment
/// is subdivided at tolerance `tol`.
pub open spec fn camber_count(centers: Seq<Point2>, tol: int) -> int
    decreases centers.len(),
{
    if centers.len() <= 1 {
        centers.len() as int
    } else {
        camber_count(centers.drop_last(), tol) + seg_count(
            dist_of(centers[centers.len() - 2], centers.last()),
            tol,
        )
    }
}

/// Refinement monotonicity: tightening the tolerance never removes camber
/// points.  For any fixed polyline, the point count at a smaller tolerance
/// is at least the point count at a larger one.
pub proof fn lemma_camber_count_antitone(centers: Seq<Point2>, t1: int, t2: int)
    requires
        1 <= t1 <= t2,
    ensures
        camber_count(centers, t2) <= camber_count(centers, t1),
    decreases centers.len(),
{
    if centers.len() > 1 {
        lemma_camber_count_antitone(centers.drop_last(), t1, t2);
        let d = dist_of(centers[centers.len() - 2], centers.last());
        crate::geom2::lemma_sq_dist_nonneg(centers[centers.len() - 2], centers.last());
        lemma_sqrt_exists(sq_dist(centers[centers.len() - 2], centers.last()));
        lemma_div_is_ordered_by_denominator(d, t1, t2);
    }
}

/// The refined polyline has at least one point per original point.
pub proof fn lemma_camber_count_ge_len(centers: Seq<Point2>, tol: int)
    requires
        1 <= tol,
    ensures
        camber_count(centers, tol) >= centers.len(),
    decreases centers.len(),
{
    if centers.len() > 1 {
        lemma_camber_count_ge_len(centers.drop_last(), tol);
        let d = dist_of(centers[centers.len() - 2], centers.last());
        crate::geom2::lemma_sq_dist_nonneg(centers[centers.len() - 2], centers.last());
        lemma_sqrt_exists(sq_dist(centers[centers.len() - 2], centers.last()));
        lemma_div_pos_is_pos(d, tol);
    }
}

/// The direction assigned to a subdivided segment: the normalized
/// perpendicular of the segment chord, or the unit x direction for a
/// degenerate chord.
pub open spec fn seg_dir(p: Point2, q: Point2) -> Vector2 {
    match normalize_spec(Vector2 { x: (-(q.y - p.y)) as i64, y: (q.x - p.x) as i64 }) {
        None => Vector2 { x: DIR_SCALE, y: 0 },
        Some(d) => d,
    }
}

/// The center inserted at step `t` of `k` between `p` and `q`.
pub open spec fn interp_center(p: Point2, q: Point2, t: int, k: int) -> Point2 {
    Point2 {
        x: (p.x + scale_trunc(q.x - p.x, t, k)) as i64,
        y: (p.y + scale_trunc(q.y - p.y, t, k)) as i64,
    }
}

/// The stations inserted between `p` and `q` from step `t` up to `k`:
/// a full inscribed circle at each interpolated center.
pub open spec fn seg_insert(
    cs: Seq<Point2>,
    p: Point2,
    q: Point2,
    k: int,
    t: int,
) -> Seq<InscribedCircle>
    decreases k - t,
{
    if t >= k {
        Seq::empty()
    } else {
        seq![station_spec(cs, interp_center(p, q, t, k), seg_dir(p, q))] + seg_insert(
            cs,
            p,
            q,
            k,
            t + 1,
        )
    }
}

/// The refined station list: each adjacent pair of skeleton stations with
/// the tolerance-determined number of inserted stations between them.
pub open spec fn refine_spec(
    cs: Seq<Point2>,
    skel: Seq<InscribedCircle>,
    tol: int,
) -> Seq<InscribedCircle>
    decreases skel.len(),
{
    if skel.len() == 0 {
        Seq::empty()
    } else if skel.len() == 1 {
        skel
    } else {
        let p = skel[skel.len() - 2].center;
        let q = skel.last().center;
        let k = seg_count(dist_of(p, q), tol);
        refine_spec(cs, skel.drop_last(), tol) + seg_insert(cs, p, q, k, 1) + seq![skel.last()]
    }
}

/// Subdivides each skeleton segment at tolerance `tol`, building a full
/// inscribed-circle station at every inserted center.  The original
/// stations are kept in place, so the result starts and ends exactly where
/// the skeleton does and its length is the camber point count.
pub fn refine_stations(
    curve: &BoundaryCurve,
    skel: &Vec<InscribedCircle>,
    tol: i64,
) -> (out: Vec<InscribedCircle>)
    requires
        curve.wf(),
        1 <= tol,
        1 <= skel@.len() <= 100_000,
        forall|k: int| 0 <= k < skel@.len() ==> circle_wf(#[trigger] skel@[k], curve.pts()),
    ensures
        out@ == refine_spec(curve.pts(), skel@, tol as int),
        out@.len() == camber_count(centers_of(skel@), tol as int),
        skel@.len() <= out@.len(),
        forall|k: int| 0 <= k < out@.len() ==> circle_wf(#[trigger] out@[k], curve.pts()),
        out@[0] == skel@[0],
        out@[out@.len() - 1] == skel@[skel@.len() - 1],
{
    let ghost centers = centers_of(skel@);
    let mut out: Vec<InscribedCircle> = Vec::new();
    out.push(skel[0]);
    proof {
        assert(centers.take(1).len() == 1);
        assert(camber_count(centers.take(1), tol as int) == 1);
        assert(skel@.take(1) =~= seq![skel@[0]]);
        assert(out@ =~= refine_spec(curve.pts(), skel@.take(1), tol as int));
    }
    let mut sidx: usize = 0;
    while sidx + 1 < skel.len()
        invariant
            curve.wf(),
            1 <= tol,
            1 <= skel@.len() <= 100_000,
            forall|k: int| 0 <= k < skel@.len() ==> circle_wf(#[trigger] skel@[k], curve.pts()),
            centers == centers_of(skel@),
            0 <= sidx < skel@.len(),
            out@ == refine_spec(curve.pts(), skel@.take(sidx + 1), tol as int),
            out@.len() == camber_count(centers.take(sidx + 1), tol as int),
            sidx + 1 <= out@.len(),
            forall|k: int| 0 <= k < out@.len() ==> circle_wf(#[trigger] out@[k], curve.pts()),
            out@[0] == skel@[0],
            out@[out@.len() - 1] == skel@[sidx as int],
        decreases skel@.len() - sidx,
    {
        let p = skel[sidx].center;
        let q = skel[sidx + 1].center;
        proof {
            assert(circle_wf(skel@[sidx as int], curve.pts()));
            assert(circle_wf(skel@[sidx + 1], curve.pts()));
        }
        let sq = sq_dist_e(&p, &q);
        let d = isqrt(sq);
        proof {
            assert(d < 46_000_000) by (nonlinear_arith)
                requires
                    0 <= d,
                    d * d <= sq,
                    sq < 2_100_000_000_000_000,
            ;
        }
        let k = div_nn(d, tol) + 1;
        proof {
            assert(centers[sidx as int] == skel@[sidx as int].center);
            assert(centers[sidx + 1] == skel@[sidx + 1].center);
            assert(k == seg_count(dist_of(p, q), tol as int));
        }
        let dir = match p.vector_to(&q).perpendicular().normalize() {
            Some(dr) => dr,
            None => Vector2 { x: DIR_SCALE, y: 0 },
        };
        let dx = q.x - p.x;
        let dy = q.y - p.y;
        let ghost pre_len = out@.len();
        let mut t: i64 = 1;
        while t < k
            invariant
                curve.wf(),
                1 <= tol,
                pt_in(p, CENTER_LIMIT as int),
                pt_in(q, CENTER_LIMIT as int),
                dx == q.x - p.x,
                dy == q.y - p.y,
                crate::geom2::vec_in(dir, DIR_SCALE as int),
                1 <= t <= k,
                k <= 50_000_001,
                dir == seg_dir(p, q),
                refine_spec(curve.pts(), skel@.take(sidx + 1), tol as int) + seg_insert(
                    curve.pts(),
                    p,
                    q,
                    k as int,
                    1,
                ) == out@ + seg_insert(curve.pts(), p, q, k as int, t as int),
                out@.len() == pre_len + t - 1,
                1 <= pre_len,
                forall|j: int| 0 <= j < out@.len() ==> circle_wf(#[trigger] out@[j], curve.pts()),
                out@[0] == skel@[0],
            decreases k - t,
        {
            let ox = mul_div(dx, t, k);
            let oy = mul_div(dy, t, k);
            let c = Point2 { x: p.x + ox, y: p.y + oy };
            let st = station_at(curve, c, dir);
            proof {
                assert(c == interp_center(p, q, t as int, k as int));
                assert(st == station_spec(curve.pts(), c, dir));
                assert(seg_insert(curve.pts(), p, q, k as int, t as int) == seq![st] + seg_insert(
                    curve.pts(),
                    p,
                    q,
                    k as int,
                    t + 1 as int,
                ));
                assert(out@ + (seq![st] + seg_insert(curve.pts(), p, q, k as int, t + 1 as int))
                    =~= out@.push(st) + seg_insert(curve.pts(), p, q, k as int, t + 1 as int));
            }
            out.push(st);
            t = t + 1;
        }
        out.push(skel[sidx + 1]);
        proof {
            let u = centers.take(sidx + 2);
            assert(u.drop_last() =~= centers.take(sidx + 1));
            assert(u.last() == centers[sidx + 1]);
            assert(u[u.len() - 2] == centers[sidx as int]);
            assert(camber_count(u, tol as int) == camber_count(centers.take(sidx + 1), tol as int)
                + seg_count(dist_of(centers[sidx as int], centers[sidx + 1]), tol as int));
            let w = skel@.take(sidx + 2);
            assert(w.drop_last() =~= skel@.take(sidx + 1));
            assert(w.last() == skel@[sidx + 1]);
            assert(w[w.len() - 2] == skel@[sidx as int]);
            assert(seg_insert(curve.pts(), p, q, k as int, k as int) =~= Seq::<
                InscribedCircle,
            >::empty());
            assert(refine_spec(curve.pts(), skel@.take(sidx + 1), tol as int) + seg_insert(
                curve.pts(),
                p,
                q,
                k as int,
                1,
            ) =~= out@.drop_last());
            assert(refine_spec(curve.pts(), w, tol as int) =~= out@);
        }
        sidx = sidx + 1;
    }
    proof {
        assert(centers.take(centers.len() as int) =~= centers);
        assert(skel@.take(skel@.len() as int) =~= skel@);
        assert(sidx == skel@.len() - 1);
    }
    out
}

} // verus!
