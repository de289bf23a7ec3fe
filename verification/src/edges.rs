//! Edge location strategies: how marching terminates at each end.

use vstd::prelude::*;

verus! {

use crate::curve::BoundaryCurve;
use crate::error::GeometryError;
use crate::geom2::{pt_in, sq_dist, sq_dist_e, vec_in, Point2, Vector2};
use crate::num::{mul_div, scale_trunc, CENTER_LIMIT, COORD_LIMIT, DIR_SCALE};
use crate::station::{circle_wf, side_val, station_at, station_spec, InscribedCircle};

/// How the terminal station of one end of the camber line is located.
#[derive(Clone, Copy, Debug, PartialEq, Eq, Structural)]
pub enum EdgeFind {
    /// Stop at the radius floor and report the nearer curve endpoint.
    Open,
    /// Close a gap (a blunt or truncated edge) by iterating toward the
    /// midpoint of the gap's extremes, at most `max_iter` times; falls
    /// back to the best estimate rather than failing.
    OpenIntersect { max_iter: usize },
    /// Report the curve point farthest ahead of the marched terminus, the
    /// convergence point of the two surface branches.
    Intersect,
    /// Fit the edge point by consensus over the last `n` stations' circles,
    /// counting stations whose circle passes within `in_tol` of a
    /// candidate edge point.
    RansacRadius { in_tol: i64, n: usize },
}

/// The configured strategy is usable.
pub open spec fn edge_valid(e: EdgeFind) -> bool {
    match e {
        EdgeFind::Open => true,
        EdgeFind::OpenIntersect { max_iter } => 1 <= max_iter,
        EdgeFind::Intersect => true,
        EdgeFind::RansacRadius { in_tol, n } => 1 <= in_tol <= COORD_LIMIT && 3 <= n,
    }
}

impl EdgeFind {
    /// Whether the configured strategy is usable.
    pub fn is_valid(&self) -> (r: bool)
        ensures
            r == edge_valid(*self),
    {
        match self {
            EdgeFind::Open => true,
            EdgeFind::OpenIntersect { max_iter } => 1 <= *max_iter,
            EdgeFind::Intersect => true,
            EdgeFind::RansacRadius { in_tol, n } => 1 <= *in_tol && *in_tol <= COORD_LIMIT && 3
                <= *n,
        }
    }
}

/// Forward gain of `p` over `c` along `dir`: the dot product of `dir` with
/// the displacement from `c` to `p`.
pub open spec fn gain(dir: Vector2, c: Point2, p: Point2) -> int {
    dir.x * (p.x - c.x) + dir.y * (p.y - c.y)
}

/// The curve endpoint nearer to `c`: the first point when it is at least
/// as close as the last, else the last point.
pub open spec fn open_edge_point(s: Seq<Point2>, c: Point2) -> Point2 {
    if sq_dist(c, s[0]) <= sq_dist(c, s[s.len() - 1]) {
        s[0]
    } else {
        s[s.len() - 1]
    }
}

/// Forward gain of `p` over `c` along `dir`, as an executable value.
fn gain_e(dir: &Vector2, c: &Point2, p: &Point2) -> (r: i64)
    requires
        vec_in(*dir, DIR_SCALE as int),
        pt_in(*c, CENTER_LIMIT as int),
        pt_in(*p, CENTER_LIMIT as int),
    ensures
        r == gain(*dir, *c, *p),
{
    let v = c.vector_to(p);
    dir.dot(&v)
}

/// The `Open` terminal: a station inscribed at the curve endpoint nearer
/// the marched terminus.
fn open_edge(curve: &BoundaryCurve, last_c: Point2, dir: Vector2) -> (t: InscribedCircle)
    requires
        curve.wf(),
        pt_in(last_c, CENTER_LIMIT as int),
        vec_in(dir, DIR_SCALE as int),
    ensures
        circle_wf(t, curve.pts()),
        0 <= t.radius < 50_000_000,
        t.center == open_edge_point(curve.pts(), last_c),
        t == station_spec(curve.pts(), open_edge_point(curve.pts(), last_c), dir),
{
    let pts = curve.points();
    let n = pts.len();
    let d0 = sq_dist_e(&last_c, &pts[0]);
    let d1 = sq_dist_e(&last_c, &pts[n - 1]);
    let e = if d0 <= d1 {
        pts[0]
    } else {
        pts[n - 1]
    };
    station_at(curve, e, dir)
}

/// Some curve point lies strictly ahead of `c` along `dir`.
pub open spec fn ahead_exists(s: Seq<Point2>, c: Point2, dir: Vector2) -> bool {
    exists|i: int| 0 <= i < s.len() && gain(dir, c, #[trigger] s[i]) > 0
}

/// Index of the first ahead point of maximal side value; meaningful when
/// an ahead point exists.
pub open spec fn first_ahead_smax(s: Seq<Point2>, c: Point2, dir: Vector2) -> int
    decreases s.len(),
{
    if s.len() == 0 {
        0
    } else {
        let t = s.drop_last();
        if ahead_exists(t, c, dir) {
            let p = first_ahead_smax(t, c, dir);
            if gain(dir, c, s.last()) > 0 && side_val(dir, c, s.last()) > side_val(dir, c, s[p]) {
                s.len() - 1
            } else {
                p
            }
        } else if gain(dir, c, s.last()) > 0 {
            s.len() - 1
        } else {
            0
        }
    }
}

/// Index of the first ahead point of minimal side value; meaningful when
/// an ahead point exists.
pub open spec fn first_ahead_smin(s: Seq<Point2>, c: Point2, dir: Vector2) -> int
    decreases s.len(),
{
    if s.len() == 0 {
        0
    } else {
        let t = s.drop_last();
        if ahead_exists(t, c, dir) {
            let p = first_ahead_smin(t, c, dir);
            if gain(dir, c, s.last()) > 0 && side_val(dir, c, s.last()) < side_val(dir, c, s[p]) {
                s.len() - 1
            } else {
                p
            }
        } else if gain(dir, c, s.last()) > 0 {
            s.len() - 1
        } else {
            0
        }
    }
}

/// The gap estimate after at most `fuel` midpoint iterations: while any
/// curve point lies ahead, move to the midpoint of the two side-extreme
/// ahead points.
pub open spec fn gap_iter(s: Seq<Point2>, c: Point2, dir: Vector2, fuel: nat) -> Point2
    decreases fuel,
{
    if fuel == 0 {
        c
    } else if !ahead_exists(s, c, dir) {
        c
    } else {
        gap_iter(
            s,
            crate::march::mid_of(s[first_ahead_smax(s, c, dir)], s[first_ahead_smin(s, c, dir)]),
            dir,
            (fuel - 1) as nat,
        )
    }
}

/// The `OpenIntersect` terminal: starting from the marched terminus,
/// repeatedly move to the midpoint of the two side-extreme curve points
/// that lie ahead, at most `max_iter` times, and inscribe a station at the
/// final estimate — exactly the [`gap_iter`] fixpoint.  Best-effort:
/// returns `None` only when no curve point lies ahead of the terminus at
/// all.
fn open_intersect_edge(
    curve: &BoundaryCurve,
    last_c: Point2,
    dir: Vector2,
    max_iter: usize,
) -> (r: Option<InscribedCircle>)
    requires
        curve.wf(),
        pt_in(last_c, CENTER_LIMIT as int),
        vec_in(dir, DIR_SCALE as int),
        1 <= max_iter,
    ensures
        r is None <==> forall|i: int|
            0 <= i < curve.pts().len() ==> gain(dir, last_c, #[trigger] curve.pts()[i]) <= 0,
        r matches Some(t) ==> t == station_spec(
            curve.pts(),
            gap_iter(curve.pts(), last_c, dir, max_iter as nat),
            dir,
        ),
        r matches Some(t) ==> {
            &&& circle_wf(t, curve.pts())
            &&& 0 <= t.radius < 50_000_000
            &&& pt_in(t.center, CENTER_LIMIT as int)
        },
{
    let pts = curve.points();
    let n = pts.len();
    let mut cur = last_c;
    let mut moved = false;
    let mut it: usize = 0;
    while it < max_iter
        invariant_except_break
            curve.wf(),
            pts@ == curve.pts(),
            n == pts@.len(),
            pt_in(last_c, CENTER_LIMIT as int),
            vec_in(dir, DIR_SCALE as int),
            1 <= max_iter,
            it <= max_iter,
            pt_in(cur, CENTER_LIMIT as int),
            gap_iter(pts@, last_c, dir, max_iter as nat) == gap_iter(
                pts@,
                cur,
                dir,
                (max_iter - it) as nat,
            ),
            moved ==> pt_in(cur, COORD_LIMIT as int) && exists|i: int|
                0 <= i < pts@.len() && gain(dir, last_c, #[trigger] pts@[i]) > 0,
            !moved ==> cur == last_c,
            it >= 1 ==> moved,
        ensures
            pt_in(cur, CENTER_LIMIT as int),
            cur == gap_iter(curve.pts(), last_c, dir, max_iter as nat),
            moved ==> pt_in(cur, COORD_LIMIT as int) && exists|i: int|
                0 <= i < curve.pts().len() && gain(dir, last_c, #[trigger] curve.pts()[i]) > 0,
            !moved ==> forall|i: int|
                0 <= i < curve.pts().len() ==> gain(dir, last_c, #[trigger] curve.pts()[i]) <= 0,
        decreases max_iter - it,
    {
        let mut found = false;
        let mut hi_s: i64 = 0;
        let mut hi_i: usize = 0;
        let mut lo_s: i64 = 0;
        let mut lo_i: usize = 0;
        let mut j: usize = 0;
        while j < n
            invariant
                curve.wf(),
                pts@ == curve.pts(),
                n == pts@.len(),
                pt_in(cur, CENTER_LIMIT as int),
                vec_in(dir, DIR_SCALE as int),
                0 <= j <= n,
                found == ahead_exists(pts@.take(j as int), cur, dir),
                found ==> hi_i < j && hi_i == first_ahead_smax(pts@.take(j as int), cur, dir)
                    && hi_s == side_val(dir, cur, pts@[hi_i as int]) && gain(
                    dir,
                    cur,
                    pts@[hi_i as int],
                ) > 0 && lo_i < j && lo_i == first_ahead_smin(pts@.take(j as int), cur, dir)
                    && lo_s == side_val(dir, cur, pts@[lo_i as int]) && gain(
                    dir,
                    cur,
                    pts@[lo_i as int],
                ) > 0,
                !found ==> forall|x: int| 0 <= x < j ==> gain(dir, cur, #[trigger] pts@[x]) <= 0,
            decreases n - j,
        {
            let p = pts[j];
            let g = gain_e(&dir, &cur, &p);
            let v = cur.vector_to(&p);
            let sv = dir.cross(&v);
            proof {
                assert(sv == side_val(dir, cur, p));
            }
            let ghost old_found = found;
            let ghost old_hi = hi_i as int;
            let ghost old_lo = lo_i as int;
            if g > 0 {
                if !found {
                    found = true;
                    hi_s = sv;
                    hi_i = j;
                    lo_s = sv;
                    lo_i = j;
                } else {
                    if sv > hi_s {
                        hi_s = sv;
                        hi_i = j;
                    }
                    if sv < lo_s {
                        lo_s = sv;
                        lo_i = j;
                    }
                }
            }
            proof {
                let tprev = pts@.take(j as int);
                let tnext = pts@.take(j + 1 as int);
                assert(tnext.drop_last() =~= tprev);
                assert(tnext.last() == pts@[j as int]);
                if g > 0 {
                    assert(ahead_exists(tnext, cur, dir)) by {
                        assert(tnext[j as int] == pts@[j as int]);
                    }
                }
                if old_found {
                    let wx = choose|x: int|
                        0 <= x < tprev.len() && gain(dir, cur, #[trigger] tprev[x]) > 0;
                    assert(tnext[wx] == tprev[wx]);
                    assert(ahead_exists(tnext, cur, dir)) by {
                        assert(gain(dir, cur, tnext[wx]) > 0);
                    }
                    assert(tprev[old_hi] == pts@[old_hi]);
                    assert(tnext[old_hi] == pts@[old_hi]);
                    assert(tprev[old_lo] == pts@[old_lo]);
                    assert(tnext[old_lo] == pts@[old_lo]);
                } else if !(g > 0) {
                    assert(!ahead_exists(tnext, cur, dir)) by {
                        if ahead_exists(tnext, cur, dir) {
                            let wx = choose|x: int|
                                0 <= x < tnext.len() && gain(dir, cur, #[trigger] tnext[x]) > 0;
                            if wx < j {
                                assert(tprev[wx] == tnext[wx]);
                                assert(gain(dir, cur, tprev[wx]) > 0);
                            }
                        }
                    }
                }
            }
            j = j + 1;
        }
        proof {
            assert(pts@.take(n as int) =~= pts@);
        }
        if !found {
            proof {
                assert(gap_iter(pts@, cur, dir, (max_iter - it) as nat) == cur);
            }
            break;
        }
        let ph = pts[hi_i];
        let pl = pts[lo_i];
        let m = ph.midpoint(&pl);
        proof {
            assert(pt_in(m, COORD_LIMIT as int));
            assert(m == crate::march::mid_of(pts@[hi_i as int], pts@[lo_i as int]));
            let fuel = (max_iter - it) as nat;
            assert(fuel >= 1);
            assert(gap_iter(pts@, cur, dir, fuel) == gap_iter(pts@, m, dir, (fuel - 1) as nat));
        }
        cur = m;
        moved = true;
        it = it + 1;
    }
    if moved {
        Some(station_at(curve, cur, dir))
    } else {
        None
    }
}

/// The `Intersect` terminal: the curve point with the largest forward gain
/// over the marched terminus, or `NoIntersection` when no point lies
/// strictly ahead.
fn intersect_edge(curve: &BoundaryCurve, last_c: Point2, dir: Vector2) -> (r: Result<
    InscribedCircle,
    GeometryError,
>)
    requires
        curve.wf(),
        pt_in(last_c, CENTER_LIMIT as int),
        vec_in(dir, DIR_SCALE as int),
    ensures
        r is Err <==> forall|i: int|
            0 <= i < curve.pts().len() ==> gain(dir, last_c, #[trigger] curve.pts()[i]) <= 0,
        r matches Err(e) ==> e == GeometryError::NoIntersection,
        r matches Ok(t) ==> {
            &&& circle_wf(t, curve.pts())
            &&& 0 <= t.radius < 50_000_000
            &&& t == station_spec(curve.pts(), t.center, dir)
            &&& exists|i: int|
                0 <= i < curve.pts().len() && t.center == curve.pts()[i]
            &&& gain(dir, last_c, t.center) > 0
            &&& forall|i: int|
                0 <= i < curve.pts().len() ==> gain(dir, last_c, #[trigger] curve.pts()[i]) <= gain(
                    dir,
                    last_c,
                    t.center,
                )
        },
{
    let pts = curve.points();
    let n = pts.len();
    let mut best: i64 = gain_e(&dir, &last_c, &pts[0]);
    let mut bi: usize = 0;
    let mut i: usize = 1;
    while i < n
        invariant
            curve.wf(),
            pts@ == curve.pts(),
            n == pts@.len(),
            pt_in(last_c, CENTER_LIMIT as int),
            vec_in(dir, DIR_SCALE as int),
            1 <= i <= n,
            bi < i,
            best == gain(dir, last_c, pts@[bi as int]),
            forall|j: int| 0 <= j < i ==> gain(dir, last_c, #[trigger] pts@[j]) <= best,
        decreases n - i,
    {
        let g = gain_e(&dir, &last_c, &pts[i]);
        if g > best {
            best = g;
            bi = i;
        }
        i = i + 1;
    }
    if best <= 0 {
        return Err(GeometryError::NoIntersection);
    }
    let e = pts[bi];
    let t = station_at(curve, e, dir);
    proof {
        assert(t.center == curve.pts()[bi as int]);
    }
    Ok(t)
}

/// Clamp a coordinate into the center arena.
pub open spec fn clamp_i(v: int, lim: int) -> int {
    if v < -lim {
        -lim
    } else if v > lim {
        lim
    } else {
        v
    }
}

/// The candidate edge point projected from one station: the point of the
/// station's circle farthest along `dir`, clamped into the center arena.
pub open spec fn cand_pt(st: InscribedCircle, dir: Vector2) -> Point2 {
    Point2 {
        x: clamp_i(
            st.center.x + scale_trunc(dir.x as int, st.radius as int, DIR_SCALE as int),
            CENTER_LIMIT as int,
        ) as i64,
        y: clamp_i(
            st.center.y + scale_trunc(dir.y as int, st.radius as int, DIR_SCALE as int),
            CENTER_LIMIT as int,
        ) as i64,
    }
}

/// The station's circle passes within `tol` of the point `e`: the distance
/// from the station center to `e` is within `tol` of the radius, compared
/// on squares.
pub open spec fn inlier(st: InscribedCircle, e: Point2, tol: int) -> bool {
    &&& sq_dist(st.center, e) <= (st.radius + tol) * (st.radius + tol)
    &&& (st.radius <= tol || sq_dist(st.center, e) >= (st.radius - tol) * (st.radius - tol))
}

/// How many stations of `w` are inliers of `e`.
pub open spec fn inlier_count(w: Seq<InscribedCircle>, e: Point2, tol: int) -> int
    decreases w.len(),
{
    if w.len() == 0 {
        0
    } else {
        inlier_count(w.drop_last(), e, tol) + if inlier(w.last(), e, tol) {
            1int
        } else {
            0int
        }
    }
}

/// The trailing window of `h`: its last `n` stations, or all of them when
/// `h` is shorter.
pub open spec fn window_of(h: Seq<InscribedCircle>, n: int) -> Seq<InscribedCircle> {
    if h.len() <= n {
        h
    } else {
        h.skip(h.len() - n)
    }
}

/// Clamps a value into `[-CENTER_LIMIT, CENTER_LIMIT]`.
fn clamp_e(v: i64) -> (r: i64)
    ensures
        r == clamp_i(v as int, CENTER_LIMIT as int),
{
    if v < -CENTER_LIMIT {
        -CENTER_LIMIT
    } else if v > CENTER_LIMIT {
        CENTER_LIMIT
    } else {
        v
    }
}

/// Computes a station's candidate edge point.
fn cand_point(st: &InscribedCircle, dir: &Vector2) -> (e: Point2)
    requires
        pt_in(st.center, CENTER_LIMIT as int),
        0 <= st.radius < 50_000_000,
        vec_in(*dir, DIR_SCALE as int),
    ensures
        e == cand_pt(*st, *dir),
        pt_in(e, CENTER_LIMIT as int),
{
    let ox = mul_div(dir.x, st.radius, DIR_SCALE);
    let oy = mul_div(dir.y, st.radius, DIR_SCALE);
    Point2 { x: clamp_e(st.center.x + ox), y: clamp_e(st.center.y + oy) }
}

/// Counts the stations of `w` whose circle passes within `tol` of `e`.
fn count_inliers(w: &Vec<InscribedCircle>, e: Point2, tol: i64) -> (c: usize)
    requires
        forall|k: int|
            0 <= k < w@.len() ==> pt_in((#[trigger] w@[k]).center, CENTER_LIMIT as int) && 0 <= w@[
                k
            ].radius < 50_000_000,
        pt_in(e, CENTER_LIMIT as int),
        1 <= tol <= COORD_LIMIT,
    ensures
        c == inlier_count(w@, e, tol as int),
        c <= w@.len(),
{
    let mut c: usize = 0;
    let mut j: usize = 0;
    proof {
        assert(w@.take(0) =~= Seq::<InscribedCircle>::empty());
    }
    while j < w.len()
        invariant
            forall|k: int|
                0 <= k < w@.len() ==> pt_in((#[trigger] w@[k]).center, CENTER_LIMIT as int) && 0
                    <= w@[k].radius < 50_000_000,
            pt_in(e, CENTER_LIMIT as int),
            1 <= tol <= COORD_LIMIT,
            0 <= j <= w@.len(),
            c <= j,
            c == inlier_count(w@.take(j as int), e, tol as int),
        decreases w@.len() - j,
    {
        let st = w[j];
        let sq = sq_dist_e(&st.center, &e);
        let rp: i64 = st.radius + tol;
        proof {
            assert(
                0 <= rp as int * rp as int <= 2_700_000_000_000_000
            ) by (nonlinear_arith)
                requires
                    0 <= rp as int <= 51_000_000,
            ;
        }
        let near = sq <= rp * rp;
        let far_ok: bool = if st.radius <= tol {
            true
        } else {
            let rm: i64 = st.radius - tol;
            proof {
                assert(0 <= rm as int * rm as int <= 2_700_000_000_000_000) by (nonlinear_arith)
                    requires
                        0 <= rm as int <= 51_000_000,
                ;
            }
            sq >= rm * rm
        };
        proof {
            assert(w@.take(j + 1 as int).drop_last() =~= w@.take(j as int));
            assert(w@.take(j + 1 as int).last() == w@[j as int]);
        }
        if near && far_ok {
            c = c + 1;
        }
        j = j + 1;
    }
    proof {
        assert(w@.take(w@.len() as int) =~= w@);
    }
    c
}

/// The `RansacRadius` terminal: each window station projects a candidate
/// edge point along `dir`; the candidate whose circle-consensus is largest
/// wins, and must be supported by at least half the window.
fn ransac_edge(
    curve: &BoundaryCurve,
    half: &Vec<InscribedCircle>,
    dir: Vector2,
    in_tol: i64,
    n_w: usize,
) -> (r: Result<InscribedCircle, GeometryError>)
    requires
        curve.wf(),
        vec_in(dir, DIR_SCALE as int),
        1 <= in_tol <= COORD_LIMIT,
        3 <= n_w,
        half@.len() <= 100_000,
        forall|k: int|
            0 <= k < half@.len() ==> pt_in((#[trigger] half@[k]).center, CENTER_LIMIT as int) && 0
                <= half@[k].radius < 50_000_000,
    ensures
        ({
            let w = window_of(half@, n_w as int);
            &&& (r is Err <==> w.len() < 3 || forall|m: int|
                0 <= m < w.len() ==> 2 * inlier_count(w, cand_pt(#[trigger] w[m], dir), in_tol as int)
                    < w.len())
            &&& (r matches Err(e) ==> e == GeometryError::InsufficientInliers)
            &&& (r matches Ok(t) ==> {
                &&& circle_wf(t, curve.pts())
                &&& 0 <= t.radius < 50_000_000
                &&& t == station_spec(curve.pts(), t.center, dir)
                &&& exists|m: int|
                    0 <= m < w.len() && t.center == cand_pt(w[m], dir) && 2 * inlier_count(
                        w,
                        cand_pt(w[m], dir),
                        in_tol as int,
                    ) >= w.len() && (forall|m2: int|
                        0 <= m2 < w.len() ==> inlier_count(
                            w,
                            cand_pt(#[trigger] w[m2], dir),
                            in_tol as int,
                        ) <= inlier_count(w, cand_pt(w[m], dir), in_tol as int)) && (forall|
                        m2: int,
                    |
                        0 <= m2 < w.len() && inlier_count(
                            w,
                            cand_pt(#[trigger] w[m2], dir),
                            in_tol as int,
                        ) == inlier_count(w, cand_pt(w[m], dir), in_tol as int) ==> m <= m2)
            })
        }),
{
    let len = half.len();
    let start: usize = if len <= n_w {
        0
    } else {
        len - n_w
    };
    let mut w: Vec<InscribedCircle> = Vec::new();
    let mut j: usize = start;
    while j < len
        invariant
            start <= j <= len,
            len == half@.len(),
            w@.len() == j - start,
            forall|x: int| 0 <= x < w@.len() ==> #[trigger] w@[x] == half@[start + x],
        decreases len - j,
    {
        w.push(half[j]);
        j = j + 1;
    }
    proof {
        assert(w@ =~= window_of(half@, n_w as int));
        assert forall|k: int|
            0 <= k < w@.len() implies pt_in((#[trigger] w@[k]).center, CENTER_LIMIT as int) && 0
            <= w@[k].radius < 50_000_000 by {
            assert(w@[k] == half@[start + k]);
        }
    }
    let k = w.len();
    if k < 3 {
        return Err(GeometryError::InsufficientInliers);
    }
    let mut best_cnt: usize = 0;
    let mut best_e = Point2 { x: 0, y: 0 };
    let mut have: bool = false;
    let ghost mut best_m: int = 0;
    let mut m: usize = 0;
    while m < k
        invariant
            curve.wf(),
            vec_in(dir, DIR_SCALE as int),
            1 <= in_tol <= COORD_LIMIT,
            k == w@.len(),
            3 <= k <= 100_000,
            forall|x: int|
                0 <= x < w@.len() ==> pt_in((#[trigger] w@[x]).center, CENTER_LIMIT as int) && 0
                    <= w@[x].radius < 50_000_000,
            0 <= m <= k,
            have <==> m >= 1,
            have ==> {
                &&& 0 <= best_m < k
                &&& best_m < m
                &&& best_e == cand_pt(w@[best_m], dir)
                &&& pt_in(best_e, CENTER_LIMIT as int)
                &&& best_cnt <= k
                &&& best_cnt == inlier_count(w@, best_e, in_tol as int)
                &&& forall|m2: int|
                    0 <= m2 < m ==> inlier_count(w@, cand_pt(#[trigger] w@[m2], dir), in_tol as int)
                        <= best_cnt
                &&& forall|m2: int|
                    0 <= m2 < m && inlier_count(w@, cand_pt(#[trigger] w@[m2], dir), in_tol as int)
                        == best_cnt ==> best_m <= m2
            },
        decreases k - m,
    {
        let e = cand_point(&w[m], &dir);
        let c = count_inliers(&w, e, in_tol);
        let ghost old_have = have;
        let ghost old_cnt = best_cnt as int;
        let ghost old_bm = best_m;
        if !have || c > best_cnt {
            have = true;
            best_cnt = c;
            best_e = e;
            proof {
                best_m = m as int;
            }
        }
        proof {
            assert forall|m2: int|
                0 <= m2 < m + 1 && inlier_count(w@, cand_pt(#[trigger] w@[m2], dir), in_tol as int)
                    == best_cnt as int implies best_m <= m2 by {
                if m2 < m as int {
                    assert(old_have);
                    assert(inlier_count(w@, cand_pt(w@[m2], dir), in_tol as int) <= old_cnt);
                    if c as int > old_cnt {
                        assert(best_cnt as int == c as int);
                        assert(inlier_count(w@, cand_pt(w@[m2], dir), in_tol as int) < best_cnt
                            as int);
                    } else {
                        assert(best_m == old_bm);
                        assert(best_cnt as int == old_cnt);
                    }
                }
            }
        }
        m = m + 1;
    }
    if 2 * best_cnt < k {
        return Err(GeometryError::InsufficientInliers);
    }
    let t = station_at(curve, best_e, dir);
    Ok(t)
}

/// Locates the terminal station of one end of the camber line: the
/// marched terminus `last_c`, the outward direction `dir`, and for the
/// consensus strategy the marched half `half` in seed-to-tip order.
/// `Ok(None)` means the strategy adds no terminal station.
pub fn locate_edge(
    curve: &BoundaryCurve,
    half: &Vec<InscribedCircle>,
    last_c: Point2,
    dir: Vector2,
    edge: &EdgeFind,
) -> (r: Result<Option<InscribedCircle>, GeometryError>)
    requires
        curve.wf(),
        edge_valid(*edge),
        pt_in(last_c, CENTER_LIMIT as int),
        vec_in(dir, DIR_SCALE as int),
        half@.len() <= 100_000,
        forall|k: int|
            0 <= k < half@.len() ==> pt_in((#[trigger] half@[k]).center, CENTER_LIMIT as int) && 0
                <= half@[k].radius < 50_000_000,
    ensures
        r matches Ok(Some(t)) ==> circle_wf(t, curve.pts()) && 0 <= t.radius < 50_000_000 && pt_in(
            t.center,
            CENTER_LIMIT as int,
        ),
        edge is Open ==> (r matches Ok(Some(t)) && t.center == open_edge_point(
            curve.pts(),
            last_c,
        ) && t == station_spec(curve.pts(), open_edge_point(curve.pts(), last_c), dir)),
        edge matches EdgeFind::OpenIntersect { max_iter } ==> (r matches Ok(o) && (o is None <==> forall|
            i: int,
        |
            0 <= i < curve.pts().len() ==> gain(dir, last_c, #[trigger] curve.pts()[i]) <= 0) && (
        o matches Some(t) ==> t == station_spec(
            curve.pts(),
            gap_iter(curve.pts(), last_c, dir, max_iter as nat),
            dir,
        ))),
        edge is Intersect ==> {
            &&& (r is Err <==> forall|i: int|
                0 <= i < curve.pts().len() ==> gain(dir, last_c, #[trigger] curve.pts()[i]) <= 0)
            &&& (r matches Err(e) ==> e == GeometryError::NoIntersection)
            &&& (r matches Ok(o) ==> (o matches Some(t) && t == station_spec(
                curve.pts(),
                t.center,
                dir,
            ) && gain(dir, last_c, t.center) > 0
                && exists|i: int| 0 <= i < curve.pts().len() && t.center == curve.pts()[i]
                && forall|i: int|
                    0 <= i < curve.pts().len() ==> gain(dir, last_c, #[trigger] curve.pts()[i])
                        <= gain(dir, last_c, t.center)))
        },
        edge matches EdgeFind::RansacRadius { in_tol, n } ==> ({
            let w = window_of(half@, n as int);
            &&& (r is Err <==> w.len() < 3 || forall|m: int|
                0 <= m < w.len() ==> 2 * inlier_count(w, cand_pt(#[trigger] w[m], dir), in_tol as int)
                    < w.len())
            &&& (r matches Err(e) ==> e == GeometryError::InsufficientInliers)
            &&& (r matches Ok(o) ==> (o matches Some(t) && t == station_spec(
                curve.pts(),
                t.center,
                dir,
            ) && exists|m: int|
                0 <= m < w.len() && t.center == cand_pt(w[m], dir) && 2 * inlier_count(
                    w,
                    cand_pt(w[m], dir),
                    in_tol as int,
                ) >= w.len() && (forall|m2: int|
                    0 <= m2 < w.len() ==> inlier_count(
                        w,
                        cand_pt(#[trigger] w[m2], dir),
                        in_tol as int,
                    ) <= inlier_count(w, cand_pt(w[m], dir), in_tol as int)) && (forall|m2: int|
                    0 <= m2 < w.len() && inlier_count(
                        w,
                        cand_pt(#[trigger] w[m2], dir),
                        in_tol as int,
                    ) == inlier_count(w, cand_pt(w[m], dir), in_tol as int) ==> m <= m2)))
        }),
{
    match edge {
        EdgeFind::Open => Ok(Some(open_edge(curve, last_c, dir))),
        EdgeFind::OpenIntersect { max_iter } => Ok(
            open_intersect_edge(curve, last_c, dir, *max_iter),
        ),
        EdgeFind::Intersect => match intersect_edge(curve, last_c, dir) {
            Ok(t) => Ok(Some(t)),
            Err(e) => Err(e),
        },
        EdgeFind::RansacRadius { in_tol, n } => match ransac_edge(curve, half, dir, *in_tol, *n) {
            Ok(t) => Ok(Some(t)),
            Err(e) => Err(e),
        },
    }
}

} // verus!
