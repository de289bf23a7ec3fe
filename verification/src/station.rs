//! Inscribed-circle stations: circles pinned against the boundary curve.

use vstd::prelude::*;

verus! {

use crate::curve::BoundaryCurve;
use crate::geom2::{
    cross2, pt_in, sq_dist, sq_dist_e, vec_in, Circle2, Point2, Vector2, GEOM_LIMIT,
};
use crate::num::{isqrt, sqrt_bracket, sqrt_floor, CENTER_LIMIT, DIR_SCALE};

/// One station of the camber line: a circle inscribed against the curve,
/// with its two contact points.  `contact_a` is the curve point nearest the
/// center; `contact_b` is the nearest curve point on the angular side of
/// the march direction opposite `contact_a`.
#[derive(Clone, Copy, Debug, PartialEq, Eq, Structural)]
pub struct InscribedCircle {
    pub center: Point2,
    pub radius: i64,
    pub contact_a: Point2,
    pub contact_b: Point2,
}

/// Signed side of `p` against the direction `dir` out of `c`: the cross
/// product of `dir` with the displacement from `c` to `p`.
pub open spec fn side_val(dir: Vector2, c: Point2, p: Point2) -> int {
    dir.x * (p.y - c.y) - dir.y * (p.x - c.x)
}

/// The two side values sit strictly on opposite sides of `dir`, treating a
/// contact on the axis (`sa == 0`) as opposed to anything off the axis.
pub open spec fn opp(sa: int, cb: int) -> bool {
    (sa > 0 && cb < 0) || (sa < 0 && cb > 0) || (sa == 0 && cb != 0)
}

/// Minimum squared distance from `c` to the points of `s`; meaningful for
/// non-empty `s`.
pub open spec fn min_sq(s: Seq<Point2>, c: Point2) -> int
    decreases s.len(),
{
    if s.len() <= 1 {
        sq_dist(c, s[0])
    } else {
        let m = min_sq(s.drop_last(), c);
        if sq_dist(c, s.last()) < m {
            sq_dist(c, s.last())
        } else {
            m
        }
    }
}

/// The minimum squared distance is a lower bound attained by some point.
pub proof fn lemma_min_sq(s: Seq<Point2>, c: Point2)
    requires
        s.len() >= 1,
    ensures
        forall|i: int| 0 <= i < s.len() ==> min_sq(s, c) <= sq_dist(c, #[trigger] s[i]),
        exists|i: int| 0 <= i < s.len() && min_sq(s, c) == sq_dist(c, #[trigger] s[i]),
    decreases s.len(),
{
    if s.len() > 1 {
        lemma_min_sq(s.drop_last(), c);
        assert forall|i: int| 0 <= i < s.len() implies min_sq(s, c) <= sq_dist(
            c,
            #[trigger] s[i],
        ) by {
            if i < s.len() - 1 {
                assert(s.drop_last()[i] == s[i]);
            }
        }
        if min_sq(s, c) == sq_dist(c, s.last()) {
            assert(min_sq(s, c) == sq_dist(c, s[s.len() - 1]));
        } else {
            let w = choose|w: int|
                0 <= w < s.drop_last().len() && min_sq(s.drop_last(), c) == sq_dist(
                    c,
                    #[trigger] s.drop_last()[w],
                );
            assert(s.drop_last()[w] == s[w]);
            assert(min_sq(s, c) == sq_dist(c, s[w]));
        }
    } else {
        assert(min_sq(s, c) == sq_dist(c, s[0]));
    }
}

/// Index of the first curve point nearest to `c`.
pub open spec fn first_min_idx(s: Seq<Point2>, c: Point2) -> int
    decreases s.len(),
{
    if s.len() <= 1 {
        0
    } else {
        let p = first_min_idx(s.drop_last(), c);
        if sq_dist(c, s.last()) < sq_dist(c, s[p]) {
            s.len() - 1
        } else {
            p
        }
    }
}

/// The first nearest index is valid and attains the minimum distance.
pub proof fn lemma_first_min_idx(s: Seq<Point2>, c: Point2)
    requires
        s.len() >= 1,
    ensures
        0 <= first_min_idx(s, c) < s.len(),
        sq_dist(c, s[first_min_idx(s, c)]) == min_sq(s, c),
    decreases s.len(),
{
    if s.len() > 1 {
        lemma_first_min_idx(s.drop_last(), c);
        let p = first_min_idx(s.drop_last(), c);
        assert(s.drop_last()[p] == s[p]);
    }
}

/// Some curve point lies on the side opposite `sa` of the direction axis.
pub open spec fn opp_exists(s: Seq<Point2>, c: Point2, dir: Vector2, sa: int) -> bool {
    exists|i: int| 0 <= i < s.len() && opp(sa, side_val(dir, c, #[trigger] s[i]))
}

/// Index of the first nearest curve point on the side opposite `sa`;
/// meaningful when such a point exists.
pub open spec fn first_opp_min_idx(s: Seq<Point2>, c: Point2, dir: Vector2, sa: int) -> int
    decreases s.len(),
{
    if s.len() == 0 {
        0
    } else {
        let t = s.drop_last();
        if opp_exists(t, c, dir, sa) {
            let p = first_opp_min_idx(t, c, dir, sa);
            if opp(sa, side_val(dir, c, s.last())) && sq_dist(c, s.last()) < sq_dist(c, s[p]) {
                s.len() - 1
            } else {
                p
            }
        } else if opp(sa, side_val(dir, c, s.last())) {
            s.len() - 1
        } else {
            0
        }
    }
}

/// When an opposite-side point exists, the first opposite nearest index is
/// valid and sits on the opposite side.
pub proof fn lemma_first_opp_min_idx(s: Seq<Point2>, c: Point2, dir: Vector2, sa: int)
    requires
        opp_exists(s, c, dir, sa),
    ensures
        0 <= first_opp_min_idx(s, c, dir, sa) < s.len(),
        opp(sa, side_val(dir, c, s[first_opp_min_idx(s, c, dir, sa)])),
    decreases s.len(),
{
    let t = s.drop_last();
    if opp_exists(t, c, dir, sa) {
        lemma_first_opp_min_idx(t, c, dir, sa);
        let p = first_opp_min_idx(t, c, dir, sa);
        assert(t[p] == s[p]);
    } else {
        let w = choose|i: int| 0 <= i < s.len() && opp(sa, side_val(dir, c, #[trigger] s[i]));
        if w < s.len() - 1 {
            assert(t[w] == s[w]);
            assert(opp_exists(t, c, dir, sa));
        }
    }
}

/// The station inscribed at `c` against the curve points `s`, looking
/// along `dir`: the radius is the rounded-down clearance, `contact_a` the
/// first nearest point, `contact_b` the first nearest point on the
/// opposite angular side (or `contact_a` when none sits opposite).
pub open spec fn station_spec(s: Seq<Point2>, c: Point2, dir: Vector2) -> InscribedCircle {
    let a = s[first_min_idx(s, c)];
    let sa = side_val(dir, c, a);
    let b = if opp_exists(s, c, dir, sa) {
        s[first_opp_min_idx(s, c, dir, sa)]
    } else {
        a
    };
    InscribedCircle {
        center: c,
        radius: sqrt_floor(min_sq(s, c)) as i64,
        contact_a: a,
        contact_b: b,
    }
}

/// The station is a maximal-fit circle at its center: both contacts lie on
/// the curve, no curve point is strictly inside the circle, and the nearest
/// contact is within one grid unit of exact tangency.
pub open spec fn circle_wf(st: InscribedCircle, s: Seq<Point2>) -> bool {
    &&& s.contains(st.contact_a)
    &&& s.contains(st.contact_b)
    &&& 0 <= st.radius
    &&& pt_in(st.center, CENTER_LIMIT as int)
    &&& forall|i: int|
        0 <= i < s.len() ==> st.radius * st.radius <= sq_dist(st.center, #[trigger] s[i])
    &&& sq_dist(st.center, st.contact_a) < (st.radius + 1) * (st.radius + 1)
}

/// What the second contact of a station is: the nearest curve point on the
/// opposite angular side of the march direction from the first contact, or
/// the first contact itself when no point sits opposite.
pub open spec fn contact_b_spec(st: InscribedCircle, s: Seq<Point2>, dir: Vector2) -> bool {
    let sa = side_val(dir, st.center, st.contact_a);
    if exists|i: int| 0 <= i < s.len() && opp(sa, side_val(dir, st.center, #[trigger] s[i])) {
        &&& opp(sa, side_val(dir, st.center, st.contact_b))
        &&& forall|i: int|
            0 <= i < s.len() && opp(sa, side_val(dir, st.center, #[trigger] s[i])) ==> sq_dist(
                st.center,
                st.contact_b,
            ) <= sq_dist(st.center, s[i])
    } else {
        st.contact_b == st.contact_a
    }
}

impl InscribedCircle {
    /// The station's circle.
    pub fn circle(&self) -> (r: Circle2)
        ensures
            r.center == self.center,
            r.r == self.radius,
    {
        Circle2 { center: self.center, r: self.radius }
    }
}

/// Minimum squared distance from `c` to the curve points, with the index of
/// a nearest point.
pub fn min_sq_scan(pts: &Vec<Point2>, c: Point2) -> (r: (i64, usize))
    requires
        pts@.len() >= 1,
        forall|i: int| 0 <= i < pts@.len() ==> pt_in(#[trigger] pts@[i], GEOM_LIMIT as int),
        pt_in(c, GEOM_LIMIT as int),
    ensures
        r.1 < pts@.len(),
        r.0 == sq_dist(c, pts@[r.1 as int]),
        r.0 == min_sq(pts@, c),
        r.1 == first_min_idx(pts@, c),
        0 <= r.0 < 2_100_000_000_000_000,
{
    let mut best: i64 = sq_dist_e(&pts[0], &c);
    let mut bi: usize = 0;
    let mut i: usize = 1;
    proof {
        assert(pts@.take(1).len() == 1);
        assert(pts@.take(1)[0] == pts@[0]);
        crate::geom2::lemma_sq_dist_bound(c, pts@[0]);
        assert(sq_dist(pts@[0], c) == sq_dist(c, pts@[0])) by (nonlinear_arith);
    }
    while i < pts.len()
        invariant
            1 <= i <= pts@.len(),
            pts@.len() >= 1,
            forall|j: int| 0 <= j < pts@.len() ==> pt_in(#[trigger] pts@[j], GEOM_LIMIT as int),
            pt_in(c, GEOM_LIMIT as int),
            bi < i,
            best == sq_dist(c, pts@[bi as int]),
            best == min_sq(pts@.take(i as int), c),
            bi == first_min_idx(pts@.take(i as int), c),
            0 <= best < 2_100_000_000_000_000,
        decreases pts@.len() - i,
    {
        let d = sq_dist_e(&pts[i], &c);
        proof {
            assert(sq_dist(pts@[i as int], c) == sq_dist(c, pts@[i as int])) by (nonlinear_arith);
            assert(pts@.take(i + 1 as int).drop_last() =~= pts@.take(i as int));
            assert(pts@.take(i + 1 as int).last() == pts@[i as int]);
        }
        if d < best {
            best = d;
            bi = i;
        }
        i = i + 1;
    }
    proof {
        assert(pts@.take(pts@.len() as int) =~= pts@);
    }
    (best, bi)
}

/// Builds the station inscribed at `c`: the radius is the rounded-down
/// distance to the nearest curve point, the contacts are nearest curve
/// points on either angular side of `dir`.
pub fn station_at(curve: &BoundaryCurve, c: Point2, dir: Vector2) -> (st: InscribedCircle)
    requires
        curve.wf(),
        pt_in(c, CENTER_LIMIT as int),
        vec_in(dir, DIR_SCALE as int),
    ensures
        st == station_spec(curve.pts(), c, dir),
        st.center == c,
        st.radius == sqrt_floor(min_sq(curve.pts(), c)),
        circle_wf(st, curve.pts()),
        contact_b_spec(st, curve.pts(), dir),
        0 <= st.radius < 50_000_000,
{
    let pts = curve.points();
    let (m, ai) = min_sq_scan(pts, c);
    let radius = isqrt(m);
    let a = pts[ai];
    proof {
        assert(curve.pts().contains(a)) by {
            assert(curve.pts()[ai as int] == a);
        }
        lemma_min_sq(curve.pts(), c);
    }
    let sa = side_of(&c, &a, &dir);
    let mut found: bool = false;
    let mut bv: i64 = 0;
    let mut bidx: usize = 0;
    let n = pts.len();
    let mut i: usize = 0;
    while i < n
        invariant
            curve.wf(),
            pts@ == curve.pts(),
            n == pts@.len(),
            pt_in(c, CENTER_LIMIT as int),
            vec_in(dir, DIR_SCALE as int),
            sa == side_val(dir, c, a),
            0 <= i <= n,
            found == opp_exists(pts@.take(i as int), c, dir, sa as int),
            !found ==> forall|j: int|
                0 <= j < i ==> !opp(sa as int, side_val(dir, c, #[trigger] pts@[j])),
            found ==> bidx < i && bidx == first_opp_min_idx(pts@.take(i as int), c, dir, sa as int)
                && opp(sa as int, side_val(dir, c, pts@[bidx as int])) && bv == sq_dist(
                c,
                pts@[bidx as int],
            ) && forall|j: int|
                0 <= j < i && opp(sa as int, side_val(dir, c, #[trigger] pts@[j])) ==> bv
                    <= sq_dist(c, pts@[j]),
        decreases n - i,
    {
        let p = pts[i];
        let sb = side_of(&c, &p, &dir);
        let is_opp = (sa > 0 && sb < 0) || (sa < 0 && sb > 0) || (sa == 0 && sb != 0);
        let ghost old_found = found;
        let ghost old_bidx = bidx as int;
        if is_opp {
            let d = sq_dist_e(&c, &p);
            if !found || d < bv {
                found = true;
                bv = d;
                bidx = i;
            }
        }
        proof {
            let tprev = pts@.take(i as int);
            let tnext = pts@.take(i + 1 as int);
            assert(tnext.drop_last() =~= tprev);
            assert(tnext.last() == pts@[i as int]);
            if is_opp {
                assert(opp_exists(tnext, c, dir, sa as int)) by {
                    assert(tnext[i as int] == pts@[i as int]);
                }
            }
            if old_found {
                let w = choose|j: int|
                    0 <= j < tprev.len() && opp(sa as int, side_val(dir, c, #[trigger] tprev[j]));
                assert(tnext[w] == tprev[w]);
                assert(opp_exists(tnext, c, dir, sa as int)) by {
                    assert(opp(sa as int, side_val(dir, c, tnext[w])));
                }
                assert(tprev[old_bidx] == pts@[old_bidx]);
                assert(tnext[old_bidx] == pts@[old_bidx]);
            } else if !is_opp {
                assert(!opp_exists(tnext, c, dir, sa as int)) by {
                    if opp_exists(tnext, c, dir, sa as int) {
                        let w = choose|j: int|
                            0 <= j < tnext.len() && opp(
                                sa as int,
                                side_val(dir, c, #[trigger] tnext[j]),
                            );
                        if w < i {
                            assert(tprev[w] == tnext[w]);
                            assert(opp(sa as int, side_val(dir, c, tprev[w])));
                        }
                    }
                }
            }
        }
        i = i + 1;
    }
    let b = if found {
        pts[bidx]
    } else {
        a
    };
    proof {
        if found {
            assert(curve.pts().contains(b)) by {
                assert(curve.pts()[bidx as int] == b);
            }
        }
    }
    let st = InscribedCircle { center: c, radius, contact_a: a, contact_b: b };
    proof {
        assert forall|j: int| 0 <= j < curve.pts().len() implies st.radius * st.radius <= sq_dist(
            st.center,
            #[trigger] curve.pts()[j],
        ) by {
            assert(min_sq(curve.pts(), c) <= sq_dist(c, curve.pts()[j]));
            assert(sqrt_bracket(m as int, radius as int));
        }
        assert(sq_dist(c, a) == m);
        assert(m < (radius + 1) * (radius + 1));
        assert(radius < 50_000_000) by (nonlinear_arith)
            requires
                0 <= radius,
                radius * radius <= m,
                m < 2_100_000_000_000_000,
        ;
        assert(pts@.take(n as int) =~= pts@);
        lemma_first_min_idx(curve.pts(), c);
        if found {
            lemma_first_opp_min_idx(curve.pts(), c, dir, sa as int);
        }
        assert(sqrt_floor(min_sq(curve.pts(), c)) as i64 == radius);
        assert(a == curve.pts()[first_min_idx(curve.pts(), c)]);
        assert(st == station_spec(curve.pts(), c, dir));
    }
    st
}

/// Signed side of `p` against `dir` out of `c`, as an executable value.
fn side_of(c: &Point2, p: &Point2, dir: &Vector2) -> (r: i64)
    requires
        pt_in(*c, GEOM_LIMIT as int),
        pt_in(*p, GEOM_LIMIT as int),
        vec_in(*dir, DIR_SCALE as int),
    ensures
        r == side_val(*dir, *c, *p),
{
    let v = c.vector_to(p);
    dir.cross(&v)
}

} // verus!
