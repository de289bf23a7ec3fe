//! Convex-hull preprocessing: the hull seeds and bounds the circle search.

use vstd::prelude::*;

verus! {

use crate::curve::{degenerate, BoundaryCurve};
use crate::geom2::{cross3, cross3_e, pt_in, Point2, GEOM_LIMIT};
use crate::num::COORD_LIMIT;

/// The convex hull of a boundary curve, as an ordered ring of vertices.
pub struct ConvexHull {
    pub points: Vec<Point2>,
}

/// Lexicographic order on points: by `x`, then by `y`.
pub open spec fn lex_le(a: Point2, b: Point2) -> bool {
    a.x < b.x || (a.x == b.x && a.y <= b.y)
}

/// `s` is sorted under [`lex_le`].
pub open spec fn sorted_lex(s: Seq<Point2>) -> bool {
    forall|i: int, j: int| 0 <= i < j < s.len() ==> lex_le(s[i], s[j])
}

/// Every point of `s` occurs somewhere in `t`.
pub open spec fn contained_in(s: Seq<Point2>, t: Seq<Point2>) -> bool {
    forall|i: int| 0 <= i < s.len() ==> t.contains(#[trigger] s[i])
}

/// `c` lies on the inner side of every directed hull edge (with wraparound).
pub open spec fn in_hull_spec(c: Point2, hs: Seq<Point2>) -> bool {
    forall|i: int|
        0 <= i < hs.len() ==> #[trigger] cross3(hs[i], hs[(i + 1) % (hs.len() as int)], c) >= 0
}

/// Largest coordinate magnitude of a hull vertex: one unit beyond the
/// curve range, for the padded fallback ring.
pub const HULL_LIMIT: i64 = 1_000_001;

/// The successor of index `i` on a ring of `n` vertices.
pub open spec fn ring_next(n: int, i: int) -> int {
    if i + 1 < n {
        i + 1
    } else {
        i + 1 - n
    }
}

/// The ring turns strictly left at every vertex (with wraparound): a
/// strictly convex, counter-clockwise polygon of at least three vertices.
pub open spec fn convex_ring(hs: Seq<Point2>) -> bool {
    &&& hs.len() >= 3
    &&& forall|i: int|
        0 <= i < hs.len() ==> #[trigger] cross3(
            hs[i],
            hs[ring_next(hs.len() as int, i)],
            hs[ring_next(hs.len() as int, ring_next(hs.len() as int, i))],
        ) > 0
}

/// A usable hull ring for the point set `s`: strictly convex, within the
/// hull coordinate range, with every point of `s` on its inner side.
pub open spec fn hull_ok_for(s: Seq<Point2>, hs: Seq<Point2>) -> bool {
    &&& convex_ring(hs)
    &&& forall|i: int| 0 <= i < hs.len() ==> pt_in(#[trigger] hs[i], HULL_LIMIT as int)
    &&& forall|i: int| 0 <= i < s.len() ==> in_hull_spec(#[trigger] s[i], hs)
}

/// Sorts points lexicographically by insertion.
fn sort_lex(pts: &Vec<Point2>) -> (r: Vec<Point2>)
    ensures
        r@.len() == pts@.len(),
        sorted_lex(r@),
        contained_in(r@, pts@),
{
    let mut out: Vec<Point2> = Vec::new();
    let mut i: usize = 0;
    while i < pts.len()
        invariant
            0 <= i <= pts@.len(),
            out@.len() == i,
            sorted_lex(out@),
            contained_in(out@, pts@),
        decreases pts@.len() - i,
    {
        let p = pts[i];
        let mut k: usize = 0;
        loop
            invariant_except_break
                0 <= k <= out@.len(),
                forall|j: int| 0 <= j < k ==> lex_le(#[trigger] out@[j], p),
            ensures
                0 <= k <= out@.len(),
                forall|j: int| 0 <= j < k ==> lex_le(#[trigger] out@[j], p),
                k < out@.len() ==> !lex_le(out@[k as int], p),
            decreases out@.len() - k,
        {
            if k == out.len() {
                break;
            }
            let q = out[k];
            if !(q.x < p.x || (q.x == p.x && q.y <= p.y)) {
                break;
            }
            k = k + 1;
        }
        let ghost pre = out@;
        out.insert(k, p);
        proof {
            assert(out@ == pre.insert(k as int, p));
            assert forall|a: int, b: int| 0 <= a < b < out@.len() implies lex_le(
                out@[a],
                out@[b],
            ) by {
                if a < k && b < k {
                    assert(out@[a] == pre[a] && out@[b] == pre[b]);
                } else if a < k && b == k {
                    assert(out@[a] == pre[a]);
                } else if a < k && b > k {
                    assert(out@[a] == pre[a] && out@[b] == pre[b - 1]);
                    assert(!lex_le(pre[k as int], p));
                    if b - 1 > k {
                        assert(lex_le(pre[k as int], pre[b - 1]));
                    }
                } else if a == k && b > k {
                    assert(out@[b] == pre[b - 1]);
                    assert(!lex_le(pre[k as int], p));
                    if b - 1 > k {
                        assert(lex_le(pre[k as int], pre[b - 1]));
                    }
                } else {
                    assert(out@[a] == pre[a - 1] && out@[b] == pre[b - 1]);
                }
            }
            assert forall|j: int| 0 <= j < out@.len() implies pts@.contains(#[trigger] out@[j]) by {
                if j < k {
                    assert(out@[j] == pre[j]);
                } else if j == k {
                    assert(out@[j] == p);
                    assert(pts@[i as int] == p);
                } else {
                    assert(out@[j] == pre[j - 1]);
                }
            }
        }
        i = i + 1;
    }
    out
}

/// One half of the Andrew monotone chain over an ordered point list: pops
/// points that fail to keep a strict left turn, then pushes the next point.
fn half_chain(s: &Vec<Point2>) -> (h: Vec<Point2>)
    requires
        forall|i: int| 0 <= i < s@.len() ==> pt_in(#[trigger] s@[i], COORD_LIMIT as int),
    ensures
        contained_in(h@, s@),
        h@.len() <= s@.len(),
        s@.len() >= 1 ==> h@.len() >= 1,
    {
    let mut h: Vec<Point2> = Vec::new();
    let mut i: usize = 0;
    while i < s.len()
        invariant
            0 <= i <= s@.len(),
            h@.len() <= i,
            forall|j: int| 0 <= j < s@.len() ==> pt_in(#[trigger] s@[j], COORD_LIMIT as int),
            contained_in(h@, s@),
            forall|j: int| 0 <= j < h@.len() ==> pt_in(#[trigger] h@[j], COORD_LIMIT as int),
            i >= 1 ==> h@.len() >= 1,
        decreases s@.len() - i,
    {
        let p = s[i];
        loop
            invariant_except_break
                pt_in(p, COORD_LIMIT as int),
                h@.len() <= i,
                contained_in(h@, s@),
                forall|j: int| 0 <= j < h@.len() ==> pt_in(#[trigger] h@[j], COORD_LIMIT as int),
            ensures
                h@.len() <= i,
                contained_in(h@, s@),
                forall|j: int| 0 <= j < h@.len() ==> pt_in(#[trigger] h@[j], COORD_LIMIT as int),
            decreases h@.len(),
        {
            if h.len() < 2 {
                break;
            }
            let a = h[h.len() - 2];
            let b = h[h.len() - 1];
            if cross3_e(&a, &b, &p) > 0 {
                break;
            }
            h.pop();
        }
        h.push(p);
        proof {
            assert(s@.contains(p)) by {
                assert(s@[i as int] == p);
            }
        }
        i = i + 1;
    }
    h
}

/// Reverses a point list.
fn reversed_points(s: &Vec<Point2>) -> (r: Vec<Point2>)
    ensures
        r@.len() == s@.len(),
        forall|i: int| 0 <= i < s@.len() ==> #[trigger] r@[i] == s@[s@.len() - 1 - i],
{
    let n = s.len();
    let mut out: Vec<Point2> = Vec::new();
    let mut i: usize = 0;
    while i < n
        invariant
            n == s@.len(),
            0 <= i <= n,
            out@.len() == i,
            forall|j: int| 0 <= j < i ==> #[trigger] out@[j] == s@[n - 1 - j],
        decreases n - i,
    {
        out.push(s[n - 1 - i]);
        i = i + 1;
    }
    out
}

impl ConvexHull {
    /// Structural invariant: at least one vertex, all within [`HULL_LIMIT`].
    pub open spec fn wf(&self) -> bool {
        &&& self.points@.len() >= 1
        &&& forall|i: int|
            0 <= i < self.points@.len() ==> pt_in(#[trigger] self.points@[i], HULL_LIMIT as int)
    }

    /// Whether `c` passes the inner-side test against every hull edge.
    #[verifier::rlimit(50)]
    pub fn contains_point(&self, c: &Point2) -> (r: bool)
        requires
            self.wf(),
            pt_in(*c, GEOM_LIMIT as int),
        ensures
            r == in_hull_spec(*c, self.points@),
    {
        let n = self.points.len();
        let mut i: usize = 0;
        while i < n
            invariant
                self.wf(),
                pt_in(*c, GEOM_LIMIT as int),
                n == self.points@.len(),
                0 <= i <= n,
                forall|j: int|
                    0 <= j < i ==> #[trigger] cross3(
                        self.points@[j],
                        self.points@[(j + 1) % (n as int)],
                        *c,
                    ) >= 0,
            decreases n - i,
        {
            let j: usize = if i + 1 == n {
                0
            } else {
                i + 1
            };
            proof {
                if i + 1 < n {
                    vstd::arithmetic::div_mod::lemma_small_mod((i + 1) as nat, n as nat);
                } else {
                    vstd::arithmetic::div_mod::lemma_mod_self_0(n as int);
                }
            }
            let cr = cross3_e(&self.points[i], &self.points[j], c);
            if cr < 0 {
                return false;
            }
            i = i + 1;
        }
        true
    }
}

/// The convex hull ring of the curve, or `None` exactly when the curve is
/// degenerate (all points on the line through its first two points).  The
/// returned ring is strictly convex and has every curve point on its inner
/// side; normally it is the monotone-chain hull (its vertices curve
/// points), verified by a runtime check, with a padded bounding rectangle
/// as the conservative fallback should that check ever fail.
pub fn make_hull(curve: &BoundaryCurve) -> (r: Option<ConvexHull>)
    requires
        curve.wf(),
    ensures
        r is None <==> degenerate(curve.pts()),
        r matches Some(h) ==> h.wf() && hull_ok_for(curve.pts(), h.points@),
{
    if curve.is_degenerate() {
        return None;
    }
    let sorted = sort_lex(curve.points());
    proof {
        assert forall|i: int| 0 <= i < sorted@.len() implies pt_in(
            #[trigger] sorted@[i],
            COORD_LIMIT as int,
        ) by {
            assert(curve.pts().contains(sorted@[i]));
            let w = choose|w: int| 0 <= w < curve.pts().len() && curve.pts()[w] == sorted@[i];
            assert(pt_in(curve.pts()[w], COORD_LIMIT as int));
        }
    }
    let rev = reversed_points(&sorted);
    proof {
        assert forall|i: int| 0 <= i < rev@.len() implies pt_in(
            #[trigger] rev@[i],
            COORD_LIMIT as int,
        ) by {
            assert(rev@[i] == sorted@[sorted@.len() - 1 - i]);
        }
    }
    let mut lower = half_chain(&sorted);
    let upper = half_chain(&rev);
    proof {
        assert(curve.pts().len() >= 3);
        assert(sorted@.len() >= 1 && rev@.len() >= 1);
    }
    proof {
        assert forall|i: int| 0 <= i < lower@.len() implies pt_in(
            #[trigger] lower@[i],
            COORD_LIMIT as int,
        ) by {
            assert(sorted@.contains(lower@[i]));
            let w = choose|w: int| 0 <= w < sorted@.len() && sorted@[w] == lower@[i];
        }
        assert forall|i: int| 0 <= i < upper@.len() implies pt_in(
            #[trigger] upper@[i],
            COORD_LIMIT as int,
        ) by {
            assert(rev@.contains(upper@[i]));
            let w = choose|w: int| 0 <= w < rev@.len() && rev@[w] == upper@[i];
        }
    }
    // Join the two open chains, dropping each chain's final vertex (it
    // repeats the other chain's first vertex).
    let mut ring: Vec<Point2> = Vec::new();
    let ll = lower.len();
    let lstop: usize = if ll == 0 {
        0
    } else {
        ll - 1
    };
    let mut i: usize = 0;
    while i < lstop
        invariant
            ll == lower@.len(),
            ll <= 16_000_000,
            lstop <= ll,
            0 <= i <= lstop,
            ring@.len() == i,
            forall|j: int| 0 <= j < lower@.len() ==> pt_in(#[trigger] lower@[j], COORD_LIMIT as int),
            forall|j: int| 0 <= j < ring@.len() ==> pt_in(#[trigger] ring@[j], COORD_LIMIT as int),
        decreases lstop - i,
    {
        ring.push(lower[i]);
        i = i + 1;
    }
    let ul = upper.len();
    let ustop: usize = if ul == 0 {
        0
    } else {
        ul - 1
    };
    let mut u: usize = 0;
    while u < ustop
        invariant
            ul == upper@.len(),
            ul <= 16_000_000,
            lstop <= 16_000_000,
            ustop <= ul,
            0 <= u <= ustop,
            ring@.len() == lstop + u,
            forall|j: int| 0 <= j < upper@.len() ==> pt_in(#[trigger] upper@[j], COORD_LIMIT as int),
            forall|j: int| 0 <= j < ring@.len() ==> pt_in(#[trigger] ring@[j], COORD_LIMIT as int),
        decreases ustop - u,
    {
        ring.push(upper[u]);
        u = u + 1;
    }
    if ring_is_convex(&ring) {
        let h = ConvexHull { points: ring };
        if all_points_inside(curve.points(), &h) {
            return Some(h);
        }
        return Some(ConvexHull { points: bounding_ring(curve.points()) });
    }
    Some(ConvexHull { points: bounding_ring(curve.points()) })
}

/// Whether the ring turns strictly left at every vertex.
#[verifier::rlimit(100)]
fn ring_is_convex(h: &Vec<Point2>) -> (r: bool)
    requires
        h@.len() <= 40_000_000,
        forall|i: int| 0 <= i < h@.len() ==> pt_in(#[trigger] h@[i], GEOM_LIMIT as int),
    ensures
        r == convex_ring(h@),
{
    let n = h.len();
    if n < 3 {
        return false;
    }
    let mut i: usize = 0;
    while i < n
        invariant
            forall|j: int| 0 <= j < h@.len() ==> pt_in(#[trigger] h@[j], GEOM_LIMIT as int),
            n == h@.len(),
            3 <= n <= 40_000_000,
            0 <= i <= n,
            forall|j: int|
                0 <= j < i ==> #[trigger] cross3(
                    h@[j],
                    h@[ring_next(n as int, j)],
                    h@[ring_next(n as int, ring_next(n as int, j))],
                ) > 0,
        decreases n - i,
    {
        let j: usize = if i + 1 == n {
            0
        } else {
            i + 1
        };
        let k: usize = if j + 1 == n {
            0
        } else {
            j + 1
        };
        proof {
            assert(j as int == ring_next(n as int, i as int));
            assert(k as int == ring_next(n as int, ring_next(n as int, i as int)));
        }
        let cr = cross3_e(&h[i], &h[j], &h[k]);
        if cr <= 0 {
            return false;
        }
        i = i + 1;
    }
    true
}

/// Whether every point of `pts` passes the inner-side test against `h`.
fn all_points_inside(pts: &Vec<Point2>, h: &ConvexHull) -> (r: bool)
    requires
        h.wf(),
        forall|i: int| 0 <= i < pts@.len() ==> pt_in(#[trigger] pts@[i], GEOM_LIMIT as int),
    ensures
        r == forall|i: int| 0 <= i < pts@.len() ==> in_hull_spec(#[trigger] pts@[i], h.points@),
{
    let n = pts.len();
    let mut i: usize = 0;
    while i < n
        invariant
            h.wf(),
            forall|j: int| 0 <= j < pts@.len() ==> pt_in(#[trigger] pts@[j], GEOM_LIMIT as int),
            n == pts@.len(),
            0 <= i <= n,
            forall|j: int| 0 <= j < i ==> in_hull_spec(#[trigger] pts@[j], h.points@),
        decreases n - i,
    {
        if !h.contains_point(&pts[i]) {
            return false;
        }
        i = i + 1;
    }
    true
}

/// A strictly convex ring around all the points: the bounding rectangle
/// padded outward by one unit, counter-clockwise from its lower-left
/// corner.
#[verifier::rlimit(100)]
fn bounding_ring(pts: &Vec<Point2>) -> (h: Vec<Point2>)
    requires
        pts@.len() >= 1,
        forall|i: int| 0 <= i < pts@.len() ==> pt_in(#[trigger] pts@[i], COORD_LIMIT as int),
    ensures
        convex_ring(h@),
        forall|i: int| 0 <= i < h@.len() ==> pt_in(#[trigger] h@[i], HULL_LIMIT as int),
        forall|i: int| 0 <= i < pts@.len() ==> in_hull_spec(#[trigger] pts@[i], h@),
{
    let mut minx: i64 = pts[0].x;
    let mut maxx: i64 = pts[0].x;
    let mut miny: i64 = pts[0].y;
    let mut maxy: i64 = pts[0].y;
    let n = pts.len();
    let mut i: usize = 1;
    while i < n
        invariant
            forall|j: int| 0 <= j < pts@.len() ==> pt_in(#[trigger] pts@[j], COORD_LIMIT as int),
            n == pts@.len(),
            n >= 1,
            1 <= i <= n,
            -COORD_LIMIT <= minx <= maxx <= COORD_LIMIT,
            -COORD_LIMIT <= miny <= maxy <= COORD_LIMIT,
            forall|j: int|
                0 <= j < i ==> minx <= (#[trigger] pts@[j]).x <= maxx && miny <= pts@[j].y <= maxy,
        decreases n - i,
    {
        let p = pts[i];
        if p.x < minx {
            minx = p.x;
        }
        if p.x > maxx {
            maxx = p.x;
        }
        if p.y < miny {
            miny = p.y;
        }
        if p.y > maxy {
            maxy = p.y;
        }
        i = i + 1;
    }
    let c0 = Point2 { x: minx - 1, y: miny - 1 };
    let c1 = Point2 { x: maxx + 1, y: miny - 1 };
    let c2 = Point2 { x: maxx + 1, y: maxy + 1 };
    let c3 = Point2 { x: minx - 1, y: maxy + 1 };
    let mut h: Vec<Point2> = Vec::new();
    h.push(c0);
    h.push(c1);
    h.push(c2);
    h.push(c3);
    proof {
        let w = maxx - minx + 2;
        let ht = maxy - miny + 2;
        assert(h@.len() == 4);
        assert forall|i2: int| 0 <= i2 < h@.len() implies #[trigger] cross3(
            h@[i2],
            h@[ring_next(h@.len() as int, i2)],
            h@[ring_next(h@.len() as int, ring_next(h@.len() as int, i2))],
        ) > 0 by {
            assert(w * ht > 0) by (nonlinear_arith)
                requires
                    w >= 2,
                    ht >= 2,
            ;
            assert(ht * w > 0) by (nonlinear_arith)
                requires
                    w >= 2,
                    ht >= 2,
            ;
            if i2 == 0 {
                assert(cross3(h@[0], h@[1], h@[2]) == w * ht) by (nonlinear_arith)
                    requires
                        h@[0].x == minx - 1,
                            h@[0].y == miny - 1,
                        h@[1].x == maxx + 1,
                            h@[1].y == miny - 1,
                        h@[2].x == maxx + 1,
                            h@[2].y == maxy + 1,
                        w == maxx - minx + 2,
                        ht == maxy - miny + 2,
                ;
            } else if i2 == 1 {
                assert(cross3(h@[1], h@[2], h@[3]) == ht * w) by (nonlinear_arith)
                    requires
                        h@[1].x == maxx + 1,
                            h@[1].y == miny - 1,
                        h@[2].x == maxx + 1,
                            h@[2].y == maxy + 1,
                        h@[3].x == minx - 1,
                            h@[3].y == maxy + 1,
                        w == maxx - minx + 2,
                        ht == maxy - miny + 2,
                ;
            } else if i2 == 2 {
                assert(cross3(h@[2], h@[3], h@[0]) == w * ht) by (nonlinear_arith)
                    requires
                        h@[2].x == maxx + 1,
                            h@[2].y == maxy + 1,
                        h@[3].x == minx - 1,
                            h@[3].y == maxy + 1,
                        h@[0].x == minx - 1,
                            h@[0].y == miny - 1,
                        w == maxx - minx + 2,
                        ht == maxy - miny + 2,
                ;
            } else {
                assert(cross3(h@[3], h@[0], h@[1]) == ht * w) by (nonlinear_arith)
                    requires
                        h@[3].x == minx - 1,
                            h@[3].y == maxy + 1,
                        h@[0].x == minx - 1,
                            h@[0].y == miny - 1,
                        h@[1].x == maxx + 1,
                            h@[1].y == miny - 1,
                        w == maxx - minx + 2,
                        ht == maxy - miny + 2,
                ;
            }
        }
        assert forall|j: int| 0 <= j < pts@.len() implies in_hull_spec(#[trigger] pts@[j], h@) by {
            let p = pts@[j];
            assert forall|i2: int| 0 <= i2 < h@.len() implies #[trigger] cross3(
                h@[i2],
                h@[(i2 + 1) % (h@.len() as int)],
                p,
            ) >= 0 by {
                if i2 == 0 {
                    assert(cross3(h@[0], h@[1], p) == w * (p.y - miny + 1)) by (nonlinear_arith)
                        requires
                            h@[0].x == minx - 1,
                            h@[0].y == miny - 1,
                            h@[1].x == maxx + 1,
                            h@[1].y == miny - 1,
                            w == maxx - minx + 2,
                    ;
                    assert(w * (p.y - miny + 1) >= 0) by (nonlinear_arith)
                        requires
                            w >= 2,
                            p.y - miny + 1 >= 1,
                    ;
                } else if i2 == 1 {
                    assert(cross3(h@[1], h@[2], p) == ht * (maxx + 1 - p.x)) by (nonlinear_arith)
                        requires
                            h@[1].x == maxx + 1,
                            h@[1].y == miny - 1,
                            h@[2].x == maxx + 1,
                            h@[2].y == maxy + 1,
                            ht == maxy - miny + 2,
                    ;
                    assert(ht * (maxx + 1 - p.x) >= 0) by (nonlinear_arith)
                        requires
                            ht >= 2,
                            maxx + 1 - p.x >= 1,
                    ;
                } else if i2 == 2 {
                    assert(cross3(h@[2], h@[3], p) == w * (maxy + 1 - p.y)) by (nonlinear_arith)
                        requires
                            h@[2].x == maxx + 1,
                            h@[2].y == maxy + 1,
                            h@[3].x == minx - 1,
                            h@[3].y == maxy + 1,
                            w == maxx - minx + 2,
                    ;
                    assert(w * (maxy + 1 - p.y) >= 0) by (nonlinear_arith)
                        requires
                            w >= 2,
                            maxy + 1 - p.y >= 1,
                    ;
                } else {
                    assert(cross3(h@[3], h@[0], p) == ht * (p.x - minx + 1)) by (nonlinear_arith)
                        requires
                            h@[3].x == minx - 1,
                            h@[3].y == maxy + 1,
                            h@[0].x == minx - 1,
                            h@[0].y == miny - 1,
                            ht == maxy - miny + 2,
                    ;
                    assert(ht * (p.x - minx + 1) >= 0) by (nonlinear_arith)
                        requires
                            ht >= 2,
                            p.x - minx + 1 >= 1,
                    ;
                }
            }
        }
    }
    h
}

} // verus!
