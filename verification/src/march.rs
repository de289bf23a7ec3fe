//! The inscribed-circle marching engine: seeding and directional marching.

use vstd::prelude::*;

verus! {

use crate::curve::BoundaryCurve;
use crate::error::GeometryError;
use crate::geom2::{dot2, normalize_spec, pt_in, vec_in, Point2, Vector2};
use crate::hull::{in_hull_spec, ConvexHull};
use crate::num::{
    div_nn, lemma_sqrt_lower, mul_div, scale_trunc, CENTER_LIMIT, DIR_SCALE,
};
use crate::station::{circle_wf, min_sq, station_at, station_spec, InscribedCircle};

/// Radius floor, in grid units: marching stops once the inscribed radius
/// falls below this, and a seed must reach it to count.
pub const RADIUS_FLOOR: i64 = 8;

/// Iteration budget of one marching direction.
pub const MARCH_CAP: usize = 4000;

/// Smallest center step of the march, in grid units.
pub const STEP_MIN: i64 = 2;

/// Index stride of the seed search: candidate centers are midpoints of
/// curve-point pairs whose indices are multiples of the stride.
pub open spec fn seed_stride(n: int) -> int {
    n / 48 + 1
}

/// The midpoint of two points, coordinates truncated toward zero.
pub open spec fn mid_of(a: Point2, b: Point2) -> Point2 {
    Point2 {
        x: scale_trunc(a.x + b.x, 1, 2) as i64,
        y: scale_trunc(a.y + b.y, 1, 2) as i64,
    }
}

/// `(a, b)` index a seed candidate: two stride-multiples whose midpoint
/// passes the hull test.
pub open spec fn seed_candidate(s: Seq<Point2>, hs: Seq<Point2>, a: int, b: int) -> bool {
    let stride = seed_stride(s.len() as int);
    &&& 0 <= a < b
    &&& b * stride < s.len()
    &&& in_hull_spec(mid_of(s[a * stride], s[b * stride]), hs)
}

/// The squared clearance of the candidate indexed by `(a, b)`.
pub open spec fn cand_sq(s: Seq<Point2>, a: int, b: int) -> int {
    let stride = seed_stride(s.len() as int);
    min_sq(s, mid_of(s[a * stride], s[b * stride]))
}

/// The direction assigned to a seed pair: the normalized perpendicular of
/// the pair's chord, or the unit x direction for a degenerate chord.
pub open spec fn seed_pair_dir(s: Seq<Point2>, a: int, b: int) -> Vector2 {
    let stride = seed_stride(s.len() as int);
    let pi = s[a * stride];
    let pj = s[b * stride];
    let vx = (pj.x - pi.x) as i64;
    let vy = (pj.y - pi.y) as i64;
    match normalize_spec(Vector2 { x: (-vy) as i64, y: vx }) {
        None => Vector2 { x: DIR_SCALE, y: 0 },
        Some(d) => d,
    }
}

/// The station seeded from pair `(a, b)`: inscribed at the pair midpoint,
/// looking along the pair direction.
pub open spec fn seed_station(s: Seq<Point2>, a: int, b: int) -> InscribedCircle {
    let stride = seed_stride(s.len() as int);
    station_spec(s, mid_of(s[a * stride], s[b * stride]), seed_pair_dir(s, a, b))
}

/// `(a, b)` is the first candidate pair, in enumeration order, of maximal
/// clearance; it determines the seed uniquely.
pub open spec fn seed_pair_first_max(s: Seq<Point2>, hs: Seq<Point2>, a: int, b: int) -> bool {
    &&& seed_candidate(s, hs, a, b)
    &&& forall|x: int, y: int|
        seed_candidate(s, hs, x, y) ==> #[trigger] cand_sq(s, x, y) <= cand_sq(s, a, b)
    &&& forall|x: int, y: int|
        seed_candidate(s, hs, x, y) && #[trigger] cand_sq(s, x, y) == cand_sq(s, a, b) ==> a < x
            || (a == x && b <= y)
}

/// No seed candidate under the hull ring `hs` reaches the radius floor.
pub open spec fn no_seed_under(s: Seq<Point2>, hs: Seq<Point2>) -> bool {
    forall|a: int, b: int|
        seed_candidate(s, hs, a, b) ==> #[trigger] cand_sq(s, a, b) < RADIUS_FLOOR * RADIUS_FLOOR
}

/// Two first-maximal seed pairs are the same pair.
pub proof fn lemma_seed_pair_unique(
    s: Seq<Point2>,
    hs: Seq<Point2>,
    a: int,
    b: int,
    a2: int,
    b2: int,
)
    requires
        seed_pair_first_max(s, hs, a, b),
        seed_pair_first_max(s, hs, a2, b2),
    ensures
        a == a2,
        b == b2,
{
    assert(cand_sq(s, a2, b2) <= cand_sq(s, a, b));
    assert(cand_sq(s, a, b) <= cand_sq(s, a2, b2));
}

/// Searches stride-multiple point pairs for the midpoint with the largest
/// clearance from the curve, inside the hull: the maximum-thickness seed.
pub fn find_seed_circle(curve: &BoundaryCurve, hull: &ConvexHull) -> (r: Result<
    InscribedCircle,
    GeometryError,
>)
    requires
        curve.wf(),
        hull.wf(),
    ensures
        r matches Ok(st) ==> {
            &&& circle_wf(st, curve.pts())
            &&& RADIUS_FLOOR <= st.radius < 50_000_000
            &&& exists|a: int, b: int|
                #[trigger] seed_pair_first_max(curve.pts(), hull.points@, a, b) && st
                    == seed_station(curve.pts(), a, b) && cand_sq(curve.pts(), a, b)
                    >= RADIUS_FLOOR * RADIUS_FLOOR && min_sq(curve.pts(), st.center) == cand_sq(
                    curve.pts(),
                    a,
                    b,
                )
            &&& forall|a: int, b: int|
                seed_candidate(curve.pts(), hull.points@, a, b) ==> #[trigger] cand_sq(
                    curve.pts(),
                    a,
                    b,
                ) <= min_sq(curve.pts(), st.center)
        },
        r is Err <==> no_seed_under(curve.pts(), hull.points@),
        r matches Err(e) ==> e == GeometryError::NoSeedCircle,
{
    let pts = curve.points();
    let n = pts.len();
    let stride: usize = n / 48 + 1;
    proof {
        assert(stride == seed_stride(curve.pts().len() as int));
    }
    let ghost s = curve.pts();
    let ghost hs = hull.points@;

    let mut have: bool = false;
    let mut best_m: i64 = 0;
    let mut best_c = Point2 { x: 0, y: 0 };
    let mut best_i: usize = 0;
    let mut best_j: usize = 0;
    let ghost mut best_a: int = 0;
    let ghost mut best_b: int = 0;

    let mut a: usize = 0;
    let mut i: usize = 0;
    while i < n
        invariant
            curve.wf(),
            hull.wf(),
            s == curve.pts(),
            hs == hull.points@,
            pts@ == s,
            n == s.len(),
            stride == seed_stride(s.len() as int),
            1 <= stride,
            i == a * stride,
            a <= i,
            have ==> {
                &&& seed_candidate(s, hs, best_a, best_b)
                &&& best_i < n && best_j < n
                &&& best_i == best_a * stride && best_j == best_b * stride
                &&& best_c == mid_of(s[best_i as int], s[best_j as int])
                &&& best_m == min_sq(s, best_c)
                &&& best_m == cand_sq(s, best_a, best_b)
                &&& 0 <= best_m
                &&& pt_in(best_c, 1_000_000)
            },
            !have ==> forall|x: int, y: int| seed_candidate(s, hs, x, y) ==> x >= a,
            have ==> best_a < a,
            have ==> forall|x: int, y: int|
                seed_candidate(s, hs, x, y) && x < a ==> #[trigger] cand_sq(s, x, y) <= best_m,
            have ==> forall|x: int, y: int|
                seed_candidate(s, hs, x, y) && x < a && #[trigger] cand_sq(s, x, y) == best_m
                    ==> best_a < x || (best_a == x && best_b <= y),
        decreases n - a,
    {
        let mut b: usize = a + 1;
        let mut j: usize = i + stride;
        proof {
            assert((a + 1) * stride == a * stride + stride) by (nonlinear_arith);
        }
        while j < n
            invariant
                curve.wf(),
                hull.wf(),
                s == curve.pts(),
                hs == hull.points@,
                pts@ == s,
                n == s.len(),
                stride == seed_stride(s.len() as int),
                1 <= stride,
                i == a * stride,
                i < n,
                a <= i,
                a < b,
                j == b * stride,
                b <= j,
                i < j,
                have ==> {
                    &&& seed_candidate(s, hs, best_a, best_b)
                    &&& best_i < n && best_j < n
                    &&& best_i == best_a * stride && best_j == best_b * stride
                    &&& best_c == mid_of(s[best_i as int], s[best_j as int])
                    &&& best_m == min_sq(s, best_c)
                    &&& best_m == cand_sq(s, best_a, best_b)
                    &&& 0 <= best_m
                    &&& pt_in(best_c, 1_000_000)
                },
                !have ==> forall|x: int, y: int|
                    seed_candidate(s, hs, x, y) ==> x > a || (x == a && y >= b),
                have ==> (best_a < a || (best_a == a && best_b < b)),
                have ==> forall|x: int, y: int|
                    seed_candidate(s, hs, x, y) && (x < a || (x == a && y < b))
                        ==> #[trigger] cand_sq(s, x, y) <= best_m,
                have ==> forall|x: int, y: int|
                    seed_candidate(s, hs, x, y) && (x < a || (x == a && y < b)) && #[trigger]
                    cand_sq(s, x, y) == best_m ==> best_a < x || (best_a == x && best_b <= y),
            decreases n - b,
        {
            let pi = pts[i];
            let pj = pts[j];
            let mid = pi.midpoint(&pj);
            if hull.contains_point(&mid) {
                proof {
                    assert(seed_candidate(s, hs, a as int, b as int));
                }
                let (m, _) = crate::station::min_sq_scan(pts, mid);
                proof {
                    assert(cand_sq(s, a as int, b as int) == m);
                }
                if !have || m > best_m {
                    have = true;
                    best_m = m;
                    best_c = mid;
                    best_i = i;
                    best_j = j;
                    proof {
                        best_a = a as int;
                        best_b = b as int;
                    }
                }
            } else {
                proof {
                    assert(!seed_candidate(s, hs, a as int, b as int));
                }
            }
            proof {
                assert((b + 1) * stride == b * stride + stride) by (nonlinear_arith);
                assert forall|x: int, y: int|
                    seed_candidate(s, hs, x, y) && (x < a || (x == a && y < b + 1)) implies (x < a
                    || (x == a && y < b)) || (x == a && y == b) by {}
            }
            b = b + 1;
            j = j + stride;
        }
        proof {
            assert((a + 1) * stride == a * stride + stride) by (nonlinear_arith);
            assert forall|y: int| seed_candidate(s, hs, a as int, y) implies y < b by {
                if y >= b {
                    assert(b * stride <= y * stride) by (nonlinear_arith)
                        requires
                            b <= y,
                            1 <= stride,
                    ;
                    assert(y * stride < n);
                    assert(false);
                }
            }
        }
        a = a + 1;
        i = i + stride;
    }
    proof {
        assert forall|x: int, y: int| seed_candidate(s, hs, x, y) implies (have && #[trigger]
        cand_sq(s, x, y) <= best_m) by {
            assert(x * stride < y * stride) by (nonlinear_arith)
                requires
                    0 <= x < y,
                    1 <= stride,
            ;
            assert(y * stride < n);
            if x >= a {
                assert(a * stride <= x * stride) by (nonlinear_arith)
                    requires
                        a <= x,
                        1 <= stride,
                ;
                assert(false);
            }
            if !have {
                assert(false);
            }
        }
    }
    if !have {
        return Err(GeometryError::NoSeedCircle);
    }
    if best_m < RADIUS_FLOOR * RADIUS_FLOOR {
        proof {
            assert forall|x: int, y: int| seed_candidate(s, hs, x, y) implies #[trigger] cand_sq(
                s,
                x,
                y,
            ) < RADIUS_FLOOR * RADIUS_FLOOR by {}
        }
        return Err(GeometryError::NoSeedCircle);
    }
    let pi = pts[best_i];
    let pj = pts[best_j];
    let axis = pi.vector_to(&pj);
    let dir = match axis.perpendicular().normalize() {
        Some(d) => d,
        None => Vector2 { x: DIR_SCALE, y: 0 },
    };
    let st = station_at(curve, best_c, dir);
    proof {
        lemma_sqrt_lower(best_m as int, RADIUS_FLOOR as int);
        assert(pi == s[best_a * seed_stride(s.len() as int)]);
        assert(pj == s[best_b * seed_stride(s.len() as int)]);
        assert(dir == seed_pair_dir(s, best_a, best_b));
        assert(st == seed_station(s, best_a, best_b));
        assert(seed_pair_first_max(s, hs, best_a, best_b));
    }
    Ok(st)
}

/// Whether any curve point lies strictly ahead of `c` along `dir`.
fn any_ahead(pts: &Vec<Point2>, c: Point2, dir: Vector2) -> (r: bool)
    requires
        forall|i: int|
            0 <= i < pts@.len() ==> pt_in(#[trigger] pts@[i], CENTER_LIMIT as int),
        pt_in(c, CENTER_LIMIT as int),
        vec_in(dir, DIR_SCALE as int),
    ensures
        r == exists|i: int|
            0 <= i < pts@.len() && crate::edges::gain(dir, c, #[trigger] pts@[i]) > 0,
{
    let n = pts.len();
    let mut i: usize = 0;
    while i < n
        invariant
            forall|j: int| 0 <= j < pts@.len() ==> pt_in(#[trigger] pts@[j], CENTER_LIMIT as int),
            pt_in(c, CENTER_LIMIT as int),
            vec_in(dir, DIR_SCALE as int),
            n == pts@.len(),
            0 <= i <= n,
            forall|j: int| 0 <= j < i ==> crate::edges::gain(dir, c, #[trigger] pts@[j]) <= 0,
        decreases n - i,
    {
        let p = pts[i];
        let v = c.vector_to(&p);
        let g = dir.dot(&v);
        if g > 0 {
            return true;
        }
        i = i + 1;
    }
    false
}

/// No curve point lies strictly ahead of `c` along `dir`.
pub open spec fn none_ahead(s: Seq<Point2>, c: Point2, dir: Vector2) -> bool {
    forall|i: int| 0 <= i < s.len() ==> crate::edges::gain(dir, c, #[trigger] s[i]) <= 0
}

/// The center step length of the march at radius `r`: half the radius,
/// floored at [`STEP_MIN`].
pub open spec fn march_step_len(r: i64) -> int {
    let h = r as int / 2;
    if h < STEP_MIN as int {
        STEP_MIN as int
    } else {
        h
    }
}

/// The next march center: the current one displaced by the step along the
/// normalized direction `dir`.
pub open spec fn march_next_center(c: Point2, r: i64, dir: Vector2) -> Point2 {
    Point2 {
        x: (c.x + scale_trunc(dir.x as int, march_step_len(r), DIR_SCALE as int)) as i64,
        y: (c.y + scale_trunc(dir.y as int, march_step_len(r), DIR_SCALE as int)) as i64,
    }
}

/// The re-estimated march direction after a station: the normalized
/// perpendicular of the contact chord, kept on the side of the previous
/// direction; the previous direction when the chord is degenerate.
pub open spec fn contacts_dir(st: InscribedCircle, dir: Vector2) -> Vector2 {
    let abx = (st.contact_a.x - st.contact_b.x) as i64;
    let aby = (st.contact_a.y - st.contact_b.y) as i64;
    match normalize_spec(Vector2 { x: (-aby) as i64, y: abx }) {
        None => dir,
        Some(d) => if dot2(d, dir) < 0 {
            Vector2 { x: (-d.x) as i64, y: (-d.y) as i64 }
        } else {
            d
        },
    }
}

/// The march from state `(c, r, dir)` with `fuel` steps of budget left:
/// the stations it emits, in order, up to its first stop condition —
/// leaving the arena, passing the last curve point, or falling under the
/// radius floor — or `None` when the budget runs out first.
pub open spec fn march_trace(
    s: Seq<Point2>,
    c: Point2,
    r: i64,
    dir: Vector2,
    fuel: nat,
) -> Option<Seq<InscribedCircle>>
    decreases fuel,
{
    if fuel == 0 {
        None
    } else {
        let nc = march_next_center(c, r, dir);
        if !pt_in(nc, CENTER_LIMIT as int) {
            Some(Seq::empty())
        } else if none_ahead(s, nc, dir) {
            Some(Seq::empty())
        } else {
            let st = station_spec(s, nc, dir);
            if st.radius < RADIUS_FLOOR {
                Some(Seq::empty())
            } else {
                match march_trace(s, nc, st.radius, contacts_dir(st, dir), (fuel - 1) as nat) {
                    None => None,
                    Some(t) => Some(seq![st] + t),
                }
            }
        }
    }
}

/// The emitted prefix `pre` followed by the remaining trace `rest`.
pub open spec fn trace_extends(
    pre: Seq<InscribedCircle>,
    rest: Option<Seq<InscribedCircle>>,
) -> Option<Seq<InscribedCircle>> {
    match rest {
        None => None,
        Some(t) => Some(pre + t),
    }
}

/// Marches inscribed circles from `start` along `dir0`, re-estimating the
/// camber direction from each station's contacts, until the radius falls
/// under [`RADIUS_FLOOR`], the center leaves the arena, or no curve point
/// lies ahead.  The result is exactly the [`march_trace`] of the start
/// state; exhausting the iteration budget is a hard `NoConvergence`
/// failure, never a truncated list.
#[verifier::rlimit(100)]
pub fn march_half(curve: &BoundaryCurve, start: &InscribedCircle, dir0: Vector2) -> (r: Result<
    Vec<InscribedCircle>,
    GeometryError,
>)
    requires
        curve.wf(),
        pt_in(start.center, CENTER_LIMIT as int),
        0 <= start.radius < 50_000_000,
        vec_in(dir0, DIR_SCALE as int),
    ensures
        ({
            let full = march_trace(
                curve.pts(),
                start.center,
                start.radius,
                dir0,
                MARCH_CAP as nat,
            );
            &&& (r matches Ok(v) ==> Some(v@) == full)
            &&& (r is Err <==> full is None)
        }),
        r matches Ok(v) ==> v@.len() <= MARCH_CAP && forall|k: int|
            0 <= k < v@.len() ==> circle_wf(#[trigger] v@[k], curve.pts()) && RADIUS_FLOOR <= v@[
                k
            ].radius < 50_000_000,
        r matches Err(e) ==> e == GeometryError::NoConvergence,
{
    let ghost full = march_trace(curve.pts(), start.center, start.radius, dir0, MARCH_CAP as nat);
    let mut out: Vec<InscribedCircle> = Vec::new();
    let mut c = start.center;
    let mut r_cur = start.radius;
    let mut dir = dir0;
    let mut steps: usize = 0;
    proof {
        match full {
            Option::None => {},
            Option::Some(t) => {
                assert(Seq::<InscribedCircle>::empty() + t =~= t);
            },
        }
    }
    while steps < MARCH_CAP
        invariant
            curve.wf(),
            pt_in(c, CENTER_LIMIT as int),
            0 <= r_cur < 50_000_000,
            vec_in(dir, DIR_SCALE as int),
            out@.len() <= steps <= MARCH_CAP,
            full == march_trace(
                curve.pts(),
                start.center,
                start.radius,
                dir0,
                MARCH_CAP as nat,
            ),
            full == trace_extends(
                out@,
                march_trace(curve.pts(), c, r_cur, dir, (MARCH_CAP - steps) as nat),
            ),
            forall|k: int|
                0 <= k < out@.len() ==> circle_wf(#[trigger] out@[k], curve.pts()) && RADIUS_FLOOR
                    <= out@[k].radius < 50_000_000,
        decreases MARCH_CAP - steps,
    {
        let ghost fuel = (MARCH_CAP - steps) as nat;
        let half = div_nn(r_cur, 2);
        let step: i64 = if half < STEP_MIN {
            STEP_MIN
        } else {
            half
        };
        let dx = mul_div(dir.x, step, DIR_SCALE);
        let dy = mul_div(dir.y, step, DIR_SCALE);
        let nc = Point2 { x: c.x + dx, y: c.y + dy };
        proof {
            assert(step as int == march_step_len(r_cur));
            assert(nc == march_next_center(c, r_cur, dir));
        }
        if nc.x < -CENTER_LIMIT || nc.x > CENTER_LIMIT || nc.y < -CENTER_LIMIT || nc.y
            > CENTER_LIMIT {
            proof {
                assert(march_trace(curve.pts(), c, r_cur, dir, fuel) == Some(
                    Seq::<InscribedCircle>::empty(),
                ));
                assert(out@ + Seq::<InscribedCircle>::empty() =~= out@);
            }
            return Ok(out);
        }
        proof {
            assert forall|j: int| 0 <= j < curve.pts().len() implies pt_in(
                #[trigger] curve.pts()[j],
                CENTER_LIMIT as int,
            ) by {
                assert(pt_in(curve.pts()[j], 1_000_000));
            }
        }
        if !any_ahead(curve.points(), nc, dir) {
            proof {
                assert(none_ahead(curve.pts(), nc, dir));
                assert(march_trace(curve.pts(), c, r_cur, dir, fuel) == Some(
                    Seq::<InscribedCircle>::empty(),
                ));
                assert(out@ + Seq::<InscribedCircle>::empty() =~= out@);
            }
            return Ok(out);
        }
        let st = station_at(curve, nc, dir);
        if st.radius < RADIUS_FLOOR {
            proof {
                assert(march_trace(curve.pts(), c, r_cur, dir, fuel) == Some(
                    Seq::<InscribedCircle>::empty(),
                ));
                assert(out@ + Seq::<InscribedCircle>::empty() =~= out@);
            }
            return Ok(out);
        }
        let ab = st.contact_b.vector_to(&st.contact_a);
        proof {
            let sa = st.contact_a;
            let sb = st.contact_b;
            assert(curve.pts().contains(sa));
            let wa = choose|w: int| 0 <= w < curve.pts().len() && curve.pts()[w] == sa;
            assert(pt_in(curve.pts()[wa], 1_000_000));
            assert(curve.pts().contains(sb));
            let wb = choose|w: int| 0 <= w < curve.pts().len() && curve.pts()[w] == sb;
            assert(pt_in(curve.pts()[wb], 1_000_000));
        }
        let dir2 = match ab.perpendicular().normalize() {
            None => dir,
            Some(d) => {
                let dp = d.dot(&dir);
                if dp < 0 {
                    d.negated()
                } else {
                    d
                }
            },
        };
        proof {
            assert(dir2 == contacts_dir(st, dir));
            let nxt = march_trace(curve.pts(), nc, st.radius, dir2, (fuel - 1) as nat);
            assert(march_trace(curve.pts(), c, r_cur, dir, fuel) == (match nxt {
                Option::None => None::<Seq<InscribedCircle>>,
                Option::Some(t) => Some(seq![st] + t),
            }));
            match nxt {
                Option::None => {},
                Option::Some(t) => {
                    assert(out@ + (seq![st] + t) =~= out@.push(st) + t);
                },
            }
        }
        out.push(st);
        c = nc;
        r_cur = st.radius;
        dir = dir2;
        steps = steps + 1;
    }
    proof {
        assert(march_trace(curve.pts(), c, r_cur, dir, 0nat) is None);
    }
    Err(GeometryError::NoConvergence)
}

} // verus!
