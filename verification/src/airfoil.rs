//! The analysis pipeline: hull, seed, march, edges, orientation, result.

use vstd::prelude::*;

verus! {

use crate::camber::{camber_count, centers_of, refine_stations};
use crate::curve::{degenerate, BoundaryCurve};
use crate::edges::{edge_valid, locate_edge, EdgeFind};
use crate::error::GeometryError;
use crate::geom2::{pt_in, Circle2, Point2, Vector2};
use crate::camber::refine_spec;
use crate::hull::{hull_ok_for, make_hull, ConvexHull};
use crate::march::{
    cand_sq, find_seed_circle, lemma_seed_pair_unique, march_half, no_seed_under,
    seed_pair_first_max, seed_station, MARCH_CAP, RADIUS_FLOOR,
};
use crate::num::{CENTER_LIMIT, DIR_SCALE};
use crate::orient::{
    fwd_dot, orient_stations, orient_valid, reverse_decision, reversed_stations, MclOrient,
};
use crate::station::{circle_wf, InscribedCircle};

/// The ordered list of inscribed-circle stations along the camber line.
pub type StationList = Vec<InscribedCircle>;

/// The immutable configuration of one analysis call.
pub struct AfParams {
    pub refine_tol: i64,
    pub orient: MclOrient,
    pub leading: EdgeFind,
    pub trailing: EdgeFind,
}

impl AfParams {
    /// The configuration is usable: a positive refinement tolerance and
    /// valid strategy parameters.
    pub open spec fn wf(&self) -> bool {
        &&& 1 <= self.refine_tol
        &&& orient_valid(self.orient)
        &&& edge_valid(self.leading)
        &&& edge_valid(self.trailing)
    }

    /// Validating constructor: `Some` exactly when the tolerance is
    /// positive and every strategy's parameters are in range.
    pub fn new(
        refine_tol: i64,
        orient: MclOrient,
        leading: EdgeFind,
        trailing: EdgeFind,
    ) -> (r: Option<AfParams>)
        ensures
            r is Some <==> 1 <= refine_tol && orient_valid(orient) && edge_valid(leading)
                && edge_valid(trailing),
            r matches Some(p) ==> p.refine_tol == refine_tol && p.orient == orient && p.leading
                == leading && p.trailing == trailing && p.wf(),
    {
        if refine_tol >= 1 && orient.is_valid() && leading.is_valid() && trailing.is_valid() {
            Some(AfParams { refine_tol, orient, leading, trailing })
        } else {
            None
        }
    }
}

/// A packaged analysis result is sound against the input curve: at least
/// two stations, each a well-formed inscribed circle of the curve.
pub open spec fn geometry_wf(g: AirfoilGeometry, s: Seq<Point2>) -> bool {
    &&& g.sts().len() >= 2
    &&& forall|k: int| 0 <= k < g.sts().len() ==> circle_wf(#[trigger] g.sts()[k], s)
}

/// The final result: the oriented, tolerance-refined station list.  The
/// camber curve is the ordered sequence of the stations' centers.
pub struct AirfoilGeometry {
    pub stations: StationList,
}

impl AirfoilGeometry {
    /// The stations, as a sequence.
    pub open spec fn sts(&self) -> Seq<InscribedCircle> {
        self.stations@
    }

    /// The camber curve: the centers of the stations, leading to trailing.
    pub fn camber(&self) -> (r: Vec<Point2>)
        ensures
            r@ == centers_of(self.sts()),
    {
        let n = self.stations.len();
        let mut out: Vec<Point2> = Vec::new();
        let mut i: usize = 0;
        while i < n
            invariant
                n == self.sts().len(),
                0 <= i <= n,
                out@.len() == i,
                forall|j: int| 0 <= j < i ==> #[trigger] out@[j] == self.sts()[j].center,
            decreases n - i,
        {
            out.push(self.stations[i].center);
            i = i + 1;
        }
        proof {
            assert(out@ =~= centers_of(self.sts()));
        }
        out
    }

    /// The station data as a dense table: one row per station, in order,
    /// holding the center coordinates and the radius.
    pub fn circle_array(&self) -> (r: Vec<(i64, i64, i64)>)
        ensures
            r@.len() == self.sts().len(),
            forall|i: int|
                0 <= i < self.sts().len() ==> #[trigger] r@[i] == (
                    self.sts()[i].center.x,
                    self.sts()[i].center.y,
                    self.sts()[i].radius,
                ),
    {
        let n = self.stations.len();
        let mut out: Vec<(i64, i64, i64)> = Vec::new();
        let mut i: usize = 0;
        while i < n
            invariant
                n == self.sts().len(),
                0 <= i <= n,
                out@.len() == i,
                forall|j: int|
                    0 <= j < i ==> #[trigger] out@[j] == (
                        self.sts()[j].center.x,
                        self.sts()[j].center.y,
                        self.sts()[j].radius,
                    ),
            decreases n - i,
        {
            let st = self.stations[i];
            out.push((st.center.x, st.center.y, st.radius));
            i = i + 1;
        }
        out
    }

    /// The leading station, or `None` on an empty list (which a completed
    /// analysis never produces).
    pub fn first_circle(&self) -> (r: Option<InscribedCircle>)
        ensures
            r is Some <==> self.sts().len() > 0,
            r matches Some(c) ==> c == self.sts()[0],
    {
        if self.stations.len() > 0 {
            Some(self.stations[0])
        } else {
            None
        }
    }

    /// The trailing station, or `None` on an empty list.
    pub fn last_circle(&self) -> (r: Option<InscribedCircle>)
        ensures
            r is Some <==> self.sts().len() > 0,
            r matches Some(c) ==> c == self.sts()[self.sts().len() - 1],
    {
        if self.stations.len() > 0 {
            Some(self.stations[self.stations.len() - 1])
        } else {
            None
        }
    }
}

/// The initial march axis of a seed station: the normalized perpendicular
/// of its contact chord, or the unit x direction for a degenerate chord.
pub open spec fn seed_axis(seed: InscribedCircle) -> Vector2 {
    let abx = (seed.contact_a.x - seed.contact_b.x) as i64;
    let aby = (seed.contact_a.y - seed.contact_b.y) as i64;
    match crate::geom2::normalize_spec(Vector2 { x: (-aby) as i64, y: abx }) {
        None => Vector2 { x: DIR_SCALE, y: 0 },
        Some(d) => d,
    }
}

/// The raw station skeleton marched from `seed`: the reversed first-half
/// trace, the seed, then the second-half trace; `None` when either march
/// exhausts its budget or fewer than two stations result.
pub open spec fn skeleton_of(s: Seq<Point2>, seed: InscribedCircle) -> Option<
    Seq<InscribedCircle>,
> {
    let d0 = seed_axis(seed);
    let nd = Vector2 { x: (-d0.x) as i64, y: (-d0.y) as i64 };
    match crate::march::march_trace(s, seed.center, seed.radius, d0, MARCH_CAP as nat) {
        None => None,
        Some(ta) => match crate::march::march_trace(
            s,
            seed.center,
            seed.radius,
            nd,
            MARCH_CAP as nat,
        ) {
            None => None,
            Some(tb) => {
                let sk = ta.reverse() + seq![seed] + tb;
                if sk.len() < 2 {
                    None
                } else {
                    Some(sk)
                }
            },
        },
    }
}

/// The outward direction at the front of a station list: from the second
/// station's center toward the first, normalized; a fallback unit when the
/// two centers coincide.
fn outward_dir(from: &InscribedCircle, to: &InscribedCircle) -> (d: Vector2)
    requires
        pt_in(from.center, CENTER_LIMIT as int),
        pt_in(to.center, CENTER_LIMIT as int),
    ensures
        crate::geom2::vec_in(d, DIR_SCALE as int),
{
    match from.center.vector_to(&to.center).normalize() {
        Some(d) => d,
        None => Vector2 { x: DIR_SCALE, y: 0 },
    }
}

/// Marches both directions from the seed and assembles the raw skeleton,
/// ordered end to end with the seed in the middle: exactly
/// [`skeleton_of`], with budget exhaustion a hard failure.
fn march_skeleton(curve: &BoundaryCurve, seed: InscribedCircle) -> (r: Result<
    StationList,
    GeometryError,
>)
    requires
        curve.wf(),
        circle_wf(seed, curve.pts()),
        0 <= seed.radius < 50_000_000,
    ensures
        r matches Ok(v) ==> Some(v@) == skeleton_of(curve.pts(), seed),
        r is Err <==> skeleton_of(curve.pts(), seed) is None,
        r matches Ok(v) ==> 2 <= v@.len() <= 2 * MARCH_CAP + 1 && forall|k: int|
            0 <= k < v@.len() ==> circle_wf(#[trigger] v@[k], curve.pts()) && v@[k].radius
                < 50_000_000,
        r matches Err(e) ==> e == GeometryError::NoConvergence,
{
    let ab = seed.contact_b.vector_to(&seed.contact_a);
    proof {
        let wa = choose|w: int|
            0 <= w < curve.pts().len() && curve.pts()[w] == seed.contact_a;
        assert(pt_in(curve.pts()[wa], 1_000_000));
        let wb = choose|w: int|
            0 <= w < curve.pts().len() && curve.pts()[w] == seed.contact_b;
        assert(pt_in(curve.pts()[wb], 1_000_000));
    }
    let dir0 = match ab.perpendicular().normalize() {
        Some(d) => d,
        None => Vector2 { x: DIR_SCALE, y: 0 },
    };
    proof {
        assert(dir0 == seed_axis(seed));
    }
    let half_a = match march_half(curve, &seed, dir0) {
        Ok(v) => v,
        Err(e) => {
            return Err(e);
        },
    };
    let half_b = match march_half(curve, &seed, dir0.negated()) {
        Ok(v) => v,
        Err(e) => {
            return Err(e);
        },
    };
    proof {
        assert(Some(half_a@) == crate::march::march_trace(
            curve.pts(),
            seed.center,
            seed.radius,
            seed_axis(seed),
            MARCH_CAP as nat,
        ));
    }
    let mut skel = reversed_stations(&half_a);
    proof {
        assert forall|k: int| 0 <= k < skel@.len() implies circle_wf(
            #[trigger] skel@[k],
            curve.pts(),
        ) && skel@[k].radius < 50_000_000 by {
            assert(skel@[k] == half_a@[half_a@.len() - 1 - k]);
        }
    }
    skel.push(seed);
    let ghost mid_snap = skel@;
    let mut half_b_m = half_b;
    skel.append(&mut half_b_m);
    proof {
        assert forall|k: int| 0 <= k < skel@.len() implies circle_wf(
            #[trigger] skel@[k],
            curve.pts(),
        ) && skel@[k].radius < 50_000_000 by {
            if k < mid_snap.len() {
                assert(skel@[k] == mid_snap[k]);
            } else {
                assert(skel@[k] == half_b@[k - mid_snap.len()]);
            }
        }
    }
    proof {
        assert(skel@ =~= half_a@.reverse() + seq![seed] + half_b@);
    }
    if skel.len() < 2 {
        return Err(GeometryError::NoConvergence);
    }
    Ok(skel)
}

/// The shape of a successful analysis: under the hull ring `hs`, the
/// first maximal seed pair `(a, b)` reaches the radius floor, its march
/// skeleton is `sk0`, the at-most-one leading and trailing terminals are
/// well-formed stations, and the output is the refined, oriented
/// assembly — the refined list itself or its exact reversal, per the
/// orientation strategy.
pub open spec fn analysis_shape(
    s: Seq<Point2>,
    params: AfParams,
    hs: Seq<Point2>,
    a: int,
    b: int,
    sk0: Seq<InscribedCircle>,
    lead: Seq<InscribedCircle>,
    trail: Seq<InscribedCircle>,
    out: Seq<InscribedCircle>,
) -> bool {
    &&& hull_ok_for(s, hs)
    &&& seed_pair_first_max(s, hs, a, b)
    &&& cand_sq(s, a, b) >= RADIUS_FLOOR * RADIUS_FLOOR
    &&& skeleton_of(s, seed_station(s, a, b)) == Some(sk0)
    &&& assembly_shape(s, params, sk0, lead, trail, out)
}

/// There exist terminal choices completing `sk0` to the output `out`.
pub open spec fn has_assembly(
    s: Seq<Point2>,
    params: AfParams,
    sk0: Seq<InscribedCircle>,
    out: Seq<InscribedCircle>,
) -> bool {
    exists|lead_t: Seq<InscribedCircle>, trail_t: Seq<InscribedCircle>|
        #[trigger] assembly_shape(s, params, sk0, lead_t, trail_t, out)
}

/// The post-skeleton shape of an analysis: at most one terminal station
/// per end, both well-formed; the output is the tolerance-refined assembly
/// of terminals around the provisionally oriented skeleton — the refined
/// list itself or its exact reversal, per the orientation strategy.
pub open spec fn assembly_shape(
    s: Seq<Point2>,
    params: AfParams,
    sk0: Seq<InscribedCircle>,
    lead: Seq<InscribedCircle>,
    trail: Seq<InscribedCircle>,
    out: Seq<InscribedCircle>,
) -> bool {
    &&& lead.len() <= 1
    &&& trail.len() <= 1
    &&& (forall|k: int| 0 <= k < lead.len() ==> circle_wf(#[trigger] lead[k], s))
    &&& (forall|k: int| 0 <= k < trail.len() ==> circle_wf(#[trigger] trail[k], s))
    &&& ({
        let osk = if reverse_decision(sk0, params.orient) {
            sk0.reverse()
        } else {
            sk0
        };
        let full = lead + osk + trail;
        let refined = refine_spec(s, full, params.refine_tol as int);
        out == if reverse_decision(refined, params.orient) {
            refined.reverse()
        } else {
            refined
        }
    })
}

/// Extracts the camber stations of a curve given its hull: seeds the
/// search with the maximum-thickness circle, marches both ways, and
/// refines the station spacing to `refine_tol`.  No edge strategy and no
/// orientation is applied: the list runs end to end in marching order.
pub fn extract_camber_stations(
    curve: &BoundaryCurve,
    hull: &ConvexHull,
    refine_tol: i64,
) -> (r: Result<StationList, GeometryError>)
    requires
        curve.wf(),
        hull.wf(),
        1 <= refine_tol,
    ensures
        r matches Ok(v) ==> v@.len() >= 2 && forall|k: int|
            0 <= k < v@.len() ==> circle_wf(#[trigger] v@[k], curve.pts()),
        r is Err ==> (r matches Err(e) && (e == GeometryError::NoSeedCircle || e
            == GeometryError::NoConvergence)),
        r == Err::<StationList, GeometryError>(GeometryError::NoSeedCircle) <==> no_seed_under(
            curve.pts(),
            hull.points@,
        ),
        r == Err::<StationList, GeometryError>(GeometryError::NoConvergence) <==> (!no_seed_under(
            curve.pts(),
            hull.points@,
        ) && exists|a: int, b: int|
            #[trigger] seed_pair_first_max(curve.pts(), hull.points@, a, b) && skeleton_of(
                curve.pts(),
                seed_station(curve.pts(), a, b),
            ) is None),
        r matches Ok(v) ==> exists|a: int, b: int|
            #[trigger] seed_pair_first_max(curve.pts(), hull.points@, a, b) && cand_sq(
                curve.pts(),
                a,
                b,
            ) >= RADIUS_FLOOR * RADIUS_FLOOR && (skeleton_of(
                curve.pts(),
                seed_station(curve.pts(), a, b),
            ) matches Some(sk) && v@ == refine_spec(curve.pts(), sk, refine_tol as int)),
{
    let ghost s = curve.pts();
    let ghost hs = hull.points@;
    let seed = match find_seed_circle(curve, hull) {
        Ok(st) => st,
        Err(e) => {
            return Err(e);
        },
    };
    let ghost (sa, sb) = choose|a: int, b: int|
        #[trigger] seed_pair_first_max(s, hs, a, b) && seed == seed_station(s, a, b) && cand_sq(
            s,
            a,
            b,
        ) >= RADIUS_FLOOR * RADIUS_FLOOR && min_sq_of_center(s, seed) == cand_sq(s, a, b);
    let skel = match march_skeleton(curve, seed) {
        Ok(v) => v,
        Err(e) => {
            proof {
                assert(skeleton_of(s, seed_station(s, sa, sb)) is None);
            }
            return Err(e);
        },
    };
    proof {
        assert(skeleton_of(s, seed_station(s, sa, sb)) == Some(skel@));
        assert forall|a2: int, b2: int|
            #[trigger] seed_pair_first_max(s, hs, a2, b2) implies !(skeleton_of(
            s,
            seed_station(s, a2, b2),
        ) is None) by {
            lemma_seed_pair_unique(s, hs, sa, sb, a2, b2);
        }
    }
    let out = refine_stations(curve, &skel, refine_tol);
    Ok(out)
}

/// The clearance of a station's center, as named by the seed search.
pub open spec fn min_sq_of_center(s: Seq<Point2>, st: InscribedCircle) -> int {
    crate::station::min_sq(s, st.center)
}

/// Computes the inscribed circles of a boundary curve: builds the convex
/// hull (failing with `InvalidHull` exactly when the curve is degenerate)
/// and extracts the camber stations at the given tolerance.
pub fn compute_inscribed_circles(section: &BoundaryCurve, refine_tol: i64) -> (r: Result<
    StationList,
    GeometryError,
>)
    requires
        section.wf(),
        1 <= refine_tol,
    ensures
        r matches Err(e) && e == GeometryError::InvalidHull <==> degenerate(section.pts()),
        r matches Ok(v) ==> v@.len() >= 2 && forall|k: int|
            0 <= k < v@.len() ==> circle_wf(#[trigger] v@[k], section.pts()),
        r == Err::<StationList, GeometryError>(GeometryError::NoSeedCircle) ==> exists|
            hsq: Seq<Point2>,
        |
            #[trigger] hull_ok_for(section.pts(), hsq) && no_seed_under(section.pts(), hsq),
        (!degenerate(section.pts()) && (forall|hsq: Seq<Point2>|
            #[trigger] hull_ok_for(section.pts(), hsq) ==> no_seed_under(section.pts(), hsq)))
            ==> r == Err::<StationList, GeometryError>(GeometryError::NoSeedCircle),
        r == Err::<StationList, GeometryError>(GeometryError::NoConvergence) ==> exists|
            hsq: Seq<Point2>,
            a: int,
            b: int,
        |
            hull_ok_for(section.pts(), hsq) && #[trigger] seed_pair_first_max(
                section.pts(),
                hsq,
                a,
                b,
            ) && skeleton_of(section.pts(), seed_station(section.pts(), a, b)) is None,
        r matches Ok(v) ==> exists|hsq: Seq<Point2>, a: int, b: int|
            hull_ok_for(section.pts(), hsq) && #[trigger] seed_pair_first_max(
                section.pts(),
                hsq,
                a,
                b,
            ) && cand_sq(section.pts(), a, b) >= RADIUS_FLOOR * RADIUS_FLOOR && (skeleton_of(
                section.pts(),
                seed_station(section.pts(), a, b),
            ) matches Some(sk) && v@ == refine_spec(section.pts(), sk, refine_tol as int)),
{
    let hull = match make_hull(section) {
        Some(h) => h,
        None => {
            return Err(GeometryError::InvalidHull);
        },
    };
    let r = extract_camber_stations(section, &hull, refine_tol);
    proof {
        assert(hull_ok_for(section.pts(), hull.points@));
    }
    r
}

/// The displacements of the two ends of a station list never flip against
/// a direction vector once the list is oriented by it.
proof fn lemma_fwd_dot_antisym(x: int, y: int, a: Point2, b: Point2)
    ensures
        fwd_dot(x, y, a, b) == -fwd_dot(x, y, b, a),
{
    assert(x * (b.x - a.x) == -(x * (a.x - b.x))) by (nonlinear_arith);
    assert(y * (b.y - a.y) == -(y * (a.y - b.y))) by (nonlinear_arith);
}

/// Analyzes an airfoil cross-section: hull, maximum-thickness seed,
/// inscribed-circle march toward both ends, leading and trailing edge
/// terminals, tolerance refinement, and orientation.
///
/// On success the result holds at least two stations, each inscribed
/// against the input curve with its contact points on the curve.  With a
/// `DirFwd` orientation, the vector from the first to the last circle
/// center has a non-negative dot product with the configured direction.
#[verifier::rlimit(100)]
pub fn analyze_airfoil_geometry(curve: &BoundaryCurve, params: &AfParams) -> (r: Result<
    AirfoilGeometry,
    GeometryError,
>)
    requires
        curve.wf(),
        params.wf(),
    ensures
        r matches Err(e) && e == GeometryError::InvalidHull <==> degenerate(curve.pts()),
        r matches Ok(g) ==> geometry_wf(g, curve.pts()),
        r matches Ok(g) ==> (params.orient matches MclOrient::DirFwd { x, y } ==> fwd_dot(
            x as int,
            y as int,
            g.sts()[0].center,
            g.sts()[g.sts().len() - 1].center,
        ) >= 0),
        r == Err::<AirfoilGeometry, GeometryError>(GeometryError::NoSeedCircle) ==> exists|
            hsq: Seq<Point2>,
        |
            #[trigger] hull_ok_for(curve.pts(), hsq) && no_seed_under(curve.pts(), hsq),
        (!degenerate(curve.pts()) && (forall|hsq: Seq<Point2>|
            #[trigger] hull_ok_for(curve.pts(), hsq) ==> no_seed_under(curve.pts(), hsq))) ==> r
            == Err::<AirfoilGeometry, GeometryError>(GeometryError::NoSeedCircle),
        r == Err::<AirfoilGeometry, GeometryError>(GeometryError::NoConvergence) ==> exists|
            hsq: Seq<Point2>,
            a: int,
            b: int,
        |
            hull_ok_for(curve.pts(), hsq) && #[trigger] seed_pair_first_max(
                curve.pts(),
                hsq,
                a,
                b,
            ) && skeleton_of(curve.pts(), seed_station(curve.pts(), a, b)) is None,
        r == Err::<AirfoilGeometry, GeometryError>(GeometryError::NoIntersection) ==> (
        params.leading is Intersect || params.trailing is Intersect) && exists|
            hsq: Seq<Point2>,
            a: int,
            b: int,
        |
            hull_ok_for(curve.pts(), hsq) && #[trigger] seed_pair_first_max(
                curve.pts(),
                hsq,
                a,
                b,
            ) && cand_sq(curve.pts(), a, b) >= RADIUS_FLOOR * RADIUS_FLOOR && skeleton_of(
                curve.pts(),
                seed_station(curve.pts(), a, b),
            ) is Some,
        r == Err::<AirfoilGeometry, GeometryError>(GeometryError::InsufficientInliers) ==> (
        params.leading is RansacRadius || params.trailing is RansacRadius) && exists|
            hsq: Seq<Point2>,
            a: int,
            b: int,
        |
            hull_ok_for(curve.pts(), hsq) && #[trigger] seed_pair_first_max(
                curve.pts(),
                hsq,
                a,
                b,
            ) && cand_sq(curve.pts(), a, b) >= RADIUS_FLOOR * RADIUS_FLOOR && skeleton_of(
                curve.pts(),
                seed_station(curve.pts(), a, b),
            ) is Some,
        r matches Ok(g) ==> exists|
            hsq: Seq<Point2>,
            a: int,
            b: int,
            sk0: Seq<InscribedCircle>,
            lead_t: Seq<InscribedCircle>,
            trail_t: Seq<InscribedCircle>,
        | #[trigger] analysis_shape(curve.pts(), *params, hsq, a, b, sk0, lead_t, trail_t, g.sts()),
{
    let ghost s = curve.pts();
    let hull = match make_hull(curve) {
        Some(h) => h,
        None => {
            return Err(GeometryError::InvalidHull);
        },
    };
    let ghost hs = hull.points@;
    proof {
        assert(hull_ok_for(s, hs));
    }
    let seed = match find_seed_circle(curve, &hull) {
        Ok(st) => st,
        Err(e) => {
            return Err(e);
        },
    };
    let ghost (sa, sb) = choose|a: int, b: int|
        #[trigger] seed_pair_first_max(s, hs, a, b) && seed == seed_station(s, a, b) && cand_sq(
            s,
            a,
            b,
        ) >= RADIUS_FLOOR * RADIUS_FLOOR && crate::station::min_sq(s, seed.center) == cand_sq(
            s,
            a,
            b,
        );
    let skel0 = match march_skeleton(curve, seed) {
        Ok(v) => v,
        Err(e) => {
            proof {
                assert(skeleton_of(s, seed_station(s, sa, sb)) is None);
            }
            return Err(e);
        },
    };
    proof {
        assert(skeleton_of(s, seed_station(s, sa, sb)) == Some(skel0@));
    }
    proof {
        assert forall|k: int| 0 <= k < skel0@.len() implies pt_in(
            (#[trigger] skel0@[k]).center,
            CENTER_LIMIT as int,
        ) by {
            assert(circle_wf(skel0@[k], curve.pts()));
        }
    }
    let ghost sk0 = skel0@;
    let r = finish_analysis(curve, params, skel0, Ghost(sk0));
    proof {
        if r is Ok {
            let g = r->Ok_0;
            assert(has_assembly(s, *params, sk0, g.sts()));
            let (lead_t, trail_t) = choose|lead_t: Seq<InscribedCircle>, trail_t: Seq<
                InscribedCircle,
            >| #[trigger] assembly_shape(s, *params, sk0, lead_t, trail_t, g.sts());
            assert(analysis_shape(s, *params, hs, sa, sb, sk0, lead_t, trail_t, g.sts()));
        }
    }
    r
}

/// Locates the two terminal stations of an oriented skeleton: the leading
/// strategy at the front end, the trailing strategy at the back, each
/// along the outward direction of its end.
fn locate_terminals(curve: &BoundaryCurve, params: &AfParams, skel: &StationList) -> (r: Result<
    (Option<InscribedCircle>, Option<InscribedCircle>),
    GeometryError,
>)
    requires
        curve.wf(),
        params.wf(),
        2 <= skel@.len() <= 100_000,
        forall|k: int|
            0 <= k < skel@.len() ==> circle_wf(#[trigger] skel@[k], curve.pts()) && skel@[k].radius
                < 50_000_000,
    ensures
        r matches Ok(p) ==> (p.0 matches Some(t) ==> circle_wf(t, curve.pts())) && (
        p.1 matches Some(t) ==> circle_wf(t, curve.pts())),
        r matches Err(e) ==> (e == GeometryError::NoIntersection || e
            == GeometryError::InsufficientInliers),
        r matches Err(e) && e == GeometryError::NoIntersection ==> (
        params.leading is Intersect || params.trailing is Intersect),
        r matches Err(e) && e == GeometryError::InsufficientInliers ==> (
        params.leading is RansacRadius || params.trailing is RansacRadius),
{
    proof {
        assert forall|k: int| 0 <= k < skel@.len() implies pt_in(
            (#[trigger] skel@[k]).center,
            CENTER_LIMIT as int,
        ) by {
            assert(circle_wf(skel@[k], curve.pts()));
        }
    }
    let back = skel.len() - 1;
    let dir_front = outward_dir(&skel[1], &skel[0]);
    let dir_back = outward_dir(&skel[back - 1], &skel[back]);
    let tip_rev = reversed_stations(skel);
    proof {
        assert forall|k: int| 0 <= k < tip_rev@.len() implies pt_in(
            (#[trigger] tip_rev@[k]).center,
            CENTER_LIMIT as int,
        ) && 0 <= tip_rev@[k].radius < 50_000_000 by {
            assert(tip_rev@[k] == skel@[skel@.len() - 1 - k]);
            assert(circle_wf(skel@[skel@.len() - 1 - k], curve.pts()));
        }
    }
    let lead = match locate_edge(curve, &tip_rev, skel[0].center, dir_front, &params.leading) {
        Ok(o) => o,
        Err(e) => {
            return Err(e);
        },
    };
    let trail = match locate_edge(curve, skel, skel[back].center, dir_back, &params.trailing) {
        Ok(o) => o,
        Err(e) => {
            return Err(e);
        },
    };
    Ok((lead, trail))
}

/// Applies edge location, refinement and final orientation to a marched
/// skeleton: the closing stages of the analysis, with their exact shape.
#[verifier::rlimit(100)]
fn finish_analysis(
    curve: &BoundaryCurve,
    params: &AfParams,
    skel0: StationList,
    Ghost(sk0): Ghost<Seq<InscribedCircle>>,
) -> (r: Result<AirfoilGeometry, GeometryError>)
    requires
        curve.wf(),
        params.wf(),
        sk0 == skel0@,
        2 <= skel0@.len() <= 2 * MARCH_CAP + 1,
        forall|k: int|
            0 <= k < skel0@.len() ==> circle_wf(#[trigger] skel0@[k], curve.pts()) && skel0@[
                k
            ].radius < 50_000_000,
    ensures
        r matches Ok(g) ==> geometry_wf(g, curve.pts()),
        r matches Ok(g) ==> (params.orient matches MclOrient::DirFwd { x, y } ==> fwd_dot(
            x as int,
            y as int,
            g.sts()[0].center,
            g.sts()[g.sts().len() - 1].center,
        ) >= 0),
        r matches Ok(g) ==> has_assembly(curve.pts(), *params, sk0, g.sts()),
        r matches Err(e) ==> (e == GeometryError::NoIntersection || e
            == GeometryError::InsufficientInliers),
        r matches Err(e) && e == GeometryError::NoIntersection ==> (
        params.leading is Intersect || params.trailing is Intersect),
        r matches Err(e) && e == GeometryError::InsufficientInliers ==> (
        params.leading is RansacRadius || params.trailing is RansacRadius),
{
    // Provisional orientation of the skeleton, so that the leading strategy
    // is applied at the leading end and the trailing strategy at the other.
    let skel = orient_stations(skel0, &params.orient);
    proof {
        assert forall|k: int| 0 <= k < skel@.len() implies circle_wf(
            #[trigger] skel@[k],
            curve.pts(),
        ) && skel@[k].radius < 50_000_000 && pt_in(skel@[k].center, CENTER_LIMIT as int) by {
            if reverse_decision(sk0, params.orient) {
                assert(skel@[k] == sk0[sk0.len() - 1 - k]);
            } else {
                assert(skel@[k] == sk0[k]);
            }
        }
    }
    let (lead, trail) = match locate_terminals(curve, params, &skel) {
        Ok(p) => p,
        Err(e) => {
            return Err(e);
        },
    };
    let ghost lead_seq: Seq<InscribedCircle> = match lead {
        Some(t) => seq![t],
        None => Seq::empty(),
    };
    let ghost trail_seq: Seq<InscribedCircle> = match trail {
        Some(t) => seq![t],
        None => Seq::empty(),
    };
    let mut full: StationList = Vec::new();
    if let Some(t) = lead {
        full.push(t);
    }
    let ghost lead_snap = full@;
    let mut skel_m = skel;
    full.append(&mut skel_m);
    if let Some(t) = trail {
        full.push(t);
    }
    proof {
        assert(lead_snap == lead_seq);
        assert(full@ =~= lead_seq + skel@ + trail_seq);
    }
    proof {
        assert forall|k: int| 0 <= k < full@.len() implies circle_wf(
            #[trigger] full@[k],
            curve.pts(),
        ) by {
            if k < lead_snap.len() {
                assert(full@[k] == lead_snap[k]);
            } else if k < lead_snap.len() + skel@.len() {
                assert(full@[k] == skel@[k - lead_snap.len()]);
            }
        }
    }
    let refined = refine_stations(curve, &full, params.refine_tol);
    proof {
        let osk = if reverse_decision(sk0, params.orient) {
            sk0.reverse()
        } else {
            sk0
        };
        assert(skel@ == osk);
        assert(full@ == lead_seq + osk + trail_seq);
    }
    let g = package_result(
        curve,
        params,
        refined,
        Ghost(sk0),
        Ghost(lead_seq),
        Ghost(trail_seq),
    );
    proof {
        assert(has_assembly(curve.pts(), *params, sk0, g.sts()));
    }
    Ok(g)
}

/// The final orientation pass: packages the refined station list, reversed
/// exactly when the orientation strategy says so.
fn package_result(
    curve: &BoundaryCurve,
    params: &AfParams,
    refined: StationList,
    Ghost(sk0): Ghost<Seq<InscribedCircle>>,
    Ghost(lead_seq): Ghost<Seq<InscribedCircle>>,
    Ghost(trail_seq): Ghost<Seq<InscribedCircle>>,
) -> (g: AirfoilGeometry)
    requires
        curve.wf(),
        params.wf(),
        refined@.len() >= 2,
        forall|k: int| 0 <= k < refined@.len() ==> circle_wf(#[trigger] refined@[k], curve.pts()),
        lead_seq.len() <= 1,
        trail_seq.len() <= 1,
        forall|k: int| 0 <= k < lead_seq.len() ==> circle_wf(#[trigger] lead_seq[k], curve.pts()),
        forall|k: int| 0 <= k < trail_seq.len() ==> circle_wf(#[trigger] trail_seq[k], curve.pts()),
        refined@ == refine_spec(
            curve.pts(),
            lead_seq + (if reverse_decision(sk0, params.orient) {
                sk0.reverse()
            } else {
                sk0
            }) + trail_seq,
            params.refine_tol as int,
        ),
    ensures
        geometry_wf(g, curve.pts()),
        params.orient matches MclOrient::DirFwd { x, y } ==> fwd_dot(
            x as int,
            y as int,
            g.sts()[0].center,
            g.sts()[g.sts().len() - 1].center,
        ) >= 0,
        exists|lead_t: Seq<InscribedCircle>, trail_t: Seq<InscribedCircle>|
            #[trigger] assembly_shape(curve.pts(), *params, sk0, lead_t, trail_t, g.sts()),
{
    proof {
        assert forall|k: int| 0 <= k < refined@.len() implies pt_in(
            (#[trigger] refined@[k]).center,
            CENTER_LIMIT as int,
        ) by {
            assert(circle_wf(refined@[k], curve.pts()));
        }
    }
    let ghost refinedg = refined@;
    let oriented = orient_stations(refined, &params.orient);
    proof {
        assert forall|k: int| 0 <= k < oriented@.len() implies circle_wf(
            #[trigger] oriented@[k],
            curve.pts(),
        ) by {
            if reverse_decision(refinedg, params.orient) {
                assert(oriented@[k] == refinedg[refinedg.len() - 1 - k]);
            } else {
                assert(oriented@[k] == refinedg[k]);
            }
        }
        let n = refinedg.len();
        if reverse_decision(refinedg, params.orient) {
            assert(oriented@[0] == refinedg[n - 1]);
            assert(oriented@[n - 1] == refinedg[0]);
        }
        assert forall|x: int, y: int|
            #[trigger] fwd_dot(x, y, refinedg[0].center, refinedg[n - 1].center) == -fwd_dot(
                x,
                y,
                refinedg[n - 1].center,
                refinedg[0].center,
            ) by {
            lemma_fwd_dot_antisym(x, y, refinedg[0].center, refinedg[n - 1].center);
        }
    }
    let result = AirfoilGeometry { stations: oriented };
    proof {
        assert(result.sts() == oriented@);
        assert(assembly_shape(curve.pts(), *params, sk0, lead_seq, trail_seq, result.sts()));
    }
    result
}


/// Builds the analysis parameters from their parts and runs
/// [`analyze_airfoil_geometry`] on the section.
pub fn compute_airfoil_geometry(
    section: &BoundaryCurve,
    refine_tol: i64,
    orient: MclOrient,
    leading: EdgeFind,
    trailing: EdgeFind,
) -> (r: Result<AirfoilGeometry, GeometryError>)
    requires
        section.wf(),
        1 <= refine_tol,
        orient_valid(orient),
        edge_valid(leading),
        edge_valid(trailing),
    ensures
        r matches Err(e) && e == GeometryError::InvalidHull <==> degenerate(section.pts()),
        r matches Ok(g) ==> geometry_wf(g, section.pts()),
        r matches Ok(g) ==> (orient matches MclOrient::DirFwd { x, y } ==> fwd_dot(
            x as int,
            y as int,
            g.sts()[0].center,
            g.sts()[g.sts().len() - 1].center,
        ) >= 0),
        r == Err::<AirfoilGeometry, GeometryError>(GeometryError::NoSeedCircle) ==> exists|
            hsq: Seq<Point2>,
        |
            #[trigger] hull_ok_for(section.pts(), hsq) && no_seed_under(section.pts(), hsq),
        (!degenerate(section.pts()) && (forall|hsq: Seq<Point2>|
            #[trigger] hull_ok_for(section.pts(), hsq) ==> no_seed_under(section.pts(), hsq)))
            ==> r == Err::<AirfoilGeometry, GeometryError>(GeometryError::NoSeedCircle),
        r == Err::<AirfoilGeometry, GeometryError>(GeometryError::NoConvergence) ==> exists|
            hsq: Seq<Point2>,
            a: int,
            b: int,
        |
            hull_ok_for(section.pts(), hsq) && #[trigger] seed_pair_first_max(
                section.pts(),
                hsq,
                a,
                b,
            ) && skeleton_of(section.pts(), seed_station(section.pts(), a, b)) is None,
        r == Err::<AirfoilGeometry, GeometryError>(GeometryError::NoIntersection) ==> (
        leading is Intersect || trailing is Intersect),
        r == Err::<AirfoilGeometry, GeometryError>(GeometryError::InsufficientInliers) ==> (
        leading is RansacRadius || trailing is RansacRadius),
        r matches Ok(g) ==> exists|
            hsq: Seq<Point2>,
            a: int,
            b: int,
            sk0: Seq<InscribedCircle>,
            lead_t: Seq<InscribedCircle>,
            trail_t: Seq<InscribedCircle>,
        |
            #[trigger] analysis_shape(
                section.pts(),
                AfParams { refine_tol, orient, leading, trailing },
                hsq,
                a,
                b,
                sk0,
                lead_t,
                trail_t,
                g.sts(),
            ),
{
    let params = match AfParams::new(refine_tol, orient, leading, trailing) {
        Some(p) => p,
        None => {
            return Err(GeometryError::InvalidHull);
        },
    };
    let r = analyze_airfoil_geometry(section, &params);
    proof {
        assert(params == AfParams { refine_tol, orient, leading, trailing });
    }
    r
}

} // verus!
