use camberline::{
    compute_inscribed_circles, AfParams, BoundaryCurve, EdgeFind, GeometryError, MclOrient,
    Point2, Vector2,
};
use camberline::hull::make_hull;
use camberline::edges::locate_edge;

fn p(x: i64, y: i64) -> Point2 {
    Point2 { x, y }
}

#[test]
fn vector_ops_exact_values() {
    let v = Vector2 { x: 3, y: 4 };
    let w = Vector2 { x: -2, y: 5 };
    assert_eq!(v.norm(), 5);
    assert_eq!(v.dot(&w), 14);
    assert_eq!(v.cross(&w), 23);
    assert_eq!(Vector2 { x: 8, y: 2 }.norm(), 8);
    let perp = v.perpendicular();
    assert_eq!((perp.x, perp.y), (-4, 3));
}

#[test]
fn midpoint_truncates_toward_zero() {
    let m = p(1, 1).midpoint(&p(2, 2));
    assert_eq!((m.x, m.y), (1, 1));
    let m2 = p(-1, -1).midpoint(&p(-2, -2));
    assert_eq!((m2.x, m2.y), (-1, -1));
    let m3 = p(0, 10).midpoint(&p(10, 0));
    assert_eq!((m3.x, m3.y), (5, 5));
}

#[test]
fn curve_new_rejects_too_few_points() {
    let r = BoundaryCurve::new(vec![p(0, 0), p(10, 0)]);
    assert_eq!(r.err(), Some(GeometryError::InvalidHull));
}

#[test]
fn curve_new_rejects_out_of_range() {
    let r = BoundaryCurve::new(vec![p(0, 0), p(2_000_000, 0), p(10, 10)]);
    assert!(r.is_err());
}

#[test]
fn curve_new_dedups_consecutive() {
    let c = BoundaryCurve::new(vec![p(0, 0), p(0, 0), p(10, 0), p(10, 0), p(0, 10)]).unwrap();
    assert_eq!(c.point_count(), 3);
    assert_eq!(c.point_at(0), p(0, 0));
    assert_eq!(c.point_at(1), p(10, 0));
    assert_eq!(c.point_at(2), p(0, 10));
}

#[test]
fn collinear_curve_has_no_hull() {
    let c = BoundaryCurve::new(vec![p(0, 0), p(10, 10), p(20, 20), p(30, 30)]).unwrap();
    assert!(make_hull(&c).is_none());
    assert_eq!(
        compute_inscribed_circles(&c, 10).err(),
        Some(GeometryError::InvalidHull)
    );
}

#[test]
fn square_curve_has_hull() {
    let c = BoundaryCurve::new(vec![p(0, 0), p(100, 0), p(100, 100), p(0, 100)]).unwrap();
    let h = make_hull(&c).unwrap();
    assert!(h.points.len() >= 3);
    for q in &h.points {
        assert!([p(0, 0), p(100, 0), p(100, 100), p(0, 100)].contains(q));
    }
}

#[test]
fn af_params_validation() {
    assert!(AfParams::new(1, MclOrient::TmaxFwd, EdgeFind::Open, EdgeFind::Open).is_some());
    assert!(AfParams::new(0, MclOrient::TmaxFwd, EdgeFind::Open, EdgeFind::Open).is_none());
    assert!(
        AfParams::new(1, MclOrient::DirFwd { x: 0, y: 0 }, EdgeFind::Open, EdgeFind::Open)
            .is_none()
    );
    assert!(AfParams::new(
        1,
        MclOrient::TmaxFwd,
        EdgeFind::OpenIntersect { max_iter: 0 },
        EdgeFind::Open
    )
    .is_none());
    assert!(AfParams::new(
        1,
        MclOrient::TmaxFwd,
        EdgeFind::RansacRadius { in_tol: 10, n: 2 },
        EdgeFind::Open
    )
    .is_none());
    assert!(AfParams::new(
        1,
        MclOrient::TmaxFwd,
        EdgeFind::RansacRadius { in_tol: 10, n: 3 },
        EdgeFind::Open
    )
    .is_some());
    let params =
        AfParams::new(7, MclOrient::DirFwd { x: 3, y: 4 }, EdgeFind::Open, EdgeFind::Intersect)
            .unwrap();
    assert_eq!(params.refine_tol, 7);
}

#[test]
fn locate_edge_intersect_picks_farthest_ahead() {
    let c = BoundaryCurve::new(vec![p(0, 100), p(500, 80), p(900, 0), p(500, -80), p(0, -100)])
        .unwrap();
    let empty: Vec<camberline::InscribedCircle> = Vec::new();
    let r = locate_edge(
        &c,
        &empty,
        p(400, 0),
        Vector2 { x: 1024, y: 0 },
        &EdgeFind::Intersect,
    )
    .unwrap()
    .unwrap();
    assert_eq!(r.center, p(900, 0));
}

#[test]
fn locate_edge_intersect_fails_past_all_points() {
    let c = BoundaryCurve::new(vec![p(0, 100), p(500, 80), p(900, 0), p(500, -80), p(0, -100)])
        .unwrap();
    let empty: Vec<camberline::InscribedCircle> = Vec::new();
    let r = locate_edge(
        &c,
        &empty,
        p(2_000, 0),
        Vector2 { x: 1024, y: 0 },
        &EdgeFind::Intersect,
    );
    assert_eq!(r.err(), Some(GeometryError::NoIntersection));
}

#[test]
fn constructors_set_fields() {
    let q = Point2::new(-7, 9);
    assert_eq!((q.x, q.y), (-7, 9));
    let v = Vector2::new(5, -1);
    assert_eq!((v.x, v.y), (5, -1));
}

#[test]
fn empty_geometry_has_no_end_circles() {
    let g = camberline::AirfoilGeometry { stations: Vec::new() };
    assert!(g.first_circle().is_none());
    assert!(g.last_circle().is_none());
    assert!(g.camber().is_empty());
    assert!(g.circle_array().is_empty());
}

#[test]
fn locate_edge_open_reports_nearer_endpoint() {
    let c = BoundaryCurve::new(vec![p(0, 100), p(500, 80), p(900, 0), p(500, -80), p(0, -100)])
        .unwrap();
    let empty: Vec<camberline::InscribedCircle> = Vec::new();
    let r = locate_edge(
        &c,
        &empty,
        p(100, 90),
        Vector2 { x: -1024, y: 0 },
        &EdgeFind::Open,
    )
    .unwrap()
    .unwrap();
    assert_eq!(r.center, p(0, 100));
}
