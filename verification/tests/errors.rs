use camberline::{
    compute_airfoil_geometry, BoundaryCurve, EdgeFind, GeometryError, MclOrient, Point2,
};

fn p(x: i64, y: i64) -> Point2 {
    Point2 { x, y }
}

/// A densely sampled sliver: too thin for any candidate circle to reach
/// the radius floor.
fn thin_sliver() -> Vec<Point2> {
    let mut pts = Vec::new();
    let n = 1000;
    for k in 0..n {
        let th = 2.0 * std::f64::consts::PI * (k as f64) / (n as f64);
        pts.push(p((2000.0 * th.cos()).round() as i64, (3.0 * th.sin()).round() as i64));
    }
    pts
}

#[test]
fn too_thin_curve_gives_no_seed_circle() {
    let curve = BoundaryCurve::new(thin_sliver()).unwrap();
    let r = compute_airfoil_geometry(
        &curve,
        10,
        MclOrient::TmaxFwd,
        EdgeFind::Open,
        EdgeFind::Open,
    );
    assert_eq!(r.err(), Some(GeometryError::NoSeedCircle));
}

/// A small ring: the seed reaches the radius floor but the very first
/// marching step in either direction falls below it.
fn small_ring() -> Vec<Point2> {
    let mut pts = Vec::new();
    let n = 200;
    for k in 0..n {
        let th = 2.0 * std::f64::consts::PI * (k as f64) / (n as f64);
        pts.push(p((9.0 * th.cos()).round() as i64, (9.0 * th.sin()).round() as i64));
    }
    pts
}

#[test]
fn stalled_march_gives_no_convergence() {
    let curve = BoundaryCurve::new(small_ring()).unwrap();
    let r = compute_airfoil_geometry(
        &curve,
        10,
        MclOrient::TmaxFwd,
        EdgeFind::Open,
        EdgeFind::Open,
    );
    assert_eq!(r.err(), Some(GeometryError::NoConvergence));
}

fn naca_half_thickness(t: f64, x: f64) -> f64 {
    5.0 * t
        * (0.2969 * x.sqrt() - 0.1260 * x - 0.3516 * x * x + 0.2843 * x * x * x
            - 0.1036 * x * x * x * x)
}

fn naca_curve(n_per_side: usize, t: f64) -> Vec<Point2> {
    let scale = 100_000.0;
    let m = (n_per_side - 1) as f64;
    let mut pts = Vec::new();
    for i in 0..n_per_side {
        let x = 0.5 * (1.0 + (std::f64::consts::PI * (i as f64) / m).cos());
        pts.push(p(
            (x * scale).round() as i64,
            (naca_half_thickness(t, x) * scale).round() as i64,
        ));
    }
    for i in 1..n_per_side {
        let x = 0.5 * (1.0 - (std::f64::consts::PI * (i as f64) / m).cos());
        pts.push(p(
            (x * scale).round() as i64,
            (-naca_half_thickness(t, x) * scale).round() as i64,
        ));
    }
    pts
}

#[test]
fn unreachable_consensus_gives_insufficient_inliers() {
    // With a one-unit inlier tolerance no candidate gathers a majority.
    let curve = BoundaryCurve::new(naca_curve(100, 0.12)).unwrap();
    let r = compute_airfoil_geometry(
        &curve,
        100,
        MclOrient::TmaxFwd,
        EdgeFind::Intersect,
        EdgeFind::RansacRadius { in_tol: 1, n: 10 },
    );
    assert_eq!(r.err(), Some(GeometryError::InsufficientInliers));
}
