use camberline::{
    compute_airfoil_geometry, BoundaryCurve, EdgeFind, MclOrient, Point2,
};

const SCALE: f64 = 100_000.0;

fn pt(x: f64, y: f64) -> Point2 {
    Point2 { x: (x * SCALE).round() as i64, y: (y * SCALE).round() as i64 }
}

fn naca_half_thickness(t: f64, x: f64) -> f64 {
    5.0 * t
        * (0.2969 * x.sqrt() - 0.1260 * x - 0.3516 * x * x + 0.2843 * x * x * x
            - 0.1036 * x * x * x * x)
}

/// A closed symmetric NACA-style profile: upper surface from trailing edge
/// to leading edge, then lower surface back to the trailing edge.
fn naca_curve(n_per_side: usize, t: f64) -> Vec<Point2> {
    let m = (n_per_side - 1) as f64;
    let mut pts = Vec::new();
    for i in 0..n_per_side {
        let x = 0.5 * (1.0 + (std::f64::consts::PI * (i as f64) / m).cos());
        pts.push(pt(x, naca_half_thickness(t, x)));
    }
    for i in 1..n_per_side {
        let x = 0.5 * (1.0 - (std::f64::consts::PI * (i as f64) / m).cos());
        pts.push(pt(x, -naca_half_thickness(t, x)));
    }
    pts
}

#[test]
fn naca_symmetric_analysis() {
    let pts = naca_curve(100, 0.12);
    let curve = BoundaryCurve::new(pts.clone()).unwrap();
    let g = compute_airfoil_geometry(
        &curve,
        100,
        MclOrient::TmaxFwd,
        EdgeFind::Intersect,
        EdgeFind::Intersect,
    )
    .unwrap();
    assert!(g.stations.len() >= 2);
    let mut max_r: i64 = 0;
    let mut max_cx: i64 = 0;
    for st in &g.stations {
        if st.radius > max_r {
            max_r = st.radius;
            max_cx = st.center.x;
        }
    }
    // A single maximal circle with radius about half the maximum thickness,
    // sitting forward of mid-chord for this profile family.
    let half_thick = (0.06 * SCALE) as i64;
    assert!(
        (max_r - half_thick).abs() < half_thick / 5,
        "max radius {} expected near {}",
        max_r,
        half_thick
    );
    assert!(max_cx > (0.1 * SCALE) as i64 && max_cx < (0.6 * SCALE) as i64);
    // Leading and trailing radii converge toward zero at the edges.
    let first = g.first_circle().unwrap();
    let last = g.last_circle().unwrap();
    assert!(first.radius < max_r / 4);
    assert!(last.radius < max_r / 4);
    // Every station's contact points lie exactly on the input curve.
    for st in &g.stations {
        assert!(pts.iter().any(|p| *p == st.contact_a));
        assert!(pts.iter().any(|p| *p == st.contact_b));
    }
}

#[test]
fn analysis_is_deterministic() {
    let curve1 = BoundaryCurve::new(naca_curve(100, 0.12)).unwrap();
    let curve2 = BoundaryCurve::new(naca_curve(100, 0.12)).unwrap();
    let g1 = compute_airfoil_geometry(
        &curve1,
        100,
        MclOrient::TmaxFwd,
        EdgeFind::Intersect,
        EdgeFind::Intersect,
    )
    .unwrap();
    let g2 = compute_airfoil_geometry(
        &curve2,
        100,
        MclOrient::TmaxFwd,
        EdgeFind::Intersect,
        EdgeFind::Intersect,
    )
    .unwrap();
    assert_eq!(g1.circle_array(), g2.circle_array());
    assert_eq!(g1.camber(), g2.camber());
}

#[test]
fn direction_forward_orientation() {
    let curve = BoundaryCurve::new(naca_curve(100, 0.12)).unwrap();
    let dirs: [(i64, i64); 4] = [(100_000, 0), (-100_000, 0), (0, 100_000), (31, -97)];
    for (vx, vy) in dirs {
        let g = compute_airfoil_geometry(
            &curve,
            100,
            MclOrient::DirFwd { x: vx, y: vy },
            EdgeFind::Intersect,
            EdgeFind::Intersect,
        )
        .unwrap();
        let f = g.first_circle().unwrap().center;
        let l = g.last_circle().unwrap().center;
        let dot = vx as i128 * (l.x - f.x) as i128 + vy as i128 * (l.y - f.y) as i128;
        assert!(dot >= 0, "dot {} for dir ({}, {})", dot, vx, vy);
    }
}

#[test]
fn refinement_monotonicity() {
    let curve = BoundaryCurve::new(naca_curve(100, 0.12)).unwrap();
    let tols: [i64; 4] = [50, 100, 200, 10_000];
    let mut lens = Vec::new();
    for tol in tols {
        let g = compute_airfoil_geometry(
            &curve,
            tol,
            MclOrient::TmaxFwd,
            EdgeFind::Intersect,
            EdgeFind::Intersect,
        )
        .unwrap();
        lens.push(g.camber().len());
    }
    // Smaller tolerance never yields fewer camber points.
    assert!(lens[0] >= lens[1]);
    assert!(lens[1] >= lens[2]);
    assert!(lens[2] >= lens[3]);
    assert_eq!(lens[0], lens.iter().copied().max().unwrap());
}

#[test]
fn circle_array_round_trip() {
    let curve = BoundaryCurve::new(naca_curve(100, 0.12)).unwrap();
    let g = compute_airfoil_geometry(
        &curve,
        100,
        MclOrient::TmaxFwd,
        EdgeFind::Intersect,
        EdgeFind::Intersect,
    )
    .unwrap();
    let arr = g.circle_array();
    assert_eq!(arr.len(), g.stations.len());
    for (i, row) in arr.iter().enumerate() {
        let st = &g.stations[i];
        assert_eq!(*row, (st.center.x, st.center.y, st.radius));
    }
    let camber = g.camber();
    assert_eq!(camber.len(), g.stations.len());
    for (i, c) in camber.iter().enumerate() {
        assert_eq!(*c, g.stations[i].center);
    }
}

/// A NACA-style profile with the trailing edge cut off flat at `cut`,
/// leaving a gap in the point ring between the two cut corners.
fn blunt_curve(n_per_side: usize, t: f64, cut: f64) -> Vec<Point2> {
    let m = (n_per_side - 1) as f64;
    let mut pts = Vec::new();
    for i in 0..n_per_side {
        let x = cut * 0.5 * (1.0 + (std::f64::consts::PI * (i as f64) / m).cos());
        pts.push(pt(x, naca_half_thickness(t, x)));
    }
    for i in 1..n_per_side {
        let x = cut * 0.5 * (1.0 - (std::f64::consts::PI * (i as f64) / m).cos());
        pts.push(pt(x, -naca_half_thickness(t, x)));
    }
    pts
}

#[test]
fn blunt_trailing_edge_open_intersect() {
    let curve = BoundaryCurve::new(blunt_curve(100, 0.12, 0.9)).unwrap();
    let g = compute_airfoil_geometry(
        &curve,
        100,
        MclOrient::TmaxFwd,
        EdgeFind::Intersect,
        EdgeFind::OpenIntersect { max_iter: 20 },
    )
    .unwrap();
    // The terminal circle sits at the midpoint of the flat cut.
    let last = g.last_circle().unwrap();
    let cut_x = (0.9 * SCALE) as i64;
    assert!(
        (last.center.x - cut_x).abs() < 2_000,
        "terminal x {} expected near {}",
        last.center.x,
        cut_x
    );
    assert!(last.center.y.abs() < 1_500, "terminal y {}", last.center.y);
}

/// Adds a deterministic alternating perturbation to the `count` points
/// nearest the trailing edge on each surface.
fn add_te_noise(mut pts: Vec<Point2>, count: usize, amp: i64) -> Vec<Point2> {
    let n = pts.len();
    for k in 0..count {
        let sign = if k % 2 == 0 { 1 } else { -1 };
        pts[k].y += sign * amp;
        pts[n - 1 - k].y -= sign * amp;
    }
    pts
}

#[test]
fn ransac_trailing_edge_stable() {
    let noisy = add_te_noise(naca_curve(100, 0.12), 10, 200);
    let curve1 = BoundaryCurve::new(noisy.clone()).unwrap();
    let curve2 = BoundaryCurve::new(noisy.clone()).unwrap();
    let params = (
        MclOrient::TmaxFwd,
        EdgeFind::Intersect,
        EdgeFind::RansacRadius { in_tol: 1_000, n: 10 },
    );
    let g1 = compute_airfoil_geometry(&curve1, 100, params.0, params.1, params.2).unwrap();
    let g2 = compute_airfoil_geometry(&curve2, 100, params.0, params.1, params.2).unwrap();
    // Repeated runs are bit-identical: the consensus search is deterministic.
    assert_eq!(g1.circle_array(), g2.circle_array());
    // A single extra outlier point near the trailing edge moves the fitted
    // edge point by no more than the inlier tolerance.
    let mut outlier = noisy.clone();
    let n = outlier.len();
    outlier[n - 3].y -= 300;
    let curve3 = BoundaryCurve::new(outlier).unwrap();
    let g3 = compute_airfoil_geometry(&curve3, 100, params.0, params.1, params.2).unwrap();
    let a = g1.last_circle().unwrap().center;
    let b = g3.last_circle().unwrap().center;
    let dx = (a.x - b.x) as f64;
    let dy = (a.y - b.y) as f64;
    let dist = (dx * dx + dy * dy).sqrt() as i64;
    assert!(dist <= 1_000, "edge point moved {} with one outlier", dist);
}
