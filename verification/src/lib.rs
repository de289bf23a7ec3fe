//! Mean-camber geometry extraction for airfoil cross-sections.
//!
//! The library works on an integer grid: every coordinate is a whole number
//! of grid units, and callers pick the physical meaning of one unit (for a
//! chord of length one, `100_000` units per chord works well).  Keeping the
//! arithmetic in integers lets every stage of the pipeline carry a proved
//! contract, from the convex-hull seeding through the inscribed-circle march
//! to the final oriented, tolerance-refined station list.

pub mod num;
pub mod geom2;
pub mod error;
pub mod curve;
pub mod hull;
pub mod station;
pub mod march;
pub mod camber;
pub mod orient;
pub mod edges;
pub mod airfoil;

pub use airfoil::{
    analyze_airfoil_geometry, compute_airfoil_geometry, compute_inscribed_circles,
    extract_camber_stations, AfParams, AirfoilGeometry, StationList,
};
pub use curve::BoundaryCurve;
pub use edges::EdgeFind;
pub use error::GeometryError;
pub use geom2::{Circle2, Point2, Vector2};
pub use hull::ConvexHull;
pub use march::{find_seed_circle, march_half};
pub use orient::MclOrient;
pub use station::InscribedCircle;
