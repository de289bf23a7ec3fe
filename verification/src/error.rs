//! Failure taxonomy of the analysis pipeline.

use vstd::prelude::*;

verus! {

/// Why an analysis call failed.  Every failure is terminal for the call:
/// nothing is retried and no partial result is returned.
#[derive(Clone, Copy, Debug, PartialEq, Eq, Structural)]
pub enum GeometryError {
    /// The boundary curve is degenerate: out-of-range coordinates, fewer
    /// than three distinct points, or all points collinear.
    InvalidHull,
    /// No interior circle of workable radius was found while seeding.
    NoSeedCircle,
    /// The inscribed-circle march exceeded its iteration budget, or failed
    /// to advance from the seed.
    NoConvergence,
    /// The intersecting edge search found no curve point beyond the marched
    /// terminus.
    NoIntersection,
    /// The consensus edge search found no model supported by enough
    /// stations.
    InsufficientInliers,
}

} // verus!
