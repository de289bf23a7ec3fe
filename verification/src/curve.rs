//! The boundary curve: an ordered ring of grid points around the section.

use vstd::prelude::*;

verus! {

use crate::error::GeometryError;
use crate::geom2::{cross3, cross3_e, pt_in, Point2};
use crate::num::COORD_LIMIT;

/// An ordered sequence of boundary points with consecutive duplicates
/// removed.  The sequence may describe an open or a closed profile; a
/// closed profile may repeat its first point at the end.
pub struct BoundaryCurve {
    pub points: Vec<Point2>,
}

/// `s` with every point equal to its predecessor dropped.
pub open spec fn dedup_consecutive(s: Seq<Point2>) -> Seq<Point2>
    decreases s.len(),
{
    if s.len() <= 1 {
        s
    } else {
        let d = dedup_consecutive(s.drop_last());
        if s.last() == d.last() {
            d
        } else {
            d.push(s.last())
        }
    }
}

/// Deduplicating a non-empty sequence leaves it non-empty.
pub proof fn lemma_dedup_nonempty(s: Seq<Point2>)
    requires
        s.len() >= 1,
    ensures
        dedup_consecutive(s).len() >= 1,
    decreases s.len(),
{
    if s.len() > 1 {
        lemma_dedup_nonempty(s.drop_last());
    }
}

/// All points of `s` sit on one straight line (or there are fewer than two
/// distinct anchor points to tell).  The line is anchored on the first two
/// points, which on a well-formed curve are distinct.
pub open spec fn degenerate(s: Seq<Point2>) -> bool {
    forall|k: int| 0 <= k < s.len() ==> cross3(s[0], s[1], #[trigger] s[k]) == 0
}

impl BoundaryCurve {
    /// The points of the curve, in order.
    pub open spec fn pts(&self) -> Seq<Point2> {
        self.points@
    }

    /// Structural invariant: at least three points, every coordinate within
    /// [`COORD_LIMIT`], and no zero-length segment between neighbours.
    pub open spec fn wf(&self) -> bool {
        &&& 3 <= self.pts().len() <= 16_000_000
        &&& forall|i: int| 0 <= i < self.pts().len() ==> pt_in(#[trigger] self.pts()[i], COORD_LIMIT as int)
        &&& forall|i: int| 0 <= i < self.pts().len() - 1 ==> #[trigger] self.pts()[i] != self.pts()[i + 1]
    }

    /// Builds a curve from raw boundary points.  Consecutive duplicates are
    /// dropped; the input is rejected when a coordinate falls outside
    /// [`COORD_LIMIT`] or fewer than three distinct-in-a-row points remain.
    pub fn new(points: Vec<Point2>) -> (r: Result<BoundaryCurve, GeometryError>)
        ensures
            r is Ok <==> (forall|i: int|
                0 <= i < points@.len() ==> pt_in(#[trigger] points@[i], COORD_LIMIT as int))
                && 3 <= dedup_consecutive(points@).len() <= 16_000_000,
            r matches Ok(c) ==> c.pts() == dedup_consecutive(points@) && c.wf(),
            r matches Err(e) ==> e == GeometryError::InvalidHull,
    {
        let mut out: Vec<Point2> = Vec::new();
        let mut i: usize = 0;
        while i < points.len()
            invariant
                0 <= i <= points@.len(),
                out@ == dedup_consecutive(points@.take(i as int)),
                forall|j: int| 0 <= j < i ==> pt_in(#[trigger] points@[j], COORD_LIMIT as int),
                forall|j: int| 0 <= j < out@.len() ==> pt_in(#[trigger] out@[j], COORD_LIMIT as int),
                forall|j: int| 0 <= j < out@.len() - 1 ==> #[trigger] out@[j] != out@[j + 1],
            decreases points@.len() - i,
        {
            let p = points[i];
            if p.x < -COORD_LIMIT || p.x > COORD_LIMIT || p.y < -COORD_LIMIT || p.y > COORD_LIMIT {
                return Err(GeometryError::InvalidHull);
            }
            proof {
                assert(points@.take(i + 1 as int).drop_last() =~= points@.take(i as int));
                assert(points@.take(i + 1 as int).last() == points@[i as int]);
                if i as int >= 1 {
                    lemma_dedup_nonempty(points@.take(i as int));
                }
            }
            if out.len() == 0 {
                out.push(p);
            } else {
                let last = out[out.len() - 1];
                if last.x != p.x || last.y != p.y {
                    out.push(p);
                }
            }
            i = i + 1;
        }
        proof {
            assert(points@.take(points@.len() as int) =~= points@);
        }
        if out.len() < 3 || out.len() > 16_000_000 {
            return Err(GeometryError::InvalidHull);
        }
        Ok(BoundaryCurve { points: out })
    }

    /// How many points the curve holds.
    pub fn point_count(&self) -> (n: usize)
        ensures
            n == self.pts().len(),
    {
        self.points.len()
    }

    /// The point at index `i`.
    pub fn point_at(&self, i: usize) -> (p: Point2)
        requires
            i < self.pts().len(),
        ensures
            p == self.pts()[i as int],
    {
        self.points[i]
    }

    /// All points, borrowed.
    pub fn points(&self) -> (r: &Vec<Point2>)
        ensures
            r@ == self.pts(),
    {
        &self.points
    }

    /// Whether all points sit on the line through the first two points.
    pub fn is_degenerate(&self) -> (r: bool)
        requires
            self.wf(),
        ensures
            r == degenerate(self.pts()),
    {
        let o = self.points[0];
        let a = self.points[1];
        let n = self.points.len();
        let mut k: usize = 0;
        while k < n
            invariant
                self.wf(),
                o == self.pts()[0],
                a == self.pts()[1],
                n == self.pts().len(),
                0 <= k <= n,
                forall|j: int| 0 <= j < k ==> cross3(o, a, #[trigger] self.pts()[j]) == 0,
            decreases n - k,
        {
            let c = cross3_e(&o, &a, &self.points[k]);
            if c != 0 {
                return false;
            }
            k = k + 1;
        }
        true
    }
}

} // verus!
