//! Camber orientation strategies: which end of the line leads.

use vstd::prelude::*;

verus! {

use crate::geom2::{pt_in, sq_dist, sq_dist_e, Point2};
use crate::num::{CENTER_LIMIT, COORD_LIMIT};
use crate::station::InscribedCircle;

/// How the camber line is oriented before packaging.
#[derive(Clone, Copy, Debug, PartialEq, Eq, Structural)]
pub enum MclOrient {
    /// Maximum-thickness-forward: the end nearer the widest station leads,
    /// on the heuristic that maximum thickness sits closer to the leading
    /// edge than to the trailing edge.
    TmaxFwd,
    /// Direction-forward: the camber line runs so that the vector from its
    /// first to its last circle center has a non-negative dot product with
    /// the given vector.
    DirFwd { x: i64, y: i64 },
}

/// The configured orientation is usable: a direction vector must be
/// nonzero and within the coordinate range.
pub open spec fn orient_valid(o: MclOrient) -> bool {
    match o {
        MclOrient::TmaxFwd => true,
        MclOrient::DirFwd { x, y } => {
            &&& -COORD_LIMIT <= x <= COORD_LIMIT
            &&& -COORD_LIMIT <= y <= COORD_LIMIT
            &&& !(x == 0 && y == 0)
        },
    }
}

impl MclOrient {
    /// Whether the configured orientation is usable.
    pub fn is_valid(&self) -> (r: bool)
        ensures
            r == orient_valid(*self),
    {
        match self {
            MclOrient::TmaxFwd => true,
            MclOrient::DirFwd { x, y } => -COORD_LIMIT <= *x && *x <= COORD_LIMIT && -COORD_LIMIT
                <= *y && *y <= COORD_LIMIT && !(*x == 0 && *y == 0),
        }
    }
}

/// Dot product of the vector `(x, y)` with the displacement from `a` to
/// `b`.
pub open spec fn fwd_dot(x: int, y: int, a: Point2, b: Point2) -> int {
    x * (b.x - a.x) + y * (b.y - a.y)
}

/// Index of the first station of maximal radius.
pub open spec fn first_max_radius_idx(s: Seq<InscribedCircle>) -> int
    decreases s.len(),
{
    if s.len() <= 1 {
        0
    } else {
        let p = first_max_radius_idx(s.drop_last());
        if s.last().radius > s[p].radius {
            s.len() - 1
        } else {
            p
        }
    }
}

/// The first maximal-radius index is a valid index and its radius bounds
/// every other station's radius.
pub proof fn lemma_first_max_in_range(s: Seq<InscribedCircle>)
    requires
        s.len() >= 1,
    ensures
        0 <= first_max_radius_idx(s) < s.len(),
        forall|i: int|
            0 <= i < s.len() ==> (#[trigger] s[i]).radius <= s[first_max_radius_idx(s)].radius,
    decreases s.len(),
{
    if s.len() > 1 {
        lemma_first_max_in_range(s.drop_last());
        assert forall|i: int| 0 <= i < s.len() implies (#[trigger] s[i]).radius
            <= s[first_max_radius_idx(s)].radius by {
            if i < s.len() - 1 {
                assert(s.drop_last()[i] == s[i]);
                assert(
                    s.drop_last()[first_max_radius_idx(s.drop_last())]
                    == s[first_max_radius_idx(s.drop_last())]
                );
            }
        }
    }
}

/// Whether the station list should be reversed under the given strategy:
/// for `TmaxFwd`, when the first end sits farther from the widest station
/// than the last end does; for `DirFwd`, when the first-to-last vector
/// points against the configured direction.
pub open spec fn reverse_decision(s: Seq<InscribedCircle>, o: MclOrient) -> bool {
    match o {
        MclOrient::TmaxFwd => {
            let m = first_max_radius_idx(s);
            sq_dist(s[0].center, s[m].center) > sq_dist(s[s.len() - 1].center, s[m].center)
        },
        MclOrient::DirFwd { x, y } => fwd_dot(
            x as int,
            y as int,
            s[0].center,
            s[s.len() - 1].center,
        ) < 0,
    }
}

/// Computes the reversal decision of the strategy on the given stations.
pub fn should_reverse(stations: &Vec<InscribedCircle>, orient: &MclOrient) -> (r: bool)
    requires
        stations@.len() >= 1,
        orient_valid(*orient),
        forall|i: int|
            0 <= i < stations@.len() ==> pt_in((#[trigger] stations@[i]).center, CENTER_LIMIT as int),
    ensures
        r == reverse_decision(stations@, *orient),
{
    let n = stations.len();
    match orient {
        MclOrient::TmaxFwd => {
            let mut m: usize = 0;
            let mut i: usize = 1;
            proof {
                assert(first_max_radius_idx(stations@.take(1)) == 0);
            }
            while i < n
                invariant
                    n == stations@.len(),
                    1 <= i <= n,
                    m < i,
                    m == first_max_radius_idx(stations@.take(i as int)),
                decreases n - i,
            {
                proof {
                    assert(stations@.take(i + 1 as int).drop_last() =~= stations@.take(i as int));
                    assert(stations@.take(i + 1 as int).last() == stations@[i as int]);
                }
                if stations[i].radius > stations[m].radius {
                    m = i;
                }
                i = i + 1;
            }
            proof {
                assert(stations@.take(n as int) =~= stations@);
            }
            let d0 = sq_dist_e(&stations[0].center, &stations[m].center);
            let d1 = sq_dist_e(&stations[n - 1].center, &stations[m].center);
            d0 > d1
        },
        MclOrient::DirFwd { x, y } => {
            let a = stations[0].center;
            let b = stations[n - 1].center;
            let dx: i64 = b.x - a.x;
            let dy: i64 = b.y - a.y;
            proof {
                assert(
                    *x as int * dx as int == *x as int * (b.x - a.x)
                    && -20_000_000_000_000 <= *x as int * dx as int <= 20_000_000_000_000
                    && *y as int * dy as int == *y as int * (b.y - a.y)
                    && -20_000_000_000_000 <= *y as int * dy as int <= 20_000_000_000_000
                ) by (nonlinear_arith)
                    requires
                        dx == b.x - a.x,
                        dy == b.y - a.y,
                        -20_000_000 <= dx as int <= 20_000_000,
                        -20_000_000 <= dy as int <= 20_000_000,
                        -1_000_000 <= *x as int <= 1_000_000,
                        -1_000_000 <= *y as int <= 1_000_000,
                ;
            }
            let d: i64 = *x * dx + *y * dy;
            d < 0
        },
    }
}

/// The station list, reversed.
pub fn reversed_stations(stations: &Vec<InscribedCircle>) -> (out: Vec<InscribedCircle>)
    ensures
        out@ == stations@.reverse(),
{
    let n = stations.len();
    let mut out: Vec<InscribedCircle> = Vec::new();
    let mut i: usize = 0;
    while i < n
        invariant
            n == stations@.len(),
            0 <= i <= n,
            out@.len() == i,
            forall|j: int| 0 <= j < i ==> #[trigger] out@[j] == stations@[n - 1 - j],
        decreases n - i,
    {
        out.push(stations[n - 1 - i]);
        i = i + 1;
    }
    proof {
        assert(out@ =~= stations@.reverse());
    }
    out
}

/// Applies the orientation strategy: reverses the station list exactly
/// when [`reverse_decision`] says so.
pub fn orient_stations(stations: Vec<InscribedCircle>, orient: &MclOrient) -> (out: Vec<
    InscribedCircle,
>)
    requires
        stations@.len() >= 1,
        orient_valid(*orient),
        forall|i: int|
            0 <= i < stations@.len() ==> pt_in((#[trigger] stations@[i]).center, CENTER_LIMIT as int),
    ensures
        out@ == if reverse_decision(stations@, *orient) {
            stations@.reverse()
        } else {
            stations@
        },
        out@.len() == stations@.len(),
{
    if should_reverse(&stations, orient) {
        reversed_stations(&stations)
    } else {
        stations
    }
}

} // verus!
