//! Points, vectors and circles on the integer grid.

use vstd::prelude::*;

verus! {

use vstd::arithmetic::div_mod::{lemma_div_is_ordered, lemma_div_multiples_vanish};
use crate::num::{
    abs_i, div_nn, isqrt, mul_div, scale_trunc, sqrt_floor, sqrt_bracket, DIR_SCALE,
};

/// Coordinate bound under which all squared distances fit comfortably in
/// `i64` and under the input range of [`isqrt`].
pub const GEOM_LIMIT: i64 = 16_000_000;

/// A position on the integer grid.
#[derive(Clone, Copy, Debug, PartialEq, Eq, Structural)]
pub struct Point2 {
    pub x: i64,
    pub y: i64,
}

/// A displacement on the integer grid.
#[derive(Clone, Copy, Debug, PartialEq, Eq, Structural)]
pub struct Vector2 {
    pub x: i64,
    pub y: i64,
}

/// A circle, as a center and a radius in grid units.
#[derive(Clone, Copy, Debug, PartialEq, Eq, Structural)]
pub struct Circle2 {
    pub center: Point2,
    pub r: i64,
}

/// Both coordinates of `p` are at most `limit` in magnitude.
pub open spec fn pt_in(p: Point2, limit: int) -> bool {
    -limit <= p.x <= limit && -limit <= p.y <= limit
}

/// Both components of `v` are at most `limit` in magnitude.
pub open spec fn vec_in(v: Vector2, limit: int) -> bool {
    -limit <= v.x <= limit && -limit <= v.y <= limit
}

/// Squared Euclidean distance between two points.
pub open spec fn sq_dist(p: Point2, q: Point2) -> int {
    (p.x - q.x) * (p.x - q.x) + (p.y - q.y) * (p.y - q.y)
}

/// Dot product of two vectors.
pub open spec fn dot2(a: Vector2, b: Vector2) -> int {
    a.x * b.x + a.y * b.y
}

/// Z-component of the cross product of two vectors.
pub open spec fn cross2(a: Vector2, b: Vector2) -> int {
    a.x * b.y - a.y * b.x
}

/// Orientation of the triple `(o, a, b)`: positive for a left turn.
pub open spec fn cross3(o: Point2, a: Point2, b: Point2) -> int {
    (a.x - o.x) * (b.y - o.y) - (a.y - o.y) * (b.x - o.x)
}

/// What [`Vector2::normalize`] returns: `None` for the zero vector, else
/// the vector rescaled to components `x * DIR_SCALE / |v|`.
pub open spec fn normalize_spec(v: Vector2) -> Option<Vector2> {
    if v.x == 0 && v.y == 0 {
        None
    } else {
        let n = sqrt_floor(dot2(v, v));
        Some(
            Vector2 {
                x: scale_trunc(v.x as int, DIR_SCALE as int, n) as i64,
                y: scale_trunc(v.y as int, DIR_SCALE as int, n) as i64,
            },
        )
    }
}

/// A squared distance is never negative.
pub proof fn lemma_sq_dist_nonneg(p: Point2, q: Point2)
    ensures
        sq_dist(p, q) >= 0,
{
    assert((p.x - q.x) * (p.x - q.x) >= 0) by (nonlinear_arith);
    assert((p.y - q.y) * (p.y - q.y) >= 0) by (nonlinear_arith);
}

/// Squared distances within [`GEOM_LIMIT`] stay well inside `i64`.
pub proof fn lemma_sq_dist_bound(p: Point2, q: Point2)
    requires
        pt_in(p, GEOM_LIMIT as int),
        pt_in(q, GEOM_LIMIT as int),
    ensures
        0 <= sq_dist(p, q) < 2_100_000_000_000_000,
{
    assert(
        0 <= (p.x - q.x) * (p.x - q.x) <= 1_024_000_000_000_000
        && 0 <= (p.y - q.y) * (p.y - q.y) <= 1_024_000_000_000_000
    ) by (nonlinear_arith)
        requires
            -32_000_000 <= p.x - q.x <= 32_000_000,
            -32_000_000 <= p.y - q.y <= 32_000_000,
    ;
}

impl Point2 {
    /// A point from its coordinates.
    pub fn new(x: i64, y: i64) -> (r: Point2)
        ensures
            r.x == x,
            r.y == y,
    {
        Point2 { x, y }
    }

    /// The displacement from `self` to `other`.
    pub fn vector_to(&self, other: &Point2) -> (v: Vector2)
        requires
            pt_in(*self, GEOM_LIMIT as int),
            pt_in(*other, GEOM_LIMIT as int),
        ensures
            v.x == other.x - self.x,
            v.y == other.y - self.y,
    {
        Vector2 { x: other.x - self.x, y: other.y - self.y }
    }

    /// The point halfway between `self` and `other`, coordinates truncated
    /// toward zero.
    pub fn midpoint(&self, other: &Point2) -> (m: Point2)
        requires
            pt_in(*self, GEOM_LIMIT as int),
            pt_in(*other, GEOM_LIMIT as int),
        ensures
            m.x == scale_trunc(self.x + other.x, 1, 2),
            m.y == scale_trunc(self.y + other.y, 1, 2),
            forall|l: int|
                0 <= l && pt_in(*self, l) && pt_in(*other, l) ==> pt_in(m, l),
    {
        let m = Point2 { x: half_sum(self.x, other.x), y: half_sum(self.y, other.y) };
        proof {
            assert forall|l: int|
                0 <= l && pt_in(*self, l) && pt_in(*other, l) implies pt_in(m, l) by {
                lemma_half_sum_bounded(self.x as int, other.x as int, l);
                lemma_half_sum_bounded(self.y as int, other.y as int, l);
            }
        }
        m
    }

}

/// Half of `a + b`, truncated toward zero.
fn half_sum(a: i64, b: i64) -> (r: i64)
    requires
        -(GEOM_LIMIT as int) <= a <= GEOM_LIMIT as int,
        -(GEOM_LIMIT as int) <= b <= GEOM_LIMIT as int,
    ensures
        r == scale_trunc(a + b, 1, 2),
{
    let s: i64 = a + b;
    if s >= 0 {
        proof {
            assert(s as int * 1 == s as int);
        }
        div_nn(s, 2)
    } else {
        proof {
            assert((-(s as int)) * 1 == -(s as int));
        }
        -div_nn(-s, 2)
    }
}

/// Truncating halving keeps a shared coordinate bound.
proof fn lemma_half_sum_bounded(a: int, b: int, l: int)
    requires
        0 <= l,
        -l <= a <= l,
        -l <= b <= l,
    ensures
        -l <= scale_trunc(a + b, 1, 2) <= l,
{
    let s = a + b;
    lemma_div_multiples_vanish(l, 2);
    assert((2 * l) / 2 == l);
    if s >= 0 {
        assert(s * 1 == s);
        lemma_div_is_ordered(s, 2 * l, 2);
        vstd::arithmetic::div_mod::lemma_div_pos_is_pos(s, 2);
    } else {
        assert((-s) * 1 == -s);
        lemma_div_is_ordered(-s, 2 * l, 2);
        vstd::arithmetic::div_mod::lemma_div_pos_is_pos(-s, 2);
    }
}

impl Vector2 {
    /// A vector from its components.
    pub fn new(x: i64, y: i64) -> (r: Vector2)
        ensures
            r.x == x,
            r.y == y,
    {
        Vector2 { x, y }
    }

    /// Dot product.
    pub fn dot(&self, other: &Vector2) -> (r: i64)
        requires
            vec_in(*self, 1_000_000_000),
            vec_in(*other, 1_000_000_000),
        ensures
            r == dot2(*self, *other),
    {
        proof {
            lemma_prod_bound(self.x as int, other.x as int);
            lemma_prod_bound(self.y as int, other.y as int);
        }
        self.x * other.x + self.y * other.y
    }

    /// Z-component of the cross product.
    pub fn cross(&self, other: &Vector2) -> (r: i64)
        requires
            vec_in(*self, 1_000_000_000),
            vec_in(*other, 1_000_000_000),
        ensures
            r == cross2(*self, *other),
    {
        proof {
            lemma_prod_bound(self.x as int, other.y as int);
            lemma_prod_bound(self.y as int, other.x as int);
        }
        self.x * other.y - self.y * other.x
    }

    /// Euclidean length, rounded down to a whole number of grid units.
    pub fn norm(&self) -> (r: i64)
        requires
            vec_in(*self, 1_000_000_000),
        ensures
            r == sqrt_floor(dot2(*self, *self)),
            sqrt_bracket(dot2(*self, *self), r as int),
    {
        proof {
            lemma_prod_bound(self.x as int, self.x as int);
            lemma_prod_bound(self.y as int, self.y as int);
            assert(self.x as int * self.x as int >= 0) by (nonlinear_arith);
            assert(self.y as int * self.y as int >= 0) by (nonlinear_arith);
        }
        isqrt(self.x * self.x + self.y * self.y)
    }

    /// The vector turned a quarter turn counter-clockwise.
    pub fn perpendicular(&self) -> (r: Vector2)
        requires
            vec_in(*self, 1_000_000_000),
        ensures
            r.x == -self.y,
            r.y == self.x,
    {
        Vector2 { x: -self.y, y: self.x }
    }

    /// The opposite vector.
    pub fn negated(&self) -> (r: Vector2)
        requires
            vec_in(*self, 1_000_000_000),
        ensures
            r.x == -self.x,
            r.y == -self.y,
    {
        Vector2 { x: -self.x, y: -self.y }
    }

    /// The vector rescaled to components `x * DIR_SCALE / |v|`; `None` for
    /// the zero vector.  The result's components are at most [`DIR_SCALE`]
    /// in magnitude and keep the signs of the originals.
    pub fn normalize(&self) -> (r: Option<Vector2>)
        requires
            vec_in(*self, 100_000_000),
        ensures
            r == normalize_spec(*self),
            r is None <==> self.x == 0 && self.y == 0,
            r matches Some(d) ==> {
                let n = sqrt_floor(dot2(*self, *self));
                &&& d.x == scale_trunc(self.x as int, DIR_SCALE as int, n)
                &&& d.y == scale_trunc(self.y as int, DIR_SCALE as int, n)
                &&& vec_in(d, DIR_SCALE as int)
            },
    {
        if self.x == 0 && self.y == 0 {
            return None;
        }
        let n: i64 = self.norm();
        proof {
            lemma_norm_dominates(*self);
        }
        let d = Vector2 {
            x: mul_div(self.x, DIR_SCALE, n),
            y: mul_div(self.y, DIR_SCALE, n),
        };
        Some(d)
    }
}

/// Products of components within `1_000_000_000` fit in `i64` with room for
/// one addition.
proof fn lemma_prod_bound(a: int, b: int)
    requires
        -1_000_000_000 <= a <= 1_000_000_000,
        -1_000_000_000 <= b <= 1_000_000_000,
    ensures
        -1_000_000_000_000_000_000 <= a * b <= 1_000_000_000_000_000_000,
{
    assert(-1_000_000_000_000_000_000 <= a * b <= 1_000_000_000_000_000_000)
        by (nonlinear_arith)
        requires
            -1_000_000_000 <= a <= 1_000_000_000,
            -1_000_000_000 <= b <= 1_000_000_000,
    ;
}

/// The length of a nonzero vector is positive and at least as large as each
/// component's magnitude.
proof fn lemma_norm_dominates(v: Vector2)
    requires
        vec_in(v, 100_000_000),
        !(v.x == 0 && v.y == 0),
    ensures
        1 <= sqrt_floor(dot2(v, v)),
        abs_i(v.x as int) <= sqrt_floor(dot2(v, v)),
        abs_i(v.y as int) <= sqrt_floor(dot2(v, v)),
{
    let s = dot2(v, v);
    let ax = abs_i(v.x as int);
    let ay = abs_i(v.y as int);
    assert(ax * ax + ay * ay == s && 1 <= s && ax * ax <= s && ay * ay <= s)
        by (nonlinear_arith)
        requires
            ax == abs_i(v.x as int),
            ay == abs_i(v.y as int),
            s == dot2(v, v),
            !(v.x == 0 && v.y == 0),
    ;
    crate::num::lemma_sqrt_exists(s);
    let n = sqrt_floor(s);
    if n < 1 {
        assert(s < (n + 1) * (n + 1));
        assert((n + 1) * (n + 1) == 1) by (nonlinear_arith)
            requires
                n == 0,
        ;
        assert(false);
    }
    if n < ax {
        assert(ax * ax <= s);
        assert((n + 1) * (n + 1) <= ax * ax) by (nonlinear_arith)
            requires
                0 <= n + 1 <= ax,
        ;
    }
    if n < ay {
        assert((n + 1) * (n + 1) <= ay * ay) by (nonlinear_arith)
            requires
                0 <= n + 1 <= ay,
        ;
    }
}

/// Orientation of a point triple, with its exact value as the contract.
pub fn cross3_e(o: &Point2, a: &Point2, b: &Point2) -> (r: i64)
    requires
        pt_in(*o, GEOM_LIMIT as int),
        pt_in(*a, GEOM_LIMIT as int),
        pt_in(*b, GEOM_LIMIT as int),
    ensures
        r == cross3(*o, *a, *b),
{
    let ax: i64 = a.x - o.x;
    let ay: i64 = a.y - o.y;
    let bx: i64 = b.x - o.x;
    let by: i64 = b.y - o.y;
    proof {
        assert(
            ax as int * by as int == (a.x - o.x) * (b.y - o.y)
            && -1_024_000_000_000_000 <= ax as int * by as int <= 1_024_000_000_000_000
            && ay as int * bx as int == (a.y - o.y) * (b.x - o.x)
            && -1_024_000_000_000_000 <= ay as int * bx as int <= 1_024_000_000_000_000
        ) by (nonlinear_arith)
            requires
                ax == a.x - o.x,
                ay == a.y - o.y,
                bx == b.x - o.x,
                by == b.y - o.y,
                -32_000_000 <= ax as int <= 32_000_000,
                -32_000_000 <= ay as int <= 32_000_000,
                -32_000_000 <= bx as int <= 32_000_000,
                -32_000_000 <= by as int <= 32_000_000,
        ;
    }
    ax * by - ay * bx
}

/// Squared distance between two points, with its exact value as the contract.
pub fn sq_dist_e(p: &Point2, q: &Point2) -> (r: i64)
    requires
        pt_in(*p, GEOM_LIMIT as int),
        pt_in(*q, GEOM_LIMIT as int),
    ensures
        r == sq_dist(*p, *q),
        0 <= r < 2_100_000_000_000_000,
{
    proof {
        lemma_sq_dist_bound(*p, *q);
    }
    let dx: i64 = p.x - q.x;
    let dy: i64 = p.y - q.y;
    proof {
        assert(
            dx as int * dx as int == (p.x - q.x) * (p.x - q.x)
            && 0 <= dx as int * dx as int <= 1_024_000_000_000_000
        ) by (nonlinear_arith)
            requires
                dx == p.x - q.x,
                -32_000_000 <= dx as int <= 32_000_000,
        ;
        assert(
            dy as int * dy as int == (p.y - q.y) * (p.y - q.y)
            && 0 <= dy as int * dy as int <= 1_024_000_000_000_000
        ) by (nonlinear_arith)
            requires
                dy == p.y - q.y,
                -32_000_000 <= dy as int <= 32_000_000,
        ;
    }
    dx * dx + dy * dy
}

} // verus!
