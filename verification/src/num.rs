//! Integer arithmetic helpers: square roots and scaled division.

use vstd::prelude::*;

verus! {

use vstd::arithmetic::div_mod::{
    lemma_div_is_ordered, lemma_div_is_ordered_by_denominator, lemma_div_multiples_vanish,
    lemma_div_pos_is_pos,
};

/// Largest coordinate magnitude accepted on a boundary curve, in grid units.
pub const COORD_LIMIT: i64 = 1_000_000;

/// Largest magnitude a circle center may reach while marching.
pub const CENTER_LIMIT: i64 = 8_000_000;

/// Fixed denominator of normalized direction vectors: a normalized vector
/// has components `x * DIR_SCALE / |v|`, so each component is at most
/// `DIR_SCALE` in magnitude.
pub const DIR_SCALE: i64 = 1024;

/// `r` is the floor of the square root of `n`.
pub open spec fn sqrt_bracket(n: int, r: int) -> bool {
    0 <= r && r * r <= n && n < (r + 1) * (r + 1)
}

/// The floor of the square root of a non-negative integer.
pub open spec fn sqrt_floor(n: int) -> int {
    choose|r: int| sqrt_bracket(n, r)
}

/// Every non-negative integer has a square-root floor.
pub proof fn lemma_sqrt_exists(n: int)
    requires
        0 <= n,
    ensures
        sqrt_bracket(n, sqrt_floor(n)),
    decreases n,
{
    if n == 0 {
        assert(sqrt_bracket(0, 0));
    } else {
        lemma_sqrt_exists(n - 1);
        let r = sqrt_floor(n - 1);
        if (r + 1) * (r + 1) <= n {
            assert(sqrt_bracket(n, r + 1)) by (nonlinear_arith)
                requires
                    0 <= r,
                    (r + 1) * (r + 1) <= n,
                    n - 1 < (r + 1) * (r + 1),
            ;
        } else {
            assert(sqrt_bracket(n, r));
        }
    }
    let w = choose|w: int| sqrt_bracket(n, w);
    assert(sqrt_bracket(n, w));
}

/// The square-root floor is unique.
pub proof fn lemma_sqrt_unique(n: int, a: int, b: int)
    requires
        sqrt_bracket(n, a),
        sqrt_bracket(n, b),
    ensures
        a == b,
{
    if a < b {
        assert((a + 1) * (a + 1) <= b * b) by (nonlinear_arith)
            requires
                0 <= a + 1 <= b,
        ;
    }
    if b < a {
        assert((b + 1) * (b + 1) <= a * a) by (nonlinear_arith)
            requires
                0 <= b + 1 <= a,
        ;
    }
}

/// When `f * f` fits under `m`, the square-root floor of `m` is at least `f`.
pub proof fn lemma_sqrt_lower(m: int, f: int)
    requires
        0 <= f,
        f * f <= m,
    ensures
        sqrt_floor(m) >= f,
{
    assert(0 <= m) by (nonlinear_arith)
        requires
            0 <= f,
            f * f <= m,
    ;
    lemma_sqrt_exists(m);
    let r = sqrt_floor(m);
    if r < f {
        assert((r + 1) * (r + 1) <= f * f) by (nonlinear_arith)
            requires
                0 <= r + 1 <= f,
        ;
    }
}

/// Floor of the square root, by bisection.
pub fn isqrt(n: i64) -> (r: i64)
    requires
        0 <= n < 4_000_000_000_000_000_000,
    ensures
        r == sqrt_floor(n as int),
        sqrt_bracket(n as int, r as int),
        0 <= r < 2_000_000_000,
{
    let mut lo: i64 = 0;
    let mut hi: i64 = 2_000_000_000;
    while lo + 1 < hi
        invariant
            0 <= lo < hi <= 2_000_000_000,
            lo * lo <= n,
            n < hi * hi,
        decreases hi - lo,
    {
        let mid: i64 = lo + (hi - lo) / 2;
        assert(lo < mid < hi);
        assert(mid * mid <= 4_000_000_000_000_000_000) by (nonlinear_arith)
            requires
                0 <= mid <= 2_000_000_000,
        ;
        if mid * mid <= n {
            lo = mid;
        } else {
            hi = mid;
        }
    }
    proof {
        assert(sqrt_bracket(n as int, lo as int));
        lemma_sqrt_exists(n as int);
        lemma_sqrt_unique(n as int, lo as int, sqrt_floor(n as int));
    }
    lo
}

/// Quotient of non-negative integers, as plain Euclidean division.
pub fn div_nn(a: i64, b: i64) -> (q: i64)
    requires
        0 <= a,
        1 <= b,
    ensures
        q == a as int / b as int,
        0 <= q <= a,
{
    let q: u64 = (a as u64) / (b as u64);
    proof {
        lemma_div_pos_is_pos(a as int, b as int);
        lemma_div_is_ordered_by_denominator(a as int, 1, b as int);
    }
    q as i64
}

/// `a * m / d` truncated toward zero, for signed `a`.
pub open spec fn scale_trunc(a: int, m: int, d: int) -> int {
    if a >= 0 {
        (a * m) / d
    } else {
        -((-a * m) / d)
    }
}

/// Scaled product `a * m / d`, truncating toward zero.
pub fn mul_div(a: i64, m: i64, d: i64) -> (q: i64)
    requires
        -1_000_000_000 <= a <= 1_000_000_000,
        0 <= m <= 1_000_000_000,
        1 <= d,
    ensures
        q == scale_trunc(a as int, m as int, d as int),
        a >= 0 ==> q >= 0,
        a <= 0 ==> q <= 0,
        m <= d ==> -abs_i(a as int) <= q <= abs_i(a as int),
        abs_i(a as int) <= d ==> -m <= q <= m,
{
    proof {
        assert(-1_000_000_000_000_000_000 <= a as int * m as int <= 1_000_000_000_000_000_000)
            by (nonlinear_arith)
            requires
                -1_000_000_000 <= a as int <= 1_000_000_000,
                0 <= m as int <= 1_000_000_000,
        ;
        assert((-(a as int)) * m as int == -(a as int * m as int)) by (nonlinear_arith);
    }
    let q: i64 = if a >= 0 {
        let p: i64 = a * m;
        div_nn(p, d)
    } else {
        let p: i64 = (-a) * m;
        -div_nn(p, d)
    };
    proof {
        let aa = abs_i(a as int);
        let qa = (aa * m) / (d as int);
        assert(aa * m >= 0) by (nonlinear_arith)
            requires
                aa >= 0,
                m >= 0,
        ;
        lemma_div_pos_is_pos(aa * m, d as int);
        if m <= d {
            assert(aa * m <= aa * d) by (nonlinear_arith)
                requires
                    0 <= m <= d,
                    0 <= aa,
            ;
            lemma_div_is_ordered(aa * m, aa * d, d as int);
            lemma_div_multiples_vanish(aa, d as int);
            assert(qa <= aa);
        }
        if aa <= d {
            assert(aa * m <= d * m) by (nonlinear_arith)
                requires
                    0 <= aa <= d,
                    0 <= m,
            ;
            lemma_div_is_ordered(aa * m, d * m, d as int);
            lemma_div_multiples_vanish(m as int, d as int);
            assert(qa <= m);
        }
    }
    q
}

/// Absolute value on mathematical integers.
pub open spec fn abs_i(a: int) -> int {
    if a >= 0 {
        a
    } else {
        -a
    }
}

} // verus!
