//! Fixed-point plane geometry: 2-D vectors in milli-units, integer square
//! root, and the truncating multiply-divide that the avoidance and movement
//! formulas are built from.

use vstd::arithmetic::div_mod::{lemma_div_is_ordered, lemma_div_multiples_vanish};
use vstd::prelude::*;

verus! {

/// Fixed-point scale: every scalar quantity in the library is stored in
/// thousandths (milli-units) of its natural simulation unit.
pub const SCALE: i64 = 1000;

/// Positions are confined to this range of milli-units (one million
/// simulation units), so squared distances stay well inside `i64` range.
pub const COORD_LIMIT: i64 = 1_000_000_000;

/// A 2-D point or vector in milli-units.
#[derive(Clone, Copy, PartialEq, Eq, Structural, Debug)]
pub struct Vec2 {
    pub x: i64,
    pub y: i64,
}

/// A ghost 2-D vector with unbounded integer components, used to state the
/// avoidance and movement formulas.
pub struct Vec2i {
    pub x: int,
    pub y: int,
}

/// The ghost value of a fixed-point vector.
pub open spec fn v2i(v: Vec2) -> Vec2i {
    Vec2i { x: v.x as int, y: v.y as int }
}

pub open spec fn in_coord_range(v: Vec2) -> bool {
    &&& -COORD_LIMIT <= v.x <= COORD_LIMIT
    &&& -COORD_LIMIT <= v.y <= COORD_LIMIT
}

pub open spec fn abs_i(x: int) -> int {
    if x >= 0 {
        x
    } else {
        -x
    }
}

/// Floor of the square root of a natural number.
pub open spec fn sqrt_floor(n: nat) -> nat
    decreases n,
{
    if n == 0 {
        0
    } else {
        let r = sqrt_floor((n - 1) as nat);
        if (r + 1) * (r + 1) <= n {
            r + 1
        } else {
            r
        }
    }
}

pub proof fn lemma_sqrt_floor_bounds(n: nat)
    ensures
        sqrt_floor(n) * sqrt_floor(n) <= n,
        n < (sqrt_floor(n) + 1) * (sqrt_floor(n) + 1),
    decreases n,
{
    if n == 0 {
        assert(sqrt_floor(n) == 0);
        assert(sqrt_floor(n) * sqrt_floor(n) <= n) by (nonlinear_arith)
            requires
                sqrt_floor(n) == 0,
                n == 0,
        ;
        assert(n < (sqrt_floor(n) + 1) * (sqrt_floor(n) + 1)) by (nonlinear_arith)
            requires
                sqrt_floor(n) == 0,
                n == 0,
        ;
    } else {
        lemma_sqrt_floor_bounds((n - 1) as nat);
        let r = sqrt_floor((n - 1) as nat);
        assert(r * r <= n - 1);
        assert(n - 1 < (r + 1) * (r + 1));
        if (r + 1) * (r + 1) <= n {
            assert(sqrt_floor(n) == r + 1);
            assert(n <= (r + 1) * (r + 1));
            assert((r + 1) * (r + 1) < (r + 2) * (r + 2)) by (nonlinear_arith);
            assert(sqrt_floor(n) * sqrt_floor(n) <= n);
            assert(n < (sqrt_floor(n) + 1) * (sqrt_floor(n) + 1));
        } else {
            assert(sqrt_floor(n) == r);
            assert(sqrt_floor(n) * sqrt_floor(n) <= n);
            assert(n < (sqrt_floor(n) + 1) * (sqrt_floor(n) + 1));
        }
    }
}

proof fn lemma_abs_sq(x: int)
    ensures
        abs_i(x) * abs_i(x) == x * x,
{
    if x < 0 {
        assert((-x) * (-x) == x * x) by (nonlinear_arith);
    }
}

pub proof fn lemma_sqrt_floor_unique(n: nat, r: nat)
    requires
        r * r <= n,
        n < (r + 1) * (r + 1),
    ensures
        r == sqrt_floor(n),
{
    let s = sqrt_floor(n);
    lemma_sqrt_floor_bounds(n);
    if r < s {
        assert((r + 1) * (r + 1) <= s * s) by (nonlinear_arith)
            requires
                r + 1 <= s,
        ;
        assert(false);
    }
    if s < r {
        assert((s + 1) * (s + 1) <= r * r) by (nonlinear_arith)
            requires
                s + 1 <= r,
        ;
        assert(false);
    }
}

/// Integer square root by bisection.
pub fn isqrt(n: u64) -> (r: u64)
    requires
        n <= 0x7000_0000_0000_0000,
    ensures
        r == sqrt_floor(n as nat),
{
    let mut lo: u64 = 0;
    let mut hi: u64 = 3_000_000_000;
    proof {
        assert((3_000_000_000 as nat) * (3_000_000_000 as nat) > n as nat);
    }
    while lo + 1 < hi
        invariant
            lo < hi <= 3_000_000_000,
            (lo as nat) * (lo as nat) <= n as nat,
            (n as nat) < (hi as nat) * (hi as nat),
        decreases hi - lo,
    {
        let mid = lo + (hi - lo) / 2;
        proof {
            assert(lo < mid < hi);
            assert((mid as nat) * (mid as nat) <= (3_000_000_000 as nat) * (3_000_000_000 as nat))
                by (nonlinear_arith)
                requires
                    mid <= 3_000_000_000,
            ;
        }
        if mid * mid <= n {
            lo = mid;
        } else {
            hi = mid;
        }
    }
    proof {
        lemma_sqrt_floor_unique(n as nat, lo as nat);
    }
    lo
}

/// The squared Euclidean distance between two points, in squared milli-units.
pub open spec fn dist_sq(a: Vec2, b: Vec2) -> int {
    (a.x - b.x) * (a.x - b.x) + (a.y - b.y) * (a.y - b.y)
}

/// Floor of the Euclidean distance between two points, in milli-units.
pub open spec fn dist(a: Vec2, b: Vec2) -> int {
    sqrt_floor(dist_sq(a, b) as nat) as int
}

proof fn lemma_dist_sq_bounds(a: Vec2, b: Vec2)
    requires
        in_coord_range(a),
        in_coord_range(b),
    ensures
        0 <= dist_sq(a, b) <= 0x7000_0000_0000_0000,
        (a.x - b.x) * (a.x - b.x) <= dist_sq(a, b),
        (a.y - b.y) * (a.y - b.y) <= dist_sq(a, b),
{
    let dx = a.x - b.x;
    let dy = a.y - b.y;
    assert(0 <= dx * dx <= 4_000_000_000_000_000_000) by (nonlinear_arith)
        requires
            -2_000_000_000 <= dx <= 2_000_000_000,
    ;
    assert(0 <= dy * dy <= 4_000_000_000_000_000_000) by (nonlinear_arith)
        requires
            -2_000_000_000 <= dy <= 2_000_000_000,
    ;
}

/// The floor square root dominates each coordinate difference.
pub proof fn lemma_dist_ge_components(a: Vec2, b: Vec2)
    requires
        in_coord_range(a),
        in_coord_range(b),
    ensures
        0 <= dist(a, b) <= 3_000_000_000,
        abs_i(a.x - b.x) <= dist(a, b),
        abs_i(a.y - b.y) <= dist(a, b),
{
    lemma_dist_sq_bounds(a, b);
    let n = dist_sq(a, b) as nat;
    lemma_sqrt_floor_bounds(n);
    let s = sqrt_floor(n);
    assert(s <= 3_000_000_000) by (nonlinear_arith)
        requires
            s * s <= n,
            n <= 0x7000_0000_0000_0000 as nat,
    ;
    let dx = abs_i(a.x - b.x);
    let dy = abs_i(a.y - b.y);
    lemma_abs_sq(a.x - b.x);
    lemma_abs_sq(a.y - b.y);
    if dx > s {
        assert((s + 1) * (s + 1) <= dx * dx) by (nonlinear_arith)
            requires
                s + 1 <= dx,
        ;
        assert(false);
    }
    if dy > s {
        assert((s + 1) * (s + 1) <= dy * dy) by (nonlinear_arith)
            requires
                s + 1 <= dy,
        ;
        assert(false);
    }
}

/// The floor square root of a sum of squares dominates each component and
/// the sum itself is non-negative.
pub proof fn lemma_sqrt_ge_xy(x: int, y: int)
    ensures
        0 <= x * x + y * y,
        abs_i(x) <= sqrt_floor((x * x + y * y) as nat) as int,
        abs_i(y) <= sqrt_floor((x * x + y * y) as nat) as int,
{
    lemma_abs_sq(x);
    lemma_abs_sq(y);
    assert(x * x >= 0) by (nonlinear_arith);
    assert(y * y >= 0) by (nonlinear_arith);
    let n = (x * x + y * y) as nat;
    lemma_sqrt_floor_bounds(n);
    let s = sqrt_floor(n);
    if abs_i(x) > s as int {
        assert((s + 1) * (s + 1) <= abs_i(x) * abs_i(x)) by (nonlinear_arith)
            requires
                s + 1 <= abs_i(x),
        ;
        assert(false);
    }
    if abs_i(y) > s as int {
        assert((s + 1) * (s + 1) <= abs_i(y) * abs_i(y)) by (nonlinear_arith)
            requires
                s + 1 <= abs_i(y),
        ;
        assert(false);
    }
}

/// Computes the floor distance between two in-range points.
pub fn distance_between(a: Vec2, b: Vec2) -> (r: i64)
    requires
        in_coord_range(a),
        in_coord_range(b),
    ensures
        r == dist(a, b),
        0 <= r <= 3_000_000_000,
{
    let dx = a.x - b.x;
    let dy = a.y - b.y;
    proof {
        lemma_dist_sq_bounds(a, b);
        lemma_dist_ge_components(a, b);
    }
    let d2 = dx * dx + dy * dy;
    let r = isqrt(d2 as u64);
    r as i64
}

/// Quotient truncated toward zero, defined for positive divisors; the
/// semantics of machine division on signed fixed-point values.
pub open spec fn sdiv(a: int, d: int) -> int
    recommends
        d > 0,
{
    if a >= 0 {
        a / d
    } else {
        -((-a) / d)
    }
}

/// With `|a| <= b * d`, the truncated quotient stays within `[-b, b]`.
pub proof fn lemma_sdiv_bound(a: int, d: int, b: int)
    requires
        d > 0,
        0 <= b,
        -(b * d) <= a <= b * d,
    ensures
        -b <= sdiv(a, d) <= b,
{
    if a >= 0 {
        lemma_div_is_ordered(a, b * d, d);
        lemma_div_multiples_vanish(b, d);
        assert(b * d == d * b) by (nonlinear_arith);
        lemma_div_is_ordered(0, a, d);
    } else {
        lemma_div_is_ordered(-a, b * d, d);
        lemma_div_multiples_vanish(b, d);
        assert(b * d == d * b) by (nonlinear_arith);
        lemma_div_is_ordered(0, -a, d);
    }
}

/// A non-negative numerator gives a non-negative truncated quotient.
pub proof fn lemma_sdiv_nonneg(a: int, d: int)
    requires
        0 <= a,
        0 < d,
    ensures
        0 <= sdiv(a, d),
{
    lemma_div_multiples_vanish(0, d);
    assert(d * 0 == 0);
    lemma_div_is_ordered(0, a, d);
}

/// `a * m / d`, truncated toward zero.
pub fn mul_div_trunc(a: i64, m: i64, d: i64) -> (r: i64)
    requires
        0 <= m,
        0 < d,
        -0x7fff_ffff_ffff_ffff <= a,
        -0x4000_0000_0000_0000 <= a * m <= 0x4000_0000_0000_0000,
    ensures
        r == sdiv(a * m, d as int),
{
    if a >= 0 {
        proof {
            assert(a * m >= 0) by (nonlinear_arith)
                requires
                    a >= 0,
                    m >= 0,
            ;
            assert((a as u64) * (m as u64) == a * m);
        }
        let p = (a as u64) * (m as u64);
        let q = p / (d as u64);
        proof {
            lemma_div_is_ordered(p as int, 0x4000_0000_0000_0000, d as int);
            lemma_div_is_ordered(0, p as int, d as int);
            assert(0x4000_0000_0000_0000int / (d as int) <= 0x4000_0000_0000_0000int);
        }
        q as i64
    } else {
        let na = -a;
        proof {
            assert(na * m == -(a * m)) by (nonlinear_arith)
                requires
                    na == -a,
            ;
            assert(na * m >= 0) by (nonlinear_arith)
                requires
                    na >= 0,
                    m >= 0,
            ;
            assert((na as u64) * (m as u64) == na * m);
        }
        let p = (na as u64) * (m as u64);
        let q = p / (d as u64);
        proof {
            lemma_div_is_ordered(p as int, 0x4000_0000_0000_0000, d as int);
            lemma_div_is_ordered(0, p as int, d as int);
            assert(0x4000_0000_0000_0000int / (d as int) <= 0x4000_0000_0000_0000int);
        }
        -(q as i64)
    }
}

/// Clamps a value into `[lo, hi]`.
pub open spec fn clamp_i(v: int, lo: int, hi: int) -> int
    recommends
        lo <= hi,
{
    if v < lo {
        lo
    } else if v > hi {
        hi
    } else {
        v
    }
}

/// Computes [`clamp_i`].
pub fn clamp64(v: i64, lo: i64, hi: i64) -> (r: i64)
    requires
        lo <= hi,
    ensures
        r == clamp_i(v as int, lo as int, hi as int),
{
    if v < lo {
        lo
    } else if v > hi {
        hi
    } else {
        v
    }
}

} // verus!
