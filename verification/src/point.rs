//! Planar points and vectors with fixed-point integer coordinates, together
//! with the exact predicates (cross products, squared distances, angular
//! order keys) that the rest of the kernel is built on.

use vstd::prelude::*;

verus! {

/// Scale of the angular order keys: one quarter turn maps onto this many key
/// values.
pub const KEY_SCALE: u64 = 0x10000000000;

/// A planar point or vector in fixed-point units.
#[derive(Clone, Copy, Debug, PartialEq, Eq, Structural)]
pub struct Point {
    pub x: i64,
    pub y: i64,
}

/// Both coordinates of `p` lie within `b` of zero.
pub open spec fn bounded(p: Point, b: int) -> bool {
    -b <= p.x <= b && -b <= p.y <= b
}

/// Cross product (signed parallelogram area) of two vectors.
pub open spec fn cross(u: Point, v: Point) -> int {
    u.x * v.y - u.y * v.x
}

/// Dot product of two vectors.
pub open spec fn dot(u: Point, v: Point) -> int {
    u.x * v.x + u.y * v.y
}

/// Squared length of a vector.
pub open spec fn norm2(u: Point) -> int {
    u.x * u.x + u.y * u.y
}

/// Squared distance between two points.
pub open spec fn dist2_spec(a: Point, b: Point) -> int {
    (a.x - b.x) * (a.x - b.x) + (a.y - b.y) * (a.y - b.y)
}

/// The key of the counterclockwise angle of the vector `(p, q)`, measured
/// from the positive x-axis: an integer in `[0, 4 * KEY_SCALE)` that grows
/// weakly with the angle.  The quarter-turn boundaries are exact; within a
/// quarter the angle is graded by the rounded-down diamond code.
pub open spec fn diamond_spec(p: int, q: int) -> int {
    let m = KEY_SCALE as int;
    if p > 0 && q >= 0 {
        (m * q) / (p + q)
    } else if p <= 0 && q > 0 {
        m + (m * (-p)) / (q - p)
    } else if p < 0 && q <= 0 {
        2 * m + (m * (-q)) / ((-p) + (-q))
    } else {
        3 * m + (m * p) / (p - q)
    }
}

/// The key of the counterclockwise angle from `base` to `u`: zero when `u`
/// points along `base`, growing weakly with the counterclockwise angle.
pub open spec fn rel_key_spec(base: Point, u: Point) -> int {
    diamond_spec(dot(base, u), cross(base, u))
}

/// The key of the clockwise angle from `base` to `u`.
pub open spec fn rel_key_cw_spec(base: Point, u: Point) -> int {
    diamond_spec(dot(base, u), -cross(base, u))
}

impl Point {
    /// Builds a point from its coordinates.
    pub fn new(x: i64, y: i64) -> (r: Point)
        ensures
            r.x == x,
            r.y == y,
    {
        Point { x, y }
    }

    /// Vector sum.
    pub fn add(self, o: Point) -> (r: Point)
        requires
            bounded(self, 0x1000000000000000),
            bounded(o, 0x1000000000000000),
        ensures
            r.x == self.x + o.x,
            r.y == self.y + o.y,
    {
        Point { x: self.x + o.x, y: self.y + o.y }
    }

    /// Vector difference.
    pub fn sub(self, o: Point) -> (r: Point)
        requires
            bounded(self, 0x1000000000000000),
            bounded(o, 0x1000000000000000),
        ensures
            r.x == self.x - o.x,
            r.y == self.y - o.y,
    {
        Point { x: self.x - o.x, y: self.y - o.y }
    }

    /// The vector rotated a quarter turn counterclockwise.
    pub fn perp(self) -> (r: Point)
        requires
            bounded(self, 0x1000000000000000),
        ensures
            r.x == -self.y,
            r.y == self.x,
    {
        Point { x: -self.y, y: self.x }
    }

    /// The opposite vector.
    pub fn neg(self) -> (r: Point)
        requires
            bounded(self, 0x1000000000000000),
        ensures
            r.x == -self.x,
            r.y == -self.y,
    {
        Point { x: -self.x, y: -self.y }
    }
}

/// Exact cross product of two vectors.
pub fn cross_i(u: Point, v: Point) -> (r: i128)
    requires
        bounded(u, 0x1000000000000),
        bounded(v, 0x1000000000000),
    ensures
        r == cross(u, v),
{
    proof {
        crate::num::lemma_mul_bound(u.x as int, v.y as int, 0x1000000000000, 0x1000000000000);
        crate::num::lemma_mul_bound(u.y as int, v.x as int, 0x1000000000000, 0x1000000000000);
    }
    u.x as i128 * v.y as i128 - u.y as i128 * v.x as i128
}

/// Exact dot product of two vectors.
pub fn dot_i(u: Point, v: Point) -> (r: i128)
    requires
        bounded(u, 0x1000000000000),
        bounded(v, 0x1000000000000),
    ensures
        r == dot(u, v),
{
    proof {
        crate::num::lemma_mul_bound(u.x as int, v.x as int, 0x1000000000000, 0x1000000000000);
        crate::num::lemma_mul_bound(u.y as int, v.y as int, 0x1000000000000, 0x1000000000000);
    }
    u.x as i128 * v.x as i128 + u.y as i128 * v.y as i128
}

/// Exact squared distance between two points.
pub fn dist2(a: Point, b: Point) -> (r: i128)
    requires
        bounded(a, 0x1000000000000),
        bounded(b, 0x1000000000000),
    ensures
        r == dist2_spec(a, b),
        0 <= r <= 0x8000000000000000000000000,
{
    let dx = a.x as i128 - b.x as i128;
    let dy = a.y as i128 - b.y as i128;
    proof {
        crate::num::lemma_mul_bound(dx as int, dx as int, 0x2000000000000, 0x2000000000000);
        crate::num::lemma_mul_bound(dy as int, dy as int, 0x2000000000000, 0x2000000000000);
        assert(dx as int * dx as int >= 0) by (nonlinear_arith) {}
        assert(dy as int * dy as int >= 0) by (nonlinear_arith) {}
    }
    dx * dx + dy * dy
}

/// Rounded-down distance between two points.
pub fn dist_floor(a: Point, b: Point) -> (r: i64)
    requires
        bounded(a, 0x1000000000000),
        bounded(b, 0x1000000000000),
    ensures
        r == crate::num::fsqrt(dist2_spec(a, b) as nat),
        0 <= r,
        r * r <= dist2_spec(a, b),
        dist2_spec(a, b) < (r + 1) * (r + 1),
{
    let d2 = dist2(a, b);
    let r = crate::num::isqrt(d2 as u128);
    proof {
        assert(r as int <= 0x4000000000000) by (nonlinear_arith)
            requires
                (r as int) * (r as int) <= 0x8000000000000000000000000int,
                r >= 0,
        {}
    }
    r as i64
}

/// Midpoint of two points, coordinates rounded down.
pub fn midpoint(a: Point, b: Point) -> (r: Point)
    requires
        bounded(a, 0x1000000000000),
        bounded(b, 0x1000000000000),
    ensures
        r.x == (a.x + b.x) / 2,
        r.y == (a.y + b.y) / 2,
{
    let x = crate::num::div_floor(a.x as i128 + b.x as i128, 2);
    let y = crate::num::div_floor(a.y as i128 + b.y as i128, 2);
    proof {
        vstd::arithmetic::div_mod::lemma_div_is_ordered(-0x2000000000000, a.x + b.x, 2);
        vstd::arithmetic::div_mod::lemma_div_is_ordered(a.x + b.x, 0x2000000000000, 2);
        vstd::arithmetic::div_mod::lemma_div_is_ordered(-0x2000000000000, a.y + b.y, 2);
        vstd::arithmetic::div_mod::lemma_div_is_ordered(a.y + b.y, 0x2000000000000, 2);
    }
    Point { x: x as i64, y: y as i64 }
}

/// Whether two points coincide at the kernel's resolution.
pub fn almost_same_point(p: Point, q: Point) -> (r: bool)
    ensures
        r == (p == q),
{
    p.x == q.x && p.y == q.y
}

/// Exact angular order key of the direction `(p, q)`.
fn diamond(p: i128, q: i128) -> (r: u64)
    requires
        -0x4000000000000 <= p <= 0x4000000000000,
        -0x4000000000000 <= q <= 0x4000000000000,
        !(p == 0 && q == 0),
    ensures
        r == diamond_spec(p as int, q as int),
        r < 4 * KEY_SCALE,
{
    let m = KEY_SCALE as i128;
    proof {
        crate::num::lemma_mul_bound(m as int, q as int, KEY_SCALE as int, 0x4000000000000);
        crate::num::lemma_mul_bound(m as int, p as int, KEY_SCALE as int, 0x4000000000000);
    }
    if p > 0 && q >= 0 {
        let k = crate::num::div_floor(m * q, p + q);
        proof {
            lemma_diamond_quarter(m as int, q as int, p as int + q as int);
        }
        k as u64
    } else if p <= 0 && q > 0 {
        let k = crate::num::div_floor(m * (-p), q - p);
        proof {
            lemma_diamond_quarter(m as int, -p as int, q as int - p as int);
        }
        (m + k) as u64
    } else if p < 0 && q <= 0 {
        let k = crate::num::div_floor(m * (-q), (-p) + (-q));
        proof {
            lemma_diamond_quarter(m as int, -q as int, -p as int + -q as int);
        }
        (2 * m + k) as u64
    } else {
        let k = crate::num::div_floor(m * p, p - q);
        proof {
            lemma_diamond_quarter(m as int, p as int, p as int - q as int);
        }
        (3 * m + k) as u64
    }
}

/// Within one quarter the diamond code stays strictly below the scale.
proof fn lemma_diamond_quarter(m: int, n: int, d: int)
    requires
        0 < m,
        0 <= n < d,
    ensures
        0 <= (m * n) / d < m,
{
    assert(0 <= m * n <= m * (d - 1)) by (nonlinear_arith)
        requires
            0 < m,
            0 <= n <= d - 1,
    {}
    vstd::arithmetic::div_mod::lemma_div_is_ordered(0, m * n, d);
    let q = (m * n) / d;
    let r = (m * n) % d;
    vstd::arithmetic::div_mod::lemma_fundamental_div_mod(m * n, d);
    vstd::arithmetic::div_mod::lemma_mod_bound(m * n, d);
    if q >= m {
        assert(d * q + r >= d * m) by (nonlinear_arith)
            requires
                q >= m,
                r >= 0,
                d > 0,
        {}
        assert(m * (d - 1) < d * m) by (nonlinear_arith)
            requires
                0 < m,
        {}
    }
}

/// Key of the counterclockwise angle from `base` to `u`, in
/// `[0, 4 * KEY_SCALE)`.  Zero means `u` points along `base`; the key grows
/// weakly with the counterclockwise angle.
pub fn rel_key(base: Point, u: Point) -> (r: u64)
    requires
        bounded(base, 0x1000000),
        bounded(u, 0x1000000),
        !(base.x == 0 && base.y == 0),
        !(u.x == 0 && u.y == 0),
    ensures
        r == rel_key_spec(base, u),
        r < 4 * KEY_SCALE,
{
    let p = dot_i(base, u);
    let q = cross_i(base, u);
    proof {
        lemma_frame_nonzero(base, u);
        crate::num::lemma_mul_bound(base.x as int, u.x as int, 0x1000000, 0x1000000);
        crate::num::lemma_mul_bound(base.y as int, u.y as int, 0x1000000, 0x1000000);
        crate::num::lemma_mul_bound(base.x as int, u.y as int, 0x1000000, 0x1000000);
        crate::num::lemma_mul_bound(base.y as int, u.x as int, 0x1000000, 0x1000000);
    }
    diamond(p, q)
}

/// Key of the clockwise angle from `base` to `u`, in `[0, 4 * KEY_SCALE)`.
pub fn rel_key_cw(base: Point, u: Point) -> (r: u64)
    requires
        bounded(base, 0x1000000),
        bounded(u, 0x1000000),
        !(base.x == 0 && base.y == 0),
        !(u.x == 0 && u.y == 0),
    ensures
        r == rel_key_cw_spec(base, u),
        r < 4 * KEY_SCALE,
{
    let p = dot_i(base, u);
    let q = cross_i(base, u);
    proof {
        lemma_frame_nonzero(base, u);
        crate::num::lemma_mul_bound(base.x as int, u.x as int, 0x1000000, 0x1000000);
        crate::num::lemma_mul_bound(base.y as int, u.y as int, 0x1000000, 0x1000000);
        crate::num::lemma_mul_bound(base.x as int, u.y as int, 0x1000000, 0x1000000);
        crate::num::lemma_mul_bound(base.y as int, u.x as int, 0x1000000, 0x1000000);
    }
    diamond(p, -q)
}

/// Two nonzero vectors never have both their dot and their cross product
/// zero.
proof fn lemma_frame_nonzero(base: Point, u: Point)
    requires
        !(base.x == 0 && base.y == 0),
        !(u.x == 0 && u.y == 0),
    ensures
        !(dot(base, u) == 0 && cross(base, u) == 0),
{
    if dot(base, u) == 0 && cross(base, u) == 0 {
        assert(false) by (nonlinear_arith)
            requires
                base.x * u.x + base.y * u.y == 0,
                base.x * u.y - base.y * u.x == 0,
                !(base.x == 0 && base.y == 0),
                !(u.x == 0 && u.y == 0),
        {}
    }
}

} // verus!
