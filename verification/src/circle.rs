//! Circles and the exact circle-circle intersection at the heart of the
//! kernel.  The number of intersection points is classified exactly from the
//! squared center distance; the points themselves are pinned by rounded-down
//! radical-line formulas, chosen so that swapping the two circles swaps the
//! two points without any rounding drift.

use vstd::prelude::*;

use crate::num::fsqrt;
use crate::point::{bounded, dist2_spec, Point};

verus! {

/// A circle given by a signed radius and a center.  A negative radius is the
/// usual inside-out convention of signed offsets.
#[derive(Clone, Copy, Debug, PartialEq, Eq, Structural)]
pub struct Circle {
    pub radius: i64,
    pub center: Point,
}

/// The circle's scalars are small enough for exact arithmetic.  Circles
/// built by the constructors stay within the tighter `GEOM_LIMIT`; arcs of
/// offset boundaries may use the full range.
pub open spec fn circle_wf(c: Circle) -> bool {
    -0x400000 <= c.radius <= 0x400000 && bounded(c.center, 0x400000)
}

/// How many points `intersect` returns: 0 for separate, contained or
/// concentric circles, 1 for external tangency, 2 otherwise (an internal
/// tangency yields the same point twice).
pub open spec fn circle_isect_count(a: Circle, b: Circle) -> int {
    let d2 = dist2_spec(a.center, b.center);
    let s = a.radius + b.radius;
    let m = a.radius - b.radius;
    if s < 0 || d2 > s * s || d2 < m * m || d2 == 0 {
        0
    } else if d2 == s * s {
        1
    } else {
        2
    }
}

/// The single point of an external tangency, rounded down per coordinate:
/// `center_a + radius_a * (center_b - center_a) / (radius_a + radius_b)`.
pub open spec fn circle_tangent_pt(a: Circle, b: Circle) -> (int, int) {
    let dx = b.center.x - a.center.x;
    let dy = b.center.y - a.center.y;
    let s = a.radius + b.radius;
    (a.center.x + (a.radius * dx) / s, a.center.y + (a.radius * dy) / s)
}

/// The part of the radical-line construction shared by the two intersection
/// points: `alpha` scaled by twice the squared center distance.
pub open spec fn circle_isect_alpha(a: Circle, b: Circle) -> int {
    a.radius * a.radius - b.radius * b.radius + dist2_spec(a.center, b.center)
}

/// The rounded-down half-chord of the radical-line construction, scaled by
/// twice the center distance.
pub open spec fn circle_isect_k(a: Circle, b: Circle) -> int {
    let d2 = dist2_spec(a.center, b.center);
    let s = a.radius + b.radius;
    let m = a.radius - b.radius;
    fsqrt(((s * s - d2) * (d2 - m * m)) as nat) as int
}

/// The first of the two intersection points.
pub open spec fn circle_pt_plus(a: Circle, b: Circle) -> (int, int) {
    let dx = b.center.x - a.center.x;
    let dy = b.center.y - a.center.y;
    let d2 = dist2_spec(a.center, b.center);
    let alpha = circle_isect_alpha(a, b);
    let k = circle_isect_k(a, b);
    (
        a.center.x + (alpha * dx + k * dy) / (2 * d2),
        a.center.y + (alpha * dy - k * dx) / (2 * d2),
    )
}

/// The second of the two intersection points.
pub open spec fn circle_pt_minus(a: Circle, b: Circle) -> (int, int) {
    let dx = b.center.x - a.center.x;
    let dy = b.center.y - a.center.y;
    let d2 = dist2_spec(a.center, b.center);
    let alpha = circle_isect_alpha(a, b);
    let k = circle_isect_k(a, b);
    (
        a.center.x + (alpha * dx - k * dy) / (2 * d2),
        a.center.y + (alpha * dy + k * dx) / (2 * d2),
    )
}

/// In the two-point case both radii are positive.
proof fn lemma_two_point_radii(a: Circle, b: Circle)
    requires
        circle_isect_count(a, b) == 2,
    ensures
        1 <= a.radius,
        1 <= b.radius,
{
    let d2 = dist2_spec(a.center, b.center);
    let s = a.radius as int + b.radius as int;
    let m = a.radius as int - b.radius as int;
    assert(1 <= a.radius && 1 <= b.radius) by (nonlinear_arith)
        requires
            s == a.radius as int + b.radius as int,
            m == a.radius as int - b.radius as int,
            !(s < 0 || d2 > s * s || d2 < m * m || d2 == 0),
            d2 != s * s,
    {}
}

/// The two-square identity behind the Cauchy-Schwarz bound.
#[verifier::rlimit(60)]
proof fn lemma_lagrange(a: int, b: int, c: int, d: int)
    ensures
        (a * a + b * b) * (c * c + d * d) == (a * c + b * d) * (a * c + b * d) + (a * d - b * c) * (
        a * d - b * c),
{
    let ac = a * c;
    let bd = b * d;
    let ad = a * d;
    let bc = b * c;
    let aa = a * a;
    let bb = b * b;
    let cc = c * c;
    let dd = d * d;
    assert((ac + bd) * (ac + bd) == ac * ac + 2 * (ac * bd) + bd * bd) by (nonlinear_arith) {}
    assert((ad - bc) * (ad - bc) == ad * ad - 2 * (ad * bc) + bc * bc) by (nonlinear_arith) {}
    assert(ac * bd == ad * bc) by (nonlinear_arith)
        requires
            ac == a * c,
            bd == b * d,
            ad == a * d,
            bc == b * c,
    {}
    assert(ac * ac == aa * cc) by (nonlinear_arith)
        requires
            ac == a * c,
            aa == a * a,
            cc == c * c,
    {}
    assert(bd * bd == bb * dd) by (nonlinear_arith)
        requires
            bd == b * d,
            bb == b * b,
            dd == d * d,
    {}
    assert(ad * ad == aa * dd) by (nonlinear_arith)
        requires
            ad == a * d,
            aa == a * a,
            dd == d * d,
    {}
    assert(bc * bc == bb * cc) by (nonlinear_arith)
        requires
            bc == b * c,
            bb == b * b,
            cc == c * c,
    {}
    assert((aa + bb) * (cc + dd) == aa * cc + aa * dd + bb * cc + bb * dd) by (nonlinear_arith) {}
}

/// The scaled offsets of the two intersection points are bounded by the
/// first radius times twice the squared distance (a Cauchy-Schwarz bound).
proof fn lemma_offset_bound(alpha: int, k: int, dx: int, dy: int, ra: int, d2: int)
    requires
        alpha * alpha + k * k <= 4 * ra * ra * d2,
        dx * dx + dy * dy == d2,
        1 <= ra,
        1 <= d2,
    ensures
        -(2 * ra * d2) <= alpha * dx + k * dy <= 2 * ra * d2,
        -(2 * ra * d2) <= alpha * dy - k * dx <= 2 * ra * d2,
        -(2 * ra * d2) <= alpha * dx - k * dy <= 2 * ra * d2,
        -(2 * ra * d2) <= alpha * dy + k * dx <= 2 * ra * d2,
{
    let bound = 2 * ra * d2;
    let lhs = (alpha * alpha + k * k) * (dx * dx + dy * dy);
    lemma_lagrange(alpha, k, dx, dy);
    lemma_lagrange(alpha, -k, dx, dy);
    assert(lhs == (alpha * dx + k * dy) * (alpha * dx + k * dy) + (alpha * dy - k * dx) * (alpha
        * dy - k * dx)) by (nonlinear_arith)
        requires
            lhs == (alpha * alpha + k * k) * (dx * dx + dy * dy),
            (alpha * alpha + k * k) * (dx * dx + dy * dy) == (alpha * dx + k * dy) * (alpha * dx
                + k * dy) + (alpha * dy - k * dx) * (alpha * dy - k * dx),
    {}
    assert(lhs == (alpha * dx - k * dy) * (alpha * dx - k * dy) + (alpha * dy + k * dx) * (alpha
        * dy + k * dx)) by (nonlinear_arith)
        requires
            lhs == (alpha * alpha + k * k) * (dx * dx + dy * dy),
            (alpha * alpha + (-k) * (-k)) * (dx * dx + dy * dy) == (alpha * dx + (-k) * dy) * (
                alpha * dx + (-k) * dy) + (alpha * dy - (-k) * dx) * (alpha * dy - (-k) * dx),
    {}
    assert(lhs <= bound * bound) by (nonlinear_arith)
        requires
            lhs == (alpha * alpha + k * k) * (dx * dx + dy * dy),
            alpha * alpha + k * k <= 4 * ra * ra * d2,
            dx * dx + dy * dy == d2,
            1 <= ra,
            1 <= d2,
            bound == 2 * ra * d2,
    {}
    assert((alpha * dx + k * dy) * (alpha * dx + k * dy) >= 0) by (nonlinear_arith) {}
    assert((alpha * dy - k * dx) * (alpha * dy - k * dx) >= 0) by (nonlinear_arith) {}
    assert((alpha * dx - k * dy) * (alpha * dx - k * dy) >= 0) by (nonlinear_arith) {}
    assert((alpha * dy + k * dx) * (alpha * dy + k * dx) >= 0) by (nonlinear_arith) {}
    assert(-(bound) <= alpha * dx + k * dy <= bound) by (nonlinear_arith)
        requires
            (alpha * dx + k * dy) * (alpha * dx + k * dy) <= bound * bound,
            0 <= bound,
    {}
    assert(-(bound) <= alpha * dy - k * dx <= bound) by (nonlinear_arith)
        requires
            (alpha * dy - k * dx) * (alpha * dy - k * dx) <= bound * bound,
            0 <= bound,
    {}
    assert(-(bound) <= alpha * dx - k * dy <= bound) by (nonlinear_arith)
        requires
            (alpha * dx - k * dy) * (alpha * dx - k * dy) <= bound * bound,
            0 <= bound,
    {}
    assert(-(bound) <= alpha * dy + k * dx <= bound) by (nonlinear_arith)
        requires
            (alpha * dy + k * dx) * (alpha * dy + k * dx) <= bound * bound,
            0 <= bound,
    {}
}

/// Swapping the two circles keeps the intersection count, keeps the
/// tangency point, and swaps the two intersection points, all exactly.
pub proof fn lemma_intersect_symmetry(a: Circle, b: Circle)
    ensures
        circle_isect_count(a, b) == circle_isect_count(b, a),
        circle_isect_count(a, b) == 1 ==> circle_tangent_pt(a, b) == circle_tangent_pt(b, a),
        circle_isect_count(a, b) == 2 ==> circle_pt_plus(a, b) == circle_pt_minus(b, a)
            && circle_pt_minus(a, b) == circle_pt_plus(b, a),
{
    let d2 = dist2_spec(a.center, b.center);
    let s = a.radius as int + b.radius as int;
    let m = a.radius as int - b.radius as int;
    let dx = b.center.x as int - a.center.x as int;
    let dy = b.center.y as int - a.center.y as int;
    assert(dist2_spec(b.center, a.center) == d2) by (nonlinear_arith)
        requires
            d2 == dist2_spec(a.center, b.center),
            dist2_spec(a.center, b.center) == (a.center.x - b.center.x) * (a.center.x - b.center.x)
                + (a.center.y - b.center.y) * (a.center.y - b.center.y),
            dist2_spec(b.center, a.center) == (b.center.x - a.center.x) * (b.center.x - a.center.x)
                + (b.center.y - a.center.y) * (b.center.y - a.center.y),
    {}
    assert((-m) * (-m) == m * m) by (nonlinear_arith) {}
    assert(circle_isect_count(a, b) == circle_isect_count(b, a));
    if circle_isect_count(a, b) == 1 {
        assert(1 <= s) by (nonlinear_arith)
            requires
                0 <= s,
                d2 == s * s,
                d2 != 0,
        {}
        vstd::arithmetic::div_mod::lemma_hoist_over_denominator(
            -(b.radius as int * dx),
            dx,
            s as nat,
        );
        assert(-(b.radius as int * dx) + dx * s == a.radius as int * dx) by (nonlinear_arith)
            requires
                s == a.radius as int + b.radius as int,
        {}
        vstd::arithmetic::div_mod::lemma_hoist_over_denominator(
            -(b.radius as int * dy),
            dy,
            s as nat,
        );
        assert(-(b.radius as int * dy) + dy * s == a.radius as int * dy) by (nonlinear_arith)
            requires
                s == a.radius as int + b.radius as int,
        {}
        assert(b.radius as int * (a.center.x as int - b.center.x as int) == -(b.radius as int
            * dx)) by (nonlinear_arith)
            requires
                dx == b.center.x as int - a.center.x as int,
        {}
        assert(b.radius as int * (a.center.y as int - b.center.y as int) == -(b.radius as int
            * dy)) by (nonlinear_arith)
            requires
                dy == b.center.y as int - a.center.y as int,
        {}
    }
    if circle_isect_count(a, b) == 2 {
        lemma_two_point_radii(a, b);
        assert(1 <= d2);
        let alpha = circle_isect_alpha(a, b);
        let alpha_b = circle_isect_alpha(b, a);
        assert(alpha + alpha_b == 2 * d2);
        let k = circle_isect_k(a, b);
        assert(circle_isect_k(b, a) == k);
        // Each coordinate of the swapped points in turn.
        assert(circle_pt_plus(b, a).0 == circle_pt_minus(a, b).0) by {
            assert((alpha_b * (-dx) + k * (-dy)) == (alpha * dx - k * dy) - 2 * d2 * dx)
                by (nonlinear_arith)
                requires
                    alpha_b == 2 * d2 - alpha,
            {}
            lemma_shift_div(alpha * dx - k * dy, d2, dx);
        }
        assert(circle_pt_plus(b, a).1 == circle_pt_minus(a, b).1) by {
            assert((alpha_b * (-dy) - k * (-dx)) == (alpha * dy + k * dx) - 2 * d2 * dy)
                by (nonlinear_arith)
                requires
                    alpha_b == 2 * d2 - alpha,
            {}
            lemma_shift_div(alpha * dy + k * dx, d2, dy);
        }
        assert(circle_pt_minus(b, a).0 == circle_pt_plus(a, b).0) by {
            assert((alpha_b * (-dx) - k * (-dy)) == (alpha * dx + k * dy) - 2 * d2 * dx)
                by (nonlinear_arith)
                requires
                    alpha_b == 2 * d2 - alpha,
            {}
            lemma_shift_div(alpha * dx + k * dy, d2, dx);
        }
        assert(circle_pt_minus(b, a).1 == circle_pt_plus(a, b).1) by {
            assert((alpha_b * (-dy) + k * (-dx)) == (alpha * dy - k * dx) - 2 * d2 * dy)
                by (nonlinear_arith)
                requires
                    alpha_b == 2 * d2 - alpha,
            {}
            lemma_shift_div(alpha * dy - k * dx, d2, dy);
        }
    }
}

/// Subtracting a whole multiple of the denominator shifts a rounded-down
/// quotient exactly.
proof fn lemma_shift_div(x: int, d2: int, j: int)
    requires
        1 <= d2,
    ensures
        (x - 2 * d2 * j) / (2 * d2) == x / (2 * d2) - j,
{
    vstd::arithmetic::div_mod::lemma_hoist_over_denominator(x, -j, (2 * d2) as nat);
    assert(x + (-j) * (2 * d2) == x - 2 * d2 * j) by (nonlinear_arith) {}
}

/// Two circles whose center distance is exactly the sum of their positive
/// radii meet in exactly one point, on the segment between the centers at
/// distance `radius_a` from the first center.
pub proof fn lemma_tangency_boundary(a: Circle, b: Circle)
    requires
        1 <= a.radius,
        1 <= b.radius,
        dist2_spec(a.center, b.center) == (a.radius + b.radius) * (a.radius + b.radius),
    ensures
        circle_isect_count(a, b) == 1,
        circle_tangent_pt(a, b) == ((a.center.x + (a.radius * (b.center.x - a.center.x)) / (
        a.radius + b.radius)), (a.center.y + (a.radius * (b.center.y - a.center.y)) / (a.radius
            + b.radius))),
{
    let d2 = dist2_spec(a.center, b.center);
    let s = a.radius as int + b.radius as int;
    let m = a.radius as int - b.radius as int;
    assert(m * m < s * s && 0 < s * s) by (nonlinear_arith)
        requires
            1 <= a.radius,
            1 <= b.radius,
            s == a.radius as int + b.radius as int,
            m == a.radius as int - b.radius as int,
    {}
}

impl Circle {
    /// Builds a circle from its radius and center.
    pub fn new(radius: i64, center: Point) -> (r: Circle)
        ensures
            r.radius == radius,
            r.center == center,
    {
        Circle { radius, center }
    }

    /// The 0, 1 or 2 intersection points of two circles, classified exactly
    /// by the squared center distance and computed by the rounded-down
    /// radical-line construction.  The order of the two points follows the
    /// direction from `self`'s center to `other`'s, so callers can pick a
    /// consistent side.
    pub fn intersect(self, other: Circle) -> (res: Vec<Point>)
        requires
            circle_wf(self),
            circle_wf(other),
        ensures
            res.len() == circle_isect_count(self, other),
            circle_isect_count(self, other) == 1 ==> (res[0].x as int, res[0].y as int)
                == circle_tangent_pt(self, other),
            circle_isect_count(self, other) == 2 ==> (res[0].x as int, res[0].y as int)
                == circle_pt_plus(self, other) && (res[1].x as int, res[1].y as int)
                == circle_pt_minus(self, other),
            forall|i: int| 0 <= i < res.len() ==> bounded(#[trigger] res[i], 0x800000),
    {
        let mut res: Vec<Point> = Vec::new();
        let ra = self.radius as i128;
        let rb = other.radius as i128;
        let cax = self.center.x as i128;
        let cay = self.center.y as i128;
        let dx = other.center.x as i128 - cax;
        let dy = other.center.y as i128 - cay;
        let d2 = crate::point::dist2(self.center, other.center);
        let s = ra + rb;
        let m = ra - rb;
        proof {
            crate::num::lemma_mul_bound(s as int, s as int, 0x800000, 0x800000);
            crate::num::lemma_mul_bound(m as int, m as int, 0x800000, 0x800000);
            crate::num::lemma_mul_bound(ra as int, ra as int, 0x400000, 0x400000);
            crate::num::lemma_mul_bound(rb as int, rb as int, 0x400000, 0x400000);
            assert(d2 == dx * dx + dy * dy) by (nonlinear_arith)
                requires
                    d2 == (self.center.x - other.center.x) * (self.center.x - other.center.x) + (
                    self.center.y - other.center.y) * (self.center.y - other.center.y),
                    dx == other.center.x - self.center.x,
                    dy == other.center.y - self.center.y,
            {}
        }
        if s < 0 || d2 > s * s || d2 < m * m || d2 == 0 {
            return res;
        }
        if d2 == s * s {
            // External tangency; the center distance is exactly `s`.
            proof {
                crate::num::lemma_mul_bound(ra as int, dx as int, 0x400000, 0x800000);
                crate::num::lemma_mul_bound(ra as int, dy as int, 0x400000, 0x800000);
                assert(1 <= s) by (nonlinear_arith)
                    requires
                        0 <= s,
                        d2 == s * s,
                        d2 != 0,
                {}
                assert(0 <= ra && 0 <= rb) by (nonlinear_arith)
                    requires
                        m * m <= s * s,
                        0 <= s,
                        m == ra - rb,
                        s == ra + rb,
                {}
                assert(dx * dx <= d2 && dy * dy <= d2) by (nonlinear_arith)
                    requires
                        d2 == dx * dx + dy * dy,
                {}
                assert(-(ra * s) <= ra * dx <= ra * s && -(ra * s) <= ra * dy <= ra * s)
                    by (nonlinear_arith)
                    requires
                        dx * dx <= s * s,
                        dy * dy <= s * s,
                        0 <= s,
                        0 <= ra,
                {}
                vstd::arithmetic::div_mod::lemma_div_is_ordered(-(ra as int * s as int), ra as int * dx as int, s as int);
                vstd::arithmetic::div_mod::lemma_div_is_ordered(ra as int * dx as int, ra as int * s as int, s as int);
                vstd::arithmetic::div_mod::lemma_div_is_ordered(-(ra as int * s as int), ra as int * dy as int, s as int);
                vstd::arithmetic::div_mod::lemma_div_is_ordered(ra as int * dy as int, ra as int * s as int, s as int);
                vstd::arithmetic::div_mod::lemma_div_multiples_vanish(ra as int, s as int);
                vstd::arithmetic::div_mod::lemma_div_multiples_vanish(-(ra as int), s as int);
                assert(s as int * ra as int == ra as int * s as int) by (nonlinear_arith) {}
                assert(s as int * (-(ra as int)) == -(ra as int * s as int)) by (nonlinear_arith) {}
            }
            let px = cax + crate::num::div_floor(ra * dx, s);
            let py = cay + crate::num::div_floor(ra * dy, s);
            res.push(Point { x: px as i64, y: py as i64 });
            return res;
        }
        // Two points (coinciding for an internal tangency).
        proof {
            lemma_two_point_radii(self, other);
        }
        let alpha = ra * ra - rb * rb + d2;
        let f1 = s * s - d2;
        let f2 = d2 - m * m;
        proof {
            crate::num::lemma_mul_bound(f1 as int, f2 as int, 0x400000000000, 0x800000000000);
            assert(f1 * f2 >= 0) by (nonlinear_arith)
                requires
                    f1 >= 0,
                    f2 >= 0,
            {}
        }
        let radicand = f1 * f2;
        let k = crate::num::isqrt(radicand as u128) as i128;
        proof {
            assert(k <= 0x40000000000000) by (nonlinear_arith)
                requires
                    k as int * k as int <= 0x200000000000000000000000int,
                    0 <= k,
            {}
            crate::num::lemma_mul_bound(alpha as int, dx as int, 0x1000000000000, 0x800000);
            crate::num::lemma_mul_bound(alpha as int, dy as int, 0x1000000000000, 0x800000);
            crate::num::lemma_mul_bound(k as int, dx as int, 0x40000000000000, 0x800000);
            crate::num::lemma_mul_bound(k as int, dy as int, 0x40000000000000, 0x800000);
            // `alpha^2 + k^2 <= 4 ra^2 d2`, from the radicand identity.
            assert(alpha * alpha + f1 * f2 == 4 * (ra * ra) * d2) by (nonlinear_arith)
                requires
                    alpha == ra * ra - rb * rb + d2,
                    f1 == (ra + rb) * (ra + rb) - d2,
                    f2 == d2 - (ra - rb) * (ra - rb),
            {}
            assert(alpha as int * alpha as int + k as int * k as int <= 4 * (ra as int * ra as int)
                * d2 as int) by {
                assert(k as int * k as int <= f1 as int * f2 as int);
            }
            assert(4 * (ra as int * ra as int) * d2 as int == 4 * ra as int * ra as int
                * d2 as int) by (nonlinear_arith) {}
            lemma_offset_bound(
                alpha as int,
                k as int,
                dx as int,
                dy as int,
                ra as int,
                d2 as int,
            );
            vstd::arithmetic::div_mod::lemma_div_is_ordered(
                -(2 * ra as int * d2 as int),
                alpha as int * dx as int + k as int * dy as int,
                2 * d2 as int,
            );
            vstd::arithmetic::div_mod::lemma_div_is_ordered(
                alpha as int * dx as int + k as int * dy as int,
                2 * ra as int * d2 as int,
                2 * d2 as int,
            );
            vstd::arithmetic::div_mod::lemma_div_is_ordered(
                -(2 * ra as int * d2 as int),
                alpha as int * dy as int - k as int * dx as int,
                2 * d2 as int,
            );
            vstd::arithmetic::div_mod::lemma_div_is_ordered(
                alpha as int * dy as int - k as int * dx as int,
                2 * ra as int * d2 as int,
                2 * d2 as int,
            );
            vstd::arithmetic::div_mod::lemma_div_is_ordered(
                -(2 * ra as int * d2 as int),
                alpha as int * dx as int - k as int * dy as int,
                2 * d2 as int,
            );
            vstd::arithmetic::div_mod::lemma_div_is_ordered(
                alpha as int * dx as int - k as int * dy as int,
                2 * ra as int * d2 as int,
                2 * d2 as int,
            );
            vstd::arithmetic::div_mod::lemma_div_is_ordered(
                -(2 * ra as int * d2 as int),
                alpha as int * dy as int + k as int * dx as int,
                2 * d2 as int,
            );
            vstd::arithmetic::div_mod::lemma_div_is_ordered(
                alpha as int * dy as int + k as int * dx as int,
                2 * ra as int * d2 as int,
                2 * d2 as int,
            );
            assert((2 * ra as int * d2 as int) / (2 * d2 as int) == ra as int) by {
                vstd::arithmetic::div_mod::lemma_div_multiples_vanish(ra as int, 2 * d2 as int);
                assert((2 * d2 as int) * ra as int == 2 * ra as int * d2 as int)
                    by (nonlinear_arith) {}
            }
            assert((-(2 * ra as int * d2 as int)) / (2 * d2 as int) == -(ra as int)) by {
                vstd::arithmetic::div_mod::lemma_div_multiples_vanish(-(ra as int), 2 * d2 as int);
                assert((2 * d2 as int) * (-(ra as int)) == -(2 * ra as int * d2 as int))
                    by (nonlinear_arith) {}
            }
            assert(alpha as int * dx as int + k as int * dy as int > i128::MIN) by {
                crate::num::lemma_mul_bound(alpha as int, dx as int, 0x1000000000000, 0x800000);
            }
        }
        let p1x = cax + crate::num::div_floor(alpha * dx + k * dy, 2 * d2);
        let p1y = cay + crate::num::div_floor(alpha * dy - k * dx, 2 * d2);
        let p2x = cax + crate::num::div_floor(alpha * dx - k * dy, 2 * d2);
        let p2y = cay + crate::num::div_floor(alpha * dy + k * dx, 2 * d2);
        res.push(Point { x: p1x as i64, y: p1y as i64 });
        res.push(Point { x: p2x as i64, y: p2y as i64 });
        res
    }

    /// The circle through three points, or nothing when they are collinear
    /// or the circle leaves the coordinate range.
    pub fn from_3_points(p1: Point, p2: Point, p3: Point) -> (r: Option<Circle>)
        requires
            bounded(p1, crate::GEOM_LIMIT as int),
            bounded(p2, crate::GEOM_LIMIT as int),
            bounded(p3, crate::GEOM_LIMIT as int),
        ensures
            r == circ3_spec(p1, p2, p3),
            r is Some ==> circle_wf(r->Some_0) && 0 <= r->Some_0.radius,
    {
        let x1 = p1.x as i128;
        let y1 = p1.y as i128;
        let x2 = p2.x as i128;
        let y2 = p2.y as i128;
        let x3 = p3.x as i128;
        let y3 = p3.y as i128;
        proof {
            crate::num::lemma_mul_bound(x1 as int, x1 as int, 0x100000, 0x100000);
            crate::num::lemma_mul_bound(y1 as int, y1 as int, 0x100000, 0x100000);
            crate::num::lemma_mul_bound(x2 as int, x2 as int, 0x100000, 0x100000);
            crate::num::lemma_mul_bound(y2 as int, y2 as int, 0x100000, 0x100000);
            crate::num::lemma_mul_bound(x3 as int, x3 as int, 0x100000, 0x100000);
            crate::num::lemma_mul_bound(y3 as int, y3 as int, 0x100000, 0x100000);
        }
        let l1 = x1 * x1 + y1 * y1;
        let l2 = x2 * x2 + y2 * y2;
        let l3 = x3 * x3 + y3 * y3;
        proof {
            crate::num::lemma_mul_bound(x1 as int, y2 as int - y3 as int, 0x100000, 0x200000);
            crate::num::lemma_mul_bound(y1 as int, x2 as int - x3 as int, 0x100000, 0x200000);
            crate::num::lemma_mul_bound(x2 as int, y3 as int, 0x100000, 0x100000);
            crate::num::lemma_mul_bound(x3 as int, y2 as int, 0x100000, 0x100000);
        }
        let m1 = x1 * (y2 - y3) - y1 * (x2 - x3) + (x2 * y3 - x3 * y2);
        if m1 == 0 {
            return None;
        }
        proof {
            crate::num::lemma_mul_bound(
                l1 as int,
                y2 as int - y3 as int,
                0x20000000000,
                0x200000,
            );
            crate::num::lemma_mul_bound(
                y1 as int,
                l2 as int - l3 as int,
                0x100000,
                0x40000000000,
            );
            crate::num::lemma_mul_bound(l2 as int, y3 as int, 0x20000000000, 0x100000);
            crate::num::lemma_mul_bound(l3 as int, y2 as int, 0x20000000000, 0x100000);
            crate::num::lemma_mul_bound(
                l1 as int,
                x2 as int - x3 as int,
                0x20000000000,
                0x200000,
            );
            crate::num::lemma_mul_bound(
                x1 as int,
                l2 as int - l3 as int,
                0x100000,
                0x40000000000,
            );
            crate::num::lemma_mul_bound(l2 as int, x3 as int, 0x20000000000, 0x100000);
            crate::num::lemma_mul_bound(l3 as int, x2 as int, 0x20000000000, 0x100000);
        }
        let m2 = l1 * (y2 - y3) - y1 * (l2 - l3) + (l2 * y3 - l3 * y2);
        let m3 = l1 * (x2 - x3) - x1 * (l2 - l3) + (l2 * x3 - l3 * x2);
        let cx = crate::num::div_round(m2, 2 * m1);
        let cy = crate::num::div_round(-m3, 2 * m1);
        let g = crate::GEOM_LIMIT as i128;
        if cx < -g || cx > g || cy < -g || cy > g {
            return None;
        }
        let center = Point { x: cx as i64, y: cy as i64 };
        let radius = crate::point::dist_floor(center, p1);
        if radius > crate::GEOM_LIMIT {
            return None;
        }
        Some(Circle { radius, center })
    }

    /// The circle through the endpoints `a` and `b` whose arc between them
    /// has the given counterclockwise-positive bend, in units of
    /// `BEND_ONE`.  Coincident endpoints or an out-of-range circle yield
    /// nothing.
    pub fn from_endpoints_and_bend(a: Point, b: Point, bend: i64) -> (r: Option<Circle>)
        requires
            bounded(a, crate::COORD_LIMIT as int),
            bounded(b, crate::COORD_LIMIT as int),
            1 <= bend <= 2 * crate::BEND_ONE - 1,
        ensures
            r == feb_spec(a, b, bend as int),
            r is Some ==> circle_wf(r->Some_0) && 0 <= r->Some_0.radius,
    {
        if a.x == b.x && a.y == b.y {
            return None;
        }
        let crd = crate::point::dist_floor(a, b);
        proof {
            assert(dist2_spec(a, b) >= 1) by (nonlinear_arith)
                requires
                    dist2_spec(a, b) == (a.x - b.x) * (a.x - b.x) + (a.y - b.y) * (a.y - b.y),
                    !(a.x == b.x && a.y == b.y),
            {}
            crate::num::lemma_fsqrt(dist2_spec(a, b) as nat);
            assert(crd >= 1);
        }
        let one = crate::BEND_ONE as i128;
        let bf = bend as i128;
        proof {
            crate::num::lemma_mul_bound(
                2 * one as int - bf as int,
                bf as int,
                0x20000,
                0x20000,
            );
            assert((2 * one as int - bf as int) * bf as int >= 1) by (nonlinear_arith)
                requires
                    1 <= 2 * one as int - bf as int,
                    1 <= bf as int,
            {}
        }
        let prod = (2 * one - bf) * bf;
        proof {
            assert(prod >= 1);
            assert(prod as u128 as int == prod as int);
        }
        let h = crate::num::isqrt(prod as u128) as i128;
        proof {
            assert(h as int * h as int <= prod as int);
            assert((prod as int) < (h as int + 1) * (h as int + 1));
            assert(h >= 1) by (nonlinear_arith)
                requires
                    1 <= prod as int,
                    (prod as int) < (h as int + 1) * (h as int + 1),
                    0 <= h,
            {}
            assert(h <= 0x20000) by (nonlinear_arith)
                requires
                    h as int * h as int <= 0x400000000,
                    0 <= h,
            {}
            assert(crd as int * crd as int <= dist2_spec(a, b));
            assert(dist2_spec(a, b) <= 0x8000000000) by (nonlinear_arith)
                requires
                    dist2_spec(a, b) == (a.x - b.x) * (a.x - b.x) + (a.y - b.y) * (a.y - b.y),
                    -0x80000 <= a.x - b.x <= 0x80000,
                    -0x80000 <= a.y - b.y <= 0x80000,
            {}
            assert(crd <= 0x100000) by (nonlinear_arith)
                requires
                    crd as int * crd as int <= 0x8000000000,
                    0 <= crd,
            {}
            crate::num::lemma_mul_bound(crd as int, one as int, 0x100000, 0x10000);
            vstd::arithmetic::div_mod::lemma_div_pos_is_pos(
                crd as int * one as int,
                2 * h as int,
            );
        }
        let radius = crate::num::div_floor((crd as i128) * one, 2 * h);
        if radius > crate::GEOM_LIMIT as i128 {
            return None;
        }
        let dxc = b.x as i128 - a.x as i128;
        let dyc = b.y as i128 - a.y as i128;
        proof {
            crate::num::lemma_mul_bound(dyc as int, bf as int, 0x80000, 0x20000);
            crate::num::lemma_mul_bound(
                dyc as int * bf as int,
                radius as int,
                0x1000000000,
                0x100000,
            );
            crate::num::lemma_mul_bound(dxc as int, bf as int, 0x80000, 0x20000);
            crate::num::lemma_mul_bound(
                dxc as int * bf as int,
                radius as int,
                0x1000000000,
                0x100000,
            );
            crate::num::lemma_mul_bound(one as int, crd as int, 0x10000, 0x100000);
            assert(one as int * crd as int >= 1) by (nonlinear_arith)
                requires
                    1 <= one as int,
                    1 <= crd as int,
            {}
        }
        let ox = crate::num::div_round(-(dyc * bf * radius), one * (crd as i128));
        let oy = crate::num::div_round(dxc * bf * radius, one * (crd as i128));
        let amx = crate::num::div_floor(a.x as i128 + b.x as i128, 2) + ox;
        let amy = crate::num::div_floor(a.y as i128 + b.y as i128, 2) + oy;
        let g = crate::GEOM_LIMIT as i128;
        if amx < -g || amx > g || amy < -g || amy > g {
            return None;
        }
        Self::from_3_points(a, b, Point { x: amx as i64, y: amy as i64 })
    }

    /// The circles simultaneously tangent to three circles, per the sign
    /// convention of each input radius.  Concentric or collinear-degenerate
    /// center configurations, and solutions beyond the coordinate range,
    /// yield fewer (possibly zero) circles.
    pub fn three_circle_tangent(a: Circle, b: Circle, c: Circle) -> (res: Vec<Circle>)
        requires
            -(crate::GEOM_LIMIT as int) <= a.radius <= crate::GEOM_LIMIT as int,
            -(crate::GEOM_LIMIT as int) <= b.radius <= crate::GEOM_LIMIT as int,
            -(crate::GEOM_LIMIT as int) <= c.radius <= crate::GEOM_LIMIT as int,
            bounded(a.center, crate::GEOM_LIMIT as int),
            bounded(b.center, crate::GEOM_LIMIT as int),
            bounded(c.center, crate::GEOM_LIMIT as int),
        ensures
            res@ == tct_spec(a, b, c),
            res.len() <= 2,
            forall|i: int| 0 <= i < res.len() ==> circle_wf(#[trigger] res[i]),
    {
        let a_t = Circle {
            radius: a.radius - c.radius,
            center: Point { x: a.center.x - c.center.x, y: a.center.y - c.center.y },
        };
        let b_t = Circle {
            radius: b.radius - c.radius,
            center: Point { x: b.center.x - c.center.x, y: b.center.y - c.center.y },
        };
        let base = Self::three_circle_tangent_0(a_t, b_t);
        let mut res: Vec<Circle> = Vec::new();
        if base.len() >= 1 {
            if let Some(t) = tct_untranslate(c, base[0]) {
                res.push(t);
            }
        }
        if base.len() == 2 {
            if let Some(t) = tct_untranslate(c, base[1]) {
                res.push(t);
            }
        }
        proof {
            assert(a_t == circle_sub(a, c));
            assert(b_t == circle_sub(b, c));
            if base.len() == 0 {
                assert(res@ =~= tct_spec(a, b, c));
            } else if base.len() == 1 {
                assert(res@ =~= opt_seq(tct_out(c, base[0int])));
            } else {
                assert(res@ =~= opt_seq(tct_out(c, base[0int])) + opt_seq(tct_out(c, base[1int])));
            }
        }
        res
    }

    /// The tangent-circle solver after translating the third circle to the
    /// origin: the tangent center is an affine function of its radius, and
    /// the tangency condition leaves one quadratic in the radius.
    fn three_circle_tangent_0(a: Circle, b: Circle) -> (res: Vec<Circle>)
        requires
            -0x200000 <= a.radius <= 0x200000,
            -0x200000 <= b.radius <= 0x200000,
            bounded(a.center, 0x200000),
            bounded(b.center, 0x200000),
        ensures
            res@ == tct0_spec(a, b),
            res.len() <= 2,
            forall|i: int|
                0 <= i < res.len() ==> bounded(#[trigger] res[i].center, 0x400000)
                    && -0x400000 <= res[i].radius <= 0x400000,
    {
        let cax = a.center.x as i128;
        let cay = a.center.y as i128;
        let cbx = b.center.x as i128;
        let cby = b.center.y as i128;
        let ra = a.radius as i128;
        let rb = b.radius as i128;
        let mut res: Vec<Circle> = Vec::new();
        proof {
            crate::num::lemma_mul_bound(cax as int, cby as int, 0x200000, 0x200000);
            crate::num::lemma_mul_bound(cay as int, cbx as int, 0x200000, 0x200000);
            crate::num::lemma_mul_bound(cax as int, cax as int, 0x200000, 0x200000);
            crate::num::lemma_mul_bound(cay as int, cay as int, 0x200000, 0x200000);
            crate::num::lemma_mul_bound(cbx as int, cbx as int, 0x200000, 0x200000);
            crate::num::lemma_mul_bound(cby as int, cby as int, 0x200000, 0x200000);
            crate::num::lemma_mul_bound(ra as int, ra as int, 0x200000, 0x200000);
            crate::num::lemma_mul_bound(rb as int, rb as int, 0x200000, 0x200000);
        }
        let det = cax * cby - cay * cbx;
        if det == 0 {
            return res;
        }
        let d0 = 2 * det;
        proof {
            assert(-0x200000 <= ra <= 0x200000);
            assert(-0x200000 <= rb <= 0x200000);
        }
        let ga = -(2 * ra);
        let gb = -(2 * rb);
        let beta_a = cax * cax + cay * cay - ra * ra;
        let beta_b = cbx * cbx + cby * cby - rb * rb;
        proof {
            crate::num::lemma_mul_bound(cby as int, ga as int, 0x200000, 0x400000);
            crate::num::lemma_mul_bound(cay as int, gb as int, 0x200000, 0x400000);
            crate::num::lemma_mul_bound(cbx as int, ga as int, 0x200000, 0x400000);
            crate::num::lemma_mul_bound(cax as int, gb as int, 0x200000, 0x400000);
            crate::num::lemma_mul_bound(cby as int, beta_a as int, 0x200000, 0x100000000000);
            crate::num::lemma_mul_bound(cay as int, beta_b as int, 0x200000, 0x100000000000);
            crate::num::lemma_mul_bound(cbx as int, beta_a as int, 0x200000, 0x100000000000);
            crate::num::lemma_mul_bound(cax as int, beta_b as int, 0x200000, 0x100000000000);
        }
        let dx0 = cby * ga - cay * gb;
        let dy0 = cax * gb - cbx * ga;
        let ex0 = cby * beta_a - cay * beta_b;
        let ey0 = cax * beta_b - cbx * beta_a;
        proof {
            assert(dy0 == -(b.center.x as int) * (ga as int) + (a.center.x as int) * (gb as int))
                by (nonlinear_arith)
                requires
                    dy0 == cax * gb - cbx * ga,
                    cax == a.center.x as int,
                    cbx == b.center.x as int,
            {}
            assert(ey0 == -(b.center.x as int) * (beta_a as int) + (a.center.x as int) * (
            beta_b as int)) by (nonlinear_arith)
                requires
                    ey0 == cax * beta_b - cbx * beta_a,
                    cax == a.center.x as int,
                    cbx == b.center.x as int,
            {}
        }
        let wide_bound: i128 = 0x2000000000000000;
        let wide = !(-wide_bound <= ex0 && ex0 <= wide_bound) || !(-wide_bound <= ey0 && ey0
            <= wide_bound);
        proof {
            crate::num::lemma_div_bounds(dx0 as int, 32);
            crate::num::lemma_div_bounds(dy0 as int, 32);
            crate::num::lemma_div_bounds(ex0 as int, 32);
            crate::num::lemma_div_bounds(ey0 as int, 32);
            crate::num::lemma_div_bounds(d0 as int, 32);
            vstd::arithmetic::div_mod::lemma_div_is_ordered(
                ex0 as int,
                0x40000000000000000,
                32,
            );
            vstd::arithmetic::div_mod::lemma_div_is_ordered(
                -0x40000000000000000,
                ex0 as int,
                32,
            );
            vstd::arithmetic::div_mod::lemma_div_is_ordered(
                ey0 as int,
                0x40000000000000000,
                32,
            );
            vstd::arithmetic::div_mod::lemma_div_is_ordered(
                -0x40000000000000000,
                ey0 as int,
                32,
            );
            vstd::arithmetic::div_mod::lemma_div_multiples_vanish(0x2000000000000000, 32);
            vstd::arithmetic::div_mod::lemma_div_multiples_vanish(-0x2000000000000000, 32);
        }
        let dxs = if wide {
            crate::num::div_round(dx0, 32)
        } else {
            dx0
        };
        let dys = if wide {
            crate::num::div_round(dy0, 32)
        } else {
            dy0
        };
        let exs = if wide {
            crate::num::div_round(ex0, 32)
        } else {
            ex0
        };
        let eys = if wide {
            crate::num::div_round(ey0, 32)
        } else {
            ey0
        };
        let ds = if wide {
            crate::num::div_round(d0, 32)
        } else {
            d0
        };
        if ds == 0 {
            return res;
        }
        proof {
            crate::num::lemma_mul_bound(dxs as int, dxs as int, 0x200000000000, 0x200000000000);
            crate::num::lemma_mul_bound(dys as int, dys as int, 0x200000000000, 0x200000000000);
            crate::num::lemma_mul_bound(ds as int, ds as int, 0x200000000000, 0x200000000000);
            crate::num::lemma_mul_bound(
                dxs as int,
                exs as int,
                0x200000000000,
                0x2000000000000000,
            );
            crate::num::lemma_mul_bound(
                dys as int,
                eys as int,
                0x200000000000,
                0x2000000000000000,
            );
            crate::num::lemma_mul_bound(
                exs as int,
                exs as int,
                0x2000000000000000,
                0x2000000000000000,
            );
            crate::num::lemma_mul_bound(
                eys as int,
                eys as int,
                0x2000000000000000,
                0x2000000000000000,
            );
        }
        let qa = dxs * dxs + dys * dys - ds * ds;
        let qb = 2 * (dxs * exs + dys * eys);
        let qc = exs * exs + eys * eys;
        let red = crate::num::reduce3(qa, qb, qc, 64);
        let red_bound: i128 = 0x2000000000000000;
        if red.0 < -red_bound || red.0 > red_bound || red.1 < -red_bound || red.1 > red_bound
            || red.2 < -red_bound || red.2 > red_bound {
            return res;
        }
        let roots = crate::num::second_deg_eq(red.0, red.1, red.2);
        proof {
            let tr = tct0_roots(red.0 as int, red.1 as int, red.2 as int);
            if roots.len() == 0 {
                assert(tr =~= Seq::<int>::empty());
            } else if roots.len() == 1 {
                assert(tr =~= seq![roots[0] as int]);
            } else {
                assert(tr =~= seq![roots[0] as int, roots[1] as int]);
            }
        }
        if roots.len() >= 1 {
            if let Some(t) = tct0_build(dxs, dys, exs, eys, ds, roots[0]) {
                res.push(t);
            }
        }
        if roots.len() == 2 {
            if let Some(t) = tct0_build(dxs, dys, exs, eys, ds, roots[1]) {
                res.push(t);
            }
        }
        proof {
            let tr = tct0_roots(red.0 as int, red.1 as int, red.2 as int);
            if tr.len() == 0 {
                assert(res@ =~= tct0_spec(a, b));
            } else if tr.len() == 1 {
                assert(res@ =~= opt_seq(
                    tct0_cand(
                        dxs as int,
                        dys as int,
                        exs as int,
                        eys as int,
                        ds as int,
                        tr[0],
                    ),
                ));
            } else {
                assert(res@ =~= opt_seq(
                    tct0_cand(
                        dxs as int,
                        dys as int,
                        exs as int,
                        eys as int,
                        ds as int,
                        tr[0],
                    ),
                ) + opt_seq(
                    tct0_cand(
                        dxs as int,
                        dys as int,
                        exs as int,
                        eys as int,
                        ds as int,
                        tr[1],
                    ),
                ));
            }
        }
        res
    }
}

/// Builds one candidate tangent circle of the translated problem from one
/// quadratic root, discarding roots or centers beyond the working range.
fn tct0_build(dxs: i128, dys: i128, exs: i128, eys: i128, ds: i128, rho: i128) -> (r: Option<
    Circle,
>)
    requires
        -0x200000000000 <= dxs <= 0x200000000000,
        -0x200000000000 <= dys <= 0x200000000000,
        -0x2000000000000000 <= exs <= 0x2000000000000000,
        -0x2000000000000000 <= eys <= 0x2000000000000000,
        -0x200000000000 <= ds <= 0x200000000000,
        ds != 0,
    ensures
        r == tct0_cand(dxs as int, dys as int, exs as int, eys as int, ds as int, rho as int),
        r is Some ==> bounded(r->Some_0.center, 0x400000) && -0x400000 <= r->Some_0.radius
            <= 0x400000,
{
    if rho < -0x400000 || rho > 0x400000 {
        return None;
    }
    proof {
        crate::num::lemma_mul_bound(dxs as int, rho as int, 0x200000000000, 0x400000);
        crate::num::lemma_mul_bound(dys as int, rho as int, 0x200000000000, 0x400000);
    }
    let cx = crate::num::div_round(dxs * rho + exs, ds);
    let cy = crate::num::div_round(dys * rho + eys, ds);
    if cx < -0x400000 || cx > 0x400000 || cy < -0x400000 || cy > 0x400000 {
        return None;
    }
    Some(Circle { radius: rho as i64, center: Point { x: cx as i64, y: cy as i64 } })
}

/// Carries a tangent circle of the translated problem back to the original
/// frame, keeping it only when it lies in the working range.
fn tct_untranslate(c: Circle, t: Circle) -> (r: Option<Circle>)
    requires
        circle_wf(c),
        bounded(t.center, 0x400000),
        -0x400000 <= t.radius <= 0x400000,
    ensures
        r == tct_out(c, t),
        r is Some ==> circle_wf(r->Some_0),
{
    let g = crate::GEOM_LIMIT;
    let radius = t.radius - c.radius;
    let cx = t.center.x + c.center.x;
    let cy = t.center.y + c.center.y;
    if radius < -g || radius > g || cx < -g || cx > g || cy < -g || cy > g {
        return None;
    }
    Some(Circle { radius, center: Point { x: cx, y: cy } })
}

/// Signed area determinant of the matrix whose rows are `(a_i, b_i, 1)`.
pub open spec fn det_ones(a1: int, b1: int, a2: int, b2: int, a3: int, b3: int) -> int {
    a1 * (b2 - b3) - b1 * (a2 - a3) + (a2 * b3 - a3 * b2)
}

/// Twice the signed area of the triangle `p1 p2 p3`.
pub open spec fn circ3_m1(p1: Point, p2: Point, p3: Point) -> int {
    det_ones(
        p1.x as int,
        p1.y as int,
        p2.x as int,
        p2.y as int,
        p3.x as int,
        p3.y as int,
    )
}

/// Numerator of the circumcenter's x coordinate.
pub open spec fn circ3_m2(p1: Point, p2: Point, p3: Point) -> int {
    det_ones(
        p1.x * p1.x + p1.y * p1.y,
        p1.y as int,
        p2.x * p2.x + p2.y * p2.y,
        p2.y as int,
        p3.x * p3.x + p3.y * p3.y,
        p3.y as int,
    )
}

/// Numerator of the circumcenter's y coordinate, before negation.
pub open spec fn circ3_m3(p1: Point, p2: Point, p3: Point) -> int {
    det_ones(
        p1.x * p1.x + p1.y * p1.y,
        p1.x as int,
        p2.x * p2.x + p2.y * p2.y,
        p2.x as int,
        p3.x * p3.x + p3.y * p3.y,
        p3.x as int,
    )
}

/// The circle through three points: the circumcenter by Cramer's rule with
/// rounded-down divisions, the radius as the rounded-down distance to the
/// first point.  Collinear points, or a circle beyond the coordinate range,
/// yield nothing.
pub open spec fn circ3_spec(p1: Point, p2: Point, p3: Point) -> Option<Circle> {
    let g = crate::GEOM_LIMIT as int;
    let m1 = circ3_m1(p1, p2, p3);
    if m1 == 0 {
        None
    } else {
        let cx = crate::num::div_q(circ3_m2(p1, p2, p3), 2 * m1);
        let cy = crate::num::div_q(-circ3_m3(p1, p2, p3), 2 * m1);
        if !(-g <= cx <= g) || !(-g <= cy <= g) {
            None
        } else {
            let center = Point { x: cx as i64, y: cy as i64 };
            let r = fsqrt(dist2_spec(center, p1) as nat) as int;
            if r > g {
                None
            } else {
                Some(Circle { radius: r as i64, center })
            }
        }
    }
}

/// The circle through two endpoints with a given fixed-point bend: the bend
/// (in units of `BEND_ONE`) fixes the radius, the extreme point of the arc
/// is placed a quarter turn counterclockwise of the chord, and the circle
/// through the three points is taken.  Coincident endpoints, or a circle
/// beyond the coordinate range, yield nothing.
pub open spec fn feb_spec(a: Point, b: Point, bend: int) -> Option<Circle> {
    let g = crate::GEOM_LIMIT as int;
    let one = crate::BEND_ONE as int;
    if a == b {
        None
    } else {
        let crd = fsqrt(dist2_spec(a, b) as nat) as int;
        let h = fsqrt(((2 * one - bend) * bend) as nat) as int;
        let radius = (crd * one) / (2 * h);
        if radius > g {
            None
        } else {
            let ox = crate::num::div_q(-((b.y - a.y) * bend * radius), one * crd);
            let oy = crate::num::div_q((b.x - a.x) * bend * radius, one * crd);
            let amx = (a.x + b.x) / 2 + ox;
            let amy = (a.y + b.y) / 2 + oy;
            if !(-g <= amx <= g) || !(-g <= amy <= g) {
                None
            } else {
                circ3_spec(a, b, Point { x: amx as i64, y: amy as i64 })
            }
        }
    }
}

/// One candidate tangent circle of the translated three-circle problem: the
/// quadratic root is its radius, its center follows linearly; roots or
/// centers beyond the working range are discarded.
pub open spec fn tct0_cand(dxs: int, dys: int, exs: int, eys: int, ds: int, rho: int) -> Option<
    Circle,
> {
    if !(-0x400000 <= rho <= 0x400000) {
        None
    } else {
        let cx = crate::num::div_q(dxs * rho + exs, ds);
        let cy = crate::num::div_q(dys * rho + eys, ds);
        if !(-0x400000 <= cx <= 0x400000) || !(-0x400000 <= cy <= 0x400000) {
            None
        } else {
            Some(Circle { radius: rho as i64, center: Point { x: cx as i64, y: cy as i64 } })
        }
    }
}

/// A possible circle as a sequence of zero or one circles.
pub open spec fn opt_seq(o: Option<Circle>) -> Seq<Circle> {
    match o {
        Option::Some(c) => seq![c],
        Option::None => Seq::empty(),
    }
}

/// The roots that the quadratic solver returns for the reduced equation.
pub open spec fn tct0_roots(a: int, b: int, c: int) -> Seq<int> {
    let d = crate::num::quad_disc(a, b, c);
    if a == 0 || d < 0 {
        Seq::empty()
    } else if d == 0 {
        seq![crate::num::quad_root_low(a, b, c)]
    } else {
        seq![crate::num::quad_root_low(a, b, c), crate::num::quad_root_high(a, b, c)]
    }
}

/// The circles tangent to two circles and to the origin-centered "third
/// circle of radius zero", after the problem has been translated so the
/// third circle is that origin: the tangent center is an affine function of
/// its radius, and substituting it into the tangency condition leaves one
/// quadratic in the radius.  All divisions are rounded down; when the linear
/// coefficients grow too large everything is rescaled together, which keeps
/// the roots up to rounding.
pub open spec fn tct0_spec(a: Circle, b: Circle) -> Seq<Circle> {
    let cax = a.center.x as int;
    let cay = a.center.y as int;
    let cbx = b.center.x as int;
    let cby = b.center.y as int;
    let ra = a.radius as int;
    let rb = b.radius as int;
    let det = cax * cby - cay * cbx;
    if det == 0 {
        Seq::empty()
    } else {
        let d0 = 2 * det;
        let ga = -(2 * ra);
        let gb = -(2 * rb);
        let beta_a = cax * cax + cay * cay - ra * ra;
        let beta_b = cbx * cbx + cby * cby - rb * rb;
        let dx0 = cby * ga - cay * gb;
        let dy0 = -cbx * ga + cax * gb;
        let ex0 = cby * beta_a - cay * beta_b;
        let ey0 = -cbx * beta_a + cax * beta_b;
        let wide = !(-0x2000000000000000 <= ex0 <= 0x2000000000000000) || !(-0x2000000000000000
            <= ey0 <= 0x2000000000000000);
        let dxs = if wide { dx0 / 32 } else { dx0 };
        let dys = if wide { dy0 / 32 } else { dy0 };
        let exs = if wide { ex0 / 32 } else { ex0 };
        let eys = if wide { ey0 / 32 } else { ey0 };
        let ds = if wide { d0 / 32 } else { d0 };
        if ds == 0 {
            Seq::empty()
        } else {
            let qa = dxs * dxs + dys * dys - ds * ds;
            let qb = 2 * (dxs * exs + dys * eys);
            let qc = exs * exs + eys * eys;
            let red = crate::num::reduce3_spec(qa, qb, qc, 64);
            if !(-0x2000000000000000 <= red.0 <= 0x2000000000000000) || !(-0x2000000000000000
                <= red.1 <= 0x2000000000000000) || !(-0x2000000000000000 <= red.2
                <= 0x2000000000000000) {
                Seq::empty()
            } else {
                let roots = tct0_roots(red.0, red.1, red.2);
                if roots.len() == 0 {
                    Seq::empty()
                } else if roots.len() == 1 {
                    opt_seq(tct0_cand(dxs, dys, exs, eys, ds, roots[0]))
                } else {
                    opt_seq(tct0_cand(dxs, dys, exs, eys, ds, roots[0])) + opt_seq(
                        tct0_cand(dxs, dys, exs, eys, ds, roots[1]),
                    )
                }
            }
        }
    }
}

/// The difference of two circles, radius and center alike.
pub open spec fn circle_sub(a: Circle, c: Circle) -> Circle {
    Circle {
        radius: (a.radius - c.radius) as i64,
        center: Point { x: (a.center.x - c.center.x) as i64, y: (a.center.y - c.center.y) as i64 },
    }
}

/// A tangent circle of the translated problem carried back to the original
/// frame, kept only when it lies in the working range.
pub open spec fn tct_out(c: Circle, t: Circle) -> Option<Circle> {
    let g = crate::GEOM_LIMIT as int;
    let radius = t.radius - c.radius;
    let cx = t.center.x + c.center.x;
    let cy = t.center.y + c.center.y;
    if !(-g <= radius <= g) || !(-g <= cx <= g) || !(-g <= cy <= g) {
        None
    } else {
        Some(Circle { radius: radius as i64, center: Point { x: cx as i64, y: cy as i64 } })
    }
}

/// The circles simultaneously tangent to three circles, per the sign
/// convention of each input radius: the third circle is translated to the
/// origin, the reduced problem is solved, and the results are carried back.
pub open spec fn tct_spec(a: Circle, b: Circle, c: Circle) -> Seq<Circle> {
    let base = tct0_spec(circle_sub(a, c), circle_sub(b, c));
    if base.len() == 0 {
        Seq::empty()
    } else if base.len() == 1 {
        opt_seq(tct_out(c, base[0]))
    } else {
        opt_seq(tct_out(c, base[0])) + opt_seq(tct_out(c, base[1]))
    }
}

} // verus!
