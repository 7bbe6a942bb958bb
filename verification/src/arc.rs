//! Circular arcs.  An arc stores its two endpoints, its underlying circle
//! and its winding, so the span predicates are exact sign tests on cross and
//! dot products; no transcendental function is ever needed.

use vstd::prelude::*;

use crate::circle::Circle;
use crate::point::{bounded, cross, dist2_spec, dot, Point};

verus! {

/// A circular arc from `start` to `end` on the circle of `radius` around
/// `center`, traversed counterclockwise when `ccw` holds and clockwise
/// otherwise.  A negative radius is the inside-out convention of signed
/// offsets.
#[derive(Clone, Copy, Debug, PartialEq, Eq, Structural)]
pub struct Arc {
    pub start: Point,
    pub end: Point,
    pub radius: i64,
    pub center: Point,
    pub ccw: bool,
}

/// The arc's scalars are in range and its endpoints are distinct from its
/// center, so its direction vectors are nonzero.
pub open spec fn arc_wf(a: Arc) -> bool {
    &&& 1 <= a.radius <= 0x200000 || -0x200000 <= a.radius <= -1
    &&& bounded(a.center, 0x400000)
    &&& bounded(a.start, 0x800000)
    &&& bounded(a.end, 0x800000)
    &&& a.start != a.center
    &&& a.end != a.center
}

/// The start direction vector, from the center to the start point.
pub open spec fn sdir(a: Arc) -> Point {
    Point { x: (a.start.x - a.center.x) as i64, y: (a.start.y - a.center.y) as i64 }
}

/// The end direction vector, from the center to the end point.
pub open spec fn edir(a: Arc) -> Point {
    Point { x: (a.end.x - a.center.x) as i64, y: (a.end.y - a.center.y) as i64 }
}

/// Whether the direction `v` lies in the counterclockwise sweep from `u` to
/// `w`, both boundary rays included.  Equal directions mean an empty sweep.
pub open spec fn dir_between_ccw(u: Point, w: Point, v: Point) -> bool {
    let cr = cross(u, w);
    let dt = dot(u, w);
    if cr > 0 {
        cross(u, v) >= 0 && cross(v, w) >= 0
    } else if cr < 0 {
        cross(u, v) >= 0 || cross(v, w) >= 0
    } else if dt < 0 {
        cross(u, v) >= 0
    } else {
        cross(u, v) == 0 && dot(u, v) > 0
    }
}

/// Whether the point `p` lies in the arc's angular span around its center.
/// The center itself is outside every span.
pub open spec fn arc_in_span(a: Arc, p: Point) -> bool {
    if p == a.center {
        false
    } else {
        let v = Point { x: (p.x - a.center.x) as i64, y: (p.y - a.center.y) as i64 };
        if a.ccw {
            dir_between_ccw(sdir(a), edir(a), v)
        } else {
            dir_between_ccw(edir(a), sdir(a), v)
        }
    }
}

/// A valid arc is well-formed and spans a nonzero angle.
pub open spec fn arc_valid(a: Arc) -> bool {
    arc_wf(a) && !(cross(sdir(a), edir(a)) == 0 && dot(sdir(a), edir(a)) > 0)
}

/// The arc's endpoints rescaled onto a circle of another radius around the
/// same center, rounded down and clamped into the working range.
pub open spec fn rescaled_dir(d: Point, old_len: int, radius: int) -> (int, int) {
    let sx = crate::num::div_q(d.x * radius, old_len);
    let sy = crate::num::div_q(d.y * radius, old_len);
    (clamp_off(sx), clamp_off(sy))
}

/// The arc with its endpoints rescaled onto a circle of another radius, as
/// `with_radius` computes it.  Keeping the radius keeps the arc unchanged.
pub open spec fn with_radius_spec(a: Arc, radius: i64) -> Arc {
    if radius == a.radius {
        a
    } else {
        let so = rescaled_dir(
            sdir(a),
            crate::num::fsqrt(crate::point::norm2(sdir(a)) as nat) as int,
            radius as int,
        );
        let eo = rescaled_dir(
            edir(a),
            crate::num::fsqrt(crate::point::norm2(edir(a)) as nat) as int,
            radius as int,
        );
        Arc {
            start: Point { x: (a.center.x + so.0) as i64, y: (a.center.y + so.1) as i64 },
            end: Point { x: (a.center.x + eo.0) as i64, y: (a.center.y + eo.1) as i64 },
            radius,
            center: a.center,
            ccw: a.ccw,
        }
    }
}

/// Clamps an offset into the working range.
pub open spec fn clamp_off(x: int) -> int {
    if x < -0x400000 {
        -0x400000
    } else if x > 0x400000 {
        0x400000
    } else {
        x
    }
}

/// Runs the offset clamp.
fn clamp_off_i(x: i128) -> (r: i64)
    ensures
        r == clamp_off(x as int),
{
    if x < -0x400000 {
        -0x400000
    } else if x > 0x400000 {
        0x400000
    } else {
        x as i64
    }
}

impl Arc {
    /// An arc running clockwise from `start` to `end`.
    pub fn from_angles_clockwise(start: Point, end: Point, radius: i64, center: Point) -> (r: Arc)
        ensures
            r == (Arc { start, end, radius, center, ccw: false }),
    {
        Arc { start, end, radius, center, ccw: false }
    }

    /// An arc running counterclockwise from `start` to `end`.
    pub fn from_angles_counterclockwise(start: Point, end: Point, radius: i64, center: Point) -> (r:
        Arc)
        ensures
            r == (Arc { start, end, radius, center, ccw: true }),
    {
        Arc { start, end, radius, center, ccw: true }
    }

    /// The arc through `a` and `b` whose bend (in units of `BEND_ONE`,
    /// counterclockwise-positive, so a positive bend bulges to the left of
    /// the chord) fixes its circle.  The endpoints are stored exactly, so
    /// reading them back returns `a` and `b` unchanged.
    pub fn from_bend_and_endpoints(a: Point, b: Point, bend: i64) -> (r: Option<Arc>)
        requires
            bounded(a, crate::COORD_LIMIT as int),
            bounded(b, crate::COORD_LIMIT as int),
            1 <= bend <= 2 * crate::BEND_ONE - 1 || -(2 * crate::BEND_ONE) + 1 <= bend <= -1,
        ensures
            r is Some ==> {
                let arc = r->Some_0;
                &&& arc.start == a
                &&& arc.end == b
                &&& arc.ccw == (bend < 0)
                &&& arc_wf(arc)
                &&& Some(
                    Circle { radius: arc.radius, center: arc.center },
                ) == if bend > 0 {
                    crate::circle::feb_spec(a, b, bend as int)
                } else {
                    crate::circle::feb_spec(b, a, -bend as int)
                }
            },
            r is None ==> (if bend > 0 {
                crate::circle::feb_spec(a, b, bend as int)
            } else {
                crate::circle::feb_spec(b, a, -bend as int)
            }) is None || !arc_wf(
                Arc {
                    start: a,
                    end: b,
                    radius: (if bend > 0 {
                        crate::circle::feb_spec(a, b, bend as int)
                    } else {
                        crate::circle::feb_spec(b, a, -bend as int)
                    })->Some_0.radius,
                    center: (if bend > 0 {
                        crate::circle::feb_spec(a, b, bend as int)
                    } else {
                        crate::circle::feb_spec(b, a, -bend as int)
                    })->Some_0.center,
                    ccw: bend < 0,
                },
            ),
    {
        let circle = if bend > 0 {
            Circle::from_endpoints_and_bend(a, b, bend)
        } else {
            Circle::from_endpoints_and_bend(b, a, -bend)
        };
        match circle {
            None => None,
            Some(c) => {
                let arc = Arc { start: a, end: b, radius: c.radius, center: c.center, ccw: bend < 0 };
                if arc.radius < 1 {
                    return None;
                }
                if a.x == c.center.x && a.y == c.center.y {
                    return None;
                }
                if b.x == c.center.x && b.y == c.center.y {
                    return None;
                }
                Some(arc)
            },
        }
    }

    /// The arc's underlying circle.
    pub fn to_circle(self) -> (r: Circle)
        ensures
            r.radius == self.radius,
            r.center == self.center,
    {
        Circle { radius: self.radius, center: self.center }
    }

    /// The same angular span on a circle of another radius around the same
    /// center: both endpoints are rescaled radially, rounded down and kept
    /// within the working range.
    pub fn with_radius(self, radius: i64) -> (r: Arc)
        requires
            arc_wf(self),
            -0x200000 <= radius <= 0x200000,
        ensures
            r == with_radius_spec(self, radius),
            r.radius == radius,
            r.center == self.center,
            r.ccw == self.ccw,
            bounded(r.start, 0x800000),
            bounded(r.end, 0x800000),
    {
        if radius == self.radius {
            return self;
        }
        let sx = self.start.x as i128 - self.center.x as i128;
        let sy = self.start.y as i128 - self.center.y as i128;
        let ex = self.end.x as i128 - self.center.x as i128;
        let ey = self.end.y as i128 - self.center.y as i128;
        proof {
            crate::num::lemma_mul_bound(sx as int, sx as int, 0x1000000, 0x1000000);
            crate::num::lemma_mul_bound(sy as int, sy as int, 0x1000000, 0x1000000);
            crate::num::lemma_mul_bound(ex as int, ex as int, 0x1000000, 0x1000000);
            crate::num::lemma_mul_bound(ey as int, ey as int, 0x1000000, 0x1000000);
            assert(sx * sx + sy * sy >= 1) by (nonlinear_arith)
                requires
                    !(sx == 0 && sy == 0),
            {}
            assert(ex * ex + ey * ey >= 1) by (nonlinear_arith)
                requires
                    !(ex == 0 && ey == 0),
            {}
        }
        let ns2 = sx * sx + sy * sy;
        let ne2 = ex * ex + ey * ey;
        let ns = crate::num::isqrt(ns2 as u128) as i128;
        let ne = crate::num::isqrt(ne2 as u128) as i128;
        proof {
            assert(ns >= 1) by (nonlinear_arith)
                requires
                    1 <= ns2 as int,
                    (ns2 as int) < (ns as int + 1) * (ns as int + 1),
                    0 <= ns,
            {}
            assert(ne >= 1) by (nonlinear_arith)
                requires
                    1 <= ne2 as int,
                    (ne2 as int) < (ne as int + 1) * (ne as int + 1),
                    0 <= ne,
            {}
            crate::num::lemma_mul_bound(sx as int, radius as int, 0x1000000, 0x200000);
            crate::num::lemma_mul_bound(sy as int, radius as int, 0x1000000, 0x200000);
            crate::num::lemma_mul_bound(ex as int, radius as int, 0x1000000, 0x200000);
            crate::num::lemma_mul_bound(ey as int, radius as int, 0x1000000, 0x200000);
        }
        let rsx = clamp_off_i(crate::num::div_round(sx * radius as i128, ns));
        let rsy = clamp_off_i(crate::num::div_round(sy * radius as i128, ns));
        let rex = clamp_off_i(crate::num::div_round(ex * radius as i128, ne));
        let rey = clamp_off_i(crate::num::div_round(ey * radius as i128, ne));
        Arc {
            start: Point { x: self.center.x + rsx, y: self.center.y + rsy },
            end: Point { x: self.center.x + rex, y: self.center.y + rey },
            radius,
            center: self.center,
            ccw: self.ccw,
        }
    }

    /// The same set of points traversed the other way.
    pub fn reversed(self) -> (r: Arc)
        ensures
            r.start == self.end,
            r.end == self.start,
            r.radius == self.radius,
            r.center == self.center,
            r.ccw == !self.ccw,
    {
        Arc {
            start: self.end,
            end: self.start,
            radius: self.radius,
            center: self.center,
            ccw: !self.ccw,
        }
    }

    /// The stored start point.
    pub fn start_point(self) -> (r: Point)
        ensures
            r == self.start,
    {
        self.start
    }

    /// The stored end point.
    pub fn end_point(self) -> (r: Point)
        ensures
            r == self.end,
    {
        self.end
    }

    /// The angular order key of the start direction, measured from the
    /// positive x-axis.
    pub fn start_angle(self) -> (r: u64)
        requires
            arc_wf(self),
        ensures
            r == crate::point::rel_key_spec(Point { x: 1, y: 0 }, sdir(self)),
    {
        let d = Point { x: self.start.x - self.center.x, y: self.start.y - self.center.y };
        crate::point::rel_key(Point { x: 1, y: 0 }, d)
    }

    /// The angular order key of the end direction, measured from the
    /// positive x-axis.
    pub fn end_angle(self) -> (r: u64)
        requires
            arc_wf(self),
        ensures
            r == crate::point::rel_key_spec(Point { x: 1, y: 0 }, edir(self)),
    {
        let d = Point { x: self.end.x - self.center.x, y: self.end.y - self.center.y };
        crate::point::rel_key(Point { x: 1, y: 0 }, d)
    }

    /// The arc's scalar parameters, endpoints first.
    pub fn params(self) -> (r: [i64; 7])
        ensures
            r[0] == self.start.x,
            r[1] == self.start.y,
            r[2] == self.end.x,
            r[3] == self.end.y,
            r[4] == self.radius,
            r[5] == self.center.x,
            r[6] == self.center.y,
    {
        [
            self.start.x,
            self.start.y,
            self.end.x,
            self.end.y,
            self.radius,
            self.center.x,
            self.center.y,
        ]
    }

    /// Whether the arc is well-formed and spans a nonzero angle.  Invalid
    /// arcs are never intersected and yield no points.
    pub fn valid(self) -> (r: bool)
        ensures
            r == arc_valid(self),
    {
        let rad_ok = (1 <= self.radius && self.radius <= 0x200000) || (-0x200000 <= self.radius
            && self.radius <= -1);
        let b1: i64 = 0x400000;
        let b2: i64 = 0x800000;
        let ctr_ok = -b1 <= self.center.x && self.center.x <= b1 && -b1 <= self.center.y
            && self.center.y <= b1;
        let pts_ok = -b2 <= self.start.x && self.start.x <= b2 && -b2 <= self.start.y
            && self.start.y <= b2 && -b2 <= self.end.x && self.end.x <= b2 && -b2 <= self.end.y
            && self.end.y <= b2;
        let distinct = !(self.start.x == self.center.x && self.start.y == self.center.y) && !(
        self.end.x == self.center.x && self.end.y == self.center.y);
        if !(rad_ok && ctr_ok && pts_ok && distinct) {
            return false;
        }
        let u = Point { x: self.start.x - self.center.x, y: self.start.y - self.center.y };
        let w = Point { x: self.end.x - self.center.x, y: self.end.y - self.center.y };
        let cr = crate::point::cross_i(u, w);
        let dt = crate::point::dot_i(u, w);
        !(cr == 0 && dt > 0)
    }

    /// The point of the arc at its angular midpoint, rounded down.
    pub fn mid_arc_point(self) -> (r: Point)
        requires
            arc_wf(self),
        ensures
            (r.x as int, r.y as int) == mid_arc_spec(self),
            bounded(r, 0x800000),
    {
        let (sx, sy) = (
            self.start.x as i128 - self.center.x as i128,
            self.start.y as i128 - self.center.y as i128,
        );
        let (ex, ey) = (
            self.end.x as i128 - self.center.x as i128,
            self.end.y as i128 - self.center.y as i128,
        );
        let (ux, uy) = if self.ccw {
            (sx, sy)
        } else {
            (ex, ey)
        };
        let (wx, wy) = if self.ccw {
            (ex, ey)
        } else {
            (sx, sy)
        };
        proof {
            crate::num::lemma_mul_bound(ux as int, wy as int, 0x1000000, 0x1000000);
            crate::num::lemma_mul_bound(uy as int, wx as int, 0x1000000, 0x1000000);
        }
        let (bx, by) = if ux + wx == 0 && uy + wy == 0 {
            (-uy, ux)
        } else if ux * wy - uy * wx < 0 {
            (-(ux + wx), -(uy + wy))
        } else {
            (ux + wx, uy + wy)
        };
        proof {
            crate::num::lemma_mul_bound(bx as int, bx as int, 0x2000000, 0x2000000);
            crate::num::lemma_mul_bound(by as int, by as int, 0x2000000, 0x2000000);
            assert(!(bx == 0 && by == 0)) by (nonlinear_arith)
                requires
                    !(ux == 0 && uy == 0),
                    (bx == -uy && by == ux) || (bx == -(ux + wx) && by == -(uy + wy) && !(ux + wx
                        == 0 && uy + wy == 0)) || (bx == ux + wx && by == uy + wy && !(ux + wx == 0
                        && uy + wy == 0)),
            {}
            assert(bx * bx + by * by >= 1) by (nonlinear_arith)
                requires
                    !(bx == 0 && by == 0),
            {}
        }
        let n2 = bx * bx + by * by;
        let n = crate::num::isqrt(n2 as u128) as i128;
        proof {
            assert(n >= 1) by (nonlinear_arith)
                requires
                    1 <= n2 as int,
                    (n2 as int) < (n as int + 1) * (n as int + 1),
                    0 <= n,
            {}
        }
        let rabs = if self.radius < 0 {
            -(self.radius as i128)
        } else {
            self.radius as i128
        };
        proof {
            crate::num::lemma_mul_bound(bx as int, rabs as int, 0x4000000, 0x200000);
            crate::num::lemma_mul_bound(by as int, rabs as int, 0x4000000, 0x200000);
        }
        let mx = clamp_off_i(crate::num::div_round(bx * rabs, n));
        let my = clamp_off_i(crate::num::div_round(by * rabs, n));
        Point { x: self.center.x + mx, y: self.center.y + my }
    }

    /// The distance from `p` to the arc, rounded as its parts are.
    pub fn distance_to_point(self, p: Point) -> (r: i64)
        requires
            arc_wf(self),
            bounded(p, 0x1000000),
        ensures
            r == arc_dist_spec(self, p),
    {
        let ds = crate::point::dist_floor(p, self.start);
        let de = crate::point::dist_floor(p, self.end);
        let m = if ds <= de {
            ds
        } else {
            de
        };
        if self.in_span(p) {
            let dcc = crate::point::dist_floor(p, self.center);
            proof {
                assert(dist2_spec(p, self.center) <= 0x10000000000000) by (nonlinear_arith)
                    requires
                        dist2_spec(p, self.center) == (p.x - self.center.x) * (p.x
                            - self.center.x) + (p.y - self.center.y) * (p.y - self.center.y),
                        -0x1400000 <= p.x - self.center.x <= 0x1400000,
                        -0x1400000 <= p.y - self.center.y <= 0x1400000,
                {}
                assert(dcc <= 0x8000000) by (nonlinear_arith)
                    requires
                        dcc as int * dcc as int <= 0x10000000000000,
                        0 <= dcc,
                {}
            }
            let dci = dcc as i128 - self.radius as i128;
            let dc = if dci < 0 {
                (-dci) as i64
            } else {
                dci as i64
            };
            if dc <= m {
                dc
            } else {
                m
            }
        } else {
            m
        }
    }

    /// The points where this arc meets another: their circles' intersection
    /// points, filtered to the points lying in both spans.  Invalid arcs
    /// meet nothing.
    pub fn intersect(self, other: Arc) -> (res: Vec<Point>)
        ensures
            res@ == arc_isect_spec(self, other),
            forall|i: int| 0 <= i < res.len() ==> bounded(#[trigger] res[i], 0x800000),
    {
        let mut res: Vec<Point> = Vec::new();
        if !self.valid() || !other.valid() {
            return res;
        }
        let pts = self.to_circle().intersect(other.to_circle());
        if pts.len() >= 1 {
            let p = *pts.get(0).unwrap();
            if self.in_span(p) && other.in_span(p) {
                res.push(p);
            }
        }
        if pts.len() == 2 {
            let p = *pts.get(1).unwrap();
            if self.in_span(p) && other.in_span(p) {
                res.push(p);
            }
        }
        proof {
            let ca = Circle { radius: self.radius, center: self.center };
            let cb = Circle { radius: other.radius, center: other.center };
            let n = crate::circle::circle_isect_count(ca, cb);
            if n == 0 {
                assert(res@ =~= arc_isect_spec(self, other));
            } else if n == 1 {
                assert(res@ =~= span_filter(
                    self,
                    other,
                    crate::circle::circle_tangent_pt(ca, cb),
                ));
            } else {
                assert(res@ =~= span_filter(self, other, crate::circle::circle_pt_plus(ca, cb))
                    + span_filter(self, other, crate::circle::circle_pt_minus(ca, cb)));
            }
        }
        res
    }

    /// Whether `p` lies within the arc's angular span, boundary included.
    pub fn in_span(self, p: Point) -> (r: bool)
        requires
            arc_wf(self),
            bounded(p, 0x800000000000),
        ensures
            r == arc_in_span(self, p),
    {
        if p.x == self.center.x && p.y == self.center.y {
            return false;
        }
        let v = Point { x: p.x - self.center.x, y: p.y - self.center.y };
        let s = Point { x: self.start.x - self.center.x, y: self.start.y - self.center.y };
        let e = Point { x: self.end.x - self.center.x, y: self.end.y - self.center.y };
        let (u, w) = if self.ccw {
            (s, e)
        } else {
            (e, s)
        };
        let cr = crate::point::cross_i(u, w);
        if cr > 0 {
            crate::point::cross_i(u, v) >= 0 && crate::point::cross_i(v, w) >= 0
        } else if cr < 0 {
            crate::point::cross_i(u, v) >= 0 || crate::point::cross_i(v, w) >= 0
        } else if crate::point::dot_i(u, w) < 0 {
            crate::point::cross_i(u, v) >= 0
        } else {
            crate::point::cross_i(u, v) == 0 && crate::point::dot_i(u, v) > 0
        }
    }
}

/// The direction of the arc's angular midpoint: the bisector of the sweep,
/// negated for arcs longer than a half turn, and a quarter turn from the
/// start for an exact half turn.
pub open spec fn bisector_dir(a: Arc) -> (int, int) {
    let u = if a.ccw {
        sdir(a)
    } else {
        edir(a)
    };
    let w = if a.ccw {
        edir(a)
    } else {
        sdir(a)
    };
    if u.x + w.x == 0 && u.y + w.y == 0 {
        (-u.y as int, u.x as int)
    } else if cross(u, w) < 0 {
        (-(u.x + w.x), -(u.y + w.y))
    } else {
        (u.x + w.x, u.y + w.y)
    }
}

/// The point of the arc at its angular midpoint: the bisector direction
/// scaled to the radius, rounded down and clamped into the working range.
pub open spec fn mid_arc_spec(a: Arc) -> (int, int) {
    let b = bisector_dir(a);
    let n = crate::num::fsqrt((b.0 * b.0 + b.1 * b.1) as nat) as int;
    let rabs = vstd::math::abs(a.radius as int);
    (
        a.center.x + clamp_off(crate::num::div_q(b.0 * rabs, n)),
        a.center.y + clamp_off(crate::num::div_q(b.1 * rabs, n)),
    )
}

/// The points where two arcs meet: the intersection of their circles,
/// filtered to the points lying in both spans.  Invalid arcs meet nothing.
pub open spec fn arc_isect_spec(a: Arc, b: Arc) -> Seq<Point> {
    if !arc_valid(a) || !arc_valid(b) {
        Seq::empty()
    } else {
        let ca = Circle { radius: a.radius, center: a.center };
        let cb = Circle { radius: b.radius, center: b.center };
        let n = crate::circle::circle_isect_count(ca, cb);
        if n == 0 {
            Seq::empty()
        } else if n == 1 {
            span_filter(a, b, crate::circle::circle_tangent_pt(ca, cb))
        } else {
            span_filter(a, b, crate::circle::circle_pt_plus(ca, cb)) + span_filter(
                a,
                b,
                crate::circle::circle_pt_minus(ca, cb),
            )
        }
    }
}

/// A candidate intersection point, kept only when it lies in both spans.
pub open spec fn span_filter(a: Arc, b: Arc, xy: (int, int)) -> Seq<Point> {
    let p = Point { x: xy.0 as i64, y: xy.1 as i64 };
    if arc_in_span(a, p) && arc_in_span(b, p) {
        seq![p]
    } else {
        Seq::empty()
    }
}

/// The distance from a point to the arc: the nearer endpoint, or the
/// distance to the circle itself where the point faces the arc.
pub open spec fn arc_dist_spec(a: Arc, p: Point) -> int {
    let ds = crate::num::fsqrt(dist2_spec(p, a.start) as nat) as int;
    let de = crate::num::fsqrt(dist2_spec(p, a.end) as nat) as int;
    let m = if ds <= de {
        ds
    } else {
        de
    };
    if arc_in_span(a, p) {
        let dc = vstd::math::abs(
            crate::num::fsqrt(dist2_spec(p, a.center) as nat) - a.radius,
        ) as int;
        if dc <= m {
            dc
        } else {
            m
        }
    } else {
        m
    }
}

/// Both boundary rays of a sweep between two nonzero directions lie in the
/// sweep.
proof fn lemma_between_endpoints(u: Point, w: Point)
    requires
        !(u.x == 0 && u.y == 0),
        !(w.x == 0 && w.y == 0),
    ensures
        dir_between_ccw(u, w, u),
        dir_between_ccw(u, w, w),
{
    let cr = cross(u, w);
    let dt = dot(u, w);
    assert(cross(u, u) == 0) by (nonlinear_arith) {}
    assert(cross(w, w) == 0) by (nonlinear_arith) {}
    assert(dot(u, u) > 0) by (nonlinear_arith)
        requires
            !(u.x == 0 && u.y == 0),
    {}
    assert(!(cr == 0 && dt == 0)) by (nonlinear_arith)
        requires
            cr == u.x * w.y - u.y * w.x,
            dt == u.x * w.x + u.y * w.y,
            !(u.x == 0 && u.y == 0),
            !(w.x == 0 && w.y == 0),
    {}
    if cr > 0 {
        assert(dir_between_ccw(u, w, u));
        assert(dir_between_ccw(u, w, w));
    } else if cr < 0 {
        assert(dir_between_ccw(u, w, u));
        assert(dir_between_ccw(u, w, w));
    } else if dt < 0 {
        assert(dir_between_ccw(u, w, u));
        assert(dir_between_ccw(u, w, w));
    } else {
        assert(dt > 0);
        assert(dir_between_ccw(u, w, u));
        assert(dir_between_ccw(u, w, w));
    }
}

/// The bisector direction of a valid arc lies in its span: the point one
/// bisector step from the center is `in_span`.  (The executable
/// `mid_arc_point` additionally rescales that direction to the radius,
/// rounding each coordinate.)
pub proof fn lemma_in_span_mid(a: Arc)
    requires
        arc_valid(a),
    ensures
        arc_in_span(
            a,
            Point {
                x: (a.center.x + bisector_dir(a).0) as i64,
                y: (a.center.y + bisector_dir(a).1) as i64,
            },
        ),
{
    let u = if a.ccw {
        sdir(a)
    } else {
        edir(a)
    };
    let w = if a.ccw {
        edir(a)
    } else {
        sdir(a)
    };
    let b = bisector_dir(a);
    let p = Point { x: (a.center.x + b.0) as i64, y: (a.center.y + b.1) as i64 };
    let v = Point { x: (p.x - a.center.x) as i64, y: (p.y - a.center.y) as i64 };
    assert(v.x == b.0 && v.y == b.1);
    let cr = cross(u, w);
    let dt = dot(u, w);
    assert(!(cr == 0 && dt == 0)) by (nonlinear_arith)
        requires
            cr == u.x * w.y - u.y * w.x,
            dt == u.x * w.x + u.y * w.y,
            !(u.x == 0 && u.y == 0),
            !(w.x == 0 && w.y == 0),
    {}
    assert(!(cr == 0 && dt > 0)) by (nonlinear_arith)
        requires
            cr == u.x * w.y - u.y * w.x,
            dt == u.x * w.x + u.y * w.y,
            !(cross(sdir(a), edir(a)) == 0 && dot(sdir(a), edir(a)) > 0),
            cross(sdir(a), edir(a)) == sdir(a).x * edir(a).y - sdir(a).y * edir(a).x,
            dot(sdir(a), edir(a)) == sdir(a).x * edir(a).x + sdir(a).y * edir(a).y,
            (u == sdir(a) && w == edir(a)) || (u == edir(a) && w == sdir(a)),
    {}
    if u.x + w.x == 0 && u.y + w.y == 0 {
        assert(b == (-u.y as int, u.x as int));
        assert(cr == 0 && dt < 0) by (nonlinear_arith)
            requires
                cr == u.x * w.y - u.y * w.x,
                dt == u.x * w.x + u.y * w.y,
                w.x == -u.x && w.y == -u.y,
                !(u.x == 0 && u.y == 0),
        {}
        assert(cross(u, v) > 0) by (nonlinear_arith)
            requires
                cross(u, v) == u.x * v.y - u.y * v.x,
                v.x == -u.y && v.y == u.x,
                !(u.x == 0 && u.y == 0),
        {}
        assert(dir_between_ccw(u, w, v));
    } else if cr < 0 {
        assert(b == (-(u.x + w.x), -(u.y + w.y)));
        assert(cross(u, v) >= 0) by (nonlinear_arith)
            requires
                cross(u, v) == u.x * v.y - u.y * v.x,
                v.x == -(u.x + w.x) && v.y == -(u.y + w.y),
                u.x * w.y - u.y * w.x < 0,
        {}
        assert(dir_between_ccw(u, w, v));
    } else if cr > 0 {
        assert(b == (u.x + w.x, u.y + w.y));
        assert(cross(u, v) >= 0 && cross(v, w) >= 0) by (nonlinear_arith)
            requires
                cross(u, v) == u.x * v.y - u.y * v.x,
                cross(v, w) == v.x * w.y - v.y * w.x,
                v.x == u.x + w.x && v.y == u.y + w.y,
                u.x * w.y - u.y * w.x > 0,
        {}
        assert(dir_between_ccw(u, w, v));
    } else {
        // cr == 0 and dt < 0: opposite directions of unequal length.
        assert(dt < 0);
        assert(b == (u.x + w.x, u.y + w.y));
        assert(cross(u, v) == 0) by (nonlinear_arith)
            requires
                cross(u, v) == u.x * v.y - u.y * v.x,
                v.x == u.x + w.x && v.y == u.y + w.y,
                u.x * w.y - u.y * w.x == 0,
        {}
        assert(dir_between_ccw(u, w, v));
    }
    assert(p != a.center) by {
        assert(!(b.0 == 0 && b.1 == 0)) by (nonlinear_arith)
            requires
                !(u.x == 0 && u.y == 0),
                (b.0 == -u.y && b.1 == u.x) || (!(u.x + w.x == 0 && u.y + w.y == 0) && ((b.0 == -(
                u.x + w.x) && b.1 == -(u.y + w.y)) || (b.0 == u.x + w.x && b.1 == u.y + w.y))),
        {}
    }
}

/// Both endpoints of a well-formed arc lie in its own span.
pub proof fn lemma_in_span_endpoints(a: Arc)
    requires
        arc_wf(a),
    ensures
        arc_in_span(a, a.start),
        arc_in_span(a, a.end),
{
    let s = sdir(a);
    let e = edir(a);
    assert(s.x == a.start.x - a.center.x && s.y == a.start.y - a.center.y);
    assert(e.x == a.end.x - a.center.x && e.y == a.end.y - a.center.y);
    assert(!(s.x == 0 && s.y == 0));
    assert(!(e.x == 0 && e.y == 0));
    if a.ccw {
        lemma_between_endpoints(s, e);
    } else {
        lemma_between_endpoints(e, s);
    }
    assert(arc_in_span(a, a.start)) by {
        assert(a.start != a.center);
        let v = Point { x: (a.start.x - a.center.x) as i64, y: (a.start.y - a.center.y) as i64 };
        assert(v == s);
    }
    assert(arc_in_span(a, a.end)) by {
        assert(a.end != a.center);
        let v = Point { x: (a.end.x - a.center.x) as i64, y: (a.end.y - a.center.y) as i64 };
        assert(v == e);
    }
}

} // verus!
