//! Segments of an arc-bounded polygon and the collision events that arise
//! while such a polygon shrinks.

use vstd::prelude::*;

use crate::circle::Circle;
use crate::point::{bounded, dist2_spec, Point};

verus! {

/// Whether a segment's arc curves toward the polygon's interior or away
/// from it.
#[derive(Clone, Copy, Debug, PartialEq, Eq, Structural)]
pub enum Bend {
    Inward,
    Outward,
}

/// One edge of an arc polygon: its arc runs from `initial` to the next
/// segment's `initial` on the circle around `center`.
#[derive(Clone, Copy, Debug, PartialEq, Eq, Structural)]
pub struct Segment {
    pub initial: Point,
    pub center: Point,
    pub bend: Bend,
}

/// An offset amount paired with the planar point where something happens.
#[derive(Clone, Copy, Debug, PartialEq, Eq, Structural)]
pub struct TimePlace {
    pub amount: i64,
    pub place: Point,
}

/// What kind of topological change a collision causes.
#[derive(Clone, Copy, Debug, PartialEq, Eq, Structural)]
pub enum CollisionType {
    Opposite { first_idx: usize, second_idx: usize },
    Neighbors { idx: usize },
    RadiusZero { idx: usize },
}

/// A collision event: when and where the polygon's topology changes, and
/// how.
#[derive(Clone, Copy, Debug, PartialEq, Eq, Structural)]
pub struct Collision {
    pub time_place: TimePlace,
    pub kind: CollisionType,
}

/// The segment's scalars are in range and its arc has a nonzero radius.
pub open spec fn seg_wf(s: Segment) -> bool {
    &&& bounded(s.initial, crate::COORD_LIMIT as int)
    &&& bounded(s.center, crate::COORD_LIMIT as int)
    &&& s.initial != s.center
}

/// The radius of the segment's circle: the rounded-down distance from its
/// center to its initial point.
pub open spec fn seg_radius_spec(s: Segment) -> int {
    crate::num::fsqrt(dist2_spec(s.initial, s.center) as nat) as int
}

impl Segment {
    /// The vector from the circle center to the segment's initial point.
    pub fn ca(&self) -> (r: Point)
        requires
            seg_wf(*self),
        ensures
            r.x == self.initial.x - self.center.x,
            r.y == self.initial.y - self.center.y,
    {
        Point { x: self.initial.x - self.center.x, y: self.initial.y - self.center.y }
    }

    /// The vector from the circle center to the next segment's initial
    /// point.
    pub fn cb(&self, b_initial: &Point) -> (r: Point)
        requires
            seg_wf(*self),
            bounded(*b_initial, crate::COORD_LIMIT as int),
        ensures
            r.x == b_initial.x - self.center.x,
            r.y == b_initial.y - self.center.y,
    {
        Point { x: b_initial.x - self.center.x, y: b_initial.y - self.center.y }
    }

    /// The radius of the segment's circle, rounded down.
    pub fn radius(&self) -> (r: i64)
        requires
            seg_wf(*self),
        ensures
            r == seg_radius_spec(*self),
            1 <= r <= crate::GEOM_LIMIT,
    {
        proof {
            assert(dist2_spec(self.initial, self.center) >= 1) by (nonlinear_arith)
                requires
                    dist2_spec(self.initial, self.center) == (self.initial.x - self.center.x) * (
                    self.initial.x - self.center.x) + (self.initial.y - self.center.y) * (
                    self.initial.y - self.center.y),
                    self.initial != self.center,
            {}
            assert(dist2_spec(self.initial, self.center) <= 0x10000000000) by (nonlinear_arith)
                requires
                    dist2_spec(self.initial, self.center) == (self.initial.x - self.center.x) * (
                    self.initial.x - self.center.x) + (self.initial.y - self.center.y) * (
                    self.initial.y - self.center.y),
                    -0x80000 <= self.initial.x - self.center.x <= 0x80000,
                    -0x80000 <= self.initial.y - self.center.y <= 0x80000,
            {}
        }
        let r = crate::point::dist_floor(self.initial, self.center);
        proof {
            crate::num::lemma_fsqrt(dist2_spec(self.initial, self.center) as nat);
            assert(r >= 1) by (nonlinear_arith)
                requires
                    1 <= dist2_spec(self.initial, self.center),
                    dist2_spec(self.initial, self.center) < (r as int + 1) * (r as int + 1),
                    0 <= r,
            {}
            assert(r <= 0x100000) by (nonlinear_arith)
                requires
                    r as int * r as int <= 0x10000000000,
                    0 <= r,
            {}
        }
        r
    }

    /// The segment's circle.
    pub fn circle(&self) -> (r: Circle)
        requires
            seg_wf(*self),
        ensures
            r.center == self.center,
            r.radius == seg_radius_spec(*self),
            1 <= r.radius <= crate::GEOM_LIMIT,
    {
        Circle { radius: self.radius(), center: self.center }
    }

    /// The segment's circle with the radius negated for outward bends: the
    /// signed-offset convention of the collision solvers.
    pub fn circle_neg_r(&self) -> (r: Circle)
        requires
            seg_wf(*self),
        ensures
            r.center == self.center,
            r.radius == if self.bend is Inward {
                seg_radius_spec(*self)
            } else {
                -seg_radius_spec(*self)
            },
            -(crate::GEOM_LIMIT as int) <= r.radius <= crate::GEOM_LIMIT as int,
    {
        let rad = self.radius();
        let signed = if matches!(self.bend, Bend::Inward) {
            rad
        } else {
            -rad
        };
        Circle { radius: signed, center: self.center }
    }

    /// The outward normal of the chord to the next initial point: the chord
    /// rotated a quarter turn clockwise.
    pub fn outward(&self, next_initial: &Point) -> (r: Point)
        requires
            seg_wf(*self),
            bounded(*next_initial, crate::COORD_LIMIT as int),
        ensures
            r.x == next_initial.y - self.initial.y,
            r.y == self.initial.x - next_initial.x,
    {
        Point {
            x: next_initial.y - self.initial.y,
            y: self.initial.x - next_initial.x,
        }
    }

    /// The extreme point of the segment's arc: the chord midpoint displaced
    /// half the outward normal, toward the outside for outward bends and
    /// toward the inside otherwise, rounded down.
    pub fn extreme(&self, next_initial: &Point) -> (r: Point)
        requires
            seg_wf(*self),
            bounded(*next_initial, crate::COORD_LIMIT as int),
        ensures
            r.x == (self.initial.x + next_initial.x) / 2 + (if self.bend is Outward {
                (next_initial.y - self.initial.y) / 2
            } else {
                (self.initial.y - next_initial.y) / 2
            }),
            r.y == (self.initial.y + next_initial.y) / 2 + (if self.bend is Outward {
                (self.initial.x - next_initial.x) / 2
            } else {
                (next_initial.x - self.initial.x) / 2
            }),
    {
        let mid = crate::point::midpoint(self.initial, *next_initial);
        let ow = self.outward(next_initial);
        let sx = if matches!(self.bend, Bend::Outward) {
            crate::num::div_floor(ow.x as i128, 2)
        } else {
            crate::num::div_floor(-(ow.x as i128), 2)
        };
        let sy = if matches!(self.bend, Bend::Outward) {
            crate::num::div_floor(ow.y as i128, 2)
        } else {
            crate::num::div_floor(-(ow.y as i128), 2)
        };
        Point { x: mid.x + sx as i64, y: mid.y + sy as i64 }
    }

    /// The angular order key of the vector to the initial point, measured
    /// from the positive x-axis.
    pub fn angle_a(&self) -> (r: u64)
        requires
            seg_wf(*self),
        ensures
            r == crate::point::rel_key_spec(Point { x: 1, y: 0 }, self.ca_spec()),
    {
        crate::point::rel_key(Point { x: 1, y: 0 }, self.ca())
    }

    /// The angular order key of the vector to the next initial point,
    /// measured from the positive x-axis.
    pub fn angle_b(&self, next_initial: &Point) -> (r: u64)
        requires
            seg_wf(*self),
            bounded(*next_initial, crate::COORD_LIMIT as int),
            *next_initial != self.center,
        ensures
            r == crate::point::rel_key_spec(Point { x: 1, y: 0 }, self.cb_spec(*next_initial)),
    {
        crate::point::rel_key(Point { x: 1, y: 0 }, self.cb(next_initial))
    }

    /// The angular order key of the arc's own sweep, from its initial point
    /// to the next initial point in the direction of its bend.
    pub fn angle(&self, next_initial: &Point) -> (r: u64)
        requires
            seg_wf(*self),
            bounded(*next_initial, crate::COORD_LIMIT as int),
            *next_initial != self.center,
        ensures
            r == angle_gen_spec(self.ca_spec(), self.cb_spec(*next_initial), self.bend),
    {
        angle_gen(self.ca(), self.cb(next_initial), self.bend)
    }

    /// The vector from the center to the initial point, as a spec value.
    pub open spec fn ca_spec(&self) -> Point {
        Point {
            x: (self.initial.x - self.center.x) as i64,
            y: (self.initial.y - self.center.y) as i64,
        }
    }

    /// The vector from the center to another initial point, as a spec
    /// value.
    pub open spec fn cb_spec(&self, b_initial: Point) -> Point {
        Point {
            x: (b_initial.x - self.center.x) as i64,
            y: (b_initial.y - self.center.y) as i64,
        }
    }
}

/// The key of the sweep between two radius vectors in the direction a bend
/// prescribes: counterclockwise from `ca` to `cb` for outward bends,
/// clockwise otherwise.
pub open spec fn angle_gen_spec(ca: Point, cb: Point, bend: Bend) -> int {
    if bend is Outward {
        crate::point::rel_key_spec(ca, cb)
    } else {
        crate::point::rel_key_spec(cb, ca)
    }
}

/// Runs the sweep-key computation of `angle_gen_spec`.
pub fn angle_gen(ca: Point, cb: Point, bend: Bend) -> (r: u64)
    requires
        bounded(ca, 0x1000000),
        bounded(cb, 0x1000000),
        !(ca.x == 0 && ca.y == 0),
        !(cb.x == 0 && cb.y == 0),
    ensures
        r == angle_gen_spec(ca, cb, bend),
{
    if matches!(bend, Bend::Outward) {
        crate::point::rel_key(ca, cb)
    } else {
        crate::point::rel_key(cb, ca)
    }
}

} // verus!
