//! A 2D computational-geometry kernel for shapes bounded by circular arcs.
//!
//! Coordinates, radii and offset amounts are fixed-point integers: the caller
//! picks a unit (for instance 1/16 of a pixel) and passes every length as a
//! whole number of units.  Angles are fractions of a full turn measured in
//! units of `1 / ANGLE_TURN`.  All geometric predicates are exact over these
//! integers; square roots are rounded down and every rounded result is pinned
//! by its defining formula in the contracts.

use vstd::prelude::*;

pub mod angle;
pub mod arc;
pub mod arc_graph;
pub mod arc_poly;
pub mod circle;
pub mod num;
pub mod point;
pub mod segment;

verus! {

/// Polygon vertices and segment centers are kept within this bound of the
/// origin, so that the circles they define stay within `GEOM_LIMIT`.
pub const COORD_LIMIT: i64 = 0x40000;

/// Centers and radii of circles and arcs are kept within this bound, so that
/// every intermediate product of the kernel fits in `i128`.
pub const GEOM_LIMIT: i64 = 0x100000;

/// Fixed-point scale of arc bends: this value stands for a bend of one, the
/// half-circle bend.
pub const BEND_ONE: i64 = 0x10000;

} // verus!
