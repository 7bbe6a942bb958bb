//! Closed polygons whose edges are circular arcs, and the event-driven
//! algorithm that shrinks such a polygon inward: the polygon is offset
//! uniformly until the first collision event, the event's topological
//! change is applied (a split into two polygons, or the loss of one
//! segment), and the remainders are shrunk further.

use vstd::prelude::*;

use crate::circle::{circle_isect_count, circle_pt_minus, Circle};
use crate::point::{bounded, dist2_spec, Point};
use crate::segment::{
    Bend, Collision, CollisionType, Segment, seg_radius_spec, seg_wf, TimePlace,
};

verus! {

broadcast use vstd::seq_lib::group_to_multiset_ensures;

/// Why a shrink step could not produce a polygon.
#[derive(Clone, Copy, Debug, PartialEq, Eq, Structural)]
pub enum ShrinkError {
    /// Two adjusted neighbor circles no longer meet in two points: the
    /// polygon has already degenerated at this offset.
    Degenerate,
    /// A neighbor pair mixes inward and outward bends, a configuration the
    /// two-circle intersection rule does not cover.
    Unsupported,
    /// A new vertex left the coordinate range.
    OutOfRange,
}

/// A closed, cyclically ordered sequence of arc segments.
#[derive(Debug)]
pub struct ArcPoly {
    pub segments: Vec<Segment>,
}

/// Every segment is well-formed and the polygon is small enough for index
/// arithmetic.
pub open spec fn poly_wf(p: ArcPoly) -> bool {
    &&& forall|i: int| 0 <= i < p.segments.len() ==> seg_wf(#[trigger] p.segments[i])
    &&& p.segments@.len() <= 0x100000
}

/// A segment's circle grown by the offset amount.
pub open spec fn grown_circle(s: Segment, amount: i64) -> Circle {
    Circle { radius: (seg_radius_spec(s) + amount) as i64, center: s.center }
}

/// The result of the naive shrink for the segment at `j`: the circles of
/// the cyclically previous segment and of this one are grown by the offset
/// amount, and the new vertex is the second of their two intersection
/// points.
pub open spec fn sn_seg(segs: Seq<Segment>, amount: i64, j: int) -> Result<Segment, ShrinkError> {
    let n = segs.len() as int;
    let i = if j == 0 {
        n - 1
    } else {
        j - 1
    };
    let a = segs[i];
    let b = segs[j];
    if !(a.bend is Inward && b.bend is Inward) {
        Result::Err(ShrinkError::Unsupported)
    } else {
        let ca = grown_circle(a, amount);
        let cb = grown_circle(b, amount);
        if circle_isect_count(ca, cb) != 2 {
            Result::Err(ShrinkError::Degenerate)
        } else {
            let p = circle_pt_minus(ca, cb);
            if !(-(crate::COORD_LIMIT as int) <= p.0 <= crate::COORD_LIMIT as int) || !(-(
            crate::COORD_LIMIT as int) <= p.1 <= crate::COORD_LIMIT as int) {
                Result::Err(ShrinkError::OutOfRange)
            } else {
                let q = Point { x: p.0 as i64, y: p.1 as i64 };
                if q == b.center {
                    Result::Err(ShrinkError::OutOfRange)
                } else {
                    Result::Ok(Segment { initial: q, center: b.center, bend: b.bend })
                }
            }
        }
    }
}

/// Whether the naive shrink succeeds at every segment.
pub open spec fn sn_ok(segs: Seq<Segment>, amount: i64) -> bool {
    forall|j: int| 0 <= j < segs.len() ==> (#[trigger] sn_seg(segs, amount, j)) is Ok
}

/// The whole naively shrunk polygon, where it exists.
pub open spec fn sn_result(segs: Seq<Segment>, amount: i64) -> Option<Seq<Segment>> {
    if sn_ok(segs, amount) {
        Some(Seq::new(segs.len(), |j: int| sn_seg(segs, amount, j)->Ok_0))
    } else {
        None
    }
}

impl ArcPoly {
    /// The number of segments.
    pub fn len(&self) -> (n: usize)
        ensures
            n == self.segments@.len(),
    {
        self.segments.len()
    }

    /// The polygon with the segment at `idx` removed.
    pub fn with_removed(&self, idx: usize) -> (r: ArcPoly)
        requires
            poly_wf(*self),
            idx < self.segments@.len(),
        ensures
            r.segments@ == self.segments@.remove(idx as int),
            poly_wf(r),
    {
        let ghost segs = self.segments@;
        let mut out: Vec<Segment> = Vec::new();
        let mut i: usize = 0;
        while i < self.segments.len()
            invariant
                i <= segs.len(),
                self.segments@ == segs,
                idx < segs.len(),
                out@ == if i <= idx {
                    segs.subrange(0, i as int)
                } else {
                    segs.subrange(0, idx as int) + segs.subrange(idx + 1, i as int)
                },
            decreases self.segments.len() - i,
        {
            if i != idx {
                out.push(*self.segments.get(i).unwrap());
            }
            proof {
                if i + 1 <= idx {
                    assert(out@ =~= segs.subrange(0, i + 1));
                } else {
                    assert(out@ =~= segs.subrange(0, idx as int) + segs.subrange(
                        idx + 1,
                        i + 1,
                    ));
                }
            }
            i = i + 1;
        }
        proof {
            assert(out@ =~= segs.remove(idx as int));
        }
        ArcPoly { segments: out }
    }

    /// Shrinks the polygon uniformly by `amount`: every vertex moves to the
    /// second intersection point of its two neighboring circles grown by
    /// `amount`.  Fails at the first segment whose circles no longer meet
    /// twice, mix bends, or put the new vertex out of range.
    pub fn shrink_naive(&self, amount: i64) -> (r: Result<ArcPoly, ShrinkError>)
        requires
            poly_wf(*self),
            0 <= amount <= crate::COORD_LIMIT,
        ensures
            r is Ok <==> sn_ok(self.segments@, amount),
            r is Ok ==> r->Ok_0.segments@ == sn_result(self.segments@, amount)->Some_0 && poly_wf(
                r->Ok_0,
            ),
            r is Err ==> exists|j: int|
                0 <= j < self.segments@.len() && #[trigger] sn_seg(self.segments@, amount, j)
                    == Result::<Segment, ShrinkError>::Err(r->Err_0) && (forall|k: int|
                    0 <= k < j ==> (#[trigger] sn_seg(self.segments@, amount, k)) is Ok),
    {
        let ghost segs = self.segments@;
        let n = self.segments.len();
        let mut out: Vec<Segment> = Vec::new();
        let mut j: usize = 0;
        while j < n
            invariant
                j <= n,
                n == segs.len(),
                self.segments@ == segs,
                poly_wf(*self),
                0 <= amount <= crate::COORD_LIMIT,
                out@.len() == j,
                forall|k: int|
                    0 <= k < j ==> (#[trigger] sn_seg(segs, amount, k)) is Ok && out@[k] == sn_seg(
                        segs,
                        amount,
                        k,
                    )->Ok_0,
                forall|k: int| 0 <= k < j ==> seg_wf(#[trigger] out@[k]),
            decreases n - j,
        {
            let i = if j == 0 {
                n - 1
            } else {
                j - 1
            };
            let a = *self.segments.get(i).unwrap();
            let b = *self.segments.get(j).unwrap();
            if !(matches!(a.bend, Bend::Inward) && matches!(b.bend, Bend::Inward)) {
                proof {
                    assert(sn_seg(segs, amount, j as int) == Result::<Segment, ShrinkError>::Err(
                        ShrinkError::Unsupported,
                    ));
                }
                return Result::Err(ShrinkError::Unsupported);
            }
            let ca = Circle { radius: a.radius() + amount, center: a.center };
            let cb = Circle { radius: b.radius() + amount, center: b.center };
            proof {
                assert(ca == grown_circle(a, amount));
                assert(cb == grown_circle(b, amount));
            }
            let cols = ca.intersect(cb);
            if cols.len() < 2 {
                proof {
                    assert(sn_seg(segs, amount, j as int) == Result::<Segment, ShrinkError>::Err(
                        ShrinkError::Degenerate,
                    ));
                }
                return Result::Err(ShrinkError::Degenerate);
            }
            let q = *cols.get(1).unwrap();
            proof {
                assert(circle_isect_count(ca, cb) == 2);
                assert((q.x as int, q.y as int) == circle_pt_minus(ca, cb));
            }
            let lim = crate::COORD_LIMIT;
            if q.x < -lim || q.x > lim || q.y < -lim || q.y > lim {
                proof {
                    assert(sn_seg(segs, amount, j as int) == Result::<Segment, ShrinkError>::Err(
                        ShrinkError::OutOfRange,
                    ));
                }
                return Result::Err(ShrinkError::OutOfRange);
            }
            if q.x == b.center.x && q.y == b.center.y {
                proof {
                    assert(q == b.center);
                    assert(sn_seg(segs, amount, j as int) == Result::<Segment, ShrinkError>::Err(
                        ShrinkError::OutOfRange,
                    ));
                }
                return Result::Err(ShrinkError::OutOfRange);
            }
            proof {
                assert(q != b.center);
                assert(sn_seg(segs, amount, j as int) == Result::<Segment, ShrinkError>::Ok(
                    Segment { initial: q, center: b.center, bend: b.bend },
                ));
            }
            out.push(Segment { initial: q, center: b.center, bend: b.bend });
            j = j + 1;
        }
        proof {
            if n > 0 {
                assert(sn_ok(segs, amount));
            } else {
                assert(sn_ok(segs, amount));
            }
            assert(out@ =~= sn_result(segs, amount)->Some_0);
        }
        Result::Ok(ArcPoly { segments: out })
    }
}

impl ArcPoly {
    /// The opposite-collision event of one pair of segments, if any.
    #[verifier::rlimit(100)]
    fn opposite_pair(&self, i: usize, j: usize) -> (r: Option<Collision>)
        requires
            poly_wf(*self),
            i < j,
            j < self.segments@.len(),
        ensures
            r == opp_pair(self.segments@, i as int, j as int),
            r is Some ==> collision_ok(self.segments@, r->Some_0),
    {
        let ghost segs = self.segments@;
        let n = self.segments.len();
        let a = *self.segments.get(i).unwrap();
        let b = *self.segments.get(j).unwrap();
        if i == 0 && j == n - 1 {
            return None;
        }
        if !(matches!(a.bend, Bend::Inward) && matches!(b.bend, Bend::Inward)) {
            return None;
        }
        let ra = a.radius();
        let rb = b.radius();
        let d = crate::point::dist_floor(a.center, b.center);
        if d == 0 {
            return None;
        }
        proof {
            assert(dist2_spec(a.center, b.center) <= 0x10000000000) by (nonlinear_arith)
                requires
                    dist2_spec(a.center, b.center) == (a.center.x - b.center.x) * (a.center.x
                        - b.center.x) + (a.center.y - b.center.y) * (a.center.y - b.center.y),
                    -0x80000 <= a.center.x - b.center.x <= 0x80000,
                    -0x80000 <= a.center.y - b.center.y <= 0x80000,
            {}
            assert(d <= 0x100000) by (nonlinear_arith)
                requires
                    d as int * d as int <= 0x10000000000,
                    0 <= d,
            {}
        }
        let t = crate::num::div_floor(d as i128 - ra as i128 - rb as i128, 2) as i64;
        proof {
            vstd::arithmetic::div_mod::lemma_div_is_ordered(
                d as int - ra as int - rb as int,
                0x200000,
                2,
            );
            crate::num::lemma_div_bounds(d as int - ra as int - rb as int, 2);
        }
        if t < 0 || t + 1 > crate::COORD_LIMIT {
            return None;
        }
        proof {
            crate::num::lemma_mul_bound(
                ra as int + t as int,
                b.center.x as int - a.center.x as int,
                0x200000,
                0x80000,
            );
            crate::num::lemma_mul_bound(
                ra as int + t as int,
                b.center.y as int - a.center.y as int,
                0x200000,
                0x80000,
            );
        }
        let pxq = crate::num::div_floor(
            (ra as i128 + t as i128) * (b.center.x as i128 - a.center.x as i128),
            d as i128,
        );
        let pyq = crate::num::div_floor(
            (ra as i128 + t as i128) * (b.center.y as i128 - a.center.y as i128),
            d as i128,
        );
        proof {
            crate::num::lemma_div_bounds(
                (ra as int + t as int) * (b.center.x as int - a.center.x as int),
                d as int,
            );
            crate::num::lemma_div_bounds(
                (ra as int + t as int) * (b.center.y as int - a.center.y as int),
                d as int,
            );
        }
        let px = a.center.x as i128 + pxq;
        let py = a.center.y as i128 + pyq;
        if !(-0x400000 <= px && px <= 0x400000 && -0x400000 <= py && py <= 0x400000) {
            return None;
        }
        let place = Point { x: px as i64, y: py as i64 };
        let naive = match self.shrink_naive(t + 1) {
            Result::Err(_) => {
                proof {
                    assert(sn_result(segs, (t + 1) as i64) is None);
                }
                return None;
            },
            Result::Ok(p) => p,
        };
        let inx = if i + 1 == n {
            0
        } else {
            i + 1
        };
        let jnx = if j + 1 == n {
            0
        } else {
            j + 1
        };
        let fir = *naive.segments.get(i).unwrap();
        let fnx = *naive.segments.get(inx).unwrap();
        let sec = *naive.segments.get(j).unwrap();
        let snx = *naive.segments.get(jnx).unwrap();
        let base1 = Point { x: fnx.initial.x - fir.center.x, y: fnx.initial.y - fir.center.y };
        let v1p = Point { x: place.x - fir.center.x, y: place.y - fir.center.y };
        let v1a = Point { x: fir.initial.x - fir.center.x, y: fir.initial.y - fir.center.y };
        let base2 = Point { x: snx.initial.x - sec.center.x, y: snx.initial.y - sec.center.y };
        let v2p = Point { x: place.x - sec.center.x, y: place.y - sec.center.y };
        let v2a = Point { x: sec.initial.x - sec.center.x, y: sec.initial.y - sec.center.y };
        if (base1.x == 0 && base1.y == 0) || (v1p.x == 0 && v1p.y == 0) || (v1a.x == 0 && v1a.y
            == 0) || (base2.x == 0 && base2.y == 0) || (v2p.x == 0 && v2p.y == 0) || (v2a.x == 0
            && v2a.y == 0) {
            return None;
        }
        let fbv = crate::point::rel_key(base1, v1p);
        let fba = crate::point::rel_key(base1, v1a);
        let sbv = crate::point::rel_key(base2, v2p);
        let sba = crate::point::rel_key(base2, v2a);
        if fbv < fba && sbv < sba {
            Some(
                Collision {
                    time_place: TimePlace { amount: t, place },
                    kind: CollisionType::Opposite { first_idx: i, second_idx: j },
                },
            )
        } else {
            None
        }
    }

    /// Every opposite collision to come: for each non-adjacent pair of
    /// inward segments, the offset at which their growing circles become
    /// tangent, kept when the tangency point lies within both spans.
    pub fn opposite_collisions(&self) -> (res: Vec<Collision>)
        requires
            poly_wf(*self),
        ensures
            res@ == opp_rec(self.segments@, 0, 2),
            forall|k: int|
                0 <= k < res.len() ==> collision_ok(self.segments@, #[trigger] res[k]),
    {
        let ghost segs = self.segments@;
        let n = self.segments.len();
        let mut res: Vec<Collision> = Vec::new();
        let mut i: usize = 0;
        while i < n
            invariant
                i <= n,
                n == segs.len(),
                self.segments@ == segs,
                poly_wf(*self),
                res@ + opp_rec(segs, i as nat, (i + 2) as nat) == opp_rec(segs, 0, 2),
                forall|k: int|
                    0 <= k < res.len() ==> collision_ok(segs, #[trigger] res[k]),
            decreases n - i,
        {
            let mut j: usize = i + 2;
            while j < n
                invariant
                    i < n,
                    i + 2 <= j,
                    j <= n || j == i + 2,
                    n == segs.len(),
                    self.segments@ == segs,
                    poly_wf(*self),
                    res@ + opp_rec(segs, i as nat, j as nat) == opp_rec(segs, 0, 2),
                    forall|k: int|
                        0 <= k < res.len() ==> collision_ok(segs, #[trigger] res[k]),
                decreases n - j,
            {
                match self.opposite_pair(i, j) {
                    Some(c) => {
                        res.push(c);
                    },
                    None => {},
                }
                j = j + 1;
            }
            proof {
                if j < i + 2 {
                } else {
                    assert(opp_rec(segs, i as nat, j as nat) == opp_rec(
                        segs,
                        (i + 1) as nat,
                        (i + 3) as nat,
                    ));
                }
            }
            i = i + 1;
        }
        res
    }

    /// The neighbor-collision event of one tangent circle of one triple.
    fn neighbor_candidate(&self, i: usize, col: Circle, c: Ghost<int>) -> (r: Option<Collision>)
        requires
            poly_wf(*self),
            i < self.segments@.len(),
            0 <= c@ < nei_cols(self.segments@, i as int).len(),
            col == nei_cols(self.segments@, i as int)[c@],
            crate::circle::circle_wf(col),
        ensures
            r == nei_pair(self.segments@, i as int, c@),
            r is Some ==> collision_ok(self.segments@, r->Some_0),
    {
        let ghost segs = self.segments@;
        let n = self.segments.len();
        let t = col.radius;
        let p = col.center;
        if t < 1 || t - 1 > crate::COORD_LIMIT {
            return None;
        }
        let naive = match self.shrink_naive(t - 1) {
            Result::Err(_) => {
                proof {
                    assert(sn_result(segs, (t - 1) as i64) is None);
                }
                return None;
            },
            Result::Ok(q) => q,
        };
        let j = if i + 1 == n {
            0
        } else {
            i + 1
        };
        let sthis = *naive.segments.get(i).unwrap();
        let snext = *naive.segments.get(j).unwrap();
        let d1 = crate::point::dist2(sthis.initial, p);
        let d2v = crate::point::dist2(snext.initial, p);
        let lim2 = NEIGHBOR_LIMIT as i128 * NEIGHBOR_LIMIT as i128;
        if d1 < lim2 && d2v < lim2 {
            Some(
                Collision {
                    time_place: TimePlace { amount: t, place: p },
                    kind: CollisionType::Neighbors { idx: i },
                },
            )
        } else {
            None
        }
    }

    /// Every neighbor collision to come: for each consecutive triple, the
    /// offsets at which the three signed circles become mutually tangent,
    /// kept when the predicted meeting point nearly coincides with both
    /// moved vertices just before that offset.
    #[verifier::rlimit(100)]
    pub fn neighbor_collisions(&self) -> (res: Vec<Collision>)
        requires
            poly_wf(*self),
        ensures
            res@ == nei_rec(self.segments@, 0, 0),
            forall|k: int|
                0 <= k < res.len() ==> collision_ok(self.segments@, #[trigger] res[k]),
    {
        let ghost segs = self.segments@;
        let n = self.segments.len();
        let mut res: Vec<Collision> = Vec::new();
        let mut i: usize = 0;
        while i < n
            invariant
                i <= n,
                n == segs.len(),
                self.segments@ == segs,
                poly_wf(*self),
                res@ + nei_rec(segs, i as nat, 0) == nei_rec(segs, 0, 0),
                forall|k: int|
                    0 <= k < res.len() ==> collision_ok(segs, #[trigger] res[k]),
            decreases n - i,
        {
            let h = if i == 0 {
                n - 1
            } else {
                i - 1
            };
            let j = if i + 1 == n {
                0
            } else {
                i + 1
            };
            let prev = self.segments.get(h).unwrap().circle_neg_r();
            let this = self.segments.get(i).unwrap().circle_neg_r();
            let next = self.segments.get(j).unwrap().circle_neg_r();
            proof {
                assert(prev == neg_circle(segs[h as int]));
                assert(this == neg_circle(segs[i as int]));
                assert(next == neg_circle(segs[j as int]));
            }
            let cols = Circle::three_circle_tangent(prev, this, next);
            proof {
                assert(cols@ == nei_cols(segs, i as int));
            }
            let ghost res0 = res@;
            if cols.len() >= 1 {
                match self.neighbor_candidate(i, *cols.get(0).unwrap(), Ghost(0)) {
                    Some(c) => {
                        res.push(c);
                    },
                    None => {},
                }
            }
            let ghost res1 = res@;
            if cols.len() == 2 {
                match self.neighbor_candidate(i, *cols.get(1).unwrap(), Ghost(1)) {
                    Some(c) => {
                        res.push(c);
                    },
                    None => {},
                }
            }
            proof {
                if cols@.len() == 0 {
                    assert(nei_rec(segs, i as nat, 0) == nei_rec(segs, (i + 1) as nat, 0));
                    assert(res@ == res0);
                } else if cols@.len() == 1 {
                    assert(res1 =~= res0 + opt_col(nei_pair(segs, i as int, 0)));
                    assert(res@ == res1);
                    assert(nei_rec(segs, i as nat, 0) == opt_col(nei_pair(segs, i as int, 0))
                        + nei_rec(segs, i as nat, 1));
                    assert(nei_rec(segs, i as nat, 1) == nei_rec(segs, (i + 1) as nat, 0));
                    assert(res@ + nei_rec(segs, (i + 1) as nat, 0) =~= res0 + nei_rec(
                        segs,
                        i as nat,
                        0,
                    ));
                } else {
                    assert(cols@.len() == 2);
                    assert(res1 =~= res0 + opt_col(nei_pair(segs, i as int, 0)));
                    assert(res@ =~= res1 + opt_col(nei_pair(segs, i as int, 1)));
                    assert(nei_rec(segs, i as nat, 0) == opt_col(nei_pair(segs, i as int, 0))
                        + nei_rec(segs, i as nat, 1));
                    assert(nei_rec(segs, i as nat, 1) == opt_col(nei_pair(segs, i as int, 1))
                        + nei_rec(segs, i as nat, 2));
                    assert(nei_rec(segs, i as nat, 2) == nei_rec(segs, (i + 1) as nat, 0));
                    assert(res@ + nei_rec(segs, (i + 1) as nat, 0) =~= res0 + nei_rec(
                        segs,
                        i as nat,
                        0,
                    ));
                }
            }
            i = i + 1;
        }
        res
    }

    /// Every radius-zero collision to come: each outward segment vanishes
    /// when the offset reaches its own radius.
    pub fn radius_zero_collisions(&self) -> (res: Vec<Collision>)
        requires
            poly_wf(*self),
        ensures
            res@ == rz_rec(self.segments@, 0),
            forall|k: int|
                0 <= k < res.len() ==> collision_ok(self.segments@, #[trigger] res[k]),
    {
        let ghost segs = self.segments@;
        let n = self.segments.len();
        let mut res: Vec<Collision> = Vec::new();
        let mut i: usize = 0;
        while i < n
            invariant
                i <= n,
                n == segs.len(),
                self.segments@ == segs,
                poly_wf(*self),
                res@ + rz_rec(segs, i as nat) == rz_rec(segs, 0),
                forall|k: int|
                    0 <= k < res.len() ==> collision_ok(segs, #[trigger] res[k]),
            decreases n - i,
        {
            let s = *self.segments.get(i).unwrap();
            if matches!(s.bend, Bend::Outward) {
                res.push(
                    Collision {
                        time_place: TimePlace { amount: s.radius(), place: s.center },
                        kind: CollisionType::RadiusZero { idx: i },
                    },
                );
            }
            i = i + 1;
        }
        res
    }
}

impl ArcPoly {
    /// Every collision to come, of all three kinds, sorted ascending by
    /// offset amount.  Every offset amount is non-negative.
    pub fn future_collisions(&self) -> (res: Vec<Collision>)
        requires
            poly_wf(*self),
        ensures
            forall|a: int, b: int|
                0 <= a <= b < res.len() ==> (#[trigger] res[a]).time_place.amount
                    <= (#[trigger] res[b]).time_place.amount,
            forall|k: int|
                0 <= k < res.len() ==> collision_ok(self.segments@, #[trigger] res[k]),
            res@.to_multiset() == (opp_rec(self.segments@, 0, 2) + nei_rec(self.segments@, 0, 0)
                + rz_rec(self.segments@, 0)).to_multiset(),
    {
        let ghost segs = self.segments@;
        let mut rest = self.opposite_collisions();
        let neigh = self.neighbor_collisions();
        let rz = self.radius_zero_collisions();
        let ghost all = opp_rec(segs, 0, 2) + nei_rec(segs, 0, 0) + rz_rec(segs, 0);
        let mut i: usize = 0;
        while i < neigh.len()
            invariant
                i <= neigh@.len(),
                neigh@ == nei_rec(segs, 0, 0),
                rest@ == opp_rec(segs, 0, 2) + neigh@.subrange(0, i as int),
                forall|k: int|
                    0 <= k < rest.len() ==> collision_ok(segs, #[trigger] rest[k]),
                forall|k: int|
                    0 <= k < neigh.len() ==> collision_ok(segs, #[trigger] neigh[k]),
            decreases neigh.len() - i,
        {
            rest.push(*neigh.get(i).unwrap());
            proof {
                assert(rest@ =~= opp_rec(segs, 0, 2) + neigh@.subrange(0, i + 1));
            }
            i = i + 1;
        }
        proof {
            assert(neigh@.subrange(0, neigh@.len() as int) =~= neigh@);
        }
        let mut i: usize = 0;
        while i < rz.len()
            invariant
                i <= rz@.len(),
                rz@ == rz_rec(segs, 0),
                rest@ == opp_rec(segs, 0, 2) + nei_rec(segs, 0, 0) + rz@.subrange(0, i as int),
                forall|k: int|
                    0 <= k < rest.len() ==> collision_ok(segs, #[trigger] rest[k]),
                forall|k: int| 0 <= k < rz.len() ==> collision_ok(segs, #[trigger] rz[k]),
            decreases rz.len() - i,
        {
            rest.push(*rz.get(i).unwrap());
            proof {
                assert(rest@ =~= opp_rec(segs, 0, 2) + nei_rec(segs, 0, 0) + rz@.subrange(
                    0,
                    i + 1,
                ));
            }
            i = i + 1;
        }
        proof {
            assert(rz@.subrange(0, rz@.len() as int) =~= rz@);
            assert(rest@ =~= all);
        }
        // Sort by repeatedly extracting the earliest event.
        let mut out: Vec<Collision> = Vec::new();
        while rest.len() > 0
            invariant
                out@.to_multiset().add(rest@.to_multiset()) == all.to_multiset(),
                forall|a: int, b: int|
                    0 <= a <= b < out.len() ==> (#[trigger] out[a]).time_place.amount
                        <= (#[trigger] out[b]).time_place.amount,
                forall|a: int, r: int|
                    0 <= a < out.len() && 0 <= r < rest.len() ==> (
                    #[trigger] out[a]).time_place.amount <= (#[trigger] rest[r]).time_place.amount,
                forall|k: int| 0 <= k < out.len() ==> collision_ok(segs, #[trigger] out[k]),
                forall|k: int|
                    0 <= k < rest.len() ==> collision_ok(segs, #[trigger] rest[k]),
            decreases rest.len(),
        {
            let mut m: usize = 0;
            let mut idx: usize = 1;
            while idx < rest.len()
                invariant
                    m < idx <= rest.len() || (m == 0 && idx <= rest.len()),
                    m < rest.len(),
                    rest.len() > 0,
                    forall|k: int|
                        0 <= k < idx ==> rest[m as int].time_place.amount
                            <= (#[trigger] rest[k]).time_place.amount,
                decreases rest.len() - idx,
            {
                if rest.get(idx).unwrap().time_place.amount
                    < rest.get(m).unwrap().time_place.amount {
                    m = idx;
                }
                idx = idx + 1;
            }
            let ghost rest0 = rest@;
            let ghost out0 = out@;
            let c = rest.remove(m);
            out.push(c);
            proof {
                assert(rest@ == rest0.remove(m as int));
                assert(rest0.remove(m as int).to_multiset() =~= rest0.to_multiset().remove(
                    rest0[m as int],
                ));
                assert(out@ == out0.push(c));
                assert(out0.push(c).to_multiset() =~= out0.to_multiset().insert(c));
                assert(rest0.contains(rest0[m as int]));
                assert(rest0.to_multiset().count(c) > 0);
                assert(out@.to_multiset().add(rest@.to_multiset()) =~= out0.to_multiset().add(
                    rest0.to_multiset(),
                ));
                assert(out@.to_multiset().add(rest@.to_multiset()) =~= all.to_multiset());
                assert(forall|r: int|
                    0 <= r < rest.len() ==> c.time_place.amount
                        <= (#[trigger] rest[r]).time_place.amount) by {
                    assert(forall|r: int|
                        0 <= r < rest@.len() ==> rest@[r] == (if r < m {
                            rest0[r]
                        } else {
                            rest0[r + 1]
                        }));
                }
            }
        }
        out
    }

    /// The greatest chord length between consecutive initial points, taken
    /// over the non-cyclic windows; the largest representable length when
    /// fewer than two segments remain.
    #[verifier::rlimit(100)]
    pub fn max_arc_length(&self) -> (r: i64)
        requires
            poly_wf(*self),
        ensures
            self.segments@.len() < 2 ==> r == i64::MAX,
            self.segments@.len() >= 2 ==> (forall|k: int|
                0 <= k < self.segments@.len() - 1 ==> #[trigger] chord_len(self.segments@, k)
                    <= r) && (exists|k: int|
                0 <= k < self.segments@.len() - 1 && #[trigger] chord_len(self.segments@, k)
                    == r),
    {
        let ghost segs = self.segments@;
        let n = self.segments.len();
        if n < 2 {
            return i64::MAX;
        }
        let mut best = crate::point::dist_floor(
            self.segments.get(0).unwrap().initial,
            self.segments.get(1).unwrap().initial,
        );
        let ghost bestk = 0int;
        let mut k: usize = 1;
        while k < n - 1
            invariant
                1 <= k <= n - 1,
                n == segs.len(),
                2 <= n,
                self.segments@ == segs,
                poly_wf(*self),
                forall|m: int| 0 <= m < k ==> #[trigger] chord_len(segs, m) <= best,
                0 <= bestk < k,
                best == chord_len(segs, bestk),
            decreases n - 1 - k,
        {
            let d = crate::point::dist_floor(
                self.segments.get(k).unwrap().initial,
                self.segments.get(k + 1).unwrap().initial,
            );
            if d > best {
                best = d;
                proof {
                    bestk = k as int;
                }
            }
            k = k + 1;
        }
        best
    }

    /// Shrinks the polygon by `amount`, resolving collision events on the
    /// way: the polygon is shrunk to just past the earliest event, the
    /// event's topological change is applied, and the parts are shrunk
    /// further by the remaining amount.  Branches whose geometry
    /// degenerates are dropped; when no event intervenes, the result is the
    /// single naive shrink, or nothing where that fails.
    pub fn shrunk(&self, amount: i64) -> (res: Vec<ArcPoly>)
        requires
            poly_wf(*self),
            0 <= amount <= crate::COORD_LIMIT,
        ensures
            forall|k: int| 0 <= k < res.len() ==> poly_wf(#[trigger] res[k]),
            (forall|c: Collision|
                (opp_rec(self.segments@, 0, 2) + nei_rec(self.segments@, 0, 0) + rz_rec(
                    self.segments@,
                    0,
                )).contains(c) ==> !(0 < c.time_place.amount < amount)) ==> (if sn_ok(
                self.segments@,
                amount,
            ) {
                res@.len() == 1 && res[0].segments@ == sn_result(self.segments@, amount)->Some_0
            } else {
                res@.len() == 0
            }),
        decreases amount,
    {
        let ghost segs = self.segments@;
        let collisions = self.future_collisions();
        if collisions.len() > 0 {
            let c = *collisions.get(0).unwrap();
            let t = c.time_place.amount;
            if 0 < t && t < amount {
                proof {
                    let all = opp_rec(segs, 0, 2) + nei_rec(segs, 0, 0) + rz_rec(segs, 0);
                    assert(collisions@.contains(c)) by {
                        assert(collisions@[0] == c);
                    }
                    assert(collisions@.to_multiset().count(c) > 0);
                    assert(all.to_multiset().count(c) > 0);
                    assert(all.contains(c));
                }
                let n = self.segments.len();
                if n <= 3 {
                    return Vec::new();
                }
                match self.shrink_naive(t + 1) {
                    Result::Err(_) => {
                        return Vec::new();
                    },
                    Result::Ok(shrunk_poly) => {
                        let mut children: Vec<ArcPoly> = Vec::new();
                        match c.kind {
                            CollisionType::Opposite { first_idx, second_idx } => {
                                let place = c.time_place.place;
                                let lim = crate::COORD_LIMIT;
                                let pf = *shrunk_poly.segments.get(first_idx).unwrap();
                                let ps = *shrunk_poly.segments.get(second_idx).unwrap();
                                if place.x < -lim || place.x > lim || place.y < -lim || place.y
                                    > lim || (place.x == pf.center.x && place.y == pf.center.y)
                                    || (place.x == ps.center.x && place.y == ps.center.y) {
                                    return Vec::new();
                                }
                                let mut parts = split_opposite(
                                    shrunk_poly,
                                    place,
                                    first_idx,
                                    second_idx,
                                );
                                children.push(parts.remove(0));
                                children.push(parts.remove(0));
                            },
                            CollisionType::Neighbors { idx } => {
                                children.push(shrunk_poly.with_removed(idx));
                            },
                            CollisionType::RadiusZero { idx } => {
                                children.push(shrunk_poly.with_removed(idx));
                            },
                        }
                        let mut res: Vec<ArcPoly> = Vec::new();
                        let mut k: usize = 0;
                        while k < children.len()
                            invariant
                                k <= children@.len(),
                                0 <= amount - t <= crate::COORD_LIMIT,
                                0 < t,
                                forall|m: int|
                                    0 <= m < children.len() ==> poly_wf(#[trigger] children[m]),
                                forall|m: int|
                                    0 <= m < res.len() ==> poly_wf(#[trigger] res[m]),
                            decreases children.len() - k,
                        {
                            let mut sub = children.get(k).unwrap().shrunk(amount - t);
                            let mut k2: usize = 0;
                            while k2 < sub.len()
                                invariant
                                    k2 <= sub@.len(),
                                    forall|m: int|
                                        0 <= m < sub.len() ==> poly_wf(#[trigger] sub[m]),
                                    forall|m: int|
                                        0 <= m < res.len() ==> poly_wf(#[trigger] res[m]),
                                decreases sub.len() - k2,
                            {
                                res.push(sub.remove(0));
                                proof {
                                    assert(forall|m: int|
                                        0 <= m < sub.len() ==> poly_wf(#[trigger] sub[m]));
                                }
                            }
                            k = k + 1;
                        }
                        return res;
                    },
                }
            }
        }
        match self.shrink_naive(amount) {
            Result::Ok(p) => {
                let mut res: Vec<ArcPoly> = Vec::new();
                res.push(p);
                res
            },
            Result::Err(_) => Vec::new(),
        }
    }
}

/// Splits a polygon at an opposite collision: the two colliding segments
/// are each cut at the meeting point, and the segments between them form
/// two separate polygons.  The two parts hold `n + 2` segments together.
pub fn split_opposite(arc_poly: ArcPoly, place: Point, first_idx: usize, second_idx: usize) -> (res:
    Vec<ArcPoly>)
    requires
        poly_wf(arc_poly),
        first_idx < second_idx,
        second_idx < arc_poly.segments@.len(),
        bounded(place, crate::COORD_LIMIT as int),
        place != arc_poly.segments@[first_idx as int].center,
        place != arc_poly.segments@[second_idx as int].center,
    ensures
        res.len() == 2,
        res[0].segments@ == arc_poly.segments@.subrange(0, first_idx + 1) + seq![
            Segment {
                initial: place,
                center: arc_poly.segments@[second_idx as int].center,
                bend: arc_poly.segments@[second_idx as int].bend,
            },
        ] + arc_poly.segments@.subrange(second_idx + 1, arc_poly.segments@.len() as int),
        res[1].segments@ == seq![
            Segment {
                initial: place,
                center: arc_poly.segments@[first_idx as int].center,
                bend: arc_poly.segments@[first_idx as int].bend,
            },
        ] + arc_poly.segments@.subrange(first_idx + 1, second_idx + 1),
        res[0].segments@.len() + res[1].segments@.len() == arc_poly.segments@.len() + 2,
        poly_wf(res[0]),
        poly_wf(res[1]),
{
    let ghost segs = arc_poly.segments@;
    let n = arc_poly.segments.len();
    let right_first = Segment {
        initial: place,
        center: arc_poly.segments.get(first_idx).unwrap().center,
        bend: arc_poly.segments.get(first_idx).unwrap().bend,
    };
    let right_second = Segment {
        initial: place,
        center: arc_poly.segments.get(second_idx).unwrap().center,
        bend: arc_poly.segments.get(second_idx).unwrap().bend,
    };
    let mut part0: Vec<Segment> = Vec::new();
    let mut i: usize = 0;
    while i <= first_idx
        invariant
            i <= first_idx + 1,
            first_idx < segs.len(),
            arc_poly.segments@ == segs,
            poly_wf(arc_poly),
            part0@ == segs.subrange(0, i as int),
        decreases first_idx + 1 - i,
    {
        part0.push(*arc_poly.segments.get(i).unwrap());
        proof {
            assert(part0@ =~= segs.subrange(0, i + 1));
        }
        i = i + 1;
    }
    part0.push(right_second);
    let mut i: usize = second_idx + 1;
    while i < n
        invariant
            second_idx + 1 <= i <= n,
            n == segs.len(),
            second_idx < segs.len(),
            arc_poly.segments@ == segs,
            poly_wf(arc_poly),
            part0@ == segs.subrange(0, first_idx + 1) + seq![right_second] + segs.subrange(
                second_idx + 1,
                i as int,
            ),
            first_idx < segs.len(),
        decreases n - i,
    {
        part0.push(*arc_poly.segments.get(i).unwrap());
        proof {
            assert(part0@ =~= segs.subrange(0, first_idx + 1) + seq![right_second]
                + segs.subrange(second_idx + 1, i + 1));
        }
        i = i + 1;
    }
    let mut part1: Vec<Segment> = Vec::new();
    part1.push(right_first);
    let mut i: usize = first_idx + 1;
    while i <= second_idx
        invariant
            first_idx + 1 <= i <= second_idx + 1,
            second_idx < segs.len(),
            arc_poly.segments@ == segs,
            poly_wf(arc_poly),
            part1@ == seq![right_first] + segs.subrange(first_idx + 1, i as int),
            first_idx < segs.len(),
        decreases second_idx + 1 - i,
    {
        part1.push(*arc_poly.segments.get(i).unwrap());
        proof {
            assert(part1@ =~= seq![right_first] + segs.subrange(first_idx + 1, i + 1));
        }
        i = i + 1;
    }
    let p0 = ArcPoly { segments: part0 };
    let p1 = ArcPoly { segments: part1 };
    let mut res: Vec<ArcPoly> = Vec::new();
    res.push(p0);
    res.push(p1);
    res
}

/// How close a predicted neighbor-collision point must come to both moved
/// vertices, in units: guards against spurious roots of the tangency
/// quadratic.  Shrinking stops one unit short of the collision, which
/// leaves the vertices about the square root of twice the circle radius
/// away from the meeting point, so the guard must cover that drift for
/// every radius in range.
pub const NEIGHBOR_LIMIT: i64 = 2048;

/// The rounded-down distance between the initial points of segments `k`
/// and `k + 1`.
pub open spec fn chord_len(segs: Seq<Segment>, k: int) -> int {
    crate::num::fsqrt(dist2_spec(segs[k].initial, segs[k + 1].initial) as nat) as int
}

/// A collision event makes sense for a polygon: its indices address
/// segments, its offset amount is non-negative and its place is in range.
pub open spec fn collision_ok(segs: Seq<Segment>, c: Collision) -> bool {
    &&& c.time_place.amount >= 0
    &&& bounded(c.time_place.place, 0x400000)
    &&& match c.kind {
        CollisionType::Opposite { first_idx, second_idx } => first_idx < second_idx && second_idx
            < segs.len(),
        CollisionType::Neighbors { idx } => idx < segs.len(),
        CollisionType::RadiusZero { idx } => idx < segs.len(),
    }
}

/// The opposite-collision event of one pair of segments, if any: the offset
/// at which their growing circles become externally tangent, accepted only
/// when the tangency point falls within both segments' spans after
/// tentatively shrinking that far.
pub open spec fn opp_pair(segs: Seq<Segment>, i: int, j: int) -> Option<Collision> {
    let n = segs.len() as int;
    let a = segs[i];
    let b = segs[j];
    if i == 0 && j == n - 1 {
        None
    } else if !(a.bend is Inward && b.bend is Inward) {
        None
    } else {
        let ra = seg_radius_spec(a);
        let rb = seg_radius_spec(b);
        let d = crate::num::fsqrt(dist2_spec(a.center, b.center) as nat) as int;
        if d == 0 {
            None
        } else {
            let t = (d - ra - rb) / 2;
            if t < 0 || t + 1 > crate::COORD_LIMIT as int {
                None
            } else {
                let px = a.center.x + ((ra + t) * (b.center.x - a.center.x)) / d;
                let py = a.center.y + ((ra + t) * (b.center.y - a.center.y)) / d;
                if !(-0x400000 <= px <= 0x400000 && -0x400000 <= py <= 0x400000) {
                    None
                } else {
                    let place = Point { x: px as i64, y: py as i64 };
                    match sn_result(segs, (t + 1) as i64) {
                        Option::None => None,
                        Option::Some(naive) => {
                            let inx = if i + 1 == n {
                                0
                            } else {
                                i + 1
                            };
                            let jnx = if j + 1 == n {
                                0
                            } else {
                                j + 1
                            };
                            let fir = naive[i];
                            let fnx = naive[inx];
                            let sec = naive[j];
                            let snx = naive[jnx];
                            let base1 = Point {
                                x: (fnx.initial.x - fir.center.x) as i64,
                                y: (fnx.initial.y - fir.center.y) as i64,
                            };
                            let v1p = Point {
                                x: (place.x - fir.center.x) as i64,
                                y: (place.y - fir.center.y) as i64,
                            };
                            let v1a = Point {
                                x: (fir.initial.x - fir.center.x) as i64,
                                y: (fir.initial.y - fir.center.y) as i64,
                            };
                            let base2 = Point {
                                x: (snx.initial.x - sec.center.x) as i64,
                                y: (snx.initial.y - sec.center.y) as i64,
                            };
                            let v2p = Point {
                                x: (place.x - sec.center.x) as i64,
                                y: (place.y - sec.center.y) as i64,
                            };
                            let v2a = Point {
                                x: (sec.initial.x - sec.center.x) as i64,
                                y: (sec.initial.y - sec.center.y) as i64,
                            };
                            if (base1.x == 0 && base1.y == 0) || (v1p.x == 0 && v1p.y == 0) || (
                            v1a.x == 0 && v1a.y == 0) || (base2.x == 0 && base2.y == 0) || (v2p.x
                                == 0 && v2p.y == 0) || (v2a.x == 0 && v2a.y == 0) {
                                None
                            } else {
                                if crate::point::rel_key_spec(base1, v1p) < crate::point::rel_key_spec(
                                    base1,
                                    v1a,
                                ) && crate::point::rel_key_spec(base2, v2p)
                                    < crate::point::rel_key_spec(base2, v2a) {
                                    Some(
                                        Collision {
                                            time_place: TimePlace { amount: t as i64, place },
                                            kind: CollisionType::Opposite {
                                                first_idx: i as usize,
                                                second_idx: j as usize,
                                            },
                                        },
                                    )
                                } else {
                                    None
                                }
                            }
                        },
                    }
                }
            }
        }
    }
}

/// A possible collision as a sequence of zero or one events.
pub open spec fn opt_col(o: Option<Collision>) -> Seq<Collision> {
    match o {
        Option::Some(c) => seq![c],
        Option::None => Seq::empty(),
    }
}

/// All opposite-collision events, in pair order.
pub open spec fn opp_rec(segs: Seq<Segment>, i: nat, j: nat) -> Seq<Collision>
    decreases segs.len() - i, vstd::math::clip(segs.len() + 2 - j),
{
    if i >= segs.len() {
        Seq::empty()
    } else if j >= segs.len() {
        opp_rec(segs, (i + 1) as nat, (i + 3) as nat)
    } else {
        opt_col(opp_pair(segs, i as int, j as int)) + opp_rec(segs, i, (j + 1) as nat)
    }
}

/// The signed-radius circle of a segment.
pub open spec fn neg_circle(s: Segment) -> Circle {
    Circle {
        radius: (if s.bend is Inward {
            seg_radius_spec(s)
        } else {
            -seg_radius_spec(s)
        }) as i64,
        center: s.center,
    }
}

/// The tangent circles of one consecutive triple's signed circles.
pub open spec fn nei_cols(segs: Seq<Segment>, i: int) -> Seq<Circle> {
    let n = segs.len() as int;
    let h = if i == 0 {
        n - 1
    } else {
        i - 1
    };
    let j = if i + 1 == n {
        0
    } else {
        i + 1
    };
    crate::circle::tct_spec(neg_circle(segs[h]), neg_circle(segs[i]), neg_circle(segs[j]))
}

/// The neighbor-collision event from one tangent circle, if any: its
/// radius is the offset amount, accepted only when the predicted meeting
/// point nearly coincides with both moved vertices just before that
/// offset.
pub open spec fn nei_pair(segs: Seq<Segment>, i: int, c: int) -> Option<Collision> {
    let n = segs.len() as int;
    let col = nei_cols(segs, i)[c];
    let t = col.radius;
    let p = col.center;
    if t < 1 || t - 1 > crate::COORD_LIMIT {
        None
    } else {
        match sn_result(segs, (t - 1) as i64) {
            Option::None => None,
            Option::Some(naive) => {
                let j = if i + 1 == n {
                    0
                } else {
                    i + 1
                };
                let sthis = naive[i];
                let snext = naive[j];
                if dist2_spec(sthis.initial, p) < NEIGHBOR_LIMIT as int * NEIGHBOR_LIMIT as int
                    && dist2_spec(snext.initial, p) < NEIGHBOR_LIMIT as int
                    * NEIGHBOR_LIMIT as int {
                    Some(
                        Collision {
                            time_place: TimePlace { amount: t, place: p },
                            kind: CollisionType::Neighbors { idx: i as usize },
                        },
                    )
                } else {
                    None
                }
            },
        }
    }
}

/// All neighbor-collision events, in triple order.
pub open spec fn nei_rec(segs: Seq<Segment>, i: nat, c: nat) -> Seq<Collision>
    decreases segs.len() - i, vstd::math::clip(3 - c),
{
    if i >= segs.len() {
        Seq::empty()
    } else if c >= nei_cols(segs, i as int).len() || c >= 2 {
        nei_rec(segs, (i + 1) as nat, 0)
    } else {
        opt_col(nei_pair(segs, i as int, c as int)) + nei_rec(segs, i, (c + 1) as nat)
    }
}

/// The radius-zero event of one segment, if any: an outward segment
/// vanishes when the offset reaches its own radius.
pub open spec fn rz_event(segs: Seq<Segment>, i: int) -> Option<Collision> {
    let s = segs[i];
    if s.bend is Outward {
        Some(
            Collision {
                time_place: TimePlace { amount: seg_radius_spec(s) as i64, place: s.center },
                kind: CollisionType::RadiusZero { idx: i as usize },
            },
        )
    } else {
        None
    }
}

/// All radius-zero events, in segment order.
pub open spec fn rz_rec(segs: Seq<Segment>, i: nat) -> Seq<Collision>
    decreases segs.len() - i,
{
    if i >= segs.len() {
        Seq::empty()
    } else {
        opt_col(rz_event(segs, i as int)) + rz_rec(segs, (i + 1) as nat)
    }
}

} // verus!
