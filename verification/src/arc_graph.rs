//! Graphs of arcs: nodes are arcs, edges carry the junction point where two
//! arcs meet.  The graph is an arena of arcs with an edge list of index
//! pairs, built bottom-up and combined by a pure union; Minkowski-sum
//! boundaries of arcs are assembled and pruned here.

use vstd::prelude::*;

use crate::arc::{arc_isect_spec, arc_wf, edir, rescaled_dir, sdir, with_radius_spec, Arc};
use crate::point::{bounded, cross, Point};

verus! {

/// One edge: the arcs at `source` and `target` meet at `point`.
#[derive(Clone, Copy, Debug, PartialEq, Eq, Structural)]
pub struct Edge {
    pub source: usize,
    pub target: usize,
    pub point: Point,
}

/// A graph of arcs with point-labelled edges.
#[derive(Debug)]
pub struct ArcGraph {
    pub nodes: Vec<Arc>,
    pub edges: Vec<Edge>,
}

/// Every edge points at existing nodes and carries an in-range point, and
/// every node's circle center is in range.
pub open spec fn graph_wf(g: ArcGraph) -> bool {
    &&& forall|i: int|
        0 <= i < g.edges.len() ==> (#[trigger] g.edges[i]).source < g.nodes.len()
            && g.edges[i].target < g.nodes.len() && bounded(g.edges[i].point, 0x800000)
    &&& forall|n: int| 0 <= n < g.nodes.len() ==> bounded((#[trigger] g.nodes[n]).center, 0x800000)
}

/// An edge with both endpoints moved up by an offset, as union does when it
/// copies the second graph's edges behind the first's nodes.
pub open spec fn shift_edge(e: Edge, off: nat) -> Edge {
    Edge { source: (e.source + off) as usize, target: (e.target + off) as usize, point: e.point }
}

/// Whether a junction edge between two arcs must run from the second arc to
/// the first to keep the combined boundary's winding: decided by the sign
/// of the determinant of the two radius vectors at the junction, flipped
/// when the windings disagree.
pub open spec fn swap_orient(a: Arc, b: Arc, p: Point) -> bool {
    let va = Point { x: (p.x - a.center.x) as i64, y: (p.y - a.center.y) as i64 };
    let vb = Point { x: (p.x - b.center.x) as i64, y: (p.y - b.center.y) as i64 };
    if a.ccw == b.ccw {
        cross(va, vb) > 0
    } else {
        cross(va, vb) < 0
    }
}

/// The oriented junction edge for one intersection triple, with the second
/// graph's index moved up by the offset.
pub open spec fn union_edge(sa: Seq<Arc>, sb: Seq<Arc>, t: (usize, usize, Point)) -> Edge {
    let off = sa.len();
    if swap_orient(sa[t.0 as int], sb[t.1 as int], t.2) {
        Edge { source: (t.1 + off) as usize, target: t.0, point: t.2 }
    } else {
        Edge { source: t.0, target: (t.1 + off) as usize, point: t.2 }
    }
}

/// The node and edge lists of the union of two graphs, as `add` builds
/// them.
pub open spec fn add_spec(n1: Seq<Arc>, e1: Seq<Edge>, n2: Seq<Arc>, e2: Seq<Edge>) -> (
    Seq<Arc>,
    Seq<Edge>,
) {
    (
        n1 + n2,
        e1 + e2.map(|k: int, e: Edge| shift_edge(e, n1.len())) + isect_pairs(n1, n2, 0, 0).map(
            |k: int, t: (usize, usize, Point)| union_edge(n1, n2, t),
        ),
    )
}

/// An edge list with the marked entries removed.
pub open spec fn masked_edges(es: Seq<Edge>, rm: Seq<bool>, i: nat) -> Seq<Edge>
    decreases es.len() - i,
{
    if i >= es.len() {
        Seq::empty()
    } else if rm[i as int] {
        masked_edges(es, rm, (i + 1) as nat)
    } else {
        seq![es[i as int]] + masked_edges(es, rm, (i + 1) as nat)
    }
}

/// All intersections between the arcs of two arenas, ordered by the first
/// arena's index, then the second's, then the order of the two points of
/// one intersection.
pub open spec fn isect_pairs(sa: Seq<Arc>, sb: Seq<Arc>, i: nat, j: nat) -> Seq<
    (usize, usize, Point),
>
    decreases sa.len() - i, (sb.len() - j) + 1,
{
    if i >= sa.len() {
        Seq::empty()
    } else if j >= sb.len() {
        isect_pairs(sa, sb, (i + 1) as nat, 0)
    } else {
        arc_isect_spec(sa[i as int], sb[j as int]).map(
            |k: int, p: Point| (i as usize, j as usize, p),
        ) + isect_pairs(sa, sb, i, (j + 1) as nat)
    }
}

impl ArcGraph {
    /// An empty graph.
    pub fn new() -> (g: ArcGraph)
        ensures
            g.nodes@ =~= Seq::<Arc>::empty(),
            g.edges@ =~= Seq::<Edge>::empty(),
            graph_wf(g),
    {
        ArcGraph { nodes: Vec::new(), edges: Vec::new() }
    }

    /// Adds an arc as a node and returns its index.
    pub fn add_node(&mut self, arc: Arc) -> (idx: usize)
        requires
            bounded(arc.center, 0x800000),
        ensures
            final(self).nodes@ == old(self).nodes@.push(arc),
            final(self).edges@ == old(self).edges@,
            idx == old(self).nodes.len(),
    {
        let idx = self.nodes.len();
        self.nodes.push(arc);
        idx
    }

    /// Adds an edge between two existing nodes.
    pub fn add_edge(&mut self, source: usize, target: usize, point: Point)
        requires
            source < old(self).nodes.len(),
            target < old(self).nodes.len(),
            bounded(point, 0x800000),
        ensures
            final(self).nodes@ == old(self).nodes@,
            final(self).edges@ == old(self).edges@.push(Edge { source, target, point }),
    {
        self.edges.push(Edge { source, target, point });
    }

    /// The union of two graphs: the second's nodes and edges are copied
    /// behind the first's, and every intersection between arcs of the two
    /// becomes a junction edge whose direction keeps a consistent winding.
    pub fn add(self, rhs: ArcGraph) -> (g: ArcGraph)
        requires
            graph_wf(self),
            graph_wf(rhs),
            self.nodes@.len() + rhs.nodes@.len() <= 0xFFFFFFFF,
        ensures
            g.nodes@ == self.nodes@ + rhs.nodes@,
            g.edges@.len() == self.edges@.len() + rhs.edges@.len() + isect_pairs(
                self.nodes@,
                rhs.nodes@,
                0,
                0,
            ).len(),
            forall|k: int|
                0 <= k < self.edges@.len() ==> g.edges@[k] == self.edges@[k],
            forall|k: int|
                0 <= k < rhs.edges@.len() ==> g.edges@[self.edges@.len() + k] == shift_edge(
                    rhs.edges@[k],
                    self.nodes@.len(),
                ),
            forall|k: int|
                0 <= k < isect_pairs(self.nodes@, rhs.nodes@, 0, 0).len()
                    ==> g.edges@[self.edges@.len() + rhs.edges@.len() + k] == union_edge(
                    self.nodes@,
                    rhs.nodes@,
                    isect_pairs(self.nodes@, rhs.nodes@, 0, 0)[k],
                ),
            (g.nodes@, g.edges@) == add_spec(self.nodes@, self.edges@, rhs.nodes@, rhs.edges@),
            graph_wf(g),
    {
        let ghost sa = self.nodes@;
        let ghost sb = rhs.nodes@;
        let ghost se = self.edges@;
        let ghost re = rhs.edges@;
        let intersections = self.intersect(&rhs);
        let off = self.nodes.len();
        let mut g = self;
        let mut i: usize = 0;
        while i < rhs.nodes.len()
            invariant
                i <= rhs.nodes@.len(),
                rhs.nodes@ == sb,
                g.nodes@ == sa + sb.subrange(0, i as int),
                g.edges@ == se,
                off == sa.len(),
                sa.len() + sb.len() <= 0xFFFFFFFF,
            decreases rhs.nodes.len() - i,
        {
            g.nodes.push(*rhs.nodes.get(i).unwrap());
            proof {
                assert(g.nodes@ =~= sa + sb.subrange(0, i + 1));
            }
            i = i + 1;
        }
        proof {
            assert(g.nodes@ =~= sa + sb);
        }
        let ghost node_bound = forall|n: int|
            0 <= n < (sa + sb).len() ==> bounded((#[trigger] (sa + sb)[n]).center, 0x800000);
        proof {
            assert(node_bound) by {
                assert(forall|n: int|
                    0 <= n < sa.len() ==> bounded((#[trigger] sa[n]).center, 0x800000));
                assert(forall|n: int|
                    0 <= n < sb.len() ==> bounded((#[trigger] sb[n]).center, 0x800000));
                assert forall|n: int|
                    0 <= n < (sa + sb).len() implies bounded(
                    (#[trigger] (sa + sb)[n]).center,
                    0x800000,
                ) by {
                    if n < sa.len() {
                        assert((sa + sb)[n] == sa[n]);
                    } else {
                        assert((sa + sb)[n] == sb[n - sa.len()]);
                    }
                }
            }
        }
        let mut i: usize = 0;
        while i < rhs.edges.len()
            invariant
                i <= rhs.edges@.len(),
                g.nodes@ == sa + sb,
                off == sa.len(),
                sa.len() + sb.len() <= 0xFFFFFFFF,
                graph_wf(rhs),
                rhs.edges@ == re,
                rhs.nodes@ == sb,
                g.edges@.len() == se.len() + i,
                forall|k: int| 0 <= k < se.len() ==> g.edges@[k] == se[k],
                forall|k: int|
                    0 <= k < se.len() ==> (#[trigger] se[k]).source < sa.len() && se[k].target
                        < sa.len() && bounded(se[k].point, 0x800000),
                forall|k: int|
                    0 <= k < i ==> g.edges@[se.len() + k] == shift_edge(re[k], sa.len()),
                forall|k: int|
                    se.len() <= k < g.edges@.len() ==> (#[trigger] g.edges@[k]).source
                        < g.nodes@.len() && g.edges@[k].target < g.nodes@.len() && bounded(
                        g.edges@[k].point,
                        0x800000,
                    ),
            decreases rhs.edges.len() - i,
        {
            let e = *rhs.edges.get(i).unwrap();
            g.edges.push(Edge { source: e.source + off, target: e.target + off, point: e.point });
            i = i + 1;
        }
        let ghost pairs = isect_pairs(sa, sb, 0, 0);
        proof {
            assert forall|k: int|
                0 <= k < g.edges@.len() implies (#[trigger] g.edges@[k]).source < g.nodes@.len()
                && g.edges@[k].target < g.nodes@.len() && bounded(g.edges@[k].point, 0x800000) by {
                if k < se.len() {
                    assert(g.edges@[k] == se[k]);
                }
            }
        }
        let mut i: usize = 0;
        while i < intersections.len()
            invariant
                i <= intersections@.len(),
                intersections@ == pairs,
                g.nodes@ == sa + sb,
                off == sa.len(),
                sa.len() + sb.len() <= 0xFFFFFFFF,
                node_bound,
                node_bound == (forall|n: int|
                    0 <= n < (sa + sb).len() ==> bounded(
                        (#[trigger] (sa + sb)[n]).center,
                        0x800000,
                    )),
                forall|k: int|
                    0 <= k < pairs.len() ==> (#[trigger] pairs[k]).0 < sa.len() && pairs[k].1
                        < sb.len() && bounded(pairs[k].2, 0x800000),
                g.edges@.len() == se.len() + re.len() + i,
                forall|k: int| 0 <= k < se.len() ==> g.edges@[k] == se[k],
                forall|k: int|
                    0 <= k < re.len() ==> g.edges@[se.len() + k] == shift_edge(re[k], sa.len()),
                forall|k: int|
                    0 <= k < i ==> g.edges@[se.len() + re.len() + k] == union_edge(
                        sa,
                        sb,
                        pairs[k],
                    ),
                forall|k: int|
                    0 <= k < g.edges@.len() ==> (#[trigger] g.edges@[k]).source < g.nodes@.len()
                        && g.edges@[k].target < g.nodes@.len() && bounded(
                        g.edges@[k].point,
                        0x800000,
                    ),
            decreases intersections.len() - i,
        {
            let t = *intersections.get(i).unwrap();
            let a = *g.nodes.get(t.0).unwrap();
            let b = *g.nodes.get(t.1 + off).unwrap();
            proof {
                assert((sa + sb)[t.0 as int] == sa[t.0 as int]);
                assert((sa + sb)[t.1 + off] == sb[t.1 as int]);
                assert(bounded(a.center, 0x800000));
                assert(bounded(b.center, 0x800000));
            }
            let va = Point { x: t.2.x - a.center.x, y: t.2.y - a.center.y };
            let vb = Point { x: t.2.x - b.center.x, y: t.2.y - b.center.y };
            let d = crate::point::cross_i(va, vb);
            let swap = if a.ccw == b.ccw {
                d > 0
            } else {
                d < 0
            };
            if swap {
                g.edges.push(Edge { source: t.1 + off, target: t.0, point: t.2 });
            } else {
                g.edges.push(Edge { source: t.0, target: t.1 + off, point: t.2 });
            }
            i = i + 1;
        }
        proof {
            assert(g.edges@ =~= se + re.map(|k: int, e: Edge| shift_edge(e, sa.len())) + pairs.map(
                |k: int, t: (usize, usize, Point)| union_edge(sa, sb, t),
            ));
        }
        g
    }

    /// Removes the marked edges, keeping the others in order.  The mask
    /// runs in step with the edge list.
    pub fn remove_edges(&mut self, remove: &Vec<bool>)
        requires
            remove@.len() == old(self).edges@.len(),
        ensures
            final(self).nodes@ == old(self).nodes@,
            final(self).edges@ == masked_edges(old(self).edges@, remove@, 0),
    {
        let ghost es = self.edges@;
        let ghost rm = remove@;
        let mut kept: Vec<Edge> = Vec::new();
        let mut i: usize = 0;
        while i < self.edges.len()
            invariant
                i <= es.len(),
                self.edges@ == es,
                remove@ == rm,
                rm.len() == es.len(),
                kept@ + masked_edges(es, rm, i as nat) == masked_edges(es, rm, 0),
            decreases self.edges.len() - i,
        {
            if !*remove.get(i).unwrap() {
                kept.push(*self.edges.get(i).unwrap());
            }
            i = i + 1;
        }
        self.edges = kept;
    }

    /// All intersections between this graph's arcs and another's, as
    /// `(this index, other index, point)` triples.
    pub fn intersect(&self, other: &ArcGraph) -> (res: Vec<(usize, usize, Point)>)
        requires
            graph_wf(*self),
            graph_wf(*other),
        ensures
            res@ == isect_pairs(self.nodes@, other.nodes@, 0, 0),
            forall|k: int|
                0 <= k < res.len() ==> (#[trigger] res[k]).0 < self.nodes.len() && res[k].1
                    < other.nodes.len() && bounded(res[k].2, 0x800000),
    {
        let sa = Ghost(self.nodes@);
        let sb = Ghost(other.nodes@);
        let mut res: Vec<(usize, usize, Point)> = Vec::new();
        let mut i: usize = 0;
        while i < self.nodes.len()
            invariant
                graph_wf(*self),
                graph_wf(*other),
                i <= self.nodes.len(),
                res@ + isect_pairs(self.nodes@, other.nodes@, i as nat, 0) == isect_pairs(
                    self.nodes@,
                    other.nodes@,
                    0,
                    0,
                ),
                forall|k: int|
                    0 <= k < res.len() ==> (#[trigger] res[k]).0 < self.nodes.len() && res[k].1
                        < other.nodes.len() && bounded(res[k].2, 0x800000),
            decreases self.nodes.len() - i,
        {
            let mut j: usize = 0;
            while j < other.nodes.len()
                invariant
                    graph_wf(*self),
                    graph_wf(*other),
                    i < self.nodes.len(),
                    j <= other.nodes.len(),
                    res@ + isect_pairs(self.nodes@, other.nodes@, i as nat, j as nat)
                        == isect_pairs(self.nodes@, other.nodes@, 0, 0),
                    forall|k: int|
                        0 <= k < res.len() ==> (#[trigger] res[k]).0 < self.nodes.len() && res[k].1
                            < other.nodes.len() && bounded(res[k].2, 0x800000),
                decreases other.nodes.len() - j,
            {
                let a = *self.nodes.get(i).unwrap();
                let b = *other.nodes.get(j).unwrap();
                let pts = a.intersect(b);
                let ghost inner = arc_isect_spec(a, b).map(
                    |k: int, p: Point| (i as usize, j as usize, p),
                );
                if pts.len() >= 1 {
                    res.push((i, j, *pts.get(0).unwrap()));
                }
                if pts.len() == 2 {
                    res.push((i, j, *pts.get(1).unwrap()));
                }
                proof {
                    if pts.len() == 0 {
                        assert(inner =~= Seq::<(usize, usize, Point)>::empty());
                    } else if pts.len() == 1 {
                        assert(inner =~= seq![(i, j, pts[0])]);
                    } else {
                        assert(inner =~= seq![(i, j, pts[0]), (i, j, pts[1])]);
                    }
                }
                j = j + 1;
            }
            i = i + 1;
        }
        res
    }
}

/// The clamped radial offset of length `radius` along a direction vector,
/// rounded down.
pub open spec fn cap_offset(d: Point, radius: i64) -> (int, int) {
    rescaled_dir(d, crate::num::fsqrt(crate::point::norm2(d) as nat) as int, radius as int)
}

/// Runs the radial offset of `cap_offset`.
fn radial_offset(d: Point, radius: i64) -> (r: (i64, i64))
    requires
        bounded(d, 0x1000000),
        !(d.x == 0 && d.y == 0),
        -0x200000 <= radius <= 0x200000,
    ensures
        (r.0 as int, r.1 as int) == cap_offset(d, radius),
        -0x400000 <= r.0 <= 0x400000,
        -0x400000 <= r.1 <= 0x400000,
{
    let dx = d.x as i128;
    let dy = d.y as i128;
    proof {
        crate::num::lemma_mul_bound(dx as int, dx as int, 0x1000000, 0x1000000);
        crate::num::lemma_mul_bound(dy as int, dy as int, 0x1000000, 0x1000000);
        assert(dx * dx + dy * dy >= 1) by (nonlinear_arith)
            requires
                !(dx == 0 && dy == 0),
        {}
    }
    let n2 = dx * dx + dy * dy;
    let n = crate::num::isqrt(n2 as u128) as i128;
    proof {
        assert(n >= 1) by (nonlinear_arith)
            requires
                1 <= n2 as int,
                (n2 as int) < (n as int + 1) * (n as int + 1),
                0 <= n,
        {}
        crate::num::lemma_mul_bound(dx as int, radius as int, 0x1000000, 0x200000);
        crate::num::lemma_mul_bound(dy as int, radius as int, 0x1000000, 0x200000);
    }
    let ox = crate::num::div_round(dx * radius as i128, n);
    let oy = crate::num::div_round(dy * radius as i128, n);
    let cx = if ox < -0x400000 {
        -0x400000
    } else if ox > 0x400000 {
        0x400000
    } else {
        ox as i64
    };
    let cy = if oy < -0x400000 {
        -0x400000
    } else if oy > 0x400000 {
        0x400000
    } else {
        oy as i64
    };
    (cx, cy)
}

/// The node and edge lists of the offset boundary of one arc against a disc
/// of the given signed radius.  When the offset is smaller than the arc's
/// own radius the boundary is outer arc, end cap, reversed inner arc and
/// start cap, joined in a cycle; otherwise only the lens through the one
/// usable cap-circle intersection remains, or the outer arc alone when the
/// cap circles miss each other.
pub open spec fn mink_arc_spec(arc: Arc, radius: i64) -> (Seq<Arc>, Seq<Edge>) {
    let outer = with_radius_spec(arc, (arc.radius + radius) as i64);
    let rabs = vstd::math::abs(radius as int);
    let aabs = vstd::math::abs(arc.radius as int);
    if rabs < aabs {
        let eo = cap_offset(edir(arc), radius);
        let so = cap_offset(sdir(arc), radius);
        let cap_end = Arc {
            start: Point { x: (arc.end.x + eo.0) as i64, y: (arc.end.y + eo.1) as i64 },
            end: Point { x: (arc.end.x - eo.0) as i64, y: (arc.end.y - eo.1) as i64 },
            radius,
            center: arc.end,
            ccw: arc.ccw,
        };
        let cap_start = Arc {
            start: Point { x: (arc.start.x - so.0) as i64, y: (arc.start.y - so.1) as i64 },
            end: Point { x: (arc.start.x + so.0) as i64, y: (arc.start.y + so.1) as i64 },
            radius,
            center: arc.start,
            ccw: arc.ccw,
        };
        let inner = with_radius_spec(arc, (arc.radius - radius) as i64);
        let inner_rev = Arc {
            start: inner.end,
            end: inner.start,
            radius: inner.radius,
            center: inner.center,
            ccw: !inner.ccw,
        };
        (
            seq![outer, cap_end, inner_rev, cap_start],
            seq![
                Edge { source: 0, target: 1, point: cap_end.start },
                Edge { source: 1, target: 2, point: cap_end.end },
                Edge { source: 2, target: 3, point: cap_start.start },
                Edge { source: 3, target: 0, point: cap_start.end },
            ],
        )
    } else {
        let cs = crate::circle::Circle { radius, center: arc.start };
        let ce = crate::circle::Circle { radius, center: arc.end };
        let n = crate::circle::circle_isect_count(cs, ce);
        let pick = if arc.ccw {
            if n == 2 {
                Some(crate::circle::circle_pt_minus(cs, ce))
            } else {
                None
            }
        } else {
            if n == 2 {
                Some(crate::circle::circle_pt_plus(cs, ce))
            } else if n == 1 {
                Some(crate::circle::circle_tangent_pt(cs, ce))
            } else {
                None
            }
        };
        match pick {
            None => (seq![outer], Seq::empty()),
            Some(pxy) => {
                let p = Point { x: pxy.0 as i64, y: pxy.1 as i64 };
                let eo = cap_offset(edir(arc), radius);
                let so = cap_offset(sdir(arc), radius);
                let end_arc = Arc {
                    start: Point { x: (arc.end.x + eo.0) as i64, y: (arc.end.y + eo.1) as i64 },
                    end: p,
                    radius,
                    center: arc.end,
                    ccw: arc.ccw,
                };
                let start_arc = Arc {
                    start: p,
                    end: Point {
                        x: (arc.start.x + so.0) as i64,
                        y: (arc.start.y + so.1) as i64,
                    },
                    radius,
                    center: arc.start,
                    ccw: arc.ccw,
                };
                (
                    seq![outer, end_arc, start_arc],
                    seq![
                        Edge { source: 0, target: 1, point: end_arc.start },
                        Edge { source: 1, target: 2, point: p },
                        Edge { source: 2, target: 0, point: start_arc.end },
                    ],
                )
            },
        }
    }
}

impl ArcGraph {
    /// The boundary of one arc offset by a signed disc radius.
    pub fn minkowski_arc(arc: Arc, radius: i64) -> (g: ArcGraph)
        requires
            arc_wf(arc),
            bounded(arc.start, 0x400000),
            bounded(arc.end, 0x400000),
            -0x100000 <= radius <= 0x100000,
            -0x100000 <= arc.radius <= 0x100000,
        ensures
            g.nodes@ == mink_arc_spec(arc, radius).0,
            g.edges@ == mink_arc_spec(arc, radius).1,
            graph_wf(g),
    {
        let outer = arc.with_radius(arc.radius + radius);
        let rabs = if radius < 0 {
            -radius
        } else {
            radius
        };
        let aabs = if arc.radius < 0 {
            -arc.radius
        } else {
            arc.radius
        };
        let mut g = ArcGraph::new();
        if rabs < aabs {
            let ed = Point { x: arc.end.x - arc.center.x, y: arc.end.y - arc.center.y };
            let sd = Point { x: arc.start.x - arc.center.x, y: arc.start.y - arc.center.y };
            let eo = radial_offset(ed, radius);
            let so = radial_offset(sd, radius);
            let cap_end = Arc {
                start: Point { x: arc.end.x + eo.0, y: arc.end.y + eo.1 },
                end: Point { x: arc.end.x - eo.0, y: arc.end.y - eo.1 },
                radius,
                center: arc.end,
                ccw: arc.ccw,
            };
            let cap_start = Arc {
                start: Point { x: arc.start.x - so.0, y: arc.start.y - so.1 },
                end: Point { x: arc.start.x + so.0, y: arc.start.y + so.1 },
                radius,
                center: arc.start,
                ccw: arc.ccw,
            };
            let inner = arc.with_radius(arc.radius - radius).reversed();
            g.nodes.push(outer);
            g.nodes.push(cap_end);
            g.nodes.push(inner);
            g.nodes.push(cap_start);
            g.edges.push(Edge { source: 0, target: 1, point: cap_end.start });
            g.edges.push(Edge { source: 1, target: 2, point: cap_end.end });
            g.edges.push(Edge { source: 2, target: 3, point: cap_start.start });
            g.edges.push(Edge { source: 3, target: 0, point: cap_start.end });
            proof {
                assert(g.nodes@ =~= mink_arc_spec(arc, radius).0);
                assert(g.edges@ =~= mink_arc_spec(arc, radius).1);
            }
        } else {
            let cs = crate::circle::Circle { radius, center: arc.start };
            let ce = crate::circle::Circle { radius, center: arc.end };
            let pts = cs.intersect(ce);
            let idx: usize = if arc.ccw {
                1
            } else {
                0
            };
            if idx < pts.len() {
                let p = *pts.get(idx).unwrap();
                let ed = Point { x: arc.end.x - arc.center.x, y: arc.end.y - arc.center.y };
                let sd = Point { x: arc.start.x - arc.center.x, y: arc.start.y - arc.center.y };
                let eo = radial_offset(ed, radius);
                let so = radial_offset(sd, radius);
                let end_arc = Arc {
                    start: Point { x: arc.end.x + eo.0, y: arc.end.y + eo.1 },
                    end: p,
                    radius,
                    center: arc.end,
                    ccw: arc.ccw,
                };
                let start_arc = Arc {
                    start: p,
                    end: Point { x: arc.start.x + so.0, y: arc.start.y + so.1 },
                    radius,
                    center: arc.start,
                    ccw: arc.ccw,
                };
                g.nodes.push(outer);
                g.nodes.push(end_arc);
                g.nodes.push(start_arc);
                g.edges.push(Edge { source: 0, target: 1, point: end_arc.start });
                g.edges.push(Edge { source: 1, target: 2, point: p });
                g.edges.push(Edge { source: 2, target: 0, point: start_arc.end });
                proof {
                    assert(g.nodes@ =~= mink_arc_spec(arc, radius).0);
                    assert(g.edges@ =~= mink_arc_spec(arc, radius).1);
                }
            } else {
                g.nodes.push(outer);
                proof {
                    assert(g.nodes@ =~= mink_arc_spec(arc, radius).0);
                    assert(g.edges@ =~= mink_arc_spec(arc, radius).1);
                }
            }
        }
        g
    }
}

/// A zero offset is the identity on the outer arc: the first node of the
/// zero-offset boundary is the arc itself, and the boundary has the full
/// four-piece shape.
pub proof fn lemma_minkowski_arc_zero(arc: Arc)
    requires
        arc_wf(arc),
    ensures
        mink_arc_spec(arc, 0).0.len() == 4,
        mink_arc_spec(arc, 0).0[0] == arc,
{
    assert(with_radius_spec(arc, (arc.radius + 0) as i64) == arc);
}

/// Every entry of a masked edge list comes from the original list.
proof fn lemma_masked_subset(es: Seq<Edge>, rm: Seq<bool>, i: nat)
    requires
        i <= es.len(),
    ensures
        forall|k: int|
            0 <= k < masked_edges(es, rm, i).len() ==> exists|m: int|
                i <= m < es.len() && #[trigger] masked_edges(es, rm, i)[k] == es[m],
    decreases es.len() - i,
{
    if i < es.len() {
        lemma_masked_subset(es, rm, (i + 1) as nat);
        assert forall|k: int| 0 <= k < masked_edges(es, rm, i).len() implies exists|m: int|
            i <= m < es.len() && #[trigger] masked_edges(es, rm, i)[k] == es[m] by {
            if rm[i as int] {
                assert(masked_edges(es, rm, i) == masked_edges(es, rm, (i + 1) as nat));
            } else {
                if k == 0 {
                    assert(masked_edges(es, rm, i)[0] == es[i as int]);
                } else {
                    assert(masked_edges(es, rm, i)[k] == masked_edges(es, rm, (i + 1) as nat)[k
                        - 1]);
                }
            }
        }
    }
}

/// Whether an edge point lies strictly inside the offset boundary of any of
/// the input arcs, and must therefore be pruned from the combined offset.
pub open spec fn prune_point(arcs: Seq<Arc>, radius: i64, p: Point) -> bool {
    exists|j: int|
        0 <= j < arcs.len() && crate::arc::arc_dist_spec(#[trigger] arcs[j], p) < radius as int - 1
}

/// The offset boundaries of all arcs, merged pairwise in order.
pub open spec fn mink_sum_spec(arcs: Seq<Arc>, radius: i64, i: nat) -> (Seq<Arc>, Seq<Edge>)
    decreases i,
{
    if i == 0 {
        (Seq::empty(), Seq::empty())
    } else {
        let prev = mink_sum_spec(arcs, radius, (i - 1) as nat);
        let m = mink_arc_spec(arcs[i - 1], radius);
        add_spec(prev.0, prev.1, m.0, m.1)
    }
}

/// The scan for the outgoing edge of the current edge's target whose
/// angular key from the current junction is smallest; ties keep the
/// earliest edge.  Edges at degenerate junction directions are passed over.
pub open spec fn scan_next(
    nodes: Seq<Arc>,
    edges: Seq<Edge>,
    eidx: nat,
    j: nat,
    best: Option<(int, Point)>,
) -> Option<(int, Point)>
    decreases edges.len() - j,
{
    if j >= edges.len() {
        best
    } else {
        let e = edges[eidx as int];
        let f = edges[j as int];
        let t = nodes[e.target as int];
        let vc = Point { x: (e.point.x - t.center.x) as i64, y: (e.point.y - t.center.y) as i64 };
        let vf = Point { x: (f.point.x - t.center.x) as i64, y: (f.point.y - t.center.y) as i64 };
        if j == eidx || f.source != e.target || (vc.x == 0 && vc.y == 0) || (vf.x == 0 && vf.y
            == 0) {
            scan_next(nodes, edges, eidx, (j + 1) as nat, best)
        } else {
            let key = if t.ccw {
                crate::point::rel_key_spec(vc, vf)
            } else {
                crate::point::rel_key_cw_spec(vc, vf)
            };
            let better = match best {
                Option::None => true,
                Option::Some(b) => key < b.0,
            };
            scan_next(
                nodes,
                edges,
                eidx,
                (j + 1) as nat,
                if better {
                    Some((key, f.point))
                } else {
                    best
                },
            )
        }
    }
}

/// The silhouette arc grown from one edge: from its junction point along
/// its target arc's circle to the nearest following junction.
pub open spec fn silhouette_node(nodes: Seq<Arc>, edges: Seq<Edge>, k: nat) -> Option<Arc> {
    let e = edges[k as int];
    match scan_next(nodes, edges, k, 0, None) {
        Option::None => None,
        Option::Some(b) => {
            let t = nodes[e.target as int];
            Some(Arc { start: e.point, end: b.1, radius: t.radius, center: t.center, ccw: t.ccw })
        },
    }
}

/// The silhouette arcs of all edges, in edge order.
pub open spec fn silhouette_arcs(nodes: Seq<Arc>, edges: Seq<Edge>, k: nat) -> Seq<Arc>
    decreases edges.len() - k,
{
    if k >= edges.len() {
        Seq::empty()
    } else {
        (match silhouette_node(nodes, edges, k) {
            Option::Some(a) => seq![a],
            Option::None => Seq::empty(),
        }) + silhouette_arcs(nodes, edges, (k + 1) as nat)
    }
}

/// The executable best-so-far of the silhouette scan, as a spec value.
pub open spec fn opt_key(o: Option<(u64, Point)>) -> Option<(int, Point)> {
    match o {
        Option::Some(b) => Some((b.0 as int, b.1)),
        Option::None => None,
    }
}

impl ArcGraph {
    /// The outer silhouette of the offset of a set of arcs by a signed disc
    /// radius: the per-arc offset boundaries are merged, junctions strictly
    /// inside any arc's offset are pruned, and each surviving junction
    /// grows an arc to the next junction around its target's circle.
    pub fn minkowski(arcs: Vec<Arc>, radius: i64) -> (g: ArcGraph)
        requires
            forall|i: int|
                0 <= i < arcs.len() ==> arc_wf(#[trigger] arcs[i]) && bounded(
                    arcs[i].start,
                    0x400000,
                ) && bounded(arcs[i].end, 0x400000) && -0x100000 <= arcs[i].radius <= 0x100000,
            -0x100000 <= radius <= 0x100000,
            arcs@.len() <= 0x100000,
        ensures
            g.edges@.len() == 0,
            ({
                let sum = mink_sum_spec(arcs@, radius, arcs@.len());
                let mask = sum.1.map(|k: int, e: Edge| prune_point(arcs@, radius, e.point));
                g.nodes@ == silhouette_arcs(sum.0, masked_edges(sum.1, mask, 0), 0)
            }),
            graph_wf(g),
    {
        let ghost arcseq = arcs@;
        let mut sum = ArcGraph::new();
        let mut i: usize = 0;
        while i < arcs.len()
            invariant
                i <= arcs@.len(),
                arcs@ == arcseq,
                arcs@.len() <= 0x100000,
                forall|k: int|
                    0 <= k < arcs.len() ==> arc_wf(#[trigger] arcs@[k]) && bounded(
                        arcs@[k].start,
                        0x400000,
                    ) && bounded(arcs@[k].end, 0x400000) && -0x100000 <= arcs@[k].radius
                        <= 0x100000,
                -0x100000 <= radius <= 0x100000,
                (sum.nodes@, sum.edges@) == mink_sum_spec(arcseq, radius, i as nat),
                sum.nodes@.len() <= 4 * i,
                graph_wf(sum),
            decreases arcs.len() - i,
        {
            let m = Self::minkowski_arc(*arcs.get(i).unwrap(), radius);
            proof {
                assert(m.nodes@.len() <= 4) by {
                    assert(m.nodes@ == mink_arc_spec(arcseq[i as int], radius).0);
                }
            }
            sum = sum.add(m);
            i = i + 1;
        }
        let ghost sum_nodes = sum.nodes@;
        let ghost sum_edges = sum.edges@;
        let mut mask: Vec<bool> = Vec::new();
        let mut k: usize = 0;
        while k < sum.edges.len()
            invariant
                k <= sum.edges@.len(),
                sum.nodes@ == sum_nodes,
                sum.edges@ == sum_edges,
                graph_wf(sum),
                arcs@ == arcseq,
                forall|m: int|
                    0 <= m < arcs.len() ==> arc_wf(#[trigger] arcs@[m]) && bounded(
                        arcs@[m].start,
                        0x400000,
                    ) && bounded(arcs@[m].end, 0x400000) && -0x100000 <= arcs@[m].radius
                        <= 0x100000,
                mask@.len() == k,
                -0x100000 <= radius <= 0x100000,
                forall|m: int|
                    0 <= m < k ==> mask@[m] == prune_point(arcseq, radius, sum_edges[m].point),
            decreases sum.edges.len() - k,
        {
            let p = sum.edges.get(k).unwrap().point;
            let mut hit = false;
            let mut j: usize = 0;
            while j < arcs.len()
                invariant
                    j <= arcs@.len(),
                    arcs@ == arcseq,
                    forall|m: int|
                        0 <= m < arcs.len() ==> arc_wf(#[trigger] arcs@[m]) && bounded(
                            arcs@[m].start,
                            0x400000,
                        ) && bounded(arcs@[m].end, 0x400000) && -0x100000 <= arcs@[m].radius
                            <= 0x100000,
                    bounded(p, 0x800000),
                    -0x100000 <= radius <= 0x100000,
                    hit == exists|jj: int|
                        0 <= jj < j && crate::arc::arc_dist_spec(#[trigger] arcseq[jj], p)
                            < radius as int - 1,
                decreases arcs.len() - j,
            {
                let d = arcs.get(j).unwrap().distance_to_point(p);
                if d < radius - 1 {
                    hit = true;
                }
                j = j + 1;
            }
            mask.push(hit);
            k = k + 1;
        }
        sum.remove_edges(&mask);
        proof {
            assert(mask@ =~= sum_edges.map(
                |m: int, e: Edge| prune_point(arcseq, radius, e.point),
            ));
            lemma_masked_subset(sum_edges, mask@, 0);
            assert forall|m: int| 0 <= m < sum.edges@.len() implies (
            #[trigger] sum.edges@[m]).source < sum.nodes@.len() && sum.edges@[m].target
                < sum.nodes@.len() && bounded(sum.edges@[m].point, 0x800000) by {
                let mm = choose|mm: int|
                    0 <= mm < sum_edges.len() && sum.edges@[m] == sum_edges[mm];
            }
        }
        let ghost pruned = sum.edges@;
        let mut g = ArcGraph::new();
        let mut k: usize = 0;
        while k < sum.edges.len()
            invariant
                k <= sum.edges@.len(),
                sum.nodes@ == sum_nodes,
                sum.edges@ == pruned,
                graph_wf(sum),
                g.edges@.len() == 0,
                g.nodes@ + silhouette_arcs(sum_nodes, pruned, k as nat) == silhouette_arcs(
                    sum_nodes,
                    pruned,
                    0,
                ),
                forall|n: int|
                    0 <= n < g.nodes@.len() ==> bounded((#[trigger] g.nodes@[n]).center, 0x800000),
            decreases sum.edges.len() - k,
        {
            let e = *sum.edges.get(k).unwrap();
            let t = *sum.nodes.get(e.target).unwrap();
            let mut best: Option<(u64, Point)> = None;
            let mut j: usize = 0;
            while j < sum.edges.len()
                invariant
                    j <= sum.edges@.len(),
                    sum.nodes@ == sum_nodes,
                    sum.edges@ == pruned,
                    graph_wf(sum),
                    k < pruned.len(),
                    e == pruned[k as int],
                    t == sum_nodes[e.target as int],
                    scan_next(sum_nodes, pruned, k as nat, j as nat, opt_key(best)) == scan_next(
                        sum_nodes,
                        pruned,
                        k as nat,
                        0,
                        None,
                    ),
                decreases sum.edges.len() - j,
            {
                let f = *sum.edges.get(j).unwrap();
                let vc = Point { x: e.point.x - t.center.x, y: e.point.y - t.center.y };
                let vf = Point { x: f.point.x - t.center.x, y: f.point.y - t.center.y };
                if !(j == k || f.source != e.target || (vc.x == 0 && vc.y == 0) || (vf.x == 0
                    && vf.y == 0)) {
                    let key = if t.ccw {
                        crate::point::rel_key(vc, vf)
                    } else {
                        crate::point::rel_key_cw(vc, vf)
                    };
                    let better = match best {
                        None => true,
                        Some(b) => key < b.0,
                    };
                    if better {
                        best = Some((key, f.point));
                    }
                }
                j = j + 1;
            }
            match best {
                Some(b) => {
                    let arc = Arc {
                        start: e.point,
                        end: b.1,
                        radius: t.radius,
                        center: t.center,
                        ccw: t.ccw,
                    };
                    g.nodes.push(arc);
                    proof {
                        assert(silhouette_node(sum_nodes, pruned, k as nat) == Some(arc));
                        assert(g.nodes@ + silhouette_arcs(sum_nodes, pruned, (k + 1) as nat)
                            =~= silhouette_arcs(sum_nodes, pruned, 0));
                    }
                },
                None => {
                    proof {
                        assert(silhouette_node(sum_nodes, pruned, k as nat) is None);
                        assert(g.nodes@ + silhouette_arcs(sum_nodes, pruned, (k + 1) as nat)
                            =~= silhouette_arcs(sum_nodes, pruned, 0));
                    }
                },
            }
            k = k + 1;
        }
        g
    }
}

} // verus!
