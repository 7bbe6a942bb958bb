use rarc::arc::Arc;
use rarc::arc_graph::ArcGraph;
use rarc::point::Point;
use rarc::segment::{angle_gen, Bend, Segment};

fn quarter(center: Point, radius: i64) -> Arc {
    Arc::from_angles_counterclockwise(
        Point::new(center.x + radius, center.y),
        Point::new(center.x, center.y + radius),
        radius,
        center,
    )
}

#[test]
fn union_copies_nodes_and_joins_intersections() {
    let mut left = ArcGraph::new();
    left.add_node(quarter(Point::new(0, 0), 1000));
    let mut right = ArcGraph::new();
    // A quarter arc of the circle around (800,0), spanning the second
    // quadrant so that it crosses the first arc.
    right.add_node(Arc::from_angles_counterclockwise(
        Point::new(800, 1000),
        Point::new(-200, 0),
        1000,
        Point::new(800, 0),
    ));
    let joined = left.add(right);
    assert_eq!(joined.nodes.len(), 2);
    // The quarter arcs cross once; the union records that junction.
    assert_eq!(joined.edges.len(), 1);
    let e = &joined.edges[0];
    assert!((e.source, e.target) == (0, 1) || (e.source, e.target) == (1, 0));
}

#[test]
fn removing_edges_keeps_the_rest_in_order() {
    let mut g = ArcGraph::new();
    let a = g.add_node(quarter(Point::new(0, 0), 1000));
    let b = g.add_node(quarter(Point::new(10, 0), 900));
    g.add_edge(a, b, Point::new(1, 2));
    g.add_edge(b, a, Point::new(3, 4));
    g.add_edge(a, a, Point::new(5, 6));
    g.remove_edges(&vec![false, true, false]);
    assert_eq!(g.edges.len(), 2);
    assert_eq!(g.edges[0].point, Point::new(1, 2));
    assert_eq!(g.edges[1].point, Point::new(5, 6));
    assert_eq!(g.nodes.len(), 2);
}

#[test]
fn graph_intersect_lists_pairs_in_order() {
    let mut left = ArcGraph::new();
    left.add_node(quarter(Point::new(0, 0), 1000));
    left.add_node(quarter(Point::new(0, 10), 990));
    let mut right = ArcGraph::new();
    right.add_node(Arc::from_angles_counterclockwise(
        Point::new(800, 1000),
        Point::new(-200, 0),
        1000,
        Point::new(800, 0),
    ));
    let pairs = left.intersect(&right);
    for (i, j, p) in &pairs {
        assert!(*i < 2 && *j < 1);
        assert!(p.x > 0 && p.y > 0);
    }
    assert!(pairs.len() >= 1);
}

#[test]
fn segment_views_of_its_circle() {
    let seg = Segment {
        initial: Point::new(300, 400),
        center: Point::new(0, 0),
        bend: Bend::Inward,
    };
    assert_eq!(seg.radius(), 500);
    assert_eq!(seg.circle().radius, 500);
    assert_eq!(seg.circle_neg_r().radius, 500);
    let outw = Segment { bend: Bend::Outward, ..seg };
    assert_eq!(outw.circle_neg_r().radius, -500);
    assert_eq!(seg.ca(), Point::new(300, 400));
    assert_eq!(seg.cb(&Point::new(500, 0)), Point::new(500, 0));
}

#[test]
fn segment_chord_normals_and_extremes() {
    let seg = Segment {
        initial: Point::new(0, 0),
        center: Point::new(500, -500),
        bend: Bend::Inward,
    };
    let next = Point::new(1000, 0);
    // The outward normal is the chord rotated a quarter turn clockwise.
    assert_eq!(seg.outward(&next), Point::new(0, -1000));
    // An inward extreme sits above the chord midpoint, an outward one
    // below it.
    assert_eq!(seg.extreme(&next), Point::new(500, 500));
    let outw = Segment { bend: Bend::Outward, ..seg };
    assert_eq!(outw.extreme(&next), Point::new(500, -500));
}

#[test]
fn segment_angles_follow_the_bend() {
    let seg = Segment {
        initial: Point::new(1000, 0),
        center: Point::new(0, 0),
        bend: Bend::Outward,
    };
    let next = Point::new(0, 1000);
    // A quarter turn counterclockwise from the initial point.
    let quarter_key = seg.angle(&next);
    let full_scale = 4 * 0x10000000000_u64;
    assert_eq!(quarter_key, full_scale / 4);
    // The clockwise reading of the same pair covers the other three
    // quarters.
    let inw = Segment { bend: Bend::Inward, ..seg };
    assert_eq!(inw.angle(&next), 3 * full_scale / 4);
    assert_eq!(seg.angle_a(), 0);
    assert_eq!(seg.angle_b(&next), full_scale / 4);
    assert_eq!(
        angle_gen(Point::new(1, 0), Point::new(0, -1), Bend::Outward),
        3 * full_scale / 4
    );
}
