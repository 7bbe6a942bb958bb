use rarc::arc::Arc;
use rarc::arc_graph::ArcGraph;
use rarc::point::Point;

fn quarter_arc() -> Arc {
    // Counterclockwise quarter circle from (1000,0) to (0,1000).
    Arc::from_angles_counterclockwise(
        Point::new(1000, 0),
        Point::new(0, 1000),
        1000,
        Point::new(0, 0),
    )
}

#[test]
fn span_contains_both_endpoints_and_the_midpoint() {
    let arc = quarter_arc();
    assert!(arc.in_span(arc.start_point()));
    assert!(arc.in_span(arc.end_point()));
    assert!(arc.in_span(arc.mid_arc_point()));
    let cw = Arc::from_angles_clockwise(
        Point::new(1000, 0),
        Point::new(0, -1000),
        1000,
        Point::new(0, 0),
    );
    assert!(cw.in_span(cw.start_point()));
    assert!(cw.in_span(cw.end_point()));
    assert!(cw.in_span(cw.mid_arc_point()));
    // A point on the far side of the circle is outside the span.
    assert!(!arc.in_span(Point::new(-1000, -10)));
    assert!(!arc.in_span(Point::new(10, -1000)));
}

#[test]
fn bend_and_endpoints_round_trip() {
    for bend in [6554_i64, 32768, 58982, -32768] {
        let arc = Arc::from_bend_and_endpoints(Point::new(-2000, 500), Point::new(3000, 900), bend)
            .unwrap();
        assert_eq!(arc.start_point(), Point::new(-2000, 500));
        assert_eq!(arc.end_point(), Point::new(3000, 900));
        assert_eq!(arc.ccw, bend < 0);
        assert!(arc.valid());
    }
}

#[test]
fn arcs_intersect_only_within_both_spans() {
    // Two quarter arcs of crossing circles.
    let a = quarter_arc();
    let b = Arc::from_angles_counterclockwise(
        Point::new(1500 - 1000, 800),
        Point::new(1500, 800 - 1000),
        1000,
        Point::new(1500, 800),
    );
    let pts = a.intersect(b);
    for p in &pts {
        assert!(a.in_span(*p));
        assert!(b.in_span(*p));
    }
    // The full circles meet twice; the spans keep at most those points.
    let circle_pts = a.to_circle().intersect(b.to_circle());
    assert_eq!(circle_pts.len(), 2);
    assert!(pts.len() <= 2);
}

#[test]
fn invalid_arcs_meet_nothing() {
    let mut bad = quarter_arc();
    bad.radius = 0;
    assert!(!bad.valid());
    assert_eq!(bad.intersect(quarter_arc()).len(), 0);
}

#[test]
fn distance_to_point_prefers_the_arc_side() {
    let arc = quarter_arc();
    // A point facing the arc measures against the circle.
    assert!(arc.distance_to_point(Point::new(707, 707)) <= 2);
    let d = arc.distance_to_point(Point::new(1200, 300));
    assert!(d > 0 && d < 400);
    // A point behind the span measures against the nearer endpoint.
    let d2 = arc.distance_to_point(Point::new(0, -500));
    assert!((d2 - 1118).abs() <= 2, "distance {d2}");
}

#[test]
fn zero_offset_boundary_keeps_the_arc() {
    let arc = quarter_arc();
    let g = ArcGraph::minkowski_arc(arc, 0);
    assert_eq!(g.nodes.len(), 4);
    assert_eq!(g.nodes[0], arc);
    assert_eq!(g.edges.len(), 4);
}

#[test]
fn offset_boundary_has_the_four_piece_shape() {
    let arc = quarter_arc();
    let g = ArcGraph::minkowski_arc(arc, 100);
    assert_eq!(g.nodes.len(), 4);
    assert_eq!(g.nodes[0].radius, 1100);
    assert_eq!(g.nodes[2].radius, 900);
    // The end caps sit on the arc's endpoints.
    assert_eq!(g.nodes[1].center, arc.end_point());
    assert_eq!(g.nodes[3].center, arc.start_point());
    // A thick offset leaves the three-piece lens.
    let lens = ArcGraph::minkowski_arc(arc, 1500);
    assert_eq!(lens.nodes.len(), 3);
}

#[test]
fn minkowski_of_one_arc_builds_a_silhouette() {
    let arc = quarter_arc();
    let arcs = vec![arc];
    let g = ArcGraph::minkowski(arcs, 100);
    assert_eq!(g.edges.len(), 0);
    assert!(g.nodes.len() > 0);
}
