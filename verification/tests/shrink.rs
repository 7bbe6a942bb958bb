use rarc::arc_poly::{split_opposite, ArcPoly, ShrinkError};
use rarc::point::Point;
use rarc::segment::{Bend, CollisionType, Segment};

/// A regular five-sided arc polygon with inward bends: vertices on a circle
/// of radius 4096 units, circle centers far outside so the edges are
/// nearly straight.
fn pentagon() -> ArcPoly {
    let data: [(i64, i64, i64, i64); 5] = [
        (4096, 0, 35041, 25461),
        (1266, 3896, -13383, 41195),
        (-3314, 2408, -43314, 0),
        (-3314, -2408, -13383, -41195),
        (1266, -3896, 35041, -25461),
    ];
    let mut segments = Vec::new();
    for (ix, iy, cx, cy) in data {
        segments.push(Segment {
            initial: Point::new(ix, iy),
            center: Point::new(cx, cy),
            bend: Bend::Inward,
        });
    }
    ArcPoly { segments }
}

#[test]
fn small_shrink_keeps_the_polygon() {
    let poly = pentagon();
    let shrunk = poly.shrunk(16);
    assert_eq!(shrunk.len(), 1);
    assert_eq!(shrunk[0].segments.len(), 5);
    // Every vertex moved inward, toward the origin.
    for (s0, s1) in poly.segments.iter().zip(shrunk[0].segments.iter()) {
        let r0 = (s0.initial.x as f64).hypot(s0.initial.y as f64);
        let r1 = (s1.initial.x as f64).hypot(s1.initial.y as f64);
        assert!(r1 < r0);
    }
}

#[test]
fn shrink_past_the_inradius_collapses_the_polygon() {
    let poly = pentagon();
    // The apothem is about 3314 units.  Past it, the neighbor events have
    // eaten the polygon down to a degenerate remnant of at most three
    // segments.
    let shrunk = poly.shrunk(8000);
    assert!(shrunk.iter().all(|p| p.segments.len() <= 3));
    // Far past it nothing remains at all.
    let gone = poly.shrunk(260000);
    assert_eq!(gone.len(), 0);
}

#[test]
fn the_first_events_are_the_vertex_collapses() {
    let poly = pentagon();
    let collisions = poly.future_collisions();
    assert!(collisions.len() >= 5);
    // The five corners collapse together, a unit apart by rounding, right
    // around the apothem minus the sagitta of the edge arcs.
    let first = collisions[0].time_place.amount;
    assert!((first - 3241).abs() <= 2, "first event at {first}");
    match collisions[0].kind {
        CollisionType::Neighbors { idx } => assert!(idx < 5),
        _ => panic!("expected a neighbor collision"),
    }
}

#[test]
fn shrink_is_monotone_in_steps() {
    let poly = pentagon();
    let direct = poly.shrink_naive(300).unwrap();
    let first = poly.shrink_naive(100).unwrap();
    let two_step = first.shrink_naive(200).unwrap();
    assert_eq!(direct.segments.len(), two_step.segments.len());
    for (a, b) in direct.segments.iter().zip(two_step.segments.iter()) {
        assert!((a.initial.x - b.initial.x).abs() <= 32, "{} vs {}", a.initial.x, b.initial.x);
        assert!((a.initial.y - b.initial.y).abs() <= 32, "{} vs {}", a.initial.y, b.initial.y);
        assert_eq!(a.center, b.center);
    }
}

#[test]
fn future_collisions_are_sorted_and_non_negative() {
    let poly = pentagon();
    let collisions = poly.future_collisions();
    for pair in collisions.windows(2) {
        assert!(pair[0].time_place.amount <= pair[1].time_place.amount);
    }
    for c in &collisions {
        assert!(c.time_place.amount >= 0);
    }
}

#[test]
fn opposite_split_conserves_segments() {
    let poly = pentagon();
    let n = poly.segments.len();
    let parts = split_opposite(poly, Point::new(10, 20), 1, 3);
    assert_eq!(parts.len(), 2);
    assert_eq!(parts[0].segments.len() + parts[1].segments.len(), n + 2);
    assert_eq!(parts[0].segments[2].initial, Point::new(10, 20));
    assert_eq!(parts[1].segments[0].initial, Point::new(10, 20));
}

#[test]
fn mixed_bends_are_reported_as_unsupported() {
    let mut poly = pentagon();
    poly.segments[2].bend = Bend::Outward;
    match poly.shrink_naive(10) {
        Err(e) => assert_eq!(e, ShrinkError::Unsupported),
        Ok(_) => panic!("expected an unsupported-configuration error"),
    }
}

#[test]
fn concentric_neighbors_are_degenerate() {
    let poly = ArcPoly {
        segments: vec![
            Segment {
                initial: Point::new(100, 0),
                center: Point::new(0, 0),
                bend: Bend::Inward,
            },
            Segment {
                initial: Point::new(0, 100),
                center: Point::new(0, 0),
                bend: Bend::Inward,
            },
        ],
    };
    match poly.shrink_naive(10) {
        Err(e) => assert_eq!(e, ShrinkError::Degenerate),
        Ok(_) => panic!("expected a degenerate-intersection error"),
    }
}

#[test]
fn outward_segments_announce_radius_zero_events() {
    let mut poly = pentagon();
    poly.segments[0].bend = Bend::Outward;
    let events = poly.radius_zero_collisions();
    assert_eq!(events.len(), 1);
    match events[0].kind {
        CollisionType::RadiusZero { idx } => assert_eq!(idx, 0),
        _ => panic!("wrong kind"),
    }
    assert_eq!(events[0].time_place.amount, 40073);
}

#[test]
fn with_removed_drops_one_segment() {
    let poly = pentagon();
    let smaller = poly.with_removed(2);
    assert_eq!(smaller.segments.len(), 4);
    assert_eq!(smaller.segments[2].initial, poly.segments[3].initial);
}

#[test]
fn max_arc_length_is_the_longest_window() {
    let poly = pentagon();
    let m = poly.max_arc_length();
    // All edges of the regular polygon have nearly equal chords.
    assert!((m - 4815).abs() <= 3, "max {m}");
    let tiny = ArcPoly { segments: vec![poly.segments[0]] };
    assert_eq!(tiny.max_arc_length(), i64::MAX);
}
