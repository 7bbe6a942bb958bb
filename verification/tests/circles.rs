use rarc::circle::Circle;
use rarc::point::Point;

fn circle(radius: i64, x: i64, y: i64) -> Circle {
    Circle::new(radius, Point::new(x, y))
}

fn dist(a: Point, b: Point) -> f64 {
    let dx = (a.x - b.x) as f64;
    let dy = (a.y - b.y) as f64;
    (dx * dx + dy * dy).sqrt()
}

#[test]
fn intersection_is_symmetric() {
    let a = circle(5000, 0, 0);
    let b = circle(4000, 6000, 1000);
    let ab = a.intersect(b);
    let ba = b.intersect(a);
    assert_eq!(ab.len(), 2);
    assert_eq!(ba.len(), 2);
    // Swapping the circles swaps the two points exactly.
    assert_eq!(ab[0], ba[1]);
    assert_eq!(ab[1], ba[0]);
}

#[test]
fn separate_and_contained_circles_meet_nowhere() {
    let a = circle(100, 0, 0);
    let far = circle(100, 10000, 0);
    assert_eq!(a.intersect(far).len(), 0);
    let inside = circle(10, 20, 0);
    assert_eq!(a.intersect(inside).len(), 0);
    assert_eq!(a.intersect(a).len(), 0);
}

#[test]
fn tangency_boundary_gives_one_point_between_the_centers() {
    let a = circle(300, 0, 0);
    let b = circle(500, 800, 0);
    let pts = a.intersect(b);
    assert_eq!(pts.len(), 1);
    assert_eq!(pts[0], Point::new(300, 0));
    // The same point comes back when the circles swap roles.
    let pts2 = b.intersect(a);
    assert_eq!(pts2.len(), 1);
    assert_eq!(pts2[0], Point::new(300, 0));
}

#[test]
fn intersection_points_lie_on_both_circles() {
    let a = circle(5000, 0, 0);
    let b = circle(4000, 6000, 1000);
    for p in a.intersect(b) {
        assert!((dist(p, Point::new(0, 0)) - 5000.0).abs() < 3.0);
        assert!((dist(p, Point::new(6000, 1000)) - 4000.0).abs() < 3.0);
    }
}

#[test]
fn three_circle_scenario() {
    // Three circles of radius 60, 70 and 150 at (100,-50), (-100,-50) and
    // (0,100), scaled by 16 units.  The two large-small pairs meet twice;
    // the two smallest are too far apart for their radii and meet nowhere.
    let a = circle(960, 1600, -800);
    let b = circle(1120, -1600, -800);
    let c = circle(2400, 0, 1600);
    assert_eq!(a.intersect(b).len(), 0);
    assert_eq!(a.intersect(c).len(), 2);
    assert_eq!(b.intersect(c).len(), 2);
    let tangents = Circle::three_circle_tangent(a, b, c);
    assert!(tangents.len() >= 1);
    let t = tangents[0];
    // Each returned circle is tangent to all three inputs: the center
    // distance matches the signed radius sum in magnitude, up to the
    // fixed-point rounding of the solver.
    for input in [a, b, c] {
        let d = dist(t.center, input.center);
        let expect = ((t.radius + input.radius) as f64).abs();
        assert!((d - expect).abs() < 300.0, "distance {d} vs {expect}");
    }
}

#[test]
fn circumcircle_of_three_points() {
    let c = Circle::from_3_points(Point::new(1000, 0), Point::new(-1000, 0), Point::new(0, 1000));
    let c = c.unwrap();
    assert_eq!(c.center, Point::new(0, 0));
    assert_eq!(c.radius, 1000);
    // Collinear points have no circumcircle.
    assert!(
        Circle::from_3_points(Point::new(0, 0), Point::new(100, 0), Point::new(200, 0)).is_none()
    );
}

#[test]
fn endpoints_and_bend_fix_a_circle() {
    let c = Circle::from_endpoints_and_bend(Point::new(0, 0), Point::new(1000, 0), 65536);
    // A bend of one is a half circle: radius is half the chord.
    let c = c.unwrap();
    assert!((c.radius - 500).abs() <= 2, "radius {}", c.radius);
    assert!(dist(c.center, Point::new(500, 0)) < 4.0);
}
