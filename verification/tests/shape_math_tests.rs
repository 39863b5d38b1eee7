use navmesh::point::Point;
use navmesh::shape_math::{Edge, NavTriangle};

fn p(x: i64, y: i64) -> Point {
    Point { x: (x as f64).to_bits(), y: (y as f64).to_bits() }
}

#[test]
fn shape_edge_new_orders_its_ends() {
    assert_eq!(Edge::new(p(5, 1), p(2, 8)).0, p(2, 8));
    assert_eq!(Edge::new(p(5, 1), p(2, 8)).1, p(5, 1));
    let e = Edge::new(p(2, 8), p(2, 3));
    assert_eq!((e.0, e.1), (p(2, 3), p(2, 8)));
}

#[test]
fn shape_edge_equality_ignores_order() {
    let a = Edge(p(0, 0), p(1, 1));
    let b = Edge(p(1, 1), p(0, 0));
    assert!(a == b);
    assert!(b == a);
    assert!(a == a);
    assert!(a != Edge(p(0, 0), p(1, 2)));
}

#[test]
fn shape_edge_new_is_order_independent() {
    assert!(Edge::new(p(3, 3), p(-3, 4)) == Edge::new(p(-3, 4), p(3, 3)));
    let e = Edge::new(p(3, 3), p(-3, 4));
    assert_eq!((e.0, e.1), (p(-3, 4), p(3, 3)));
}

#[test]
fn from_coordinates_swaps_on_positive_determinant() {
    let c = [p(0, 0), p(1, 0), p(0, 1)];
    let t = NavTriangle::from_coordinates(c, true);
    assert_eq!(t.coordinates, [p(1, 0), p(0, 0), p(0, 1)]);
}

#[test]
fn from_coordinates_keeps_order_otherwise() {
    let c = [p(0, 0), p(0, 1), p(1, 0)];
    let t = NavTriangle::from_coordinates(c, false);
    assert_eq!(t.coordinates, c);
}

#[test]
fn nav_triangle_equality_accepts_identity_and_one_rotation() {
    let a = NavTriangle { coordinates: [p(0, 0), p(1, 0), p(0, 1)] };
    let same = NavTriangle { coordinates: [p(0, 0), p(1, 0), p(0, 1)] };
    // a's corners stand at positions 1, 2, 0 of `rotated`
    let rotated = NavTriangle { coordinates: [p(0, 1), p(0, 0), p(1, 0)] };
    let other_rotation = NavTriangle { coordinates: [p(1, 0), p(0, 1), p(0, 0)] };
    let mirrored = NavTriangle { coordinates: [p(1, 0), p(0, 0), p(0, 1)] };
    assert!(a == a);
    assert!(a == same);
    assert!(a == rotated);
    assert!(a != other_rotation);
    assert!(a != mirrored);
}

#[test]
fn nav_triangle_equality_is_not_symmetric() {
    let a = NavTriangle { coordinates: [p(0, 0), p(1, 0), p(0, 1)] };
    let rotated = NavTriangle { coordinates: [p(0, 1), p(0, 0), p(1, 0)] };
    assert!(a == rotated);
    assert!(!(rotated == a));
}

#[test]
fn triangle_share_point_finds_common_corner() {
    let a = NavTriangle { coordinates: [p(0, 0), p(1, 0), p(0, 1)] };
    let b = NavTriangle { coordinates: [p(5, 5), p(6, 5), p(0, 1)] };
    let c = NavTriangle { coordinates: [p(5, 5), p(6, 5), p(5, 6)] };
    assert!(a.triangle_share_point(&b));
    assert!(b.triangle_share_point(&a));
    assert!(!a.triangle_share_point(&c));
    assert!(!c.triangle_share_point(&a));
    assert!(a.triangle_share_point(&a));
}

fn det_positive(c: &[Point; 3]) -> bool {
    let (x0, y0) = (f64::from_bits(c[0].x), f64::from_bits(c[0].y));
    let (x1, y1) = (f64::from_bits(c[1].x), f64::from_bits(c[1].y));
    let (x2, y2) = (f64::from_bits(c[2].x), f64::from_bits(c[2].y));
    x0 * (y1 - y2) + x1 * (y2 - y0) + x2 * (y0 - y1) > 0.0
}

#[test]
fn building_again_changes_nothing() {
    for c in [[p(0, 0), p(1, 0), p(0, 1)], [p(0, 0), p(0, 1), p(1, 0)], [p(0, 0), p(1, 1), p(2, 2)]] {
        let once = NavTriangle::from_coordinates(c, det_positive(&c));
        let twice = NavTriangle::from_coordinates(once.coordinates, det_positive(&once.coordinates));
        assert_eq!(twice.coordinates, once.coordinates);
    }
}

#[test]
fn shape_edge_new_with_nan_swaps() {
    let nan = Point { x: f64::NAN.to_bits(), y: 3 };
    let e = Edge::new(nan, p(0, 0));
    assert_eq!(e.0, p(0, 0));
    assert_eq!(e.1.x, nan.x);
    let f = Edge::new(p(0, 0), nan);
    assert_eq!(f.0.x, nan.x);
    assert!(!(e == e));
}
