use std::collections::hash_map::DefaultHasher;
use std::hash::{Hash, Hasher};

use navmesh::edge::Edge;
use navmesh::point::Point;

fn p(x: i64, y: i64) -> Point {
    Point { x: (x as f64).to_bits(), y: (y as f64).to_bits() }
}

#[test]
fn edge_new_orders_by_x() {
    let e = Edge::new(&p(3, 0), &p(1, 9));
    assert_eq!(e, Edge(p(1, 9), p(3, 0)));
}

#[test]
fn edge_new_orders_by_y_when_x_ties() {
    let e = Edge::new(&p(2, 5), &p(2, -4));
    assert_eq!(e, Edge(p(2, -4), p(2, 5)));
}

#[test]
fn edge_new_keeps_ordered_ends() {
    let e = Edge::new(&p(-1, 0), &p(0, 0));
    assert_eq!(e, Edge(p(-1, 0), p(0, 0)));
}

#[test]
fn edge_new_ignores_end_order() {
    let a = p(7, -3);
    let b = p(-2, 11);
    assert_eq!(Edge::new(&a, &b), Edge::new(&b, &a));
}

#[test]
fn edge_new_same_point_twice() {
    let a = p(4, 4);
    assert_eq!(Edge::new(&a, &a), Edge(a, a));
}

#[test]
fn edge_new_with_nan_keeps_given_order() {
    let nan = Point { x: (-f64::NAN).to_bits(), y: 0 };
    assert_eq!((Edge::new(&nan, &p(0, 0)).0).x, nan.x);
    assert_eq!((Edge::new(&p(0, 0), &nan).0).x, 0);
    assert!(Edge::new(&nan, &nan) != Edge::new(&nan, &nan));
    assert!(nan != nan);
}

#[test]
fn zeros_of_both_signs_are_equal() {
    let pos = Point { x: 0.0f64.to_bits(), y: 1.0f64.to_bits() };
    let neg = Point { x: (-0.0f64).to_bits(), y: 1.0f64.to_bits() };
    assert!(pos == neg);
    // neither comes after the other, so the given order stays
    assert_eq!(Edge::new(&neg, &pos).0.x, (-0.0f64).to_bits());
    assert_eq!(Edge::new(&pos, &neg).0.x, 0.0f64.to_bits());
    assert!(Edge::new(&neg, &pos) == Edge::new(&pos, &neg));
}

#[test]
fn edge_hash_writes_the_coordinate_bits() {
    let e = Edge::new(&Point { x: (-2.5f64).to_bits(), y: 3.0f64.to_bits() }, &p(4, -1));
    let mut derived = DefaultHasher::new();
    e.hash(&mut derived);
    let mut by_bits = DefaultHasher::new();
    by_bits.write_u64((-2.5f64).to_bits());
    by_bits.write_u64(3.0f64.to_bits());
    by_bits.write_u64(4.0f64.to_bits());
    by_bits.write_u64((-1.0f64).to_bits());
    assert_eq!(derived.finish(), by_bits.finish());
}

#[test]
fn edge_new_orders_negative_coordinates() {
    let e = Edge::new(&p(-1, 5), &p(-3, 0));
    assert_eq!(e, Edge(p(-3, 0), p(-1, 5)));
    let f = Edge::new(&p(-2, -1), &p(-2, -7));
    assert_eq!(f, Edge(p(-2, -7), p(-2, -1)));
}
