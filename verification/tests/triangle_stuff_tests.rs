use navmesh::point::Point;
use navmesh::shape_math::{Edge, NavTriangle};
use navmesh::triangle_stuff::{
    check_edge_in_triangle, check_triangle_in_polygons, indexes_to_edges, indexes_to_triangles,
    insert_crossings, retain_passable, NavMap,
};

fn p(x: i64, y: i64) -> Point {
    Point { x: (x as f64).to_bits(), y: (y as f64).to_bits() }
}

fn tri(a: Point, b: Point, c: Point) -> NavTriangle {
    NavTriangle { coordinates: [a, b, c] }
}

#[test]
fn triangle_in_polygon_needs_all_corners_in_one_polygon() {
    let polygons = vec![vec![p(0, 0), p(1, 0), p(1, 1), p(0, 1)], vec![p(5, 5), p(6, 6)]];
    assert!(check_triangle_in_polygons(&tri(p(0, 0), p(1, 1), p(0, 1)), &polygons));
    assert!(!check_triangle_in_polygons(&tri(p(0, 0), p(1, 1), p(5, 5)), &polygons));
    assert!(!check_triangle_in_polygons(&tri(p(0, 0), p(1, 1), p(0, 1)), &vec![]));
}

#[test]
fn retain_passable_drops_enclosed_triangles() {
    let polygons = vec![vec![p(0, 0), p(1, 0), p(1, 1), p(0, 1)]];
    let inside = tri(p(0, 0), p(1, 0), p(1, 1));
    let outside1 = tri(p(0, 0), p(1, 0), p(2, 0));
    let outside2 = tri(p(3, 3), p(1, 0), p(2, 0));
    let mut triangles = vec![outside1, inside, outside2, inside];
    retain_passable(&mut triangles, &polygons);
    assert_eq!(triangles.len(), 2);
    assert_eq!(triangles[0].coordinates, outside1.coordinates);
    assert_eq!(triangles[1].coordinates, outside2.coordinates);
}

#[test]
fn indexes_to_triangles_groups_triples() {
    let points = vec![p(0, 0), p(1, 0), p(0, 1), p(1, 1)];
    let idx = vec![0, 1, 2, 1, 3, 2, 0];
    let tris = indexes_to_triangles(&points, &idx, &vec![false, true]);
    assert_eq!(tris.len(), 2);
    assert_eq!(tris[0].coordinates, [p(0, 0), p(1, 0), p(0, 1)]);
    assert_eq!(tris[1].coordinates, [p(1, 1), p(1, 0), p(0, 1)]);
}

#[test]
fn indexes_to_triangles_of_short_list() {
    let points = vec![p(0, 0), p(1, 0)];
    assert!(indexes_to_triangles(&points, &vec![0, 1], &vec![]).is_empty());
}

#[test]
fn indexes_to_edges_collects_each_side_once() {
    let points = vec![p(0, 0), p(1, 0), p(0, 1), p(1, 1)];
    let idx = vec![0, 1, 2, 1, 3, 2];
    let edges = indexes_to_edges(&points, &idx);
    assert_eq!(edges.len(), 5);
    for e in [
        Edge(p(0, 0), p(1, 0)),
        Edge(p(0, 0), p(0, 1)),
        Edge(p(0, 1), p(1, 0)),
        Edge(p(1, 0), p(1, 1)),
        Edge(p(0, 1), p(1, 1)),
    ] {
        assert_eq!(edges.iter().filter(|x| (x.0, x.1) == (e.0, e.1)).count(), 1);
    }
}

#[test]
fn triangle_stuff_check_edge_in_triangle() {
    let t = tri(p(0, 0), p(1, 0), p(0, 1));
    assert!(check_edge_in_triangle(p(1, 0), p(0, 1), &t));
    assert!(!check_edge_in_triangle(p(1, 0), p(1, 1), &t));
}

#[test]
fn nav_map_graph_links_side_sharing_triangles() {
    let (a, b, c, d) = (p(0, 0), p(1, 0), p(0, 1), p(1, 1));
    let tris = vec![tri(a, b, c), tri(b, d, c), tri(p(7, 7), p(8, 7), p(7, 8))];
    let w: Vec<Vec<f64>> = vec![vec![0.0, 1.5, 9.0], vec![1.5, 0.0, 8.0], vec![9.0, 8.0, 0.0]];
    let g = NavMap::make_graph(&tris, &w);
    assert_eq!(g, vec![vec![(1, 1.5)], vec![(0, 1.5)], vec![]]);
}

#[test]
fn nav_map_graph_asymmetric_for_rotated_copy() {
    let (a, b, c) = (p(0, 0), p(1, 0), p(0, 1));
    // the second triangle holds the corners of the first rotated: the first
    // equals it, it does not equal the first
    let tris = vec![tri(a, b, c), tri(c, a, b)];
    let w: Vec<Vec<u32>> = vec![vec![0, 4], vec![4, 0]];
    let g = NavMap::make_graph(&tris, &w);
    assert_eq!(g, vec![vec![(1, 4)], vec![]]);
}

#[test]
fn insert_crossings_places_kept_points_after_the_side() {
    let mut polygon = vec![p(0, 0), p(4, 0), p(4, 4)];
    let extra = vec![p(1, 0), p(2, 0), p(3, 0)];
    assert!(insert_crossings(&mut polygon, 1, &extra, &vec![true, false, true]));
    assert_eq!(polygon, vec![p(0, 0), p(1, 0), p(4, 0), p(3, 0), p(4, 4)]);
}

#[test]
fn insert_crossings_at_the_front_for_the_closing_side() {
    let mut polygon = vec![p(0, 0), p(4, 0), p(4, 4)];
    let extra = vec![p(2, 2)];
    assert!(insert_crossings(&mut polygon, 0, &extra, &vec![true]));
    assert_eq!(polygon, vec![p(2, 2), p(0, 0), p(4, 0), p(4, 4)]);
}

#[test]
fn insert_crossings_reports_a_position_past_the_end() {
    let mut polygon = vec![p(0, 0), p(4, 0), p(4, 4)];
    let extra = vec![p(1, 1), p(2, 2), p(3, 3)];
    assert!(!insert_crossings(&mut polygon, 2, &extra, &vec![false, false, true]));
    let mut untouched = vec![p(0, 0)];
    assert!(insert_crossings(&mut untouched, 1, &extra, &vec![false, false, false]));
    assert_eq!(untouched, vec![p(0, 0)]);
}

#[test]
fn indexes_to_edges_keeps_first_appearance_order() {
    let points = vec![p(0, 0), p(1, 0), p(0, 1), p(1, 1)];
    let edges = indexes_to_edges(&points, &vec![0, 1, 2, 1, 3, 2]);
    let ends: Vec<(Point, Point)> = edges.iter().map(|e| (e.0, e.1)).collect();
    assert_eq!(
        ends,
        vec![
            (p(0, 0), p(1, 0)),
            (p(0, 0), p(0, 1)),
            (p(0, 1), p(1, 0)),
            (p(1, 0), p(1, 1)),
            (p(0, 1), p(1, 1)),
        ]
    );
}

#[test]
fn nan_points_are_never_equal() {
    let nan = Point { x: f64::NAN.to_bits(), y: 0 };
    let polygons = vec![vec![nan, p(1, 0), p(0, 1)]];
    assert!(!check_triangle_in_polygons(&tri(nan, p(1, 0), p(0, 1)), &polygons));
    assert!(!check_edge_in_triangle(nan, p(1, 0), &tri(nan, p(1, 0), p(0, 1))));
    let edges = indexes_to_edges(&vec![nan, p(1, 0), p(0, 1)], &vec![0, 1, 2, 0, 1, 2]);
    // the sides through the NaN point equal nothing, so they come in twice
    assert_eq!(edges.len(), 5);
}
