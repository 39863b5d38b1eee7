use navmesh::nav_mesh::{check_edge_in_triangle, make_graph, NavMesh, Triangle};
use navmesh::point::Point;

fn p(x: i64, y: i64) -> Point {
    Point { x: (x as f64).to_bits(), y: (y as f64).to_bits() }
}

// A strip of four triangles over the points
//   c--d--f
//   |\ |\ |
//   a--b--e
fn strip() -> Vec<Triangle> {
    let (a, b, c, d, e, f) = (p(0, 0), p(1, 0), p(0, 1), p(1, 1), p(2, 0), p(2, 1));
    vec![Triangle(a, b, c), Triangle(b, d, c), Triangle(b, e, d), Triangle(e, f, d)]
}

fn weights(n: usize, w: u64) -> Vec<Vec<u64>> {
    (0..n)
        .map(|i| (0..n).map(|j| if i == j { 0 } else { w + (i + j) as u64 }).collect())
        .collect()
}

#[test]
fn check_edge_in_triangle_needs_both_ends() {
    let t = Triangle(p(0, 0), p(1, 0), p(0, 1));
    assert!(check_edge_in_triangle(p(0, 0), p(0, 1), &t));
    assert!(check_edge_in_triangle(p(1, 0), p(1, 0), &t));
    assert!(!check_edge_in_triangle(p(0, 0), p(1, 1), &t));
    assert!(!check_edge_in_triangle(p(2, 2), p(1, 0), &t));
}

#[test]
fn make_graph_links_triangles_sharing_a_side() {
    let tris = strip();
    let w = weights(4, 10);
    let g = make_graph(&tris, &w);
    assert_eq!(g.len(), 4);
    assert_eq!(g[0], vec![(1, 11)]);
    assert_eq!(g[1], vec![(0, 11), (2, 13)]);
    assert_eq!(g[2], vec![(1, 13), (3, 15)]);
    assert_eq!(g[3], vec![(2, 15)]);
}

#[test]
fn make_graph_is_symmetric_for_proper_triangles() {
    let tris = strip();
    let g = make_graph(&tris, &weights(4, 1));
    for i in 0..4 {
        for &(j, _) in &g[i] {
            assert!(g[j].iter().any(|&(k, _)| k == i));
        }
    }
}

#[test]
fn make_graph_skips_equal_triangles_and_corner_contacts() {
    let t = Triangle(p(0, 0), p(1, 0), p(0, 1));
    let touching = Triangle(p(1, 0), p(2, 0), p(2, 1));
    let tris = vec![t, t, touching];
    let g = make_graph(&tris, &weights(3, 1));
    assert_eq!(g, vec![vec![], vec![], vec![]]);
}

#[test]
fn make_graph_of_nothing() {
    let g = make_graph(&Vec::new(), &Vec::new());
    assert!(g.is_empty());
}

#[test]
fn nav_mesh_new_builds_the_graph() {
    let mesh = NavMesh::new(strip(), &weights(4, 10));
    assert_eq!(mesh.triangles, strip());
    assert_eq!(mesh.graph[1], vec![(0, 11), (2, 13)]);
}

#[test]
fn find_triangle_returns_first_container() {
    let mesh = NavMesh::new(strip(), &weights(4, 1));
    assert_eq!(mesh.find_triangle(&vec![false, true, true, false]), Some(1));
    assert_eq!(mesh.find_triangle(&vec![false, false, false, true]), Some(3));
    assert_eq!(mesh.find_triangle(&vec![false, false, false, false]), None);
}

#[test]
fn find_successors_copies_the_row() {
    let mesh = NavMesh::new(strip(), &weights(4, 10));
    assert_eq!(mesh.find_successors(&2), vec![(1, 13), (3, 15)]);
    assert_eq!(mesh.find_successors(&0), vec![(1, 11)]);
}

#[test]
fn heuristic_is_zero() {
    let mesh = NavMesh::new(strip(), &weights(4, 10));
    assert_eq!(mesh.heuristic(&0, &3), 0);
    assert_eq!(mesh.heuristic(&3, &0), 0);
}

#[test]
fn path_along_the_strip() {
    let mesh = NavMesh::new(strip(), &weights(4, 10));
    let r = mesh.path(&vec![true, false, false, false], &vec![false, false, false, true]);
    assert_eq!(r, Some((vec![0, 1, 2, 3], 11 + 13 + 15)));
    let back = mesh.path(&vec![false, false, false, true], &vec![true, false, false, false]);
    assert_eq!(back, Some((vec![3, 2, 1, 0], 15 + 13 + 11)));
}

#[test]
fn path_to_same_triangle_is_free() {
    let mesh = NavMesh::new(strip(), &weights(4, 10));
    let inside = vec![false, false, true, false];
    assert_eq!(mesh.path(&inside, &inside), Some((vec![2], 0)));
}

#[test]
fn path_uses_first_containing_triangle() {
    let mesh = NavMesh::new(strip(), &weights(4, 10));
    let r = mesh.path(&vec![false, true, true, false], &vec![false, false, true, true]);
    assert_eq!(r, Some((vec![1, 2], 13)));
}

#[test]
fn path_takes_the_cheaper_route() {
    let t = Triangle(p(0, 0), p(1, 0), p(0, 1));
    let mesh = NavMesh {
        triangles: vec![t, t, t, t],
        graph: vec![
            vec![(1, 1), (2, 10)],
            vec![(0, 1), (3, 1)],
            vec![(0, 10), (3, 1)],
            vec![(1, 1), (2, 1)],
        ],
    };
    let r = mesh.path(&vec![true, false, false, false], &vec![false, false, true, false]);
    assert_eq!(r, Some((vec![0, 1, 3, 2], 3)));
}

#[test]
fn path_none_when_disconnected() {
    let t = Triangle(p(0, 0), p(1, 0), p(0, 1));
    let u = Triangle(p(5, 5), p(6, 5), p(5, 6));
    let mesh = NavMesh::new(vec![t, u], &weights(2, 1));
    assert_eq!(mesh.graph, vec![vec![], vec![]]);
    assert_eq!(mesh.path(&vec![true, false], &vec![false, true]), None);
}

#[test]
fn path_runs_when_unreachable_weights_are_huge() {
    let t = Triangle(p(0, 0), p(1, 0), p(0, 1));
    let mesh = NavMesh {
        triangles: vec![t, t, t],
        graph: vec![vec![(1, 1)], vec![(0, 1)], vec![(2, u64::MAX), (2, u64::MAX)]],
    };
    let r = mesh.path(&vec![true, false, false], &vec![false, true, false]);
    assert_eq!(r, Some((vec![0, 1], 1)));
}

#[test]
fn path_ignores_heavy_branch_beyond_the_goal() {
    let t = Triangle(p(0, 0), p(1, 0), p(0, 1));
    let mesh = NavMesh {
        triangles: vec![t, t, t],
        graph: vec![vec![(1, 1), (2, u64::MAX - 1)], vec![(0, 1)], vec![(0, 5)]],
    };
    let r = mesh.path(&vec![true, false, false], &vec![false, true, false]);
    assert_eq!(r, Some((vec![0, 1], 1)));
}

#[test]
fn path_with_more_rows_than_triangles() {
    let t = Triangle(p(0, 0), p(1, 0), p(0, 1));
    let mesh = NavMesh { triangles: vec![t, t], graph: vec![vec![(1, 2)], vec![(0, 2)], vec![]] };
    assert_eq!(mesh.path(&vec![true, false], &vec![false, true]), Some((vec![0, 1], 2)));
}
