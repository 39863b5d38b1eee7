use vstd::prelude::*;
use crate::nested::rows;
use crate::point::Point;

verus! {

/// A triangle given by its three corners, in the order they were stored.
#[derive(Clone, Copy, Debug, Hash)]
pub struct Triangle(pub Point, pub Point, pub Point);

/// The corners of `t` and `o` are equal, position by position.
pub open spec fn same_triangle(t: Triangle, o: Triangle) -> bool {
    t.0.same(o.0) && t.1.same(o.1) && t.2.same(o.2)
}

impl PartialEq for Triangle {
    fn eq(&self, other: &Self) -> (r: bool) {
        self.0 == other.0 && self.1 == other.1 && self.2 == other.2
    }
}

impl vstd::std_specs::cmp::PartialEqSpecImpl for Triangle {
    open spec fn obeys_eq_spec() -> bool {
        true
    }

    open spec fn eq_spec(&self, other: &Triangle) -> bool {
        same_triangle(*self, *other)
    }
}

/// `p` equals one of the corners of `t`.
pub open spec fn is_corner(t: Triangle, p: Point) -> bool {
    p.same(t.0) || p.same(t.1) || p.same(t.2)
}

/// No coordinate of `t` is NaN and its three corners are pairwise distinct.
pub open spec fn non_degenerate(t: Triangle) -> bool {
    &&& t.0.is_number() && t.1.is_number() && t.2.is_number()
    &&& !t.0.same(t.1) && !t.1.same(t.2) && !t.0.same(t.2)
}

/// One of the sides of `t` (corners 0-1, 1-2 or 2-0) has both ends among
/// the corners of `o`.
pub open spec fn shares_side(t: Triangle, o: Triangle) -> bool {
    ||| is_corner(o, t.0) && is_corner(o, t.1)
    ||| is_corner(o, t.1) && is_corner(o, t.2)
    ||| is_corner(o, t.2) && is_corner(o, t.0)
}

/// Triangle `j` is a neighbour of triangle `i`: their corners are not all
/// equal, and `i` has a side whose ends both equal corners of `j`.
pub open spec fn linked(tris: Seq<Triangle>, i: int, j: int) -> bool {
    !same_triangle(tris[j], tris[i]) && shares_side(tris[i], tris[j])
}

/// The neighbours of triangle `i` among the triangles before index `k`,
/// in index order, each with the weight `weights[i][j]`.
pub open spec fn links_below(
    tris: Seq<Triangle>,
    weights: Seq<Seq<u64>>,
    i: int,
    k: int,
) -> Seq<(usize, u64)>
    decreases k,
{
    if k <= 0 {
        seq![]
    } else {
        let before = links_below(tris, weights, i, k - 1);
        if linked(tris, i, k - 1) {
            before.push(((k - 1) as usize, weights[i][k - 1]))
        } else {
            before
        }
    }
}

/// The adjacency lists of `tris`: row `i` lists the neighbours of `i`.
pub open spec fn adjacency_of(tris: Seq<Triangle>, weights: Seq<Seq<u64>>) -> Seq<Seq<(usize, u64)>> {
    Seq::new(tris.len(), |i: int| links_below(tris, weights, i, tris.len() as int))
}

/// Both ends `o1` and `o2` are corners of `triangle`.
pub fn check_edge_in_triangle(o1: Point, o2: Point, triangle: &Triangle) -> (r: bool)
    ensures
        r == (is_corner(*triangle, o1) && is_corner(*triangle, o2)),
{
    (o1 == triangle.0 || o1 == triangle.1 || o1 == triangle.2) && (o2 == triangle.0 || o2
        == triangle.1 || o2 == triangle.2)
}

/// A square matrix of weights, one row and one column per triangle.
pub open spec fn square(weights: Seq<Seq<u64>>, n: int) -> bool {
    weights.len() == n && forall|i: int| 0 <= i < n ==> #[trigger] weights[i].len() == n
}

/// Builds the adjacency lists between triangles: row `i` holds, in index
/// order, every other triangle `j` that has a side of triangle `i` among its
/// corners, with the weight `weights[i][j]` (the distance between the two
/// centers, computed by the caller).
pub fn make_graph(triangles: &Vec<Triangle>, weights: &Vec<Vec<u64>>) -> (graph: Vec<
    Vec<(usize, u64)>,
>)
    requires
        square(rows(weights@), triangles.len() as int),
    ensures
        rows(graph@) == adjacency_of(triangles@, rows(weights@)),
{
    let n = triangles.len();
    let ghost w = rows(weights@);
    let mut graph: Vec<Vec<(usize, u64)>> = Vec::new();
    let mut i: usize = 0;
    while i < n
        invariant
            n == triangles.len(),
            w == rows(weights@),
            square(w, n as int),
            i <= n,
            graph.len() == i,
            forall|a: int|
                0 <= a < i ==> #[trigger] graph@[a]@ == links_below(triangles@, w, a, n as int),
        decreases n - i,
    {
        let triangle = triangles[i];
        let mut inner: Vec<(usize, u64)> = Vec::new();
        let mut j: usize = 0;
        while j < n
            invariant
                n == triangles.len(),
                w == rows(weights@),
                square(w, n as int),
                i < n,
                j <= n,
                triangle == triangles@[i as int],
                inner@ == links_below(triangles@, w, i as int, j as int),
            decreases n - j,
        {
            let other = triangles[j];
            if other == triangle {
            } else if check_edge_in_triangle(triangle.0, triangle.1, &other)
                || check_edge_in_triangle(triangle.1, triangle.2, &other)
                || check_edge_in_triangle(triangle.2, triangle.0, &other) {
                assert(weights@[i as int]@ == w[i as int]);
                inner.push((j, weights[i][j]));
            }
            j += 1;
        }
        graph.push(inner);
        i += 1;
    }
    assert(rows(graph@) =~= adjacency_of(triangles@, w));
    graph
}

/// Every entry of `links_below(.., i, k)` names a neighbour `j < k` of `i`
/// with weight `weights[i][j]`, the entries come in increasing order of `j`,
/// and every neighbour below `k` is listed.
pub proof fn links_below_are_the_neighbours(
    tris: Seq<Triangle>,
    weights: Seq<Seq<u64>>,
    i: int,
    k: int,
)
    requires
        0 <= k <= tris.len(),
        tris.len() <= usize::MAX,
    ensures
        forall|m: int|
            0 <= m < links_below(tris, weights, i, k).len() ==> {
                let e = #[trigger] links_below(tris, weights, i, k)[m];
                &&& 0 <= e.0 < k
                &&& linked(tris, i, e.0 as int)
                &&& e.1 == weights[i][e.0 as int]
            },
        forall|a: int, b: int|
            0 <= a < b < links_below(tris, weights, i, k).len() ==> (#[trigger] links_below(
                tris,
                weights,
                i,
                k,
            )[a]).0 < (#[trigger] links_below(tris, weights, i, k)[b]).0,
        forall|j: int|
            0 <= j < k && #[trigger] linked(tris, i, j) ==> links_below(
                tris,
                weights,
                i,
                k,
            ).contains((j as usize, weights[i][j])),
    decreases k,
{
    if k > 0 {
        links_below_are_the_neighbours(tris, weights, i, k - 1);
        let before = links_below(tris, weights, i, k - 1);
        if linked(tris, i, k - 1) {
            let now = before.push(((k - 1) as usize, weights[i][k - 1]));
            assert forall|j: int|
                0 <= j < k && #[trigger] linked(tris, i, j) implies now.contains(
                (j as usize, weights[i][j]),
            ) by {
                if j == k - 1 {
                    assert(now[before.len() as int] == (j as usize, weights[i][j]));
                } else {
                    let m = choose|m: int|
                        0 <= m < before.len() && before[m] == (j as usize, weights[i][j]);
                    assert(now[m] == before[m]);
                }
            }
        }
    }
}

/// Triangle `j` and triangle `i` have corners that are not all equal,
/// position by position, and one side of triangle `i` (corners 0-1, 1-2 or
/// 2-0) has both ends equal to corners of triangle `j`.
pub open spec fn sharing_a_side(ti: Triangle, tj: Triangle) -> bool {
    &&& !(tj.0.same(ti.0) && tj.1.same(ti.1) && tj.2.same(ti.2))
    &&& {
        ||| equals_a_corner(ti.0, tj) && equals_a_corner(ti.1, tj)
        ||| equals_a_corner(ti.1, tj) && equals_a_corner(ti.2, tj)
        ||| equals_a_corner(ti.2, tj) && equals_a_corner(ti.0, tj)
    }
}

/// `p` equals the first, second or third corner of `t`.
pub open spec fn equals_a_corner(p: Point, t: Triangle) -> bool {
    p.same(t.0) || p.same(t.1) || p.same(t.2)
}

/// In the graph of a mesh, row `i` lists `(j, weights[i][j])` for every
/// triangle `j` of the mesh, at whatever index, that differs from triangle
/// `i` and has one of its sides among its corners; it lists nothing else,
/// and each triangle at most once, in increasing order.
pub proof fn graph_links_every_side_sharing_pair(
    tris: Seq<Triangle>,
    weights: Seq<Seq<u64>>,
    i: int,
)
    requires
        0 <= i < tris.len(),
        tris.len() <= usize::MAX,
    ensures
        forall|j: int|
            0 <= j < tris.len() && #[trigger] sharing_a_side(tris[i], tris[j]) ==> adjacency_of(
                tris,
                weights,
            )[i].contains((j as usize, weights[i][j])),
        forall|m: int|
            0 <= m < adjacency_of(tris, weights)[i].len() ==> {
                let e = #[trigger] adjacency_of(tris, weights)[i][m];
                &&& 0 <= e.0 < tris.len()
                &&& sharing_a_side(tris[i], tris[e.0 as int])
                &&& e.1 == weights[i][e.0 as int]
            },
        forall|a: int, b: int|
            0 <= a < b < adjacency_of(tris, weights)[i].len() ==> (#[trigger] adjacency_of(
                tris,
                weights,
            )[i][a]).0 < (#[trigger] adjacency_of(tris, weights)[i][b]).0,
{
    let n = tris.len() as int;
    links_below_are_the_neighbours(tris, weights, i, n);
    assert(adjacency_of(tris, weights)[i] == links_below(tris, weights, i, n));
    assert forall|j: int| 0 <= j < n implies #[trigger] linked(tris, i, j) == sharing_a_side(
        tris[i],
        tris[j],
    ) by {}
    assert forall|j: int|
        0 <= j < n && #[trigger] sharing_a_side(tris[i], tris[j]) implies adjacency_of(
        tris,
        weights,
    )[i].contains((j as usize, weights[i][j])) by {
        assert(linked(tris, i, j));
    }
}

/// Between triangles whose corners are distinct and hold no NaN, being
/// neighbours is symmetric: `j` is a neighbour of `i` exactly when `i` is
/// one of `j`.
pub proof fn neighbourhood_is_symmetric(tris: Seq<Triangle>, i: int, j: int)
    requires
        0 <= i < tris.len(),
        0 <= j < tris.len(),
        non_degenerate(tris[i]),
        non_degenerate(tris[j]),
    ensures
        linked(tris, i, j) == linked(tris, j, i),
{
    let (t, o) = (tris[i], tris[j]);
    crate::point::point_equality(t.0, o.0, t.1);
    crate::point::point_equality(t.0, o.1, t.1);
    crate::point::point_equality(t.0, o.2, t.1);
    crate::point::point_equality(t.1, o.0, t.2);
    crate::point::point_equality(t.1, o.1, t.2);
    crate::point::point_equality(t.1, o.2, t.2);
    crate::point::point_equality(t.2, o.0, t.0);
    crate::point::point_equality(t.2, o.1, t.0);
    crate::point::point_equality(t.2, o.2, t.0);
}


/// The sum of the weights in one adjacency list.
pub open spec fn row_weight(row: Seq<(usize, u64)>) -> int
    decreases row.len(),
{
    if row.len() == 0 {
        0
    } else {
        row_weight(row.drop_last()) + row.last().1
    }
}

/// The sum of all weights of a graph.
pub open spec fn total_weight(g: Seq<Seq<(usize, u64)>>) -> int
    decreases g.len(),
{
    if g.len() == 0 {
        0
    } else {
        total_weight(g.drop_last()) + row_weight(g.last())
    }
}

/// The sum of a sequence of step costs.
pub open spec fn cost_of(costs: Seq<u64>) -> int
    decreases costs.len(),
{
    if costs.len() == 0 {
        0
    } else {
        cost_of(costs.drop_last()) + costs.last()
    }
}

/// `p` is a walk through `g` that takes, from each node `p[k]`, an entry
/// `(p[k + 1], costs[k])` of that node's adjacency list.
pub open spec fn is_walk(g: Seq<Seq<(usize, u64)>>, p: Seq<usize>, costs: Seq<u64>) -> bool {
    &&& p.len() == costs.len() + 1
    &&& forall|k: int|
        0 <= k < costs.len() ==> (p[k] as int) < g.len() && g[p[k] as int].contains(
            (p[k + 1], #[trigger] costs[k]),
        )
}

/// `p` is a walk through `g` from node `s` to node `t`.
pub open spec fn is_route(
    g: Seq<Seq<(usize, u64)>>,
    p: Seq<usize>,
    costs: Seq<u64>,
    s: int,
    t: int,
) -> bool {
    is_walk(g, p, costs) && p[0] == s && p[p.len() - 1] == t
}

/// Some walk through `g` leads from `s` to `t`.
pub open spec fn connected(g: Seq<Seq<(usize, u64)>>, s: int, t: int) -> bool {
    exists|p: Seq<usize>, costs: Seq<u64>| #[trigger] is_route(g, p, costs, s, t)
}

/// `p` is a route from `s` to `t` of cost `c`, visiting no node twice, and
/// no route from `s` to `t` costs less.
pub open spec fn is_shortest_route(
    g: Seq<Seq<(usize, u64)>>,
    s: int,
    t: int,
    p: Seq<usize>,
    c: u64,
) -> bool {
    &&& exists|costs: Seq<u64>| #[trigger] is_route(g, p, costs, s, t) && cost_of(costs) == c
    &&& forall|q: Seq<usize>, qc: Seq<u64>| #[trigger] is_route(g, q, qc, s, t) ==> c <= cost_of(qc)
    &&& p.no_duplicates()
}

/// What a shortest-route search from `s` to `t` through `g` answers: a
/// shortest route with its cost (just `[s]` at no cost when `s == t`), or
/// nothing exactly when no route exists.
pub open spec fn search_outcome(
    g: Seq<Seq<(usize, u64)>>,
    s: int,
    t: int,
    r: Option<(Seq<usize>, u64)>,
) -> bool {
    match r {
        Some((p, c)) => {
            &&& is_shortest_route(g, s, t, p, c)
            &&& s == t ==> p == seq![s as usize] && c == 0
        },
        None => !connected(g, s, t),
    }
}

/// The entry `e` is in the list of the last node of `p`.
pub open spec fn last_row_has(g: Seq<Seq<(usize, u64)>>, p: Seq<usize>, e: (usize, u64)) -> bool {
    &&& p.len() > 0
    &&& (p.last() as int) < g.len()
    &&& g[p.last() as int].contains(e)
}

/// No route from `s` to `t` costs less than `c`.
pub open spec fn no_cheaper_route(g: Seq<Seq<(usize, u64)>>, s: int, t: int, c: int) -> bool {
    forall|q: Seq<usize>, qc: Seq<u64>| #[trigger] is_route(g, q, qc, s, t) ==> c <= cost_of(qc)
}

/// No sum that a shortest-route search from `s` to `t` forms overflows: for
/// every node `u` that a walk from `s` reaches at no more cost than any route
/// to `t` (the nodes the search may expand), and every entry `e` of `u`'s
/// list, some route from `s` to `u` followed by `e` costs at most
/// `u64::MAX`, so the shortest one does.
pub open spec fn search_fits(g: Seq<Seq<(usize, u64)>>, s: int, t: int) -> bool {
    forall|p: Seq<usize>, costs: Seq<u64>, e: (usize, u64)|
        #[trigger] is_walk(g, p, costs) && p[0] == s && #[trigger] last_row_has(g, p, e)
            && no_cheaper_route(g, s, t, cost_of(costs)) ==> exists|p2: Seq<usize>, c2: Seq<u64>|
            #[trigger] is_route(g, p2, c2, s, p.last() as int) && cost_of(c2) + e.1 <= u64::MAX
}

proof fn cost_of_concat(a: Seq<u64>, b: Seq<u64>)
    ensures
        cost_of(a + b) == cost_of(a) + cost_of(b),
        cost_of(b) >= 0,
    decreases b.len(),
{
    if b.len() > 0 {
        cost_of_concat(a, b.drop_last());
        assert((a + b).drop_last() =~= a + b.drop_last());
    }
}

/// Cutting the loops out of a walk gives a walk between the same nodes that
/// visits no node twice and costs no more.
proof fn shortcut(g: Seq<Seq<(usize, u64)>>, p: Seq<usize>, costs: Seq<u64>) -> (r: (
    Seq<usize>,
    Seq<u64>,
))
    requires
        is_walk(g, p, costs),
    ensures
        is_walk(g, r.0, r.1),
        r.0.no_duplicates(),
        r.0[0] == p[0],
        r.0.last() == p.last(),
        cost_of(r.1) <= cost_of(costs),
    decreases p.len(),
{
    if p.no_duplicates() {
        (p, costs)
    } else {
        let (a, b) = choose|a: int, b: int| 0 <= a < p.len() && 0 <= b < p.len() && a != b && p[a] == p[b];
        let i = if a < b { a } else { b };
        let j = if a < b { b } else { a };
        let d = j - i;
        let p1 = p.take(i + 1) + p.skip(j + 1);
        let c1 = costs.take(i) + costs.skip(j);
        assert(p1.len() == c1.len() + 1);
        assert forall|k: int| 0 <= k < c1.len() implies (#[trigger] p1[k] as int) < g.len() && g[p1[k] as int].contains(
            (p1[k + 1], c1[k]),
        ) by {
            if k < i {
                assert(p1[k] == p[k] && p1[k + 1] == p[k + 1] && c1[k] == costs[k]);
            } else {
                assert(p1[k] == p[k + d]);
                assert(p1[k + 1] == p[k + 1 + d]);
                assert(c1[k] == costs[k + d]);
            }
        }
        assert forall|k: int| 0 <= k < c1.len() implies (p1[k] as int) < g.len() && g[p1[k] as int].contains(
            (p1[k + 1], #[trigger] c1[k]),
        ) by {
            assert((p1[k] as int) < g.len());
        }
        assert(is_walk(g, p1, c1));
        assert(costs =~= costs.take(i) + costs.subrange(i, j) + costs.skip(j));
        cost_of_concat(costs.take(i), costs.subrange(i, j));
        cost_of_concat(costs.take(i) + costs.subrange(i, j), costs.skip(j));
        cost_of_concat(costs.take(i), costs.skip(j));
        assert(p1[0] == p[0]);
        assert(p1.last() == p.last());
        shortcut(g, p1, c1)
    }
}

/// The sum of the lists of the nodes `q`.
pub open spec fn rows_weight(g: Seq<Seq<(usize, u64)>>, q: Seq<usize>) -> int
    decreases q.len(),
{
    if q.len() == 0 {
        0
    } else {
        rows_weight(g, q.drop_last()) + row_weight(g[q.last() as int])
    }
}

proof fn row_weight_bounds_entries(row: Seq<(usize, u64)>, e: (usize, u64))
    ensures
        row_weight(row) >= 0,
        row.contains(e) ==> e.1 <= row_weight(row),
    decreases row.len(),
{
    if row.len() > 0 {
        row_weight_bounds_entries(row.drop_last(), e);
        if row.contains(e) && row.last() != e {
            let k = choose|k: int| 0 <= k < row.len() && row[k] == e;
            assert(row.drop_last()[k] == e);
        }
    }
}

proof fn total_weight_is_not_negative(g: Seq<Seq<(usize, u64)>>)
    ensures
        total_weight(g) >= 0,
    decreases g.len(),
{
    if g.len() > 0 {
        total_weight_is_not_negative(g.drop_last());
        row_weight_bounds_entries(g.last(), (0, 0));
    }
}

/// A walk followed by one more entry costs no more than the lists of its
/// nodes together.
proof fn walk_cost_within_rows(
    g: Seq<Seq<(usize, u64)>>,
    p: Seq<usize>,
    costs: Seq<u64>,
    e: (usize, u64),
)
    requires
        is_walk(g, p, costs),
        last_row_has(g, p, e),
    ensures
        cost_of(costs) + e.1 <= rows_weight(g, p),
    decreases costs.len(),
{
    row_weight_bounds_entries(g[p.last() as int], e);
    assert(rows_weight(g, p) == rows_weight(g, p.drop_last()) + row_weight(g[p.last() as int]));
    if costs.len() == 0 {
        assert(rows_weight(g, p.drop_last()) == 0);
    } else {
        let p1 = p.drop_last();
        let c1 = costs.drop_last();
        let m = costs.len() - 1;
        let step = (p[m + 1], costs[m]);
        assert(g[p[m] as int].contains(step));
        assert forall|k: int| 0 <= k < c1.len() implies (p1[k] as int) < g.len() && g[p1[k] as int].contains(
            (p1[k + 1], #[trigger] c1[k]),
        ) by {
            assert(costs[k] == c1[k]);
            assert(p1[k] == p[k]);
            assert(p1[k + 1] == p[k + 1]);
        }
        assert forall|k: int| 0 <= k < c1.len() implies (#[trigger] p1[k] as int) < g.len() by {
            assert(costs[k] == c1[k]);
            assert(p1[k] == p[k]);
        }
        assert(is_walk(g, p1, c1));
        assert(cost_of(costs) == cost_of(c1) + costs[m]);
        assert(rows_weight(g, p) == rows_weight(g, p1) + row_weight(g[p.last() as int]));
        walk_cost_within_rows(g, p1, c1, step);
    }
}

proof fn rows_weight_without(g: Seq<Seq<(usize, u64)>>, q: Seq<usize>, j: int)
    requires
        0 <= j < q.len(),
    ensures
        rows_weight(g, q) == rows_weight(g, q.remove(j)) + row_weight(g[q[j] as int]),
    decreases q.len(),
{
    if j == q.len() - 1 {
        assert(q.remove(j) =~= q.drop_last());
    } else {
        rows_weight_without(g, q.drop_last(), j);
        assert(q.remove(j).drop_last() =~= q.drop_last().remove(j));
        assert(q.remove(j).last() == q.last());
    }
}

proof fn rows_weight_of_prefix(g: Seq<Seq<(usize, u64)>>, q: Seq<usize>, m: int)
    requires
        0 <= m <= g.len(),
        forall|i: int| 0 <= i < q.len() ==> (#[trigger] q[i] as int) < m,
    ensures
        rows_weight(g, q) == rows_weight(g.subrange(0, m), q),
    decreases q.len(),
{
    if q.len() > 0 {
        rows_weight_of_prefix(g, q.drop_last(), m);
        assert(q.last() == q[q.len() - 1]);
    }
}

/// The lists of distinct nodes together weigh no more than the whole graph.
proof fn distinct_rows_within_total(g: Seq<Seq<(usize, u64)>>, q: Seq<usize>)
    requires
        q.no_duplicates(),
        forall|i: int| 0 <= i < q.len() ==> (#[trigger] q[i] as int) < g.len(),
    ensures
        rows_weight(g, q) <= total_weight(g),
    decreases g.len(),
{
    if g.len() == 0 {
        if q.len() > 0 {
            assert((q[0] as int) < g.len());
        }
    } else {
        let n = g.len() - 1;
        let g1 = g.drop_last();
        assert(g1 =~= g.subrange(0, n));
        total_weight_is_not_negative(g1);
        row_weight_bounds_entries(g.last(), (0, 0));
        if exists|j: int| 0 <= j < q.len() && q[j] == n {
            let j = choose|j: int| 0 <= j < q.len() && q[j] == n;
            let q1 = q.remove(j);
            rows_weight_without(g, q, j);
            assert forall|i: int| 0 <= i < q1.len() implies (#[trigger] q1[i] as int) < n by {
                if i < j {
                    assert(q1[i] == q[i]);
                } else {
                    assert(q1[i] == q[i + 1]);
                }
            }
            assert(q1.no_duplicates()) by {
                assert forall|a: int, b: int| 0 <= a < b < q1.len() implies q1[a] != q1[b] by {
                    let a0 = if a < j { a } else { a + 1 };
                    let b0 = if b < j { b } else { b + 1 };
                    assert(q1[a] == q[a0]);
                    assert(q1[b] == q[b0]);
                }
            }
            rows_weight_of_prefix(g, q1, n);
            distinct_rows_within_total(g1, q1);
        } else {
            assert forall|i: int| 0 <= i < q.len() implies (#[trigger] q[i] as int) < n by {
                assert(q[i] != n);
            }
            rows_weight_of_prefix(g, q, n);
            distinct_rows_within_total(g1, q);
        }
    }
}

/// When all weights of a graph together fit in a `u64`, no sum formed by a
/// shortest-route search overflows.
pub proof fn total_weight_bound_fits_search(g: Seq<Seq<(usize, u64)>>, s: int, t: int)
    requires
        total_weight(g) <= u64::MAX,
    ensures
        search_fits(g, s, t),
{
    assert forall|p: Seq<usize>, costs: Seq<u64>, e: (usize, u64)|
        #[trigger] is_walk(g, p, costs) && p[0] == s && #[trigger] last_row_has(g, p, e)
            && no_cheaper_route(g, s, t, cost_of(costs)) implies exists|p2: Seq<usize>, c2: Seq<u64>|
        #[trigger] is_route(g, p2, c2, s, p.last() as int) && cost_of(c2) + e.1 <= u64::MAX by {
        let (p2, c2) = shortcut(g, p, costs);
        assert(last_row_has(g, p2, e));
        walk_cost_within_rows(g, p2, c2, e);
        assert forall|i: int| 0 <= i < p2.len() implies (#[trigger] p2[i] as int) < g.len() by {
            assert(is_walk(g, p2, c2));
            if i < c2.len() {
                let c = c2[i];
                assert((p2[i] as int) < g.len());
            } else {
                assert(p2.last() == p2[i]);
            }
        }
        distinct_rows_within_total(g, p2);
        assert(is_route(g, p2, c2, s, p.last() as int));
    }
}

/// The route and cost of a search result, as values.
pub open spec fn outcome_view(r: Option<(Vec<usize>, u64)>) -> Option<(Seq<usize>, u64)> {
    match r {
        Some((p, c)) => Some((p@, c)),
        None => None,
    }
}

/// The index of the first `true` in `s` at or after `k`.
pub open spec fn first_true_from(s: Seq<bool>, k: int) -> Option<usize>
    decreases s.len() - k,
{
    if k < 0 || k >= s.len() {
        None
    } else if s[k] {
        Some(k as usize)
    } else {
        first_true_from(s, k + 1)
    }
}

/// The index of the first `true` in `s`.
pub open spec fn first_true(s: Seq<bool>) -> Option<usize> {
    first_true_from(s, 0)
}

/// `first_true` finds the first `true`, and finds one whenever there is one.
pub proof fn first_true_is_first(s: Seq<bool>)
    requires
        s.len() <= usize::MAX,
    ensures
        first_true(s) is Some <==> exists|i: int| 0 <= i < s.len() && #[trigger] s[i],
        first_true(s) matches Some(i) ==> i < s.len() && s[i as int] && forall|k: int|
            0 <= k < i ==> !#[trigger] s[k],
{
    lemma_first_true_from(s, 0);
}

proof fn lemma_first_true_from(s: Seq<bool>, k: int)
    requires
        0 <= k <= s.len(),
        s.len() <= usize::MAX,
    ensures
        first_true_from(s, k) is Some <==> exists|i: int| k <= i < s.len() && #[trigger] s[i],
        first_true_from(s, k) matches Some(i) ==> k <= i < s.len() && s[i as int] && forall|
            m: int,
        |
            k <= m < i ==> !#[trigger] s[m],
    decreases s.len() - k,
{
    if k < s.len() {
        lemma_first_true_from(s, k + 1);
        if !s[k] {
            if exists|i: int| k <= i < s.len() && #[trigger] s[i] {
                let i = choose|i: int| k <= i < s.len() && #[trigger] s[i];
                assert(k + 1 <= i);
            }
        }
    }
}

/// A navigation mesh: triangles and, per triangle, the list of its
/// neighbours with the distance between their centers.
pub struct NavMesh {
    pub triangles: Vec<Triangle>,
    pub graph: Vec<Vec<(usize, u64)>>,
}

impl NavMesh {
    /// The graph of the mesh, as adjacency lists.
    pub open spec fn adjacency(&self) -> Seq<Seq<(usize, u64)>> {
        rows(self.graph@)
    }

    /// Every neighbour listed is a triangle of the mesh that has an
    /// adjacency list of its own.
    pub open spec fn well_formed(&self) -> bool {
        forall|i: int, k: int|
            0 <= i < self.graph.len() && 0 <= k < self.graph@[i]@.len() ==> {
                let j = (#[trigger] self.graph@[i]@[k]).0;
                j < self.triangles.len() && j < self.graph.len()
            }
    }

    /// Builds the mesh of the given triangles, linking each triangle to the
    /// others that have one of its sides among their corners. `weights[i][j]`
    /// is the distance between the centers of triangles `i` and `j`.
    pub fn new(triangles: Vec<Triangle>, weights: &Vec<Vec<u64>>) -> (mesh: NavMesh)
        requires
            square(rows(weights@), triangles.len() as int),
        ensures
            mesh.triangles@ == triangles@,
            mesh.adjacency() == adjacency_of(triangles@, rows(weights@)),
            mesh.graph.len() == mesh.triangles.len(),
            forall|i: int, k: int|
                0 <= i < mesh.graph.len() && 0 <= k < mesh.graph@[i]@.len() ==> (
                #[trigger] mesh.graph@[i]@[k]).0 < mesh.triangles.len(),
            mesh.well_formed(),
    {
        let graph = make_graph(&triangles, weights);
        let mesh = NavMesh { triangles, graph };
        proof {
            let n = mesh.triangles.len() as int;
            assert(rows(mesh.graph@) == adjacency_of(mesh.triangles@, rows(weights@)));
            assert(rows(mesh.graph@).len() == mesh.graph@.len());
            assert(mesh.graph.len() == n);
            assert forall|i: int, k: int|
                0 <= i < mesh.graph.len() && 0 <= k < mesh.graph@[i]@.len() implies (
                #[trigger] mesh.graph@[i]@[k]).0 < mesh.triangles.len() by {
                links_below_are_the_neighbours(mesh.triangles@, rows(weights@), i, n);
                assert(mesh.graph@[i]@ == rows(mesh.graph@)[i]);
                assert(adjacency_of(mesh.triangles@, rows(weights@))[i] == links_below(
                    mesh.triangles@,
                    rows(weights@),
                    i,
                    n,
                ));
                let e = links_below(mesh.triangles@, rows(weights@), i, n)[k];
                assert(mesh.graph@[i]@[k] == e);
            }
        }
        mesh
    }

    /// The first triangle that contains the point, given for each triangle
    /// whether it contains the point.
    pub fn find_triangle(&self, contains: &Vec<bool>) -> (r: Option<usize>)
        requires
            contains.len() == self.triangles.len(),
        ensures
            r == first_true(contains@),
            r is Some <==> exists|i: int| 0 <= i < contains.len() && #[trigger] contains@[i],
            r matches Some(i) ==> i < contains.len() && contains@[i as int] && forall|k: int|
                0 <= k < i ==> !#[trigger] contains@[k],
    {
        let mut i: usize = 0;
        while i < contains.len()
            invariant
                i <= contains.len(),
                first_true(contains@) == first_true_from(contains@, i as int),
            decreases contains.len() - i,
        {
            if contains[i] {
                proof {
                    first_true_is_first(contains@);
                }
                return Some(i);
            }
            i += 1;
        }
        proof {
            first_true_is_first(contains@);
        }
        None
    }

    /// The neighbours of a triangle, with their distances.
    pub fn find_successors(&self, index: &usize) -> (r: Vec<(usize, u64)>)
        requires
            *index < self.graph.len(),
        ensures
            r@ == self.graph@[*index as int]@,
    {
        let row = &self.graph[*index];
        let mut r: Vec<(usize, u64)> = Vec::new();
        let mut k: usize = 0;
        while k < row.len()
            invariant
                k <= row.len(),
                r@ == row@.subrange(0, k as int),
            decreases row.len() - k,
        {
            r.push(row[k]);
            k += 1;
            assert(r@ =~= row@.subrange(0, k as int));
        }
        assert(row@.subrange(0, row.len() as int) =~= row@);
        r
    }

    /// The estimate of the remaining distance used by the route search: zero
    /// for every pair of triangles, so the search is not guided.
    pub fn heuristic(&self, index_1: &usize, index_2: &usize) -> (r: u64)
        requires
            *index_1 < self.triangles.len(),
            *index_2 < self.triangles.len(),
        ensures
            r == 0,
    {
        0
    }

    /// A shortest route through the graph from the first triangle that
    /// contains the start point to the first triangle that contains the end
    /// point, with its cost, or `None` when no route links them.
    /// `contains_1[i]` (`contains_2[i]`) tells whether triangle `i` contains
    /// the start (end) point; each point lies in some triangle.
    pub fn path(&self, contains_1: &Vec<bool>, contains_2: &Vec<bool>) -> (r: Option<
        (Vec<usize>, u64),
    >)
        requires
            self.well_formed(),
            contains_1.len() == self.triangles.len(),
            first_true(contains_1@)->0 < self.graph.len(),
            contains_2.len() == self.triangles.len(),
            exists|i: int| 0 <= i < contains_1.len() && #[trigger] contains_1@[i],
            exists|i: int| 0 <= i < contains_2.len() && #[trigger] contains_2@[i],
            search_fits(
                self.adjacency(),
                first_true(contains_1@)->0 as int,
                first_true(contains_2@)->0 as int,
            ),
        ensures
            first_true(contains_1@) is Some,
            first_true(contains_2@) is Some,
            search_outcome(
                self.adjacency(),
                first_true(contains_1@)->0 as int,
                first_true(contains_2@)->0 as int,
                outcome_view(r),
            ),
    {
        let index_1 = self.find_triangle(contains_1).unwrap();
        let index_2 = self.find_triangle(contains_2).unwrap();
        shortest_route(self, index_1, index_2)
    }
}

/// Whether the search has reached its destination.
fn is_destination(candidate: &usize, destination: &usize) -> (r: bool)
    ensures
        r == (*candidate == *destination),
{
    *candidate == *destination
}

/// Runs `pathfinding::directed::astar::astar` over the mesh graph from
/// `start`, with the mesh's successor lists and estimate, stopping at `goal`.
/// Its documentation promises a shortest route that holds `start` and the
/// goal and no node twice, together with its cost, or `None` when no route
/// exists; the estimate (zero) never exceeds the real cost and the costs are
/// unsigned, as it asks. Its source returns `[start]` at cost zero at once
/// when `start` is the goal. Each sum it forms is the cost of a shortest
/// route from `start` to a node it expands (one no farther than the goal)
/// plus one entry of that node's list, which `search_fits` keeps within a
/// `u64`.
#[verifier::external_body]
fn shortest_route(mesh: &NavMesh, start: usize, goal: usize) -> (r: Option<(Vec<usize>, u64)>)
    requires
        mesh.well_formed(),
        start < mesh.triangles.len(),
        start < mesh.graph.len(),
        goal < mesh.triangles.len(),
        search_fits(mesh.adjacency(), start as int, goal as int),
    ensures
        search_outcome(mesh.adjacency(), start as int, goal as int, outcome_view(r)),
{
    pathfinding::prelude::astar(
        &start,
        |i| mesh.find_successors(i),
        |i| mesh.heuristic(i, &goal),
        |i| is_destination(i, &goal),
    )
}

} // verus!
