use vstd::prelude::*;
use crate::nested::rows;
use crate::point::Point;
use crate::shape_math::{Edge, NavTriangle, built_corners, is_corner, non_degenerate, same_corners};

verus! {

/// A navigation map: the passable triangles, the polygons that cannot be
/// crossed, and per triangle the list of its neighbours with the distance
/// `W` between their centers.
#[derive(Debug, Clone)]
pub struct NavMap<W> {
    pub triangles: Vec<NavTriangle>,
    pub non_passable_polygons: Vec<Vec<Point>>,
    pub graph: Vec<Vec<(usize, W)>>,
}

/// Some point of `polygon` equals `p`.
pub open spec fn has_point(polygon: Seq<Point>, p: Point) -> bool {
    exists|k: int| 0 <= k < polygon.len() && (#[trigger] polygon[k]).same(p)
}

/// All three corners of `t` equal points of `polygon`.
pub open spec fn in_polygon(polygon: Seq<Point>, t: NavTriangle) -> bool {
    &&& has_point(polygon, t.coordinates@[0])
    &&& has_point(polygon, t.coordinates@[1])
    &&& has_point(polygon, t.coordinates@[2])
}

/// Some polygon holds all three corners of `t`.
pub open spec fn in_some_polygon(t: NavTriangle, polygons: Seq<Seq<Point>>) -> bool {
    exists|k: int| 0 <= k < polygons.len() && #[trigger] in_polygon(polygons[k], t)
}

/// Whether some point of `polygon` equals `p`.
fn polygon_has(polygon: &Vec<Point>, p: &Point) -> (r: bool)
    ensures
        r == has_point(polygon@, *p),
{
    let mut i: usize = 0;
    while i < polygon.len()
        invariant
            i <= polygon.len(),
            forall|k: int| 0 <= k < i ==> !(#[trigger] polygon@[k]).same(*p),
        decreases polygon.len() - i,
    {
        if polygon[i] == *p {
            return true;
        }
        i += 1;
    }
    false
}

/// Whether some polygon has all three corners of the triangle.
pub fn check_triangle_in_polygons(t: &NavTriangle, polygons: &Vec<Vec<Point>>) -> (r: bool)
    ensures
        r == in_some_polygon(*t, rows(polygons@)),
{
    let ghost ps = rows(polygons@);
    let mut i: usize = 0;
    while i < polygons.len()
        invariant
            ps == rows(polygons@),
            i <= polygons.len(),
            forall|k: int| 0 <= k < i ==> !#[trigger] in_polygon(ps[k], *t),
        decreases polygons.len() - i,
    {
        let polygon = &polygons[i];
        if polygon_has(polygon, &t.coordinates[0]) && polygon_has(polygon, &t.coordinates[1])
            && polygon_has(polygon, &t.coordinates[2]) {
            assert(in_polygon(ps[i as int], *t));
            return true;
        }
        i += 1;
    }
    false
}

/// Some point of `polygon` equals `p`, written out.
pub open spec fn polygon_point_equals(polygon: Seq<Point>, p: Point) -> bool {
    exists|m: int| 0 <= m < polygon.len() && (#[trigger] polygon[m]).same(p)
}

/// A triangle counts as lying in the polygons exactly when one polygon has,
/// for each of the three corners, a point equal to it.
pub proof fn inside_means_every_corner_in_one_polygon(t: NavTriangle, polygons: Seq<Seq<Point>>)
    ensures
        in_some_polygon(t, polygons) <==> exists|k: int|
            0 <= k < polygons.len() && {
                &&& polygon_point_equals(#[trigger] polygons[k], t.coordinates@[0])
                &&& polygon_point_equals(polygons[k], t.coordinates@[1])
                &&& polygon_point_equals(polygons[k], t.coordinates@[2])
            },
{
    if in_some_polygon(t, polygons) {
        let k = choose|k: int| 0 <= k < polygons.len() && #[trigger] in_polygon(polygons[k], t);
        assert(polygon_point_equals(polygons[k], t.coordinates@[0]));
    }
    if exists|k: int|
        0 <= k < polygons.len() && {
            &&& polygon_point_equals(#[trigger] polygons[k], t.coordinates@[0])
            &&& polygon_point_equals(polygons[k], t.coordinates@[1])
            &&& polygon_point_equals(polygons[k], t.coordinates@[2])
        } {
        let k = choose|k: int|
            0 <= k < polygons.len() && {
                &&& polygon_point_equals(#[trigger] polygons[k], t.coordinates@[0])
                &&& polygon_point_equals(polygons[k], t.coordinates@[1])
                &&& polygon_point_equals(polygons[k], t.coordinates@[2])
            };
        assert(in_polygon(polygons[k], t));
    }
}

/// A triangle with a corner that equals no point of any polygon lies in no
/// polygon, so `retain_passable` keeps it.
pub proof fn corner_outside_every_polygon_keeps_triangle(
    triangles: Seq<NavTriangle>,
    polygons: Seq<Seq<Point>>,
    t: NavTriangle,
    a: int,
)
    requires
        0 <= a < 3,
        forall|k: int, m: int|
            0 <= k < polygons.len() && 0 <= m < polygons[k].len() ==> !(
            #[trigger] polygons[k][m]).same(t.coordinates@[a]),
        triangles.contains(t),
    ensures
        !in_some_polygon(t, polygons),
        passable(triangles, polygons).contains(t),
{
    inside_means_every_corner_in_one_polygon(t, polygons);
    if in_some_polygon(t, polygons) {
        let k = choose|k: int|
            0 <= k < polygons.len() && {
                &&& polygon_point_equals(#[trigger] polygons[k], t.coordinates@[0])
                &&& polygon_point_equals(polygons[k], t.coordinates@[1])
                &&& polygon_point_equals(polygons[k], t.coordinates@[2])
            };
        assert(polygon_point_equals(polygons[k], t.coordinates@[a]));
        let m = choose|m: int| 0 <= m < polygons[k].len() && (#[trigger] polygons[k][m]).same(
            t.coordinates@[a],
        );
        assert(false);
    }
    retained_triangles_are_passable(triangles, polygons);
}

/// Keeps, in order, the triangles that no polygon holds.
pub fn retain_passable(triangles: &mut Vec<NavTriangle>, polygons: &Vec<Vec<Point>>)
    ensures
        final(triangles)@ == passable(old(triangles)@, rows(polygons@)),
{
    let ghost pred = |t: NavTriangle| !in_some_polygon(t, rows(polygons@));
    let ghost all = triangles@;
    let mut kept: Vec<NavTriangle> = Vec::new();
    let mut i: usize = 0;
    while i < triangles.len()
        invariant
            all == triangles@,
            pred == (|t: NavTriangle| !in_some_polygon(t, rows(polygons@))),
            i <= triangles.len(),
            kept@ == all.take(i as int).filter(pred),
        decreases triangles.len() - i,
    {
        reveal_with_fuel(Seq::<_>::filter, 1);
        let t = triangles[i];
        assert(all.take(i + 1).drop_last() =~= all.take(i as int));
        if !check_triangle_in_polygons(&t, polygons) {
            kept.push(t);
        }
        i += 1;
    }
    assert(all.take(all.len() as int) =~= all);
    *triangles = kept;
}

/// The triangles, in order, that no polygon holds.
pub open spec fn passable(triangles: Seq<NavTriangle>, polygons: Seq<Seq<Point>>) -> Seq<
    NavTriangle,
> {
    triangles.filter(|u: NavTriangle| !in_some_polygon(u, polygons))
}

/// After `retain_passable`, no triangle left lies in a polygon, and every
/// triangle of the input that lies in no polygon is still there.
pub proof fn retained_triangles_are_passable(
    triangles: Seq<NavTriangle>,
    polygons: Seq<Seq<Point>>,
)
    ensures
        forall|k: int|
            0 <= k < passable(triangles, polygons).len() ==> !in_some_polygon(
                #[trigger] passable(triangles, polygons)[k],
                polygons,
            ),
        forall|t: NavTriangle|
            triangles.contains(t) && !in_some_polygon(t, polygons) ==> #[trigger] passable(
                triangles,
                polygons,
            ).contains(t),
{
    let pred = |u: NavTriangle| !in_some_polygon(u, polygons);
    broadcast use vstd::seq_lib::group_filter_ensures;
    assert forall|k: int|
        0 <= k < passable(triangles, polygons).len() implies !in_some_polygon(
        #[trigger] passable(triangles, polygons)[k],
        polygons,
    ) by {
        triangles.lemma_filter_pred(pred, k);
    }
    assert forall|t: NavTriangle|
        triangles.contains(t) && !in_some_polygon(t, polygons) implies #[trigger] passable(
        triangles,
        polygons,
    ).contains(t) by {
        let k = choose|k: int| 0 <= k < triangles.len() && triangles[k] == t;
        triangles.lemma_filter_contains(pred, k);
    }
}

/// The corners of triangle `m` of an index list, as the triangulation
/// gives them: points `t[3m]`, `t[3m + 1]`, `t[3m + 2]`.
pub open spec fn corners_of(points: Seq<Point>, t: Seq<usize>, m: int) -> Seq<Point> {
    seq![points[t[3 * m] as int], points[t[3 * m + 1] as int], points[t[3 * m + 2] as int]]
}

/// Every index of the complete triples of `t` names a point.
pub open spec fn indexes_in_range(points: Seq<Point>, t: Seq<usize>) -> bool {
    forall|k: int| 0 <= k < 3 * (t.len() / 3) ==> (#[trigger] t[k] as int) < points.len()
}

/// Appending a triple of indexes `a, b, c` to a list of whole triples adds
/// one triangle, whose corners are points `a`, `b` and `c`, and leaves the
/// corners of the earlier triangles as they were.
pub proof fn appending_a_triple_appends_its_corners(
    points: Seq<Point>,
    t: Seq<usize>,
    a: usize,
    b: usize,
    c: usize,
)
    requires
        t.len() % 3 == 0,
    ensures
        (t + seq![a, b, c]).len() / 3 == t.len() / 3 + 1,
        corners_of(points, t + seq![a, b, c], (t.len() / 3) as int) == seq![
            points[a as int],
            points[b as int],
            points[c as int],
        ],
        forall|m: int|
            0 <= m < t.len() / 3 ==> corners_of(points, t + seq![a, b, c], m) == #[trigger] corners_of(
                points,
                t,
                m,
            ),
{
    let u = t + seq![a, b, c];
    let n = (t.len() / 3) as int;
    assert(3 * n == t.len());
    assert(u[3 * n] == a && u[3 * n + 1] == b && u[3 * n + 2] == c);
    assert(corners_of(points, u, n) =~= seq![points[a as int], points[b as int], points[c as int]]);
    assert forall|m: int| 0 <= m < n implies #[trigger] corners_of(points, u, m) == corners_of(
        points,
        t,
        m,
    ) by {
        assert(u[3 * m] == t[3 * m] && u[3 * m + 1] == t[3 * m + 1] && u[3 * m + 2] == t[3 * m + 2]);
        assert(corners_of(points, u, m) =~= corners_of(points, t, m));
    }
}

/// Turns an index list (three indexes per triangle; a trailing incomplete
/// triple is ignored) into triangles. `det_positive[m]` tells whether the
/// determinant of the corners of triangle `m` is above zero, in which case
/// its first two corners trade places.
pub fn indexes_to_triangles(
    points: &Vec<Point>,
    triangles: &Vec<usize>,
    det_positive: &Vec<bool>,
) -> (result: Vec<NavTriangle>)
    requires
        indexes_in_range(points@, triangles@),
        det_positive.len() == triangles.len() / 3,
    ensures
        result.len() == triangles.len() / 3,
        forall|m: int|
            0 <= m < result.len() ==> {
                (#[trigger] result@[m]).coordinates@ == built_corners(
                    corners_of(points@, triangles@, m),
                    det_positive@[m],
                )
            },
{
    let mut index: usize = 0;
    let mut result: Vec<NavTriangle> = Vec::new();
    while triangles.len() - index > 2
        invariant
            indexes_in_range(points@, triangles@),
            det_positive.len() == triangles.len() / 3,
            index == 3 * result.len(),
            index <= triangles.len(),
            result.len() <= triangles.len() / 3,
            forall|m: int|
                0 <= m < result.len() ==> {
                    (#[trigger] result@[m]).coordinates@ == built_corners(
                        corners_of(points@, triangles@, m),
                        det_positive@[m],
                    )
                },
        decreases triangles.len() - index,
    {
        let m = result.len();
        assert(triangles@[index as int] < points.len());
        assert(triangles@[index + 1] < points.len());
        assert(triangles@[index + 2] < points.len());
        let t = NavTriangle::from_coordinates(
            [points[triangles[index]], points[triangles[index + 1]], points[triangles[index + 2]]],
            det_positive[m],
        );
        result.push(t);
        index += 3;
    }
    result
}

/// `edges` with `e` added at the end, unless an equal edge is there already.
pub open spec fn add_edge(edges: Seq<Edge>, e: Edge) -> Seq<Edge> {
    if exists|k: int| 0 <= k < edges.len() && (#[trigger] edges[k]).same_ends(e) {
        edges
    } else {
        edges.push(e)
    }
}

/// The sides of the triangles before triangle `m`, added in order (for each
/// triangle, corners 0-1, 0-2, 1-2).
pub open spec fn sides_below(points: Seq<Point>, t: Seq<usize>, m: int) -> Seq<Edge>
    decreases m,
{
    if m <= 0 {
        seq![]
    } else {
        let c = corners_of(points, t, m - 1);
        add_edge(
            add_edge(
                add_edge(sides_below(points, t, m - 1), Edge::spec_new(c[0], c[1])),
                Edge::spec_new(c[0], c[2]),
            ),
            Edge::spec_new(c[1], c[2]),
        )
    }
}

/// No two entries of `edges` are equal edges.
pub open spec fn no_equal_edges(edges: Seq<Edge>) -> bool {
    forall|a: int, b: int|
        0 <= a < b < edges.len() ==> !(#[trigger] edges[a]).same_ends(#[trigger] edges[b])
}

/// `edges` holds `e` or an edge equal to it.
pub open spec fn covers(edges: Seq<Edge>, e: Edge) -> bool {
    exists|k: int| 0 <= k < edges.len() && (edges[k] == e || (#[trigger] edges[k]).same_ends(e))
}

proof fn add_edge_keeps_a_set(edges: Seq<Edge>, e: Edge)
    ensures
        no_equal_edges(edges) ==> no_equal_edges(add_edge(edges, e)),
        covers(add_edge(edges, e), e),
        forall|x: Edge| covers(edges, x) ==> covers(add_edge(edges, e), x),
{
    let r = add_edge(edges, e);
    if exists|k: int| 0 <= k < edges.len() && (#[trigger] edges[k]).same_ends(e) {
        let k = choose|k: int| 0 <= k < edges.len() && (#[trigger] edges[k]).same_ends(e);
        assert(r[k].same_ends(e));
    } else {
        assert(r[edges.len() as int] == e);
        assert forall|x: Edge| covers(edges, x) implies covers(r, x) by {
            let k = choose|k: int|
                0 <= k < edges.len() && (edges[k] == x || (#[trigger] edges[k]).same_ends(x));
            assert(r[k] == edges[k]);
        }
        if no_equal_edges(edges) {
            assert forall|a: int, b: int| 0 <= a < b < r.len() implies !(#[trigger] r[a]).same_ends(
                #[trigger] r[b],
            ) by {
                if b == edges.len() {
                    assert(r[a] == edges[a]);
                    if r[a].same_ends(r[b]) {
                        assert(edges[a].same_ends(e));
                    }
                } else {
                    assert(r[a] == edges[a] && r[b] == edges[b]);
                }
            }
        }
    }
}

/// The sides listed hold no two equal edges, and every side of every
/// triangle before `m` is listed, itself or as an equal edge.
pub proof fn sides_below_form_a_set(points: Seq<Point>, t: Seq<usize>, m: int)
    ensures
        no_equal_edges(sides_below(points, t, m)),
        forall|k: int|
            0 <= k < m ==> {
                let c = #[trigger] corners_of(points, t, k);
                &&& covers(sides_below(points, t, m), Edge::spec_new(c[0], c[1]))
                &&& covers(sides_below(points, t, m), Edge::spec_new(c[0], c[2]))
                &&& covers(sides_below(points, t, m), Edge::spec_new(c[1], c[2]))
            },
    decreases m,
{
    if m > 0 {
        sides_below_form_a_set(points, t, m - 1);
        let c = corners_of(points, t, m - 1);
        let s0 = sides_below(points, t, m - 1);
        let s1 = add_edge(s0, Edge::spec_new(c[0], c[1]));
        let s2 = add_edge(s1, Edge::spec_new(c[0], c[2]));
        add_edge_keeps_a_set(s0, Edge::spec_new(c[0], c[1]));
        add_edge_keeps_a_set(s1, Edge::spec_new(c[0], c[2]));
        add_edge_keeps_a_set(s2, Edge::spec_new(c[1], c[2]));
    }
}

/// Adds `e` at the end of `edges`, unless an equal edge is there already.
fn insert_edge(edges: &mut Vec<Edge>, e: Edge)
    ensures
        final(edges)@ == add_edge(old(edges)@, e),
{
    let mut k: usize = 0;
    while k < edges.len()
        invariant
            k <= edges.len(),
            edges@ == old(edges)@,
            forall|m: int| 0 <= m < k ==> !(#[trigger] edges@[m]).same_ends(e),
        decreases edges.len() - k,
    {
        if edges[k] == e {
            return;
        }
        k += 1;
    }
    edges.push(e);
}

/// The sides of the triangles of an index list (three indexes per
/// triangle; a trailing incomplete triple is ignored), in order, each added
/// unless an equal edge is listed already.
pub fn indexes_to_edges(points: &Vec<Point>, triangles: &Vec<usize>) -> (result: Vec<Edge>)
    requires
        indexes_in_range(points@, triangles@),
    ensures
        result@ == sides_below(points@, triangles@, (triangles.len() / 3) as int),
{
    let mut index: usize = 0;
    let mut result: Vec<Edge> = Vec::new();
    let mut m: usize = 0;
    while triangles.len() - index > 2
        invariant
            indexes_in_range(points@, triangles@),
            index == 3 * m,
            index <= triangles.len(),
            m <= triangles.len() / 3,
            result@ == sides_below(points@, triangles@, m as int),
        decreases triangles.len() - index,
    {
        assert(triangles@[index as int] < points.len());
        assert(triangles@[index + 1] < points.len());
        assert(triangles@[index + 2] < points.len());
        let a = points[triangles[index]];
        let b = points[triangles[index + 1]];
        let c = points[triangles[index + 2]];
        insert_edge(&mut result, Edge::new(a, b));
        insert_edge(&mut result, Edge::new(a, c));
        insert_edge(&mut result, Edge::new(b, c));
        index += 3;
        m += 1;
    }
    result
}

/// The polygon after inserting, for each `k < n` in turn with `kept[k]`,
/// the point `extra[k]` at position `at + k`; `None` once such a position
/// lies past the end of the polygon as it stands then.
pub open spec fn with_crossings(
    polygon: Seq<Point>,
    at: int,
    extra: Seq<Point>,
    kept: Seq<bool>,
    n: int,
) -> Option<Seq<Point>>
    decreases n,
{
    if n <= 0 {
        Some(polygon)
    } else {
        match with_crossings(polygon, at, extra, kept, n - 1) {
            None => None,
            Some(q) => if !kept[n - 1] {
                Some(q)
            } else if at + (n - 1) <= q.len() {
                Some(q.insert(at + (n - 1), extra[n - 1]))
            } else {
                None
            },
        }
    }
}

/// Inserts into a polygon the crossing points found on the side that ends
/// at position `at`: each `extra[k]` with `kept[k]` goes to position
/// `at + k`, in order of `k`. Returns `false`, leaving the polygon partly
/// changed, when such a position lies past the polygon's end.
pub fn insert_crossings(
    polygon: &mut Vec<Point>,
    at: usize,
    extra: &Vec<Point>,
    kept: &Vec<bool>,
) -> (fits: bool)
    requires
        kept.len() == extra.len(),
    ensures
        fits == with_crossings(old(polygon)@, at as int, extra@, kept@, extra.len() as int) is Some,
        fits ==> final(polygon)@ == with_crossings(
            old(polygon)@,
            at as int,
            extra@,
            kept@,
            extra.len() as int,
        )->0,
{
    let ghost start = polygon@;
    let mut k: usize = 0;
    while k < extra.len()
        invariant
            kept.len() == extra.len(),
            start == old(polygon)@,
            k <= extra.len(),
            with_crossings(start, at as int, extra@, kept@, k as int) == Some(polygon@),
        decreases extra.len() - k,
    {
        if kept[k] {
            if at > polygon.len() || k > polygon.len() - at {
                proof {
                    assert(with_crossings(start, at as int, extra@, kept@, k as int + 1) is None);
                    lemma_crossings_stay_failed(start, at as int, extra@, kept@, k as int + 1, extra.len() as int);
                }
                return false;
            }
            polygon.insert(at + k, extra[k]);
        }
        k += 1;
    }
    true
}

/// When every crossing point is kept and position `at` lies within the
/// polygon, the points go in as one block at position `at`, in their order:
/// the polygon becomes its first `at` points, the crossing points, then the
/// rest.
pub proof fn kept_crossings_go_in_as_a_block(
    polygon: Seq<Point>,
    at: int,
    extra: Seq<Point>,
    kept: Seq<bool>,
    n: int,
)
    requires
        0 <= at <= polygon.len(),
        0 <= n <= extra.len(),
        n <= kept.len(),
        forall|k: int| 0 <= k < n ==> #[trigger] kept[k],
    ensures
        with_crossings(polygon, at, extra, kept, n) == Some(
            polygon.take(at) + extra.take(n) + polygon.skip(at),
        ),
    decreases n,
{
    if n <= 0 {
        assert(polygon.take(at) + extra.take(0) + polygon.skip(at) =~= polygon);
    } else {
        kept_crossings_go_in_as_a_block(polygon, at, extra, kept, n - 1);
        let q = polygon.take(at) + extra.take(n - 1) + polygon.skip(at);
        assert(kept[n - 1]);
        assert(q.insert(at + (n - 1), extra[n - 1]) =~= polygon.take(at) + extra.take(n)
            + polygon.skip(at));
    }
}

/// Crossing points that are not kept leave the polygon as it is.
pub proof fn dropped_crossings_change_nothing(
    polygon: Seq<Point>,
    at: int,
    extra: Seq<Point>,
    kept: Seq<bool>,
    n: int,
)
    requires
        n <= kept.len(),
        forall|k: int| 0 <= k < n ==> !#[trigger] kept[k],
    ensures
        with_crossings(polygon, at, extra, kept, n) == Some(polygon),
    decreases n,
{
    if n > 0 {
        dropped_crossings_change_nothing(polygon, at, extra, kept, n - 1);
        assert(!kept[n - 1]);
    }
}

proof fn lemma_crossings_stay_failed(
    polygon: Seq<Point>,
    at: int,
    extra: Seq<Point>,
    kept: Seq<bool>,
    k: int,
    n: int,
)
    requires
        0 < k <= n,
        with_crossings(polygon, at, extra, kept, k) is None,
    ensures
        with_crossings(polygon, at, extra, kept, n) is None,
    decreases n - k,
{
    if k < n {
        lemma_crossings_stay_failed(polygon, at, extra, kept, k + 1, n);
    }
}

/// Both `o1` and `o2` are corners of the triangle.
pub fn check_edge_in_triangle(o1: Point, o2: Point, nav_triangle: &NavTriangle) -> (r: bool)
    ensures
        r == (is_corner(*nav_triangle, o1) && is_corner(*nav_triangle, o2)),
{
    let v1 = nav_triangle.coordinates[0];
    let v2 = nav_triangle.coordinates[1];
    let v3 = nav_triangle.coordinates[2];
    (o1 == v1 || o1 == v2 || o1 == v3) && (o2 == v1 || o2 == v2 || o2 == v3)
}

/// One of the sides of `t` (corners 0-1, 1-2 or 2-0) has both ends among
/// the corners of `o`.
pub open spec fn shares_side(t: NavTriangle, o: NavTriangle) -> bool {
    let c = t.coordinates@;
    ||| is_corner(o, c[0]) && is_corner(o, c[1])
    ||| is_corner(o, c[1]) && is_corner(o, c[2])
    ||| is_corner(o, c[2]) && is_corner(o, c[0])
}

/// Triangle `j` is a neighbour of triangle `i` in the map: `j` does not
/// equal `i` and `i` has a side whose ends are both corners of `j`.
pub open spec fn linked_in_map(tris: Seq<NavTriangle>, i: int, j: int) -> bool {
    !tris[j].spec_eq(tris[i]) && shares_side(tris[i], tris[j])
}

/// The neighbours of triangle `i` among the triangles before index `k`, in
/// index order, each with the weight `weights[i][j]`.
pub open spec fn map_links_below<W>(
    tris: Seq<NavTriangle>,
    weights: Seq<Seq<W>>,
    i: int,
    k: int,
) -> Seq<(usize, W)>
    decreases k,
{
    if k <= 0 {
        seq![]
    } else {
        let before = map_links_below(tris, weights, i, k - 1);
        if linked_in_map(tris, i, k - 1) {
            before.push(((k - 1) as usize, weights[i][k - 1]))
        } else {
            before
        }
    }
}

/// The adjacency lists of the map's triangles.
pub open spec fn map_adjacency<W>(tris: Seq<NavTriangle>, weights: Seq<Seq<W>>) -> Seq<
    Seq<(usize, W)>,
> {
    Seq::new(tris.len(), |i: int| map_links_below(tris, weights, i, tris.len() as int))
}

/// Triangle `j` is not equal to triangle `i` as `==` compares them (the
/// same corners at the same places, or triangle `j`'s corners at places 1,
/// 2, 0 of triangle `i`), and one side of triangle `i` (corners 0-1, 1-2 or 2-0) has both ends equal
/// to corners of triangle `j`.
pub open spec fn map_sharing_a_side(ti: NavTriangle, tj: NavTriangle) -> bool {
    let c = ti.coordinates@;
    let d = tj.coordinates@;
    &&& !(d[0].same(c[0]) && d[1].same(c[1]) && d[2].same(c[2]))
    &&& !(d[0].same(c[1]) && d[1].same(c[2]) && d[2].same(c[0]))
    &&& {
        ||| equals_a_map_corner(c[0], tj) && equals_a_map_corner(c[1], tj)
        ||| equals_a_map_corner(c[1], tj) && equals_a_map_corner(c[2], tj)
        ||| equals_a_map_corner(c[2], tj) && equals_a_map_corner(c[0], tj)
    }
}

/// `p` equals the first, second or third corner of `t`.
pub open spec fn equals_a_map_corner(p: Point, t: NavTriangle) -> bool {
    p.same(t.coordinates@[0]) || p.same(t.coordinates@[1]) || p.same(t.coordinates@[2])
}

proof fn map_links_below_are_the_neighbours<W>(
    tris: Seq<NavTriangle>,
    weights: Seq<Seq<W>>,
    i: int,
    k: int,
)
    requires
        0 <= k <= tris.len(),
        tris.len() <= usize::MAX,
    ensures
        forall|m: int|
            0 <= m < map_links_below(tris, weights, i, k).len() ==> {
                let e = #[trigger] map_links_below(tris, weights, i, k)[m];
                &&& 0 <= e.0 < k
                &&& linked_in_map(tris, i, e.0 as int)
                &&& e.1 == weights[i][e.0 as int]
            },
        forall|a: int, b: int|
            0 <= a < b < map_links_below(tris, weights, i, k).len() ==> (
            #[trigger] map_links_below(tris, weights, i, k)[a]).0 < (
            #[trigger] map_links_below(tris, weights, i, k)[b]).0,
        forall|j: int|
            0 <= j < k && #[trigger] linked_in_map(tris, i, j) ==> map_links_below(
                tris,
                weights,
                i,
                k,
            ).contains((j as usize, weights[i][j])),
    decreases k,
{
    if k > 0 {
        map_links_below_are_the_neighbours(tris, weights, i, k - 1);
        let before = map_links_below(tris, weights, i, k - 1);
        if linked_in_map(tris, i, k - 1) {
            let now = before.push(((k - 1) as usize, weights[i][k - 1]));
            assert forall|j: int|
                0 <= j < k && #[trigger] linked_in_map(tris, i, j) implies now.contains(
                (j as usize, weights[i][j]),
            ) by {
                if j == k - 1 {
                    assert(now[before.len() as int] == (j as usize, weights[i][j]));
                } else {
                    let m = choose|m: int|
                        0 <= m < before.len() && before[m] == (j as usize, weights[i][j]);
                    assert(now[m] == before[m]);
                }
            }
        }
    }
}

/// In the graph of a map, row `i` lists `(j, weights[i][j])` for every
/// triangle `j` that is not equal to triangle `i` and has one of its sides
/// (corners 0-1, 1-2 or 2-0) among its corners; it lists nothing else, and
/// each triangle at most once, in increasing order.
pub proof fn map_graph_links_every_side_sharing_pair<W>(
    tris: Seq<NavTriangle>,
    weights: Seq<Seq<W>>,
    i: int,
)
    requires
        0 <= i < tris.len(),
        tris.len() <= usize::MAX,
    ensures
        forall|j: int|
            0 <= j < tris.len() && #[trigger] map_sharing_a_side(tris[i], tris[j])
                ==> map_adjacency(tris, weights)[i].contains((j as usize, weights[i][j])),
        forall|m: int|
            0 <= m < map_adjacency(tris, weights)[i].len() ==> {
                let e = #[trigger] map_adjacency(tris, weights)[i][m];
                &&& 0 <= e.0 < tris.len()
                &&& map_sharing_a_side(tris[i], tris[e.0 as int])
                &&& e.1 == weights[i][e.0 as int]
            },
        forall|a: int, b: int|
            0 <= a < b < map_adjacency(tris, weights)[i].len() ==> (
            #[trigger] map_adjacency(tris, weights)[i][a]).0 < (#[trigger] map_adjacency(
                tris,
                weights,
            )[i][b]).0,
{
    let n = tris.len() as int;
    map_links_below_are_the_neighbours(tris, weights, i, n);
    assert(map_adjacency(tris, weights)[i] == map_links_below(tris, weights, i, n));
    assert forall|j: int| 0 <= j < n implies #[trigger] linked_in_map(tris, i, j)
        == map_sharing_a_side(tris[i], tris[j]) by {}
    assert forall|j: int|
        0 <= j < n && #[trigger] map_sharing_a_side(tris[i], tris[j]) implies map_adjacency(
        tris,
        weights,
    )[i].contains((j as usize, weights[i][j])) by {
        assert(linked_in_map(tris, i, j));
    }
}

impl<W: Copy> NavMap<W> {
    /// Builds the adjacency lists between the triangles: row `i` holds, in
    /// index order, every triangle `j` not equal to triangle `i` that has a
    /// side of triangle `i` among its corners, with the weight
    /// `weights[i][j]` (the distance between the two centers, computed by the
    /// caller).
    pub fn make_graph(nav_triangles: &Vec<NavTriangle>, weights: &Vec<Vec<W>>) -> (graph: Vec<
        Vec<(usize, W)>,
    >)
        requires
            rows(weights@).len() == nav_triangles.len(),
            forall|i: int|
                0 <= i < nav_triangles.len() ==> #[trigger] weights@[i]@.len()
                    == nav_triangles.len(),
        ensures
            rows(graph@) == map_adjacency(nav_triangles@, rows(weights@)),
    {
        let n = nav_triangles.len();
        let ghost w = rows(weights@);
        let mut graph: Vec<Vec<(usize, W)>> = Vec::new();
        let mut i: usize = 0;
        while i < n
            invariant
                n == nav_triangles.len(),
                w == rows(weights@),
                w.len() == n,
                forall|a: int| 0 <= a < n ==> #[trigger] weights@[a]@.len() == n,
                i <= n,
                graph.len() == i,
                forall|a: int|
                    0 <= a < i ==> #[trigger] graph@[a]@ == map_links_below(
                        nav_triangles@,
                        w,
                        a,
                        n as int,
                    ),
            decreases n - i,
        {
            let nav_triangle = nav_triangles[i];
            let v1 = nav_triangle.coordinates[0];
            let v2 = nav_triangle.coordinates[1];
            let v3 = nav_triangle.coordinates[2];
            let mut inner_vec: Vec<(usize, W)> = Vec::new();
            let mut j: usize = 0;
            while j < n
                invariant
                    n == nav_triangles.len(),
                    w == rows(weights@),
                    w.len() == n,
                    forall|a: int| 0 <= a < n ==> #[trigger] weights@[a]@.len() == n,
                    i < n,
                    j <= n,
                    nav_triangle == nav_triangles@[i as int],
                    v1 == nav_triangle.coordinates@[0],
                    v2 == nav_triangle.coordinates@[1],
                    v3 == nav_triangle.coordinates@[2],
                    inner_vec@ == map_links_below(nav_triangles@, w, i as int, j as int),
                decreases n - j,
            {
                let other_triangle = nav_triangles[j];
                if other_triangle == nav_triangle {
                } else if check_edge_in_triangle(v1, v2, &other_triangle) || check_edge_in_triangle(
                    v2,
                    v3,
                    &other_triangle,
                ) || check_edge_in_triangle(v3, v1, &other_triangle) {
                    assert(weights@[i as int]@ == w[i as int]);
                    let row = &weights[i];
                    let weight = row[j];
                    inner_vec.push((j, weight));
                }
                j += 1;
            }
            graph.push(inner_vec);
            i += 1;
        }
        assert(rows(graph@) =~= map_adjacency(nav_triangles@, w));
        graph
    }
}

/// Between triangles with distinct corners that are the same triangle or do
/// not have the same corners (as in a triangulation), being neighbours is
/// symmetric.
pub proof fn map_neighbourhood_is_symmetric(tris: Seq<NavTriangle>, i: int, j: int)
    requires
        0 <= i < tris.len(),
        0 <= j < tris.len(),
        non_degenerate(tris[i]),
        non_degenerate(tris[j]),
        tris[i] == tris[j] || !same_corners(tris[i], tris[j]),
    ensures
        linked_in_map(tris, i, j) == linked_in_map(tris, j, i),
{
    let t = tris[i];
    let o = tris[j];
    crate::shape_math::triangle_equality_is_reflexive(t, o);
    crate::shape_math::triangle_equality_is_reflexive(o, t);
    if t == o {
        assert(t.spec_eq(t));
    } else {
        if o.spec_eq(t) {
            assert(same_corners(o, t));
            assert forall|p: Point| is_corner(t, p) <==> is_corner(o, p) by {}
        }
        assert(!t.spec_eq(o) && !o.spec_eq(t));
        sides_are_shared_both_ways(t, o);
    }
}

/// Between triangles with distinct corners and no NaN, sharing a side is
/// symmetric.
#[verifier::spinoff_prover]
proof fn sides_are_shared_both_ways(t: NavTriangle, o: NavTriangle)
    requires
        non_degenerate(t),
        non_degenerate(o),
    ensures
        shares_side(t, o) == shares_side(o, t),
{
    let a = t.coordinates@;
    let b = o.coordinates@;
    crate::point::point_equality(a[0], b[0], a[1]);
    crate::point::point_equality(a[0], b[1], a[1]);
    crate::point::point_equality(a[0], b[2], a[1]);
    crate::point::point_equality(a[1], b[0], a[2]);
    crate::point::point_equality(a[1], b[1], a[2]);
    crate::point::point_equality(a[1], b[2], a[2]);
    crate::point::point_equality(a[2], b[0], a[0]);
    crate::point::point_equality(a[2], b[1], a[0]);
    crate::point::point_equality(a[2], b[2], a[0]);
}

} // verus!
