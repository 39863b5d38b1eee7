use vstd::prelude::*;
use crate::point::{Point, below, lex_le, same_coordinate};

verus! {

/// A segment between two points, stored with its lexicographically
/// smaller end first when built through [`Edge::new`].
#[derive(Clone, Copy, Debug, Hash)]
pub struct Edge(pub Point, pub Point);

impl PartialEq for Edge {
    fn eq(&self, other: &Self) -> (r: bool) {
        self.0 == other.0 && self.1 == other.1
    }
}

impl vstd::std_specs::cmp::PartialEqSpecImpl for Edge {
    open spec fn obeys_eq_spec() -> bool {
        true
    }

    open spec fn eq_spec(&self, other: &Edge) -> bool {
        self.0.same(other.0) && self.1.same(other.1)
    }
}

impl Eq for Edge {}

/// `p1` comes after `p2`: a larger `x`, or an equal `x` and a larger `y`
/// (never so when a compared coordinate is NaN).
pub open spec fn comes_after(p1: Point, p2: Point) -> bool {
    below(p2.x, p1.x) || (same_coordinate(p1.x, p2.x) && below(p2.y, p1.y))
}

impl Edge {
    /// The edge between `p1` and `p2`: their order, unless `p1` comes after
    /// `p2`.
    pub open spec fn spec_new(p1: Point, p2: Point) -> Edge {
        if comes_after(p1, p2) {
            Edge(p2, p1)
        } else {
            Edge(p1, p2)
        }
    }

    /// Builds the edge between two points, putting the point with the
    /// smaller `x` (then the smaller `y`) first.
    pub fn new(p1: &Point, p2: &Point) -> (e: Edge)
        ensures
            e == Edge::spec_new(*p1, *p2),
    {
        if crate::point::coordinate_below(p2.x, p1.x) || (crate::point::coordinates_equal(
            p1.x,
            p2.x,
        ) && crate::point::coordinate_below(p2.y, p1.y)) {
            Edge(*p2, *p1)
        } else {
            Edge(*p1, *p2)
        }
    }
}

/// For points without NaN, an edge does not depend on the order in which
/// its ends are given: both orders give equal edges.
pub proof fn new_ignores_end_order(p1: Point, p2: Point)
    requires
        p1.is_number(),
        p2.is_number(),
    ensures
        Edge::spec_new(p1, p2).0.same(Edge::spec_new(p2, p1).0),
        Edge::spec_new(p1, p2).1.same(Edge::spec_new(p2, p1).1),
{
}

/// A built edge holds exactly the two given points; for points without NaN
/// the smaller one comes first.
pub proof fn new_orders_its_ends(p1: Point, p2: Point)
    ensures
        p1.is_number() && p2.is_number() ==> lex_le(
            Edge::spec_new(p1, p2).0,
            Edge::spec_new(p1, p2).1,
        ),
        (Edge::spec_new(p1, p2).0 == p1 && Edge::spec_new(p1, p2).1 == p2)
            || (Edge::spec_new(p1, p2).0 == p2 && Edge::spec_new(p1, p2).1 == p1),
{
}

} // verus!
