use vstd::prelude::*;
use crate::point::{
    Point, below, coordinate_below, coordinates_equal, lex_le, same_coordinate,
};

verus! {

/// A segment between two points. Two edges are equal when they join equal
/// points, in either order.
#[derive(Clone, Copy, Debug, Hash)]
pub struct Edge(pub Point, pub Point);

/// `v1` comes before `v2`: a smaller `x`, or an equal `x` and a smaller `y`
/// (never so when a compared coordinate is NaN).
pub open spec fn comes_before(v1: Point, v2: Point) -> bool {
    below(v1.x, v2.x) || (same_coordinate(v1.x, v2.x) && below(v1.y, v2.y))
}

impl Edge {
    /// The edge between `v1` and `v2`: in this order when `v1` comes before
    /// `v2`, in the other order otherwise.
    pub open spec fn spec_new(v1: Point, v2: Point) -> Edge {
        if comes_before(v1, v2) {
            Edge(v1, v2)
        } else {
            Edge(v2, v1)
        }
    }

    /// Equal ends, in either order.
    pub open spec fn same_ends(self, other: Edge) -> bool {
        (self.0.same(other.0) && self.1.same(other.1)) || (self.0.same(other.1) && self.1.same(
            other.0,
        ))
    }

    /// No coordinate of an end is NaN.
    pub open spec fn is_number(self) -> bool {
        self.0.is_number() && self.1.is_number()
    }

    /// The ends are in lexicographic order.
    pub open spec fn is_ordered(self) -> bool {
        lex_le(self.0, self.1)
    }

    /// Builds the edge between two points, putting the point with the
    /// smaller `x` (then the smaller `y`) first.
    pub fn new(v1: Point, v2: Point) -> (e: Edge)
        ensures
            e == Edge::spec_new(v1, v2),
    {
        if coordinate_below(v1.x, v2.x) || (coordinates_equal(v1.x, v2.x) && coordinate_below(
            v1.y,
            v2.y,
        )) {
            return Edge(v1, v2);
        }
        Edge(v2, v1)
    }
}

impl PartialEq for Edge {
    fn eq(&self, other: &Self) -> (r: bool) {
        (self.0 == other.0 && self.1 == other.1) || (self.0 == other.1 && self.1 == other.0)
    }
}

impl vstd::std_specs::cmp::PartialEqSpecImpl for Edge {
    open spec fn obeys_eq_spec() -> bool {
        true
    }

    open spec fn eq_spec(&self, other: &Edge) -> bool {
        self.same_ends(*other)
    }
}

impl Eq for Edge {}

/// Edge equality is symmetric and transitive, and reflexive on edges
/// without NaN.
pub proof fn edge_equality_is_an_equivalence(a: Edge, b: Edge, c: Edge)
    ensures
        a.is_number() ==> a.same_ends(a),
        a.same_ends(b) == b.same_ends(a),
        a.same_ends(b) && b.same_ends(c) ==> a.same_ends(c),
{
}

/// Building an edge keeps its two ends, in whichever order they were given;
/// for points without NaN it orders them, and both orders of giving them
/// yield equal ends at each position.
pub proof fn new_keeps_the_ends(v1: Point, v2: Point)
    ensures
        Edge::spec_new(v1, v2) == Edge(v1, v2) || Edge::spec_new(v1, v2) == Edge(v2, v1),
        v1.is_number() && v2.is_number() ==> Edge::spec_new(v1, v2).0.same(
            Edge::spec_new(v2, v1).0,
        ) && Edge::spec_new(v1, v2).1.same(Edge::spec_new(v2, v1).1),
        v1.is_number() && v2.is_number() ==> Edge::spec_new(v1, v2).is_ordered(),
{
}

/// A triangle of the navigation map, given by its three corners.
#[derive(Clone, Copy, Debug)]
pub struct NavTriangle {
    pub coordinates: [Point; 3],
}

/// `p` equals one of the corners of `t`.
pub open spec fn is_corner(t: NavTriangle, p: Point) -> bool {
    p.same(t.coordinates@[0]) || p.same(t.coordinates@[1]) || p.same(t.coordinates@[2])
}

/// No coordinate of `t` is NaN and its three corners are pairwise distinct.
pub open spec fn non_degenerate(t: NavTriangle) -> bool {
    let c = t.coordinates@;
    &&& c[0].is_number() && c[1].is_number() && c[2].is_number()
    &&& !c[0].same(c[1]) && !c[1].same(c[2]) && !c[0].same(c[2])
}

/// `t` and `o` have the same set of corners.
pub open spec fn same_corners(t: NavTriangle, o: NavTriangle) -> bool {
    forall|p: Point| is_corner(t, p) <==> is_corner(o, p)
}

/// The corners of a triangle built from corners `c`: the first two trade
/// places when the determinant is positive.
pub open spec fn built_corners(c: Seq<Point>, det_positive: bool) -> Seq<Point> {
    if det_positive {
        seq![c[1], c[0], c[2]]
    } else {
        c
    }
}

/// A built triangle holds the given corners: with a positive determinant
/// the first two trade places and the third stays, otherwise all stay as
/// given. Building twice with a positive determinant gives the corners back.
pub proof fn built_triangle_trades_first_two_on_positive_determinant(
    c: Seq<Point>,
    det_positive: bool,
)
    requires
        c.len() == 3,
    ensures
        built_corners(c, det_positive).len() == 3,
        det_positive ==> built_corners(c, det_positive)[0] == c[1] && built_corners(
            c,
            det_positive,
        )[1] == c[0] && built_corners(c, det_positive)[2] == c[2],
        !det_positive ==> built_corners(c, det_positive) == c,
        built_corners(built_corners(c, true), true) == c,
{
    assert(seq![c[0], c[1], c[2]] =~= c);
}

/// Building a triangle again from the corners of a built triangle changes
/// nothing. Trading the first two corners negates the determinant (each of
/// its terms changes sign exactly, and the sum is taken in the same order),
/// so a built triangle's determinant is never positive: `det_again`, the sign
/// for the built corners, is `false` in both cases, as the requires say.
pub proof fn building_again_changes_nothing(c: Seq<Point>, det_positive: bool, det_again: bool)
    requires
        det_positive ==> !det_again,
        !det_positive ==> det_again == det_positive,
    ensures
        built_corners(built_corners(c, det_positive), det_again) == built_corners(c, det_positive),
{
}

impl NavTriangle {
    /// The triangle with the given corners: when the determinant of the
    /// corners (`det_positive` tells whether it is above zero) is positive,
    /// the first two corners trade places.
    pub fn from_coordinates(coordinates: [Point; 3], det_positive: bool) -> (t: NavTriangle)
        ensures
            t.coordinates@ == built_corners(coordinates@, det_positive),
    {
        if det_positive {
            NavTriangle { coordinates: [coordinates[1], coordinates[0], coordinates[2]] }
        } else {
            NavTriangle { coordinates }
        }
    }

    /// `other` holds the same corners as `self` in the same order, or
    /// rotated so that `self`'s corners stand at `other`'s positions 1, 2, 0.
    pub open spec fn spec_eq(self, other: NavTriangle) -> bool {
        let a = self.coordinates@;
        let b = other.coordinates@;
        ||| a[0].same(b[0]) && a[1].same(b[1]) && a[2].same(b[2])
        ||| a[0].same(b[1]) && a[1].same(b[2]) && a[2].same(b[0])
    }

    /// Some corner of `self` is a corner of `other`.
    pub open spec fn spec_share_point(self, other: NavTriangle) -> bool {
        exists|a: int, b: int|
            0 <= a < 3 && 0 <= b < 3 && (#[trigger] self.coordinates@[a]).same(
                #[trigger] other.coordinates@[b],
            )
    }

    /// Whether the two triangles have a corner in common.
    pub fn triangle_share_point(&self, other: &NavTriangle) -> (r: bool)
        ensures
            r == self.spec_share_point(*other),
    {
        let r = self.coordinates[0] == other.coordinates[0] || self.coordinates[0]
            == other.coordinates[1] || self.coordinates[0] == other.coordinates[2]
            || self.coordinates[1] == other.coordinates[0] || self.coordinates[1]
            == other.coordinates[1] || self.coordinates[1] == other.coordinates[2]
            || self.coordinates[2] == other.coordinates[0] || self.coordinates[2]
            == other.coordinates[1] || self.coordinates[2] == other.coordinates[2];
        proof {
            if r {
                let a = self.coordinates@;
                let b = other.coordinates@;
                if a[0].same(b[0]) { assert(self.coordinates@[0].same(other.coordinates@[0])); }
                if a[0].same(b[1]) { assert(self.coordinates@[0].same(other.coordinates@[1])); }
                if a[0].same(b[2]) { assert(self.coordinates@[0].same(other.coordinates@[2])); }
                if a[1].same(b[0]) { assert(self.coordinates@[1].same(other.coordinates@[0])); }
                if a[1].same(b[1]) { assert(self.coordinates@[1].same(other.coordinates@[1])); }
                if a[1].same(b[2]) { assert(self.coordinates@[1].same(other.coordinates@[2])); }
                if a[2].same(b[0]) { assert(self.coordinates@[2].same(other.coordinates@[0])); }
                if a[2].same(b[1]) { assert(self.coordinates@[2].same(other.coordinates@[1])); }
                if a[2].same(b[2]) { assert(self.coordinates@[2].same(other.coordinates@[2])); }
            }
        }
        r
    }
}

impl PartialEq for NavTriangle {
    fn eq(&self, other: &Self) -> (r: bool) {
        let a = &self.coordinates;
        let b = &other.coordinates;
        (a[0] == b[0] && a[1] == b[1] && a[2] == b[2]) || (a[0] == b[1] && a[1] == b[2] && a[2]
            == b[0]) || (a[0] == b[0] && a[1] == b[1] && a[2] == b[2])
    }
}

impl vstd::std_specs::cmp::PartialEqSpecImpl for NavTriangle {
    open spec fn obeys_eq_spec() -> bool {
        true
    }

    open spec fn eq_spec(&self, other: &NavTriangle) -> bool {
        self.spec_eq(*other)
    }
}

/// Every triangle without NaN equals itself, and equal triangles have the
/// same corners.
pub proof fn triangle_equality_is_reflexive(t: NavTriangle, o: NavTriangle)
    ensures
        t.coordinates@[0].is_number() && t.coordinates@[1].is_number()
            && t.coordinates@[2].is_number() ==> t.spec_eq(t),
        t.spec_eq(o) ==> same_corners(t, o),
{
}

/// Sharing a corner is symmetric.
pub proof fn sharing_a_point_is_symmetric(t: NavTriangle, o: NavTriangle)
    ensures
        t.spec_share_point(o) == o.spec_share_point(t),
{
    if t.spec_share_point(o) {
        let (a, b) = choose|a: int, b: int|
            0 <= a < 3 && 0 <= b < 3 && (#[trigger] t.coordinates@[a]).same(
                #[trigger] o.coordinates@[b],
            );
        assert(o.coordinates@[b].same(t.coordinates@[a]));
    }
    if o.spec_share_point(t) {
        let (a, b) = choose|a: int, b: int|
            0 <= a < 3 && 0 <= b < 3 && (#[trigger] o.coordinates@[a]).same(
                #[trigger] t.coordinates@[b],
            );
        assert(t.coordinates@[b].same(o.coordinates@[a]));
    }
}

/// Two triangles are equal exactly when the second holds the corners of
/// the first at the same places, or holds them moved on by one place (the
/// first's corner 0 at place 1, corner 1 at place 2, corner 2 at place 0).
pub proof fn triangle_equality_is_identity_or_one_rotation(t: NavTriangle, o: NavTriangle)
    ensures
        t.spec_eq(o) <==> {
            let a = t.coordinates@;
            let b = o.coordinates@;
            ||| a[0].same(b[0]) && a[1].same(b[1]) && a[2].same(b[2])
            ||| a[0].same(b[1]) && a[1].same(b[2]) && a[2].same(b[0])
        },
{
}

/// Two triangles share a point exactly when one of the corners of the
/// first equals one of the corners of the second.
pub proof fn sharing_a_point_means_a_common_corner(t: NavTriangle, o: NavTriangle)
    ensures
        t.spec_share_point(o) <==> {
            let a = t.coordinates@;
            let b = o.coordinates@;
            ||| a[0].same(b[0]) || a[0].same(b[1]) || a[0].same(b[2])
            ||| a[1].same(b[0]) || a[1].same(b[1]) || a[1].same(b[2])
            ||| a[2].same(b[0]) || a[2].same(b[1]) || a[2].same(b[2])
        },
{
    let a = t.coordinates@;
    let b = o.coordinates@;
    if t.spec_share_point(o) {
        let (i, j) = choose|i: int, j: int|
            0 <= i < 3 && 0 <= j < 3 && (#[trigger] t.coordinates@[i]).same(
                #[trigger] o.coordinates@[j],
            );
        assert(a[i].same(b[j]));
    }
    if a[0].same(b[0]) { assert(t.coordinates@[0].same(o.coordinates@[0])); }
    if a[0].same(b[1]) { assert(t.coordinates@[0].same(o.coordinates@[1])); }
    if a[0].same(b[2]) { assert(t.coordinates@[0].same(o.coordinates@[2])); }
    if a[1].same(b[0]) { assert(t.coordinates@[1].same(o.coordinates@[0])); }
    if a[1].same(b[1]) { assert(t.coordinates@[1].same(o.coordinates@[1])); }
    if a[1].same(b[2]) { assert(t.coordinates@[1].same(o.coordinates@[2])); }
    if a[2].same(b[0]) { assert(t.coordinates@[2].same(o.coordinates@[0])); }
    if a[2].same(b[1]) { assert(t.coordinates@[2].same(o.coordinates@[1])); }
    if a[2].same(b[2]) { assert(t.coordinates@[2].same(o.coordinates@[2])); }
}

} // verus!
