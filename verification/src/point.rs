use vstd::prelude::*;

verus! {

/// A point of the plane, each coordinate held as the bit pattern of its
/// IEEE 754 double.
///
/// The crate only compares coordinates, and compares them as doubles do:
/// `-0.0` equals `0.0`, and a NaN coordinate compares false with every
/// coordinate, itself included.
#[derive(Clone, Copy, Debug, Hash)]
pub struct Point {
    pub x: u64,
    pub y: u64,
}

/// The sign bit of a double.
pub const SIGN_BIT: u64 = 0x8000_0000_0000_0000;

/// The bits of positive infinity; a larger magnitude is a NaN.
pub const INFINITY_BITS: u64 = 0x7ff0_0000_0000_0000;

/// The bits of a double without its sign.
pub open spec fn magnitude(b: u64) -> int {
    if b >= SIGN_BIT {
        b - SIGN_BIT
    } else {
        b as int
    }
}

/// The bits are those of a NaN.
pub open spec fn is_nan_bits(b: u64) -> bool {
    magnitude(b) > INFINITY_BITS
}

/// An integer ordered as the doubles that are not NaN: the magnitude,
/// negated for negative doubles (so both zeros map to 0).
pub open spec fn order_key(b: u64) -> int {
    if b >= SIGN_BIT {
        -magnitude(b)
    } else {
        magnitude(b)
    }
}

/// The coordinates `a` and `b` are equal doubles (never so for NaN).
pub open spec fn same_coordinate(a: u64, b: u64) -> bool {
    !is_nan_bits(a) && !is_nan_bits(b) && order_key(a) == order_key(b)
}

/// The coordinate `a` is a smaller double than `b` (never so for NaN).
pub open spec fn below(a: u64, b: u64) -> bool {
    !is_nan_bits(a) && !is_nan_bits(b) && order_key(a) < order_key(b)
}

fn magnitude_of(b: u64) -> (m: u64)
    ensures
        m == magnitude(b),
{
    if b >= SIGN_BIT {
        b - SIGN_BIT
    } else {
        b
    }
}

/// Whether two coordinates are equal doubles.
pub fn coordinates_equal(a: u64, b: u64) -> (r: bool)
    ensures
        r == same_coordinate(a, b),
{
    let ma = magnitude_of(a);
    let mb = magnitude_of(b);
    if ma > INFINITY_BITS || mb > INFINITY_BITS {
        false
    } else if ma == 0 && mb == 0 {
        true
    } else {
        a == b
    }
}

/// Whether coordinate `a` is a smaller double than coordinate `b`.
pub fn coordinate_below(a: u64, b: u64) -> (r: bool)
    ensures
        r == below(a, b),
{
    let ma = magnitude_of(a);
    let mb = magnitude_of(b);
    if ma > INFINITY_BITS || mb > INFINITY_BITS {
        false
    } else if a >= SIGN_BIT && b >= SIGN_BIT {
        ma > mb
    } else if a >= SIGN_BIT {
        !(ma == 0 && mb == 0)
    } else if b >= SIGN_BIT {
        false
    } else {
        ma < mb
    }
}

impl Point {
    /// Both coordinates are equal doubles (never so when one is NaN).
    pub open spec fn same(self, other: Point) -> bool {
        same_coordinate(self.x, other.x) && same_coordinate(self.y, other.y)
    }

    /// Neither coordinate is NaN.
    pub open spec fn is_number(self) -> bool {
        !is_nan_bits(self.x) && !is_nan_bits(self.y)
    }
}

impl PartialEq for Point {
    fn eq(&self, other: &Self) -> (r: bool) {
        coordinates_equal(self.x, other.x) && coordinates_equal(self.y, other.y)
    }
}

impl vstd::std_specs::cmp::PartialEqSpecImpl for Point {
    open spec fn obeys_eq_spec() -> bool {
        true
    }

    open spec fn eq_spec(&self, other: &Point) -> bool {
        self.same(*other)
    }
}

/// Point equality is symmetric and transitive, and reflexive on points
/// without NaN.
pub proof fn point_equality(a: Point, b: Point, c: Point)
    ensures
        a.is_number() ==> a.same(a),
        a.same(b) == b.same(a),
        a.same(b) && b.same(c) ==> a.same(c),
{
}

/// `a` comes no later than `b` when ordered by `x` first and `y` second.
pub open spec fn lex_le(a: Point, b: Point) -> bool {
    ||| order_key(a.x) < order_key(b.x)
    ||| order_key(a.x) == order_key(b.x) && order_key(a.y) <= order_key(b.y)
}

/// The lexicographic order is total, and points that come no later than
/// each other are equal when they hold no NaN.
pub proof fn lex_le_total(a: Point, b: Point)
    ensures
        lex_le(a, b) || lex_le(b, a),
        lex_le(a, b) && lex_le(b, a) && a.is_number() && b.is_number() ==> a.same(b),
{
}

} // verus!
