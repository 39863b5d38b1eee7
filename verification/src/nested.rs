use vstd::prelude::*;

verus! {

/// The contents of a vector of vectors, row by row.
pub open spec fn rows<T>(v: Seq<Vec<T>>) -> Seq<Seq<T>> {
    v.map_values(|r: Vec<T>| r@)
}

} // verus!
