use vstd::prelude::*;
use crate::nested::rows;

verus! {

/// The pieces of `s` between occurrences of `sep`, in order: `k`
/// separators give `k + 1` pieces, and an empty text gives one empty piece.
pub open spec fn split_on(s: Seq<u8>, sep: u8) -> Seq<Seq<u8>>
    decreases s.len(),
{
    if s.len() == 0 {
        seq![seq![]]
    } else {
        let before = split_on(s.drop_last(), sep);
        if s.last() == sep {
            before.push(seq![])
        } else {
            before.update(before.len() - 1, before.last().push(s.last()))
        }
    }
}

/// Splitting always yields at least one piece.
pub proof fn split_on_is_never_empty(s: Seq<u8>, sep: u8)
    ensures
        split_on(s, sep).len() >= 1,
    decreases s.len(),
{
    if s.len() > 0 {
        split_on_is_never_empty(s.drop_last(), sep);
    }
}

/// Splits `s` at every `sep`.
pub fn split_bytes(s: &[u8], sep: u8) -> (pieces: Vec<Vec<u8>>)
    ensures
        rows(pieces@) == split_on(s@, sep),
{
    let mut pieces: Vec<Vec<u8>> = Vec::new();
    let mut current: Vec<u8> = Vec::new();
    let mut i: usize = 0;
    assert(s@.take(0) =~= Seq::<u8>::empty());
    assert(rows(pieces@).push(current@) =~= split_on(s@.take(0), sep));
    while i < s.len()
        invariant
            i <= s.len(),
            rows(pieces@).push(current@) == split_on(s@.take(i as int), sep),
        decreases s.len() - i,
    {
        let ghost prefix = s@.take(i as int);
        proof {
            split_on_is_never_empty(prefix, sep);
        }
        assert(s@.take(i + 1).drop_last() =~= prefix);
        assert(s@.take(i + 1).last() == s@[i as int]);
        if s[i] == sep {
            pieces.push(current);
            current = Vec::new();
            assert(rows(pieces@).push(current@) =~= split_on(prefix, sep).push(seq![]));
        } else {
            current.push(s[i]);
            assert(rows(pieces@).push(current@) =~= split_on(prefix, sep).update(
                split_on(prefix, sep).len() - 1,
                split_on(prefix, sep).last().push(s@[i as int]),
            ));
        }
        i += 1;
    }
    pieces.push(current);
    assert(s@.take(s.len() as int) =~= s@);
    assert(rows(pieces@) =~= split_on(s@, sep));
    pieces
}

/// The separator between the points of a line: `-`.
pub const POINT_SEPARATOR: u8 = 0x2d;

/// The separator between the two coordinates of a point: `;`.
pub const COORDINATE_SEPARATOR: u8 = 0x3b;

/// The two coordinate texts of the first line: for every point text, the
/// texts before and after its first `;` (up to a second `;`, if any).
pub open spec fn first_line_spec(line: Seq<u8>) -> Seq<(Seq<u8>, Seq<u8>)> {
    split_on(line, POINT_SEPARATOR).map_values(
        |segment: Seq<u8>|
            (
                split_on(segment, COORDINATE_SEPARATOR)[0],
                split_on(segment, COORDINATE_SEPARATOR)[1],
            ),
    )
}

/// Every point text of the line holds at least one `;`.
pub open spec fn every_point_has_two_coordinates(line: Seq<u8>) -> bool {
    forall|k: int|
        0 <= k < split_on(line, POINT_SEPARATOR).len() ==> split_on(
            #[trigger] split_on(line, POINT_SEPARATOR)[k],
            COORDINATE_SEPARATOR,
        ).len() >= 2
}

/// The coordinate texts of the points of a polygon line, keeping only the
/// point texts made of exactly two coordinates.
pub open spec fn pairs_of(segments: Seq<Seq<u8>>) -> Seq<(Seq<u8>, Seq<u8>)>
    decreases segments.len(),
{
    if segments.len() == 0 {
        seq![]
    } else {
        let before = pairs_of(segments.drop_last());
        let parts = split_on(segments.last(), COORDINATE_SEPARATOR);
        if parts.len() == 2 {
            before.push((parts[0], parts[1]))
        } else {
            before
        }
    }
}

/// The coordinate pairs of a polygon line.
pub open spec fn polygon_line_spec(line: Seq<u8>) -> Seq<(Seq<u8>, Seq<u8>)> {
    pairs_of(split_on(line, POINT_SEPARATOR))
}

/// The pairs of texts, as values.
pub open spec fn pairs_view(v: Seq<(Vec<u8>, Vec<u8>)>) -> Seq<(Seq<u8>, Seq<u8>)> {
    v.map_values(|p: (Vec<u8>, Vec<u8>)| (p.0@, p.1@))
}

/// The first two pieces of `s` split at `;`.
fn first_two_coordinates(s: &[u8]) -> (r: (Vec<u8>, Vec<u8>))
    requires
        split_on(s@, COORDINATE_SEPARATOR).len() >= 2,
    ensures
        r.0@ == split_on(s@, COORDINATE_SEPARATOR)[0],
        r.1@ == split_on(s@, COORDINATE_SEPARATOR)[1],
{
    let mut parts = split_bytes(s, COORDINATE_SEPARATOR);
    assert(parts@[0]@ == split_on(s@, COORDINATE_SEPARATOR)[0]);
    assert(parts@[1]@ == split_on(s@, COORDINATE_SEPARATOR)[1]);
    let second = parts.remove(1);
    let first = parts.remove(0);
    (first, second)
}

/// Splits the first line of a map file, `x;y-x;y-...`, into the
/// coordinate texts of its points. Each point text must hold a `;`.
pub fn first_line_fields(line: &[u8]) -> (fields: Vec<(Vec<u8>, Vec<u8>)>)
    requires
        every_point_has_two_coordinates(line@),
    ensures
        pairs_view(fields@) == first_line_spec(line@),
{
    let segments = split_bytes(line, POINT_SEPARATOR);
    let ghost segs = split_on(line@, POINT_SEPARATOR);
    let mut fields: Vec<(Vec<u8>, Vec<u8>)> = Vec::new();
    let mut k: usize = 0;
    while k < segments.len()
        invariant
            segs == split_on(line@, POINT_SEPARATOR),
            rows(segments@) == segs,
            every_point_has_two_coordinates(line@),
            k <= segments.len(),
            pairs_view(fields@) == first_line_spec(line@).take(k as int),
        decreases segments.len() - k,
    {
        assert(segments@[k as int]@ == segs[k as int]);
        assert(split_on(segs[k as int], COORDINATE_SEPARATOR).len() >= 2);
        let pair = first_two_coordinates(segments[k].as_slice());
        let ghost before = fields@;
        fields.push(pair);
        assert(pairs_view(fields@) =~= pairs_view(before).push((pair.0@, pair.1@)));
        assert(first_line_spec(line@)[k as int] == (pair.0@, pair.1@));
        k += 1;
        assert(pairs_view(fields@) =~= first_line_spec(line@).take(k as int));
    }
    assert(first_line_spec(line@).take(k as int) =~= first_line_spec(line@));
    fields
}

/// Splits a polygon line of a map file, `x;y-x;y-...`, into the coordinate
/// texts of its points, skipping every point text that does not consist of
/// exactly two coordinates.
pub fn polygon_line_fields(line: &[u8]) -> (fields: Vec<(Vec<u8>, Vec<u8>)>)
    ensures
        pairs_view(fields@) == polygon_line_spec(line@),
{
    let segments = split_bytes(line, POINT_SEPARATOR);
    let ghost segs = split_on(line@, POINT_SEPARATOR);
    let mut fields: Vec<(Vec<u8>, Vec<u8>)> = Vec::new();
    let mut k: usize = 0;
    while k < segments.len()
        invariant
            segs == split_on(line@, POINT_SEPARATOR),
            rows(segments@) == segs,
            k <= segments.len(),
            pairs_view(fields@) == pairs_of(segs.take(k as int)),
        decreases segments.len() - k,
    {
        assert(segments@[k as int]@ == segs[k as int]);
        assert(segs.take(k + 1).drop_last() =~= segs.take(k as int));
        let mut parts = split_bytes(segments[k].as_slice(), COORDINATE_SEPARATOR);
        if parts.len() == 2 {
            assert(parts@[0]@ == split_on(segs[k as int], COORDINATE_SEPARATOR)[0]);
            assert(parts@[1]@ == split_on(segs[k as int], COORDINATE_SEPARATOR)[1]);
            let second = parts.remove(1);
            let first = parts.remove(0);
            fields.push((first, second));
            assert(pairs_view(fields@) =~= pairs_of(segs.take(k + 1)));
        } else {
            assert(pairs_view(fields@) =~= pairs_of(segs.take(k + 1)));
        }
        k += 1;
    }
    assert(segs.take(k as int) =~= segs);
    fields
}


/// `s` holds no byte `sep`.
pub open spec fn free_of(s: Seq<u8>, sep: u8) -> bool {
    forall|k: int| 0 <= k < s.len() ==> #[trigger] s[k] != sep
}

proof fn split_without_separator(s: Seq<u8>, sep: u8)
    requires
        free_of(s, sep),
    ensures
        split_on(s, sep) == seq![s],
    decreases s.len(),
{
    if s.len() == 0 {
        assert(s =~= Seq::<u8>::empty());
        assert(split_on(s, sep) =~= seq![s]);
    } else {
        assert forall|k: int| 0 <= k < s.drop_last().len() implies #[trigger] s.drop_last()[k]
            != sep by {
            assert(s.drop_last()[k] == s[k]);
        }
        split_without_separator(s.drop_last(), sep);
        assert(s[s.len() - 1] != sep);
        assert(s.drop_last().push(s.last()) =~= s);
        assert(split_on(s, sep) =~= seq![s]);
    }
}

/// Appending a separator and a piece free of separators appends that piece
/// to the split.
pub proof fn split_after_separator(a: Seq<u8>, b: Seq<u8>, sep: u8)
    requires
        free_of(b, sep),
    ensures
        split_on(a + seq![sep] + b, sep) == split_on(a, sep).push(b),
    decreases b.len(),
{
    let s = a + seq![sep] + b;
    if b.len() == 0 {
        assert(s.drop_last() =~= a);
        assert(s.last() == sep);
        assert(b =~= Seq::<u8>::empty());
        assert(split_on(s, sep) =~= split_on(a, sep).push(b));
    } else {
        assert forall|k: int| 0 <= k < b.drop_last().len() implies #[trigger] b.drop_last()[k]
            != sep by {
            assert(b.drop_last()[k] == b[k]);
        }
        assert(b[b.len() - 1] != sep);
        split_after_separator(a, b.drop_last(), sep);
        assert(s.drop_last() =~= a + seq![sep] + b.drop_last());
        assert(s.last() == b.last());
        assert(b.drop_last().push(b.last()) =~= b);
        assert(split_on(s, sep) =~= split_on(a, sep).push(b));
    }
}

/// The text `x;y`.
pub open spec fn point_text(x: Seq<u8>, y: Seq<u8>) -> Seq<u8> {
    x + seq![COORDINATE_SEPARATOR] + y
}

proof fn point_text_splits(x: Seq<u8>, y: Seq<u8>)
    requires
        free_of(x, COORDINATE_SEPARATOR),
        free_of(y, COORDINATE_SEPARATOR),
        free_of(x, POINT_SEPARATOR),
        free_of(y, POINT_SEPARATOR),
    ensures
        split_on(point_text(x, y), COORDINATE_SEPARATOR) == seq![x, y],
        free_of(point_text(x, y), POINT_SEPARATOR),
{
    split_without_separator(x, COORDINATE_SEPARATOR);
    split_after_separator(x, y, COORDINATE_SEPARATOR);
    assert(seq![x].push(y) =~= seq![x, y]);
    let t = point_text(x, y);
    assert forall|k: int| 0 <= k < t.len() implies #[trigger] t[k] != POINT_SEPARATOR by {
        if k < x.len() {
            assert(t[k] == x[k]);
        } else if k > x.len() {
            assert(t[k] == y[k - x.len() - 1]);
        }
    }
}

/// A line of points gains, when `-x;y` is appended to it (with `x` and `y`
/// free of `-` and `;`), exactly the pair `(x, y)` at the end: the last
/// point of a line is read like every other.
pub proof fn appending_a_point_appends_its_pair(line: Seq<u8>, x: Seq<u8>, y: Seq<u8>)
    requires
        free_of(x, COORDINATE_SEPARATOR),
        free_of(y, COORDINATE_SEPARATOR),
        free_of(x, POINT_SEPARATOR),
        free_of(y, POINT_SEPARATOR),
    ensures
        polygon_line_spec(line + seq![POINT_SEPARATOR] + point_text(x, y)) == polygon_line_spec(
            line,
        ).push((x, y)),
        first_line_spec(line + seq![POINT_SEPARATOR] + point_text(x, y)) == first_line_spec(
            line,
        ).push((x, y)),
        polygon_line_spec(point_text(x, y)) == seq![(x, y)],
        first_line_spec(point_text(x, y)) == seq![(x, y)],
{
    point_text_splits(x, y);
    split_after_separator(line, point_text(x, y), POINT_SEPARATOR);
    split_without_separator(point_text(x, y), POINT_SEPARATOR);
    let segs = split_on(line, POINT_SEPARATOR);
    let longer = segs.push(point_text(x, y));
    assert(longer.drop_last() =~= segs);
    assert(pairs_of(longer) == pairs_of(segs).push((x, y)));
    assert(seq![point_text(x, y)].drop_last() =~= Seq::<Seq<u8>>::empty());
    assert(pairs_of(Seq::<Seq<u8>>::empty()) == Seq::<(Seq<u8>, Seq<u8>)>::empty());
    assert(seq![point_text(x, y)].last() == point_text(x, y));
    assert(pairs_of(seq![point_text(x, y)]) =~= seq![(x, y)]);
    assert(first_line_spec(line + seq![POINT_SEPARATOR] + point_text(x, y)) =~= first_line_spec(
        line,
    ).push((x, y)));
    assert(first_line_spec(point_text(x, y)) =~= seq![(x, y)]);
}


/// The pieces joined back together, a separator between each two.
pub open spec fn join_with(pieces: Seq<Seq<u8>>, sep: u8) -> Seq<u8>
    decreases pieces.len(),
{
    if pieces.len() <= 1 {
        if pieces.len() == 1 {
            pieces[0]
        } else {
            seq![]
        }
    } else {
        join_with(pieces.drop_last(), sep) + seq![sep] + pieces.last()
    }
}

/// Splitting cuts `s` at every separator and nowhere else: no piece holds
/// the separator, and joining the pieces with it gives `s` back.
pub proof fn split_cuts_at_every_separator(s: Seq<u8>, sep: u8)
    ensures
        forall|k: int|
            0 <= k < split_on(s, sep).len() ==> free_of(#[trigger] split_on(s, sep)[k], sep),
        join_with(split_on(s, sep), sep) == s,
    decreases s.len(),
{
    if s.len() == 0 {
        assert(split_on(s, sep) =~= seq![seq![]]);
        assert(s =~= Seq::<u8>::empty());
        assert(free_of(Seq::<u8>::empty(), sep));
    } else {
        split_cuts_at_every_separator(s.drop_last(), sep);
        split_on_is_never_empty(s.drop_last(), sep);
        let before = split_on(s.drop_last(), sep);
        let c = s.last();
        if c == sep {
            let after = before.push(seq![]);
            assert(after.drop_last() =~= before);
            assert(join_with(after, sep) =~= s.drop_last() + seq![sep] + seq![]);
            assert(s.drop_last() + seq![sep] + seq![] =~= s);
            assert forall|k: int| 0 <= k < after.len() implies free_of(#[trigger] after[k], sep) by {
                if k < before.len() {
                    assert(after[k] == before[k]);
                } else {
                    assert(after[k] =~= Seq::<u8>::empty());
                }
            }
        } else {
            let n = before.len() - 1;
            let after = before.update(n, before.last().push(c));
            assert forall|k: int| 0 <= k < after.len() implies free_of(#[trigger] after[k], sep) by {
                if k < n {
                    assert(after[k] == before[k]);
                } else {
                    let piece = before.last().push(c);
                    assert(free_of(before[n], sep));
                    assert forall|m: int| 0 <= m < piece.len() implies #[trigger] piece[m] != sep by {
                        if m < before.last().len() {
                            assert(piece[m] == before[n][m]);
                        }
                    }
                }
            }
            if before.len() == 1 {
                assert(join_with(after, sep) == after[0]);
                assert(before[0] == join_with(before, sep));
                assert(after[0] =~= s);
            } else {
                assert(after.drop_last() =~= before.drop_last());
                assert(join_with(after, sep) =~= join_with(before, sep) + seq![c]);
                assert(join_with(before, sep) + seq![c] =~= s);
            }
        }
    }
}


/// Appending `-z` to a polygon line, where `z` holds no `-` and does not
/// consist of exactly two `;`-separated fields, leaves its pairs as they
/// are: only point texts of two coordinates give points.
pub proof fn appending_a_malformed_point_adds_nothing(line: Seq<u8>, z: Seq<u8>)
    requires
        free_of(z, POINT_SEPARATOR),
        split_on(z, COORDINATE_SEPARATOR).len() != 2,
    ensures
        polygon_line_spec(line + seq![POINT_SEPARATOR] + z) == polygon_line_spec(line),
{
    split_after_separator(line, z, POINT_SEPARATOR);
    let segs = split_on(line, POINT_SEPARATOR);
    assert(segs.push(z).drop_last() =~= segs);
}

} // verus!
