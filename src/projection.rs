use vstd::prelude::*;

verus! {

/// The text of each field of a row.
pub open spec fn fields_view(row: Seq<String>) -> Seq<Seq<char>> {
    row.map_values(|s: String| s@)
}

/// A 1-based column index turned into a 0-based offset; 0 stays 0.
pub open spec fn zero_based(index: usize) -> usize {
    if index > 0 {
        (index - 1) as usize
    } else {
        0
    }
}

/// The fields of `row` at `offsets`, in the order of `offsets`, leaving out
/// each offset that lies past the end of the row.
pub open spec fn select(row: Seq<Seq<char>>, offsets: Seq<usize>) -> Seq<Seq<char>>
    decreases offsets.len(),
{
    if offsets.len() == 0 {
        Seq::empty()
    } else {
        let last = offsets.last();
        let rest = select(row, offsets.drop_last());
        if (last as int) < row.len() {
            rest.push(row[last as int])
        } else {
            rest
        }
    }
}

/// The number of offsets that fall inside a row of `width` fields.
pub open spec fn count_in_range(width: int, offsets: Seq<usize>) -> nat
    decreases offsets.len(),
{
    if offsets.len() == 0 {
        0
    } else {
        count_in_range(width, offsets.drop_last()) + if (offsets.last() as int) < width {
            1nat
        } else {
            0nat
        }
    }
}

/// Converts 1-based column indices to 0-based offsets, keeping their order.
pub fn to_zero_based(indices: &Vec<usize>) -> (r: Vec<usize>)
    ensures
        r@.len() == indices@.len(),
        forall|i: int| 0 <= i < r@.len() ==> r@[i] == zero_based(#[trigger] indices@[i]),
{
    let mut r: Vec<usize> = Vec::new();
    let mut i: usize = 0;
    while i < indices.len()
        invariant
            i <= indices@.len(),
            r@.len() == i,
            forall|j: int| 0 <= j < i ==> r@[j] == zero_based(#[trigger] indices@[j]),
        decreases indices@.len() - i,
    {
        let index = indices[i];
        r.push(index.saturating_sub(1));
        i += 1;
    }
    r
}

/// The fields of `row` at `offsets`, in the order of `offsets`; an offset past
/// the end of the row is left out rather than padded.
pub fn project(row: &Vec<String>, offsets: &Vec<usize>) -> (r: Vec<String>)
    ensures
        fields_view(r@) == select(fields_view(row@), offsets@),
{
    let mut r: Vec<String> = Vec::new();
    let mut i: usize = 0;
    while i < offsets.len()
        invariant
            i <= offsets@.len(),
            fields_view(r@) == select(fields_view(row@), offsets@.subrange(0, i as int)),
        decreases offsets@.len() - i,
    {
        let offset = offsets[i];
        proof {
            assert(offsets@.subrange(0, i + 1).drop_last() =~= offsets@.subrange(0, i as int));
        }
        if offset < row.len() {
            r.push(row[offset].clone());
            assert(fields_view(r@) =~= select(fields_view(row@), offsets@.subrange(0, i as int))
                .push(fields_view(row@)[offset as int]));
        }
        i += 1;
    }
    assert(offsets@.subrange(0, offsets@.len() as int) =~= offsets@);
    r
}

/// The projection has one field for each offset that falls inside the row.
pub proof fn lemma_select_len(row: Seq<Seq<char>>, offsets: Seq<usize>)
    ensures
        select(row, offsets).len() == count_in_range(row.len() as int, offsets),
        count_in_range(row.len() as int, offsets) <= offsets.len(),
    decreases offsets.len(),
{
    if offsets.len() > 0 {
        lemma_select_len(row, offsets.drop_last());
    }
}

/// When every offset lies inside the row, the projection has exactly one
/// field per offset, in the requested order, and a repeated offset repeats
/// its field.
pub proof fn lemma_project_full_width(row: Seq<Seq<char>>, offsets: Seq<usize>)
    requires
        forall|i: int| 0 <= i < offsets.len() ==> (#[trigger] offsets[i] as int) < row.len(),
    ensures
        select(row, offsets).len() == offsets.len(),
        forall|i: int|
            0 <= i < offsets.len() ==> #[trigger] select(row, offsets)[i] == row[offsets[i] as int],
    decreases offsets.len(),
{
    if offsets.len() > 0 {
        let init = offsets.drop_last();
        assert forall|i: int| 0 <= i < init.len() implies (#[trigger] init[i] as int) < row.len() by {
            assert(init[i] == offsets[i]);
        }
        lemma_project_full_width(row, init);
        assert forall|i: int| 0 <= i < offsets.len() implies #[trigger] select(row, offsets)[i]
            == row[offsets[i] as int] by {
            if i < init.len() {
                assert(init[i] == offsets[i]);
            }
        }
    }
}

/// An offset past the end of the row shrinks the projection: it is never
/// padded to the number of offsets.
pub proof fn lemma_project_short_row(row: Seq<Seq<char>>, offsets: Seq<usize>, k: int)
    requires
        0 <= k < offsets.len(),
        offsets[k] as int >= row.len(),
    ensures
        select(row, offsets).len() < offsets.len(),
    decreases offsets.len(),
{
    lemma_select_len(row, offsets);
    let init = offsets.drop_last();
    lemma_select_len(row, init);
    if k < offsets.len() - 1 {
        assert(init[k] == offsets[k]);
        lemma_project_short_row(row, init, k);
    }
}

} // verus!
