//! One line of output for one record.

use vstd::prelude::*;

use crate::header::{kept_keys, lemma_exclusion_exact, picks_survivors};
use crate::record::{Record, RecordView};
use crate::text::{join, joined};

verus! {

/// The line of one record: its cell for each key of `header`, in header
/// order, joined by `separator`.
pub open spec fn row(record: RecordView, header: Seq<Seq<char>>, separator: Seq<char>) -> Seq<
    char,
> {
    joined(record.cells(header), separator)
}

/// Renders `input` as one line: for each of `keys`, in order, the canonical
/// text of that field, or nothing where the record lacks the field, with
/// `separator` between neighbours.
pub fn line2csv(input: Record, keys: &Vec<String>, separator: &str) -> (line: String)
    ensures
        line@ == row(input@, keys.deep_view(), separator@),
{
    let mut cells: Vec<String> = Vec::new();
    let mut i: usize = 0;
    while i < keys.len()
        invariant
            i <= keys.len(),
            cells.len() == i,
            forall|j: int| 0 <= j < i ==> cells[j]@ == input@.cell(keys[j]@),
        decreases keys.len() - i,
    {
        let cell = match input.get(&keys[i]) {
            Some(text) => text,
            None => String::new(),
        };
        cells.push(cell);
        i = i + 1;
    }
    assert(cells.deep_view() == input@.cells(keys.deep_view()));
    join(&cells, separator)
}

/// Exclusion takes from a row exactly what it takes from the header: the
/// row under the kept header shows, in order, the cells that the row under
/// the whole header shows at the places whose key is not excluded.
pub proof fn lemma_excluded_from_row(
    record: RecordView,
    header: Seq<Seq<char>>,
    excluded: Seq<Seq<char>>,
) -> (positions: Seq<int>)
    ensures
        picks_survivors(header, excluded, positions),
        record.cells(kept_keys(header, Some(excluded))).len() == positions.len(),
        forall|j: int|
            0 <= j < positions.len() ==> #[trigger] record.cells(
                kept_keys(header, Some(excluded)),
            )[j] == record.cells(header)[positions[j]],
{
    lemma_exclusion_exact(header, excluded)
}

} // verus!
