//! The header of the output: where it comes from and which keys it keeps.

use vstd::prelude::*;

use crate::outcome::ConvertError;
use crate::record::{Record, RecordView};

verus! {

/// The header before exclusion: the configured keys where there are any,
/// else the field names of the first record, which must be a mapping.
pub open spec fn resolved_header(
    first: RecordView,
    include_keys: Option<Seq<Seq<char>>>,
) -> Option<Seq<Seq<char>>> {
    match include_keys {
        Some(keys) => Some(keys),
        None => match first {
            RecordView::Mapping(_) => Some(first.names()),
            RecordView::Other => None,
        },
    }
}

/// Whether a key stays in the header: exactly when `excluded` does not hold
/// it.
pub open spec fn survives(excluded: Seq<Seq<char>>) -> spec_fn(Seq<char>) -> bool {
    |key: Seq<char>| !excluded.contains(key)
}

/// The header after exclusion: the keys of `header` that `exclude_keys`
/// does not hold, in their order.
pub open spec fn kept_keys(header: Seq<Seq<char>>, exclude_keys: Option<Seq<Seq<char>>>) -> Seq<
    Seq<char>,
> {
    match exclude_keys {
        Some(excluded) => header.filter(survives(excluded)),
        None => header,
    }
}

/// Whether one of `keys` reads as `key` does.
pub fn contains_key(keys: &Vec<String>, key: &String) -> (found: bool)
    ensures
        found == keys.deep_view().contains(key@),
{
    let mut i: usize = 0;
    while i < keys.len()
        invariant
            i <= keys.len(),
            forall|j: int| 0 <= j < i ==> keys.deep_view()[j] != key@,
        decreases keys.len() - i,
    {
        if keys[i] == *key {
            assert(keys.deep_view()[i as int] == key@);
            return true;
        }
        i = i + 1;
    }
    false
}

/// The field names of a mapping, in its own order; `None` for a value of
/// another shape.
pub fn field_names(record: &Record) -> (names: Option<Vec<String>>)
    ensures
        match names {
            Some(names) => record@ is Mapping && names.deep_view() == record@.names(),
            None => record@ is Other,
        },
{
    match record {
        Record::Other => None,
        Record::Mapping(fields) => {
            let mut names: Vec<String> = Vec::new();
            let mut i: usize = 0;
            while i < fields.len()
                invariant
                    i <= fields.len(),
                    names.len() == i,
                    forall|j: int| 0 <= j < i ==> names[j]@ == fields[j].name@,
                decreases fields.len() - i,
            {
                names.push(fields[i].name.clone());
                i = i + 1;
            }
            assert(names.deep_view() == record@.names());
            Some(names)
        },
    }
}

/// A copy of `keys`, text for text.
pub fn copy_keys(keys: &Vec<String>) -> (copy: Vec<String>)
    ensures
        copy.deep_view() == keys.deep_view(),
{
    let mut copy: Vec<String> = Vec::new();
    let mut i: usize = 0;
    while i < keys.len()
        invariant
            i <= keys.len(),
            copy.len() == i,
            forall|j: int| 0 <= j < i ==> copy[j]@ == keys[j]@,
        decreases keys.len() - i,
    {
        copy.push(keys[i].clone());
        i = i + 1;
    }
    assert(copy.deep_view() == keys.deep_view());
    copy
}

/// Resolves the header from the configuration or, without configured keys,
/// from the first record. Configured keys are taken as they stand, whatever
/// fields the record has.
pub fn resolve_header(first: &Record, include_keys: &Option<Vec<String>>) -> (res: Result<
    Vec<String>,
    ConvertError,
>)
    ensures
        match res {
            Ok(header) => resolved_header(first@, include_keys.deep_view()) == Some(
                header.deep_view(),
            ),
            Err(error) => error == ConvertError::NotAMapping && resolved_header(
                first@,
                include_keys.deep_view(),
            ) is None,
        },
{
    match include_keys {
        Some(keys) => Ok(copy_keys(keys)),
        None => match field_names(first) {
            Some(names) => Ok(names),
            None => Err(ConvertError::NotAMapping),
        },
    }
}

/// Removes from `header` every key that `exclude_keys` holds, however many
/// keys that is, and keeps the others in their order.
pub fn filter_keys(header: Vec<String>, exclude_keys: &Option<Vec<String>>) -> (kept: Vec<String>)
    ensures
        kept.deep_view() == kept_keys(header.deep_view(), exclude_keys.deep_view()),
{
    match exclude_keys {
        None => header,
        Some(excluded) => {
            let ghost keep = survives(excluded.deep_view());
            let mut kept: Vec<String> = Vec::new();
            let mut i: usize = 0;
            proof {
                reveal(Seq::filter);
                assert(header.deep_view().take(0).len() == 0);
            }
            while i < header.len()
                invariant
                    i <= header.len(),
                    keep == survives(excluded.deep_view()),
                    kept.deep_view() == header.deep_view().take(i as int).filter(keep),
                decreases header.len() - i,
            {
                let ghost before = header.deep_view().take(i as int);
                let ghost after = header.deep_view().take(i + 1);
                let ghost kept_before = kept.deep_view();
                proof {
                    reveal(Seq::filter);
                    assert(after.drop_last() == before);
                    assert(after.last() == header[i as int]@);
                }
                if !contains_key(excluded, &header[i]) {
                    kept.push(header[i].clone());
                    assert(kept.deep_view() == kept_before.push(header[i as int]@));
                }
                i = i + 1;
            }
            proof {
                assert(header.deep_view().take(i as int) == header.deep_view());
            }
            kept
        },
    }
}

/// Whether `positions` lists, in rising order, exactly the places of
/// `header` whose key `excluded` does not hold.
pub open spec fn picks_survivors(
    header: Seq<Seq<char>>,
    excluded: Seq<Seq<char>>,
    positions: Seq<int>,
) -> bool {
    &&& forall|j: int|
        0 <= j < positions.len() ==> 0 <= #[trigger] positions[j] < header.len()
            && !excluded.contains(header[positions[j]])
    &&& forall|a: int, b: int|
        0 <= a < b < positions.len() ==> #[trigger] positions[a] < #[trigger] positions[b]
    &&& forall|i: int|
        0 <= i < header.len() && !excluded.contains(#[trigger] header[i]) ==> positions.contains(i)
}

/// Exclusion goes by membership alone, however many keys are excluded: the
/// header that is kept consists of the keys at exactly those places of the
/// header whose key is not excluded, in their order. So a key is kept if
/// and only if the header has it and the excluded keys do not.
pub proof fn lemma_exclusion_exact(header: Seq<Seq<char>>, excluded: Seq<Seq<char>>) -> (positions:
    Seq<int>)
    ensures
        picks_survivors(header, excluded, positions),
        kept_keys(header, Some(excluded)).len() == positions.len(),
        forall|j: int|
            0 <= j < positions.len() ==> #[trigger] kept_keys(header, Some(excluded))[j]
                == header[positions[j]],
        forall|key: Seq<char>|
            #[trigger] kept_keys(header, Some(excluded)).contains(key) <==> header.contains(key)
                && !excluded.contains(key),
    decreases header.len(),
{
    reveal(Seq::filter);
    let kept = kept_keys(header, Some(excluded));
    if header.len() == 0 {
        let positions = Seq::<int>::empty();
        assert forall|key: Seq<char>| #[trigger] kept.contains(key) <==> header.contains(key)
            && !excluded.contains(key) by {}
        positions
    } else {
        let front = header.drop_last();
        let last = header.len() - 1;
        let front_kept = kept_keys(front, Some(excluded));
        let front_positions = lemma_exclusion_exact(front, excluded);
        let positions = if excluded.contains(header.last()) {
            front_positions
        } else {
            front_positions.push(last)
        };
        assert forall|j: int| 0 <= j < positions.len() implies 0 <= #[trigger] positions[j]
            < header.len() && !excluded.contains(header[positions[j]]) && kept[j]
            == header[positions[j]] by {
            if j < front_positions.len() {
                assert(positions[j] == front_positions[j]);
                assert(front[front_positions[j]] == header[front_positions[j]]);
                assert(kept[j] == front_kept[j]);
            }
        }
        assert forall|a: int, b: int| 0 <= a < b < positions.len() implies #[trigger] positions[a]
            < #[trigger] positions[b] by {
            assert(positions[a] == front_positions[a]);
            if b < front_positions.len() {
                assert(positions[b] == front_positions[b]);
            }
        }
        assert forall|i: int|
            0 <= i < header.len() && !excluded.contains(
                #[trigger] header[i],
            ) implies positions.contains(i) by {
            if i < last {
                assert(front[i] == header[i]);
                assert(front_positions.contains(i));
                let j = choose|j: int| 0 <= j < front_positions.len() && front_positions[j] == i;
                assert(positions[j] == i);
            } else {
                assert(positions[positions.len() - 1] == i);
            }
        }
        assert forall|key: Seq<char>| #[trigger] kept.contains(key) <==> header.contains(key)
            && !excluded.contains(key) by {
            if kept.contains(key) {
                let j = choose|j: int| 0 <= j < kept.len() && kept[j] == key;
                assert(header[positions[j]] == key);
            }
            if header.contains(key) && !excluded.contains(key) {
                let i = choose|i: int| 0 <= i < header.len() && header[i] == key;
                assert(positions.contains(i));
                let j = choose|j: int| 0 <= j < positions.len() && positions[j] == i;
                assert(kept[j] == key);
            }
        }
        positions
    }
}

} // verus!
