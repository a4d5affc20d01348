//! Joining of text fields with a separator.

use vstd::prelude::*;
use vstd::string::StringExecFns;

verus! {

/// The fields of `parts` written one after another, with `separator` between
/// each two neighbours and nowhere else.
pub open spec fn joined(parts: Seq<Seq<char>>, separator: Seq<char>) -> Seq<char>
    decreases parts.len(),
{
    if parts.len() == 0 {
        Seq::empty()
    } else if parts.len() == 1 {
        parts[0]
    } else {
        joined(parts.drop_last(), separator) + separator + parts.last()
    }
}

/// Joins `parts` with `separator` into one line.
pub fn join(parts: &Vec<String>, separator: &str) -> (line: String)
    ensures
        line@ == joined(parts.deep_view(), separator@),
{
    let mut line = String::new();
    let mut i: usize = 0;
    while i < parts.len()
        invariant
            i <= parts.len(),
            line@ == joined(parts.deep_view().take(i as int), separator@),
        decreases parts.len() - i,
    {
        let ghost before = parts.deep_view().take(i as int);
        let ghost after = parts.deep_view().take(i + 1);
        proof {
            assert(after.drop_last() == before);
            assert(after.last() == parts[i as int]@);
        }
        if i > 0 {
            line.append(separator);
        }
        line.append(parts[i].as_str());
        proof {
            if i == 0 {
                assert(line@ == parts[i as int]@);
            }
        }
        i = i + 1;
    }
    proof {
        assert(parts.deep_view().take(i as int) == parts.deep_view());
    }
    line
}

/// Where field `index` begins in the joined line: behind all earlier fields
/// and one separator after each of them.
pub open spec fn field_start(parts: Seq<Seq<char>>, separator: Seq<char>, index: int) -> int
    decreases index,
{
    if index <= 0 {
        0
    } else {
        field_start(parts, separator, index - 1) + parts[index - 1].len() + separator.len()
    }
}

/// The start of a field depends on the fields before it only.
proof fn lemma_field_start_prefix(
    parts: Seq<Seq<char>>,
    prefix: Seq<Seq<char>>,
    separator: Seq<char>,
    index: int,
)
    requires
        0 <= index <= prefix.len() <= parts.len(),
        forall|j: int| 0 <= j < prefix.len() ==> prefix[j] == parts[j],
    ensures
        field_start(prefix, separator, index) == field_start(parts, separator, index),
    decreases index,
{
    if index > 0 {
        lemma_field_start_prefix(parts, prefix, separator, index - 1);
    }
}

/// The layout of a joined line at one field.
proof fn lemma_field_in_line(parts: Seq<Seq<char>>, separator: Seq<char>, index: int)
    requires
        0 <= index < parts.len(),
    ensures
        0 <= field_start(parts, separator, index),
        field_start(parts, separator, index) + parts[index].len() <= joined(
            parts,
            separator,
        ).len(),
        joined(parts, separator).subrange(
            field_start(parts, separator, index),
            field_start(parts, separator, index) + parts[index].len(),
        ) == parts[index],
        index == parts.len() - 1 ==> joined(parts, separator).len() == field_start(
            parts,
            separator,
            index,
        ) + parts[index].len(),
        index < parts.len() - 1 ==> field_start(parts, separator, index + 1) <= joined(
            parts,
            separator,
        ).len(),
        index < parts.len() - 1 ==> joined(parts, separator).subrange(
            field_start(parts, separator, index) + parts[index].len(),
            field_start(parts, separator, index + 1),
        ) == separator,
    decreases parts.len(),
{
    let line = joined(parts, separator);
    if parts.len() == 1 {
        assert(line.subrange(0, parts[0].len() as int) == parts[0]);
    } else {
        let front = parts.drop_last();
        let head = joined(front, separator);
        let last = parts.len() - 1;
        assert(line == head + separator + parts.last());
        lemma_field_in_line(front, separator, last - 1);
        lemma_field_start_prefix(parts, front, separator, last - 1);
        assert(field_start(parts, separator, last) == head.len() + separator.len());
        if index < last {
            lemma_field_in_line(front, separator, index);
            lemma_field_start_prefix(parts, front, separator, index);
            let from = field_start(parts, separator, index);
            let to = from + parts[index].len();
            assert(front[index] == parts[index]);
            assert(line.subrange(from, to) == head.subrange(from, to));
            if index < last - 1 {
                lemma_field_start_prefix(parts, front, separator, index + 1);
                let next = field_start(parts, separator, index + 1);
                assert(line.subrange(to, next) == head.subrange(to, next));
            } else {
                assert(to == head.len());
                assert(line.subrange(to, to + separator.len()) == separator);
            }
        } else {
            let from = field_start(parts, separator, index);
            assert(line.subrange(from, from + parts[index].len()) == parts[index]);
        }
    }
}

/// A joined line is laid out by its fields alone, whatever the separator
/// and however long it is: each field stands verbatim at its start, one
/// separator stands between a field and the next, and nothing follows the
/// last field.
pub proof fn lemma_joined_layout(parts: Seq<Seq<char>>, separator: Seq<char>)
    ensures
        parts.len() == 0 ==> joined(parts, separator).len() == 0,
        parts.len() > 0 ==> joined(parts, separator).len() == field_start(
            parts,
            separator,
            parts.len() - 1,
        ) + parts.last().len(),
        forall|i: int|
            0 <= i < parts.len() ==> 0 <= #[trigger] field_start(parts, separator, i) && joined(
                parts,
                separator,
            ).subrange(
                field_start(parts, separator, i),
                field_start(parts, separator, i) + parts[i].len(),
            ) == parts[i],
        forall|i: int|
            0 <= i < parts.len() - 1 ==> joined(parts, separator).subrange(
                #[trigger] field_start(parts, separator, i) + parts[i].len(),
                field_start(parts, separator, i + 1),
            ) == separator,
{
    if parts.len() > 0 {
        lemma_field_in_line(parts, separator, parts.len() - 1);
    }
    assert forall|i: int| 0 <= i < parts.len() implies 0 <= #[trigger] field_start(
        parts,
        separator,
        i,
    ) && joined(parts, separator).subrange(
        field_start(parts, separator, i),
        field_start(parts, separator, i) + parts[i].len(),
    ) == parts[i] by {
        lemma_field_in_line(parts, separator, i);
    }
    assert forall|i: int| 0 <= i < parts.len() - 1 implies joined(parts, separator).subrange(
        #[trigger] field_start(parts, separator, i) + parts[i].len(),
        field_start(parts, separator, i + 1),
    ) == separator by {
        lemma_field_in_line(parts, separator, i);
    }
}

} // verus!
