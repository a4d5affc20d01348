//! Records: what the conversion reads of one decoded JSON value.

use vstd::prelude::*;

verus! {

/// One entry of a JSON mapping: the field's name and the canonical compact
/// JSON text of its value (`3`, `true`, `null`, `"hello"` with its quotes
/// and escapes, `[1,2]`, `{"k":1}`).
#[derive(Debug, Clone, PartialEq, Eq)]
pub struct Field {
    pub name: String,
    pub text: String,
}

/// The mathematical value of a [`Field`].
pub struct FieldView {
    pub name: Seq<char>,
    pub text: Seq<char>,
}

impl View for Field {
    type V = FieldView;

    open spec fn view(&self) -> FieldView {
        FieldView { name: self.name@, text: self.text@ }
    }
}

/// One decoded JSON value, as far as a row depends on it: a mapping with
/// its entries in the order in which the value states them, or a value of
/// any other shape, which has no fields.
#[derive(Debug, Clone, PartialEq, Eq)]
pub enum Record {
    Mapping(Vec<Field>),
    Other,
}

/// The mathematical value of a [`Record`].
pub enum RecordView {
    Mapping(Seq<FieldView>),
    Other,
}

/// The views of the fields of a vector, in order.
pub open spec fn field_views(fields: Seq<Field>) -> Seq<FieldView> {
    Seq::new(fields.len(), |i: int| fields[i]@)
}

impl View for Record {
    type V = RecordView;

    open spec fn view(&self) -> RecordView {
        match self {
            Record::Mapping(fields) => RecordView::Mapping(field_views(fields@)),
            Record::Other => RecordView::Other,
        }
    }
}

/// The text of the first of `fields` that is named `key`, if there is one.
pub open spec fn lookup(fields: Seq<FieldView>, key: Seq<char>) -> Option<Seq<char>>
    decreases fields.len(),
{
    if fields.len() == 0 {
        None
    } else if fields.first().name == key {
        Some(fields.first().text)
    } else {
        lookup(fields.drop_first(), key)
    }
}

impl RecordView {
    /// The entries of a mapping; a value of another shape has none.
    pub open spec fn fields(self) -> Seq<FieldView> {
        match self {
            RecordView::Mapping(fields) => fields,
            RecordView::Other => Seq::empty(),
        }
    }

    /// The field names, in the record's own order.
    pub open spec fn names(self) -> Seq<Seq<char>> {
        Seq::new(self.fields().len(), |i: int| self.fields()[i].name)
    }

    /// The canonical texts of the fields, in the record's own order.
    pub open spec fn texts(self) -> Seq<Seq<char>> {
        Seq::new(self.fields().len(), |i: int| self.fields()[i].text)
    }

    /// No two entries share a name.
    pub open spec fn well_formed(self) -> bool {
        self.names().no_duplicates()
    }

    /// The canonical text of the field `key`, if the record has it.
    pub open spec fn value_of(self, key: Seq<char>) -> Option<Seq<char>> {
        lookup(self.fields(), key)
    }

    /// What a row shows for `key`: the field's text, or nothing at all where
    /// the record lacks the field.
    pub open spec fn cell(self, key: Seq<char>) -> Seq<char> {
        match self.value_of(key) {
            Some(text) => text,
            None => Seq::empty(),
        }
    }

    /// The cells of one row: one for each name of `header`, in its order.
    pub open spec fn cells(self, header: Seq<Seq<char>>) -> Seq<Seq<char>> {
        Seq::new(header.len(), |i: int| self.cell(header[i]))
    }
}

/// `lookup` finds a field exactly where some entry bears the name, and then
/// gives the text of the first such entry.
pub proof fn lemma_lookup_first(fields: Seq<FieldView>, key: Seq<char>)
    ensures
        match lookup(fields, key) {
            Some(text) => exists|i: int|
                0 <= i < fields.len() && #[trigger] fields[i].name == key && fields[i].text == text
                    && forall|j: int| 0 <= j < i ==> (#[trigger] fields[j]).name != key,
            None => forall|i: int| 0 <= i < fields.len() ==> (#[trigger] fields[i]).name != key,
        },
    decreases fields.len(),
{
    if fields.len() == 0 {
    } else if fields.first().name == key {
        assert(fields[0].name == key && fields[0].text == lookup(fields, key).unwrap());
    } else {
        let rest = fields.drop_first();
        lemma_lookup_first(rest, key);
        match lookup(rest, key) {
            Some(text) => {
                let i = choose|i: int|
                    0 <= i < rest.len() && #[trigger] rest[i].name == key && rest[i].text == text
                        && forall|j: int| 0 <= j < i ==> (#[trigger] rest[j]).name != key;
                assert(fields[i + 1] == rest[i]);
                assert forall|j: int| 0 <= j < i + 1 implies (#[trigger] fields[j]).name != key by {
                    if j > 0 {
                        assert(fields[j] == rest[j - 1]);
                    }
                }
                assert(fields[i + 1].name == key && fields[i + 1].text == text);
            },
            None => {
                assert forall|i: int| 0 <= i < fields.len() implies (#[trigger] fields[i]).name
                    != key by {
                    if i > 0 {
                        assert(fields[i] == rest[i - 1]);
                    }
                }
            },
        }
    }
}

/// In a record whose names are all different, each field is found under its
/// own name.
pub proof fn lemma_field_found(record: RecordView, index: int)
    requires
        record.well_formed(),
        0 <= index < record.fields().len(),
    ensures
        record.value_of(record.fields()[index].name) == Some(record.fields()[index].text),
        record.cell(record.fields()[index].name) == record.fields()[index].text,
{
    let fields = record.fields();
    let key = fields[index].name;
    lemma_lookup_first(fields, key);
    match lookup(fields, key) {
        Some(text) => {
            let i = choose|i: int|
                0 <= i < fields.len() && #[trigger] fields[i].name == key && fields[i].text == text
                    && forall|j: int| 0 <= j < i ==> (#[trigger] fields[j]).name != key;
            assert(record.names()[i] == record.names()[index]);
        },
        None => {
            assert(fields[index].name == key);
        },
    }
}

/// A record that lacks a field of the header shows nothing in that field's
/// place, and every cell of the row, this one too, stands where its key
/// stands in the header: the row is as long as the header.
pub proof fn lemma_missing_field_is_empty(record: RecordView, header: Seq<Seq<char>>, index: int)
    requires
        0 <= index < header.len(),
        !record.names().contains(header[index]),
    ensures
        record.cells(header).len() == header.len(),
        record.cells(header)[index] == Seq::<char>::empty(),
        forall|j: int|
            0 <= j < header.len() ==> #[trigger] record.cells(header)[j] == record.cell(header[j]),
{
    let fields = record.fields();
    let key = header[index];
    lemma_lookup_first(fields, key);
    match lookup(fields, key) {
        Some(text) => {
            let i = choose|i: int|
                0 <= i < fields.len() && #[trigger] fields[i].name == key && fields[i].text == text
                    && forall|j: int| 0 <= j < i ==> (#[trigger] fields[j]).name != key;
            assert(record.names()[i] == key);
        },
        None => {},
    }
}

impl Record {
    /// The canonical text of the field `key`, if the record has it.
    pub fn get(&self, key: &String) -> (found: Option<String>)
        ensures
            match found {
                Some(text) => self@.value_of(key@) == Some(text@),
                None => self@.value_of(key@) is None,
            },
    {
        match self {
            Record::Other => None,
            Record::Mapping(fields) => {
                let ghost all = field_views(fields@);
                let mut i: usize = 0;
                proof {
                    assert(all.skip(0) == all);
                }
                while i < fields.len()
                    invariant
                        i <= fields.len(),
                        all == field_views(fields@),
                        self@.value_of(key@) == lookup(all.skip(i as int), key@),
                    decreases fields.len() - i,
                {
                    proof {
                        let rest = all.skip(i as int);
                        assert(rest.first() == fields[i as int]@);
                        assert(rest.drop_first() == all.skip(i + 1));
                    }
                    if fields[i].name == *key {
                        return Some(fields[i].text.clone());
                    }
                    i = i + 1;
                }
                None
            },
        }
    }
}

} // verus!
