//! The decoder: a forward-only cursor over input bytes that yields one
//! event for each JSON value it finds.

use vstd::prelude::*;
use vstd::slice::slice_subrange;

use crate::record::{Field, Record, RecordView};

verus! {

/// What one pull of the decoder yields.
#[derive(Debug, Clone, PartialEq, Eq)]
pub enum Event {
    /// No value is left: only white space, or nothing, remained.
    End,
    /// What follows is no JSON value.
    Invalid,
    /// The next value of the stream.
    Value(Record),
}

/// The mathematical value of an [`Event`].
pub enum EventView {
    End,
    Invalid,
    Value(RecordView),
}

impl View for Event {
    type V = EventView;

    open spec fn view(&self) -> EventView {
        match self {
            Event::End => EventView::End,
            Event::Invalid => EventView::Invalid,
            Event::Value(record) => EventView::Value(record@),
        }
    }
}

/// What `serde_json` makes of the start of `input`: the event for its first
/// value, and the number of bytes read up to the end of that value.
pub uninterp spec fn decoded(input: Seq<u8>) -> (EventView, nat);

/// Decodes the first JSON value of `input` with `serde_json`'s stream
/// deserializer (`Deserializer::from_slice`, `into_iter`, `next`,
/// `byte_offset`) and renders each field of a mapping with `Value`'s
/// `Display`, the compact JSON text.
///
/// Trusted: the result is a function of the bytes alone, named by
/// [`decoded`]; a value that was decoded took at least its first byte and no
/// more than `input` holds; and an input without bytes holds no value.
#[verifier::external_body]
fn decode_first(input: &[u8]) -> (out: (Event, usize))
    ensures
        out.0@ == decoded(input@).0,
        out.1 == decoded(input@).1,
        out.0 is Value ==> 0 < out.1 <= input@.len(),
        input@.len() == 0 ==> out.0 is End,
{
    let mut stream = serde_json::Deserializer::from_slice(input).into_iter::<serde_json::Value>();
    let event = match stream.next() {
        None => Event::End,
        Some(Err(_)) => Event::Invalid,
        Some(Ok(serde_json::Value::Object(map))) => Event::Value(Record::Mapping(
            map.iter().map(|(k, v)| Field { name: k.clone(), text: v.to_string() }).collect(),
        )),
        Some(Ok(_)) => Event::Value(Record::Other),
    };
    (event, stream.byte_offset())
}

/// A cursor over the bytes of a stream of JSON values, which may be
/// separated by white space or stand side by side.
pub struct Decoder<'a> {
    input: &'a [u8],
    position: usize,
}

impl<'a> Decoder<'a> {
    #[verifier::type_invariant]
    spec fn in_bounds(self) -> bool {
        self.position <= self.input@.len()
    }

    /// The bytes that the cursor has not passed yet.
    pub closed spec fn remaining(self) -> Seq<u8> {
        self.input@.skip(self.position as int)
    }

    /// A cursor at the start of `input`.
    pub fn new(input: &'a [u8]) -> (decoder: Self)
        ensures
            decoder.remaining() == input@,
    {
        assert(input@.skip(0) == input@);
        Decoder { input, position: 0 }
    }

    /// Decodes the next value and moves past it. At the end of the stream,
    /// and where no value can be decoded, the cursor stays.
    pub fn pull(&mut self) -> (event: Event)
        ensures
            event@ == decoded(old(self).remaining()).0,
            final(self).remaining() == advanced(old(self).remaining()),
            event is Value ==> final(self).remaining().len() < old(self).remaining().len(),
            old(self).remaining().len() == 0 ==> event is End,
    {
        proof {
            use_type_invariant(&*self);
        }
        let rest = slice_subrange(self.input, self.position, self.input.len());
        let (event, used) = decode_first(rest);
        if let Event::Value(_) = &event {
            assert(self.input@.skip(self.position as int).skip(used as int) == self.input@.skip(
                self.position + used,
            ));
            self.position = self.position + used;
        }
        event
    }
}

/// The bytes that are left of `input` after one pull: those behind the first
/// value, or all of them where none was decoded.
pub open spec fn advanced(input: Seq<u8>) -> Seq<u8> {
    let (event, used) = decoded(input);
    if event is Value && 0 < used <= input.len() {
        input.skip(used as int)
    } else {
        input
    }
}

/// All that a stream decodes to: its values up to the first that cannot be
/// decoded, and whether the end was reached without such a value.
pub struct Decoding {
    pub records: Seq<RecordView>,
    pub complete: bool,
}

/// The decoding of the whole of `input`, value after value.
pub open spec fn decode_all(input: Seq<u8>) -> Decoding
    decreases input.len(),
{
    let (event, used) = decoded(input);
    match event {
        EventView::End => Decoding { records: Seq::empty(), complete: true },
        EventView::Invalid => Decoding { records: Seq::empty(), complete: false },
        EventView::Value(record) => {
            if 0 < used <= input.len() {
                let rest = decode_all(input.skip(used as int));
                Decoding { records: seq![record] + rest.records, complete: rest.complete }
            } else {
                Decoding { records: Seq::empty(), complete: false }
            }
        },
    }
}

} // verus!
