//! The stream driver: header first, then one line for each record.

use vstd::prelude::*;

use crate::decode::{decode_all, Decoder, Decoding, Event, EventView};
use crate::header::{filter_keys, kept_keys, resolve_header, resolved_header};
use crate::options::{Options, OptionsView};
use crate::outcome::{ConvertError, Outcome};
use crate::record::{lemma_field_found, RecordView};
use crate::row::{line2csv, row};
use crate::text::{join, joined};

verus! {

/// The rows of `records` under `header`, in the order of the records.
pub open spec fn rows(records: Seq<RecordView>, header: Seq<Seq<char>>, separator: Seq<char>) -> Seq<
    Seq<char>,
> {
    Seq::new(records.len(), |i: int| row(records[i], header, separator))
}

/// What a conversion writes and how it ends.
pub struct Conversion {
    pub lines: Seq<Seq<char>>,
    pub result: Result<Outcome, ConvertError>,
}

/// The conversion of a decoded stream.
///
/// A stream without a value gives no line. Otherwise the header is resolved
/// from the first record; where that fails nothing is written. Where it
/// succeeds the header line comes first and then one row for each record,
/// in order; a value that cannot be decoded ends the lines with an error.
pub open spec fn conversion(options: OptionsView, stream: Decoding) -> Conversion {
    if stream.records.len() == 0 {
        Conversion {
            lines: Seq::empty(),
            result: Ok(
                if stream.complete {
                    Outcome::Empty
                } else {
                    Outcome::Unreadable
                },
            ),
        }
    } else {
        match resolved_header(stream.records[0], options.include_keys) {
            None => Conversion { lines: Seq::empty(), result: Err(ConvertError::NotAMapping) },
            Some(resolved) => {
                let header = kept_keys(resolved, options.exclude_keys);
                Conversion {
                    lines: seq![joined(header, options.separator)] + rows(
                        stream.records,
                        header,
                        options.separator,
                    ),
                    result: if stream.complete {
                        Ok(Outcome::Converted)
                    } else {
                        Err(ConvertError::InvalidRecord)
                    },
                }
            },
        }
    }
}

/// What the caller of [`Converter::feed`] is to do next.
#[derive(Debug, Clone, PartialEq, Eq)]
pub enum Step {
    /// Write these lines, in order, and pull the next value.
    Lines(Vec<String>),
    /// The conversion is over.
    Stop(Outcome),
    /// The conversion failed; what was written stays.
    Fail(ConvertError),
}

/// The mathematical value of a [`Step`].
pub enum StepView {
    Lines(Seq<Seq<char>>),
    Stop(Outcome),
    Fail(ConvertError),
}

impl View for Step {
    type V = StepView;

    open spec fn view(&self) -> StepView {
        match self {
            Step::Lines(lines) => StepView::Lines(lines.deep_view()),
            Step::Stop(outcome) => StepView::Stop(*outcome),
            Step::Fail(error) => StepView::Fail(*error),
        }
    }
}

/// The state of a conversion: its configuration and, once the first record
/// has been seen, the header, which stays as it is from then on.
pub struct Converter {
    options: Options,
    header: Option<Vec<String>>,
}

/// The mathematical value of a [`Converter`].
pub struct ConverterView {
    pub options: OptionsView,
    pub header: Option<Seq<Seq<char>>>,
}

/// The state after `event` and what the caller is told.
///
/// Before the header is known, the end of the stream and an undecodable
/// value both end the conversion quietly, and a record gives the header
/// line and its own row, or the error that no header can be had. After
/// that, each record gives its row, the end of the stream ends the
/// conversion, and an undecodable value fails it.
pub open spec fn transition(state: ConverterView, event: EventView) -> (ConverterView, StepView) {
    match state.header {
        None => match event {
            EventView::End => (state, StepView::Stop(Outcome::Empty)),
            EventView::Invalid => (state, StepView::Stop(Outcome::Unreadable)),
            EventView::Value(record) => match resolved_header(record, state.options.include_keys) {
                None => (state, StepView::Fail(ConvertError::NotAMapping)),
                Some(resolved) => {
                    let header = kept_keys(resolved, state.options.exclude_keys);
                    (
                        ConverterView { options: state.options, header: Some(header) },
                        StepView::Lines(
                            seq![
                                joined(header, state.options.separator),
                                row(record, header, state.options.separator),
                            ],
                        ),
                    )
                },
            },
        },
        Some(header) => match event {
            EventView::End => (state, StepView::Stop(Outcome::Converted)),
            EventView::Invalid => (state, StepView::Fail(ConvertError::InvalidRecord)),
            EventView::Value(record) => (
                state,
                StepView::Lines(seq![row(record, header, state.options.separator)]),
            ),
        },
    }
}

impl View for Converter {
    type V = ConverterView;

    closed spec fn view(&self) -> ConverterView {
        ConverterView { options: self.options@, header: self.header.deep_view() }
    }
}

impl Converter {
    /// A conversion that has seen no value yet.
    pub fn new(options: Options) -> (converter: Converter)
        ensures
            converter@ == (ConverterView { options: options@, header: None }),
    {
        Converter { options, header: None }
    }

    /// Takes the next event of the stream and says what to do.
    pub fn feed(&mut self, event: Event) -> (step: Step)
        ensures
            (final(self)@, step@) == transition(old(self)@, event@),
    {
        match &self.header {
            None => match event {
                Event::End => Step::Stop(Outcome::Empty),
                Event::Invalid => Step::Stop(Outcome::Unreadable),
                Event::Value(record) => {
                    match resolve_header(&record, &self.options.include_keys) {
                        Err(error) => Step::Fail(error),
                        Ok(resolved) => {
                            let header = filter_keys(resolved, &self.options.exclude_keys);
                            let mut lines: Vec<String> = Vec::new();
                            lines.push(join(&header, self.options.separator.as_str()));
                            lines.push(line2csv(record, &header, self.options.separator.as_str()));
                            assert(lines.deep_view() == seq![
                                joined(header.deep_view(), self.options.separator@),
                                row(record@, header.deep_view(), self.options.separator@),
                            ]);
                            self.header = Some(header);
                            Step::Lines(lines)
                        },
                    }
                },
            },
            Some(header) => match event {
                Event::End => Step::Stop(Outcome::Converted),
                Event::Invalid => Step::Fail(ConvertError::InvalidRecord),
                Event::Value(record) => {
                    let mut lines: Vec<String> = Vec::new();
                    lines.push(line2csv(record, header, self.options.separator.as_str()));
                    assert(lines.deep_view() == seq![
                        row(record@, header.deep_view(), self.options.separator@),
                    ]);
                    Step::Lines(lines)
                },
            },
        }
    }
}

/// Appends `lines` to `sink`, in order.
fn emit(sink: &mut Vec<String>, lines: Vec<String>)
    ensures
        final(sink).deep_view() == old(sink).deep_view() + lines.deep_view(),
{
    let mut lines = lines;
    let ghost added = lines.deep_view();
    sink.append(&mut lines);
    assert(sink.deep_view() == old(sink).deep_view() + added);
}

/// Converts the JSON values of `input` to lines of delimited text, which it
/// appends to `sink` in the order of the input, the header line first.
///
/// The header is settled by the first value and never changes. A stream
/// without a value, and one whose first value cannot be decoded, write
/// nothing and end without an error, told apart by the outcome. A first
/// value that is no mapping, where the header was to come from it, fails
/// before anything is written. A later value that cannot be decoded fails
/// the conversion; the lines written before it stay in `sink`.
pub fn convert(input: &[u8], options: Options, sink: &mut Vec<String>) -> (res: Result<
    Outcome,
    ConvertError,
>)
    ensures
        final(sink).deep_view() == old(sink).deep_view() + conversion(
            options@,
            decode_all(input@),
        ).lines,
        res == conversion(options@, decode_all(input@)).result,
        input@.len() == 0 ==> res == Ok::<Outcome, ConvertError>(Outcome::Empty),
        input@.len() == 0 ==> final(sink).deep_view() == old(sink).deep_view(),
{
    let ghost config = options@;
    let mut decoder = Decoder::new(input);
    let mut converter = Converter::new(options);
    let first = decoder.pull();
    let ghost first_record = first@->0;
    match converter.feed(first) {
        Step::Stop(outcome) => {
            return Ok(outcome);
        },
        Step::Fail(error) => {
            return Err(error);
        },
        Step::Lines(lines) => {
            emit(sink, lines);
        },
    }
    let ghost header = converter@.header->0;
    let ghost mut done: Seq<RecordView> = seq![first_record];
    proof {
        assert(sink.deep_view() == old(sink).deep_view() + seq![joined(header, config.separator)]
            + rows(done, header, config.separator));
    }
    loop
        invariant
            input@.len() > 0,
            config == options@,
            converter@ == (ConverterView { options: config, header: Some(header) }),
            done.len() > 0,
            resolved_header(done[0], config.include_keys) is Some,
            header == kept_keys(
                resolved_header(done[0], config.include_keys)->0,
                config.exclude_keys,
            ),
            decode_all(input@).records == done + decode_all(decoder.remaining()).records,
            decode_all(input@).complete == decode_all(decoder.remaining()).complete,
            sink.deep_view() == old(sink).deep_view() + seq![joined(header, config.separator)]
                + rows(done, header, config.separator),
        decreases decoder.remaining().len(),
    {
        let ghost written = sink.deep_view();
        let event = decoder.pull();
        let ghost record = event@->0;
        match converter.feed(event) {
            Step::Stop(outcome) => {
                assert(decode_all(input@).records == done);
                return Ok(outcome);
            },
            Step::Fail(error) => {
                assert(decode_all(input@).records == done);
                return Err(error);
            },
            Step::Lines(lines) => {
                emit(sink, lines);
                proof {
                    let rest = decode_all(decoder.remaining()).records;
                    assert(done + (seq![record] + rest) == done.push(record) + rest);
                    assert(rows(done.push(record), header, config.separator) == rows(
                        done,
                        header,
                        config.separator,
                    ).push(row(record, header, config.separator)));
                    assert(sink.deep_view() == written.push(
                        row(record, header, config.separator),
                    ));
                    done = done.push(record);
                }
            },
        }
    }
}

/// The events that a decoder yields for a stream: one for each record, in
/// order, then the end or the value that cannot be decoded.
pub open spec fn events_of(stream: Decoding) -> Seq<EventView> {
    Seq::new(stream.records.len(), |i: int| EventView::Value(stream.records[i])).push(
        if stream.complete {
            EventView::End
        } else {
            EventView::Invalid
        },
    )
}

/// What a caller has written and been told who feeds `events` to a
/// converter in `state`, writes the lines of each step and stops at the
/// first step that ends the conversion.
pub open spec fn fed(state: ConverterView, events: Seq<EventView>) -> (
    Seq<Seq<char>>,
    Option<Result<Outcome, ConvertError>>,
)
    decreases events.len(),
{
    if events.len() == 0 {
        (Seq::empty(), None)
    } else {
        let (next, step) = transition(state, events.first());
        match step {
            StepView::Lines(lines) => {
                let rest = fed(next, events.drop_first());
                (lines + rest.0, rest.1)
            },
            StepView::Stop(outcome) => (Seq::empty(), Some(Ok(outcome))),
            StepView::Fail(error) => (Seq::empty(), Some(Err(error))),
        }
    }
}

/// Feeding the rest of a stream to a converter that has its header.
proof fn lemma_feeding_rows(state: ConverterView, stream: Decoding)
    requires
        state.header is Some,
    ensures
        fed(state, events_of(stream)) == (
            rows(stream.records, state.header->0, state.options.separator),
            Some(
                if stream.complete {
                    Ok::<Outcome, ConvertError>(Outcome::Converted)
                } else {
                    Err::<Outcome, ConvertError>(ConvertError::InvalidRecord)
                },
            ),
        ),
    decreases stream.records.len(),
{
    let events = events_of(stream);
    let header = state.header->0;
    let separator = state.options.separator;
    if stream.records.len() == 0 {
        assert(rows(stream.records, header, separator) == Seq::<Seq<char>>::empty());
    } else {
        let rest = Decoding { records: stream.records.drop_first(), complete: stream.complete };
        assert(events.first() == EventView::Value(stream.records[0]));
        assert(events.drop_first() == events_of(rest));
        lemma_feeding_rows(state, rest);
        assert(seq![row(stream.records[0], header, separator)] + rows(
            rest.records,
            header,
            separator,
        ) == rows(stream.records, header, separator));
    }
}

/// The converter, fed the events of a stream one by one from its first
/// state, writes the lines of the stream's conversion and ends as it ends.
pub proof fn lemma_feeding_converts(options: OptionsView, stream: Decoding)
    ensures
        fed(ConverterView { options, header: None }, events_of(stream)) == (
            conversion(options, stream).lines,
            Some(conversion(options, stream).result),
        ),
{
    let start = ConverterView { options, header: None };
    let events = events_of(stream);
    if stream.records.len() > 0 {
        let first = stream.records[0];
        assert(events.first() == EventView::Value(first));
        match resolved_header(first, options.include_keys) {
            None => {},
            Some(resolved) => {
                let header = kept_keys(resolved, options.exclude_keys);
                let state = ConverterView { options, header: Some(header) };
                let rest = Decoding {
                    records: stream.records.drop_first(),
                    complete: stream.complete,
                };
                assert(events.drop_first() == events_of(rest));
                lemma_feeding_rows(state, rest);
                assert(seq![row(first, header, options.separator)] + rows(
                    rest.records,
                    header,
                    options.separator,
                ) == rows(stream.records, header, options.separator));
                assert(seq![
                    joined(header, options.separator),
                    row(first, header, options.separator),
                ] + rows(rest.records, header, options.separator) == seq![
                    joined(header, options.separator),
                ] + rows(stream.records, header, options.separator));
            },
        }
    }
}

/// The cells of every line that a conversion writes, before any joining:
/// those of the header line, then those of each row.
pub open spec fn line_cells(
    include_keys: Option<Seq<Seq<char>>>,
    exclude_keys: Option<Seq<Seq<char>>>,
    stream: Decoding,
) -> Seq<Seq<Seq<char>>> {
    if stream.records.len() == 0 {
        Seq::empty()
    } else {
        match resolved_header(stream.records[0], include_keys) {
            None => Seq::empty(),
            Some(resolved) => {
                let header = kept_keys(resolved, exclude_keys);
                seq![header] + Seq::new(
                    stream.records.len(),
                    |i: int| stream.records[i].cells(header),
                )
            },
        }
    }
}

/// The separator decides nothing but what stands between two cells: for
/// every separator, of any length, each line is the join of the same cells,
/// the header line and the rows alike, and the conversion ends alike.
pub proof fn lemma_separator_only_joins(options: OptionsView, stream: Decoding, separator: Seq<char>)
    ensures
        ({
            let cells = line_cells(options.include_keys, options.exclude_keys, stream);
            let other = OptionsView { separator, ..options };
            &&& conversion(options, stream).lines == Seq::new(
                cells.len(),
                |i: int| joined(cells[i], options.separator),
            )
            &&& conversion(other, stream).lines == Seq::new(
                cells.len(),
                |i: int| joined(cells[i], separator),
            )
            &&& conversion(other, stream).result == conversion(options, stream).result
        }),
{
}

/// A stream of one or more mappings that all have the same field names,
/// each name once, converts to the header line and one row for each record,
/// in order, and every cell under a name of the records is the canonical
/// text of that record's field of that name. Without configured or excluded
/// keys the header is the shared names and each row the record's own texts.
pub proof fn lemma_uniform_stream(
    options: OptionsView,
    records: Seq<RecordView>,
    names: Seq<Seq<char>>,
)
    requires
        records.len() >= 1,
        forall|i: int|
            0 <= i < records.len() ==> (#[trigger] records[i]) is Mapping
                && records[i].well_formed() && records[i].names() == names,
    ensures
        ({
            let out = conversion(options, Decoding { records, complete: true });
            let header = kept_keys(
                match options.include_keys {
                    Some(keys) => keys,
                    None => names,
                },
                options.exclude_keys,
            );
            &&& out.result == Ok::<Outcome, ConvertError>(Outcome::Converted)
            &&& out.lines.len() == records.len() + 1
            &&& out.lines[0] == joined(header, options.separator)
            &&& forall|i: int|
                0 <= i < records.len() ==> #[trigger] out.lines[i + 1] == joined(
                    records[i].cells(header),
                    options.separator,
                )
            &&& forall|i: int, j: int, p: int|
                0 <= i < records.len() && 0 <= j < header.len() && 0 <= p < names.len()
                    && header[j] == names[p] ==> #[trigger] records[i].cells(header)[j]
                    == (#[trigger] records[i].fields()[p]).text
            &&& options.include_keys is None && options.exclude_keys is None ==> header == names
                && forall|i: int|
                0 <= i < records.len() ==> #[trigger] records[i].cells(header)
                    == records[i].texts()
        }),
{
    let out = conversion(options, Decoding { records, complete: true });
    let header = kept_keys(
        match options.include_keys {
            Some(keys) => keys,
            None => names,
        },
        options.exclude_keys,
    );
    assert(records[0] is Mapping && records[0].names() == names);
    assert forall|i: int, j: int, p: int|
        0 <= i < records.len() && 0 <= j < header.len() && 0 <= p < names.len() && header[j]
            == names[p] implies #[trigger] records[i].cells(header)[j]
        == (#[trigger] records[i].fields()[p]).text by {
        assert(records[i].names() == names);
        assert(records[i].names()[p] == records[i].fields()[p].name);
        lemma_field_found(records[i], p);
    }
    if options.include_keys is None && options.exclude_keys is None {
        assert forall|i: int| 0 <= i < records.len() implies #[trigger] records[i].cells(header)
            == records[i].texts() by {
            assert(records[i].names() == names);
            assert forall|p: int| 0 <= p < names.len() implies records[i].cells(header)[p]
                == records[i].texts()[p] by {
                assert(records[i].names()[p] == records[i].fields()[p].name);
                lemma_field_found(records[i], p);
            }
            assert(records[i].names().len() == records[i].fields().len());
        }
    }
}

} // verus!
