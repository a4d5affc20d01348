//! Conversion of a stream of JSON records into delimited text: one header
//! line of field names, then one line per record with the fields in header
//! order, joined by a configurable separator.
//!
//! [`convert`] runs a whole conversion over bytes in memory. A caller that
//! reads its values from elsewhere feeds them to a [`Converter`], one
//! [`Event`] at a time, and writes the lines that each [`Step`] hands back.

pub mod decode;
pub mod driver;
pub mod header;
pub mod options;
pub mod outcome;
pub mod record;
pub mod row;
pub mod text;

pub use decode::{Decoder, Event};
pub use driver::{convert, Converter, Step};
pub use header::{filter_keys, resolve_header};
pub use options::Options;
pub use outcome::{ConvertError, Outcome};
pub use record::{Field, Record};
pub use row::line2csv;
