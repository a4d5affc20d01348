//! How a conversion ends.

use vstd::prelude::*;

verus! {

/// The ways in which a conversion ends without an error.
#[derive(Debug, Clone, Copy, PartialEq, Eq, Structural)]
pub enum Outcome {
    /// The stream held no value: nothing was written.
    Empty,
    /// The very first value could not be decoded: nothing was written.
    Unreadable,
    /// The header and one row for each value of the stream were written.
    Converted,
}

/// The ways in which a conversion fails.
#[derive(Debug, Clone, Copy, PartialEq, Eq, Structural)]
pub enum ConvertError {
    /// The header was to be taken from the first value, which is no mapping.
    /// Nothing was written.
    NotAMapping,
    /// A value after the first could not be decoded. The lines written up to
    /// that value stay.
    InvalidRecord,
}

} // verus!
