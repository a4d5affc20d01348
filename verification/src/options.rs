//! The configuration of one conversion.

use vstd::prelude::*;

verus! {

/// What the caller chooses: which keys make up the header, which keys are
/// left out of it, and the text that stands between two fields of a line.
#[derive(Debug, Clone, PartialEq, Eq)]
pub struct Options {
    /// The header, in this order. Without it the header is the field names
    /// of the first record.
    pub include_keys: Option<Vec<String>>,
    /// Keys that neither the header nor any row shows.
    pub exclude_keys: Option<Vec<String>>,
    /// The text between two fields of a line; it may be of any length.
    pub separator: String,
}

/// The mathematical value of [`Options`].
pub struct OptionsView {
    pub include_keys: Option<Seq<Seq<char>>>,
    pub exclude_keys: Option<Seq<Seq<char>>>,
    pub separator: Seq<char>,
}

impl View for Options {
    type V = OptionsView;

    open spec fn view(&self) -> OptionsView {
        OptionsView {
            include_keys: self.include_keys.deep_view(),
            exclude_keys: self.exclude_keys.deep_view(),
            separator: self.separator@,
        }
    }
}

} // verus!
