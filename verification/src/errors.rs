//! The error taxonomy of the extraction core.
//!
//! Structural errors report a required document element or attribute that is
//! missing; format errors report text that does not match an expected
//! pattern.  Either kind aborts the current document's extraction; input
//! reading failures are the caller's concern and never arise in the core.

use vstd::prelude::*;

verus! {

/// Mathematical model of an extraction error, carrying the offending text.
pub enum ErrorModel {
    /// The date metadata element is absent from the document.
    MissingDateMeta,
    /// A text-bearing fragment has no usable positioning attribute; the
    /// field holds the attribute text, absent when the attribute is missing.
    MissingPosition(Option<Seq<char>>),
    /// A price string matches neither recognized price shape.
    BadPrice(Seq<char>),
    /// A price is quoted per kilogram but the item name does not carry a
    /// weight factor.
    PerKgNameMismatch(Seq<char>),
    /// The underlying input could not be read; raised only at the caller
    /// boundary, never by the extraction core, and carrying the reader's
    /// message.
    Io(Seq<char>),
}

/// An extraction error: which pattern or invariant failed, and on what text.
#[derive(Debug)]
pub enum ExtractError {
    /// The date metadata element is absent from the document.
    MissingDateMeta,
    /// A text-bearing fragment has no usable positioning attribute.
    MissingPosition(Option<Vec<char>>),
    /// A price string matches neither recognized price shape.
    BadPrice(Vec<char>),
    /// A price is quoted per kilogram but the item name does not carry a
    /// weight factor.
    PerKgNameMismatch(Vec<char>),
    /// The underlying input could not be read; raised only at the caller
    /// boundary, never by the extraction core.
    Io(Vec<char>),
}

impl View for ExtractError {
    type V = ErrorModel;

    open spec fn view(&self) -> ErrorModel {
        match self {
            ExtractError::MissingDateMeta => ErrorModel::MissingDateMeta,
            ExtractError::MissingPosition(s) => ErrorModel::MissingPosition(
                match s {
                    Some(v) => Some(v@),
                    None => None,
                },
            ),
            ExtractError::BadPrice(s) => ErrorModel::BadPrice(s@),
            ExtractError::PerKgNameMismatch(s) => ErrorModel::PerKgNameMismatch(s@),
            ExtractError::Io(s) => ErrorModel::Io(s@),
        }
    }
}

/// The error reports a missing document element or attribute.
pub open spec fn spec_is_structural(e: ErrorModel) -> bool {
    match e {
        ErrorModel::MissingDateMeta => true,
        ErrorModel::MissingPosition(_) => true,
        _ => false,
    }
}

/// The error reports text that fails an expected pattern.
pub open spec fn spec_is_format(e: ErrorModel) -> bool {
    match e {
        ErrorModel::BadPrice(_) => true,
        ErrorModel::PerKgNameMismatch(_) => true,
        _ => false,
    }
}

/// The error reports input that could not be read.
pub open spec fn spec_is_io(e: ErrorModel) -> bool {
    e is Io
}

impl ExtractError {
    /// The error reports a missing document element or attribute.
    pub fn is_structural(&self) -> (r: bool)
        ensures
            r == spec_is_structural(self@),
    {
        match self {
            ExtractError::MissingDateMeta => true,
            ExtractError::MissingPosition(_) => true,
            _ => false,
        }
    }

    /// The error reports text that fails an expected pattern.
    pub fn is_format(&self) -> (r: bool)
        ensures
            r == spec_is_format(self@),
    {
        match self {
            ExtractError::BadPrice(_) => true,
            ExtractError::PerKgNameMismatch(_) => true,
            _ => false,
        }
    }

    /// The error reports input that could not be read.
    pub fn is_io(&self) -> (r: bool)
        ensures
            r == spec_is_io(self@),
    {
        match self {
            ExtractError::Io(_) => true,
            _ => false,
        }
    }
}

} // verus!
