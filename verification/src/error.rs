//! What can go wrong while building a sorter, comparing, checking or sorting.

use vstd::prelude::*;

verus! {

/// Why lines failed a check.
#[derive(Clone, Debug, PartialEq, Eq)]
pub enum CheckError {
    /// The text has empty lines that no comment follows.
    HasUnexpectedEmptyLines,
    /// `first` stands directly before `second`, against the order.
    NotSorted { first: String, second: String },
    /// The lines numbered `line1` and `line2` both hold `line`.
    NotUnique { line1: usize, line2: usize, line: String },
}

/// Why a sorter could not be built, or a comparison, check or sort failed.
#[derive(Clone, Debug, PartialEq, Eq)]
pub enum Error {
    /// The text is no well-formed locale tag.
    InvalidLocale(String),
    /// No collation is to be had for the locale of this tag.
    CollatorUnavailable(String),
    /// The line is no IPv4 or IPv6 address.
    InvalidAddress(String),
    /// The line is no IPv4 or IPv6 network in CIDR notation.
    InvalidNetwork(String),
    /// No line ending stands among the first bytes of the text, of which
    /// this many were searched.
    NoLineEnding(usize),
    /// The lines are not in order, or not unique.
    Check(CheckError),
}

/// A [`CheckError`], with its texts as sequences of characters.
pub enum CheckErrorView {
    HasUnexpectedEmptyLines,
    NotSorted { first: Seq<char>, second: Seq<char> },
    NotUnique { line1: usize, line2: usize, line: Seq<char> },
}

impl View for CheckError {
    type V = CheckErrorView;

    open spec fn view(&self) -> CheckErrorView {
        match self {
            CheckError::HasUnexpectedEmptyLines => CheckErrorView::HasUnexpectedEmptyLines,
            CheckError::NotSorted { first, second } => CheckErrorView::NotSorted {
                first: first@,
                second: second@,
            },
            CheckError::NotUnique { line1, line2, line } => CheckErrorView::NotUnique {
                line1: *line1,
                line2: *line2,
                line: line@,
            },
        }
    }
}

/// An [`Error`], with its texts as sequences of characters.
pub enum ErrorView {
    InvalidLocale(Seq<char>),
    CollatorUnavailable(Seq<char>),
    InvalidAddress(Seq<char>),
    InvalidNetwork(Seq<char>),
    NoLineEnding(usize),
    Check(CheckErrorView),
}

impl View for Error {
    type V = ErrorView;

    open spec fn view(&self) -> ErrorView {
        match self {
            Error::InvalidLocale(t) => ErrorView::InvalidLocale(t@),
            Error::CollatorUnavailable(t) => ErrorView::CollatorUnavailable(t@),
            Error::InvalidAddress(t) => ErrorView::InvalidAddress(t@),
            Error::InvalidNetwork(t) => ErrorView::InvalidNetwork(t@),
            Error::NoLineEnding(n) => ErrorView::NoLineEnding(*n),
            Error::Check(e) => ErrorView::Check(e@),
        }
    }
}

} // verus!
