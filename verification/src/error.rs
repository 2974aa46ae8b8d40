//! What can go wrong while a key file is read.

use vstd::prelude::*;

verus! {

/// The failure that `std::io` reports when a line cannot be read. It is
/// carried from the reader to the caller unopened.
#[verifier::external_type_specification]
#[verifier::external_body]
pub struct ExIoError(std::io::Error);

/// Why a line that should hold a binding does not.
#[derive(Debug)]
pub enum LineError {
    /// The line ends before a field that it needs.
    TooFewTokens,
    /// The token stands where a number is required and is none, or does not fit in 16 bits.
    BadNumber(String),
}

/// A `LineError` as a mathematical value.
pub enum LineErrorView {
    TooFewTokens,
    BadNumber(Seq<char>),
}

impl View for LineError {
    type V = LineErrorView;

    open spec fn view(&self) -> LineErrorView {
        match self {
            LineError::TooFewTokens => LineErrorView::TooFewTokens,
            LineError::BadNumber(token) => LineErrorView::BadNumber(token@),
        }
    }
}

/// Why a key file could not be parsed.
#[derive(Debug)]
pub enum KeyFileError {
    /// The stream held no line at all.
    Empty,
    /// The stream failed to yield a line.
    ReadError(std::io::Error),
    /// A line is malformed. Lines are counted from 1.
    ParseError { line: usize, cause: LineError },
}

/// A `KeyFileError` as a mathematical value.
pub enum KeyFileErrorView {
    Empty,
    ReadError(std::io::Error),
    ParseError { line: nat, cause: LineErrorView },
}

impl View for KeyFileError {
    type V = KeyFileErrorView;

    open spec fn view(&self) -> KeyFileErrorView {
        match self {
            KeyFileError::Empty => KeyFileErrorView::Empty,
            KeyFileError::ReadError(e) => KeyFileErrorView::ReadError(*e),
            KeyFileError::ParseError { line, cause } => KeyFileErrorView::ParseError {
                line: *line as nat,
                cause: cause@,
            },
        }
    }
}

} // verus!
