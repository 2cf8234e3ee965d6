//! The ways in which retrieving an object can fail.

use vstd::prelude::*;

verus! {

/// What is wrong with a malformed object header.
#[derive(Debug, Clone, Copy, PartialEq, Eq, Structural)]
pub enum HeaderFault {
    /// The stream ended before a NUL byte.
    MissingTerminator,
    /// The bytes before the NUL are not valid UTF-8.
    InvalidEncoding,
    /// The header holds no space between kind and size.
    MissingSeparator,
    /// The size token is not a decimal number that fits in `usize`.
    InvalidSize,
}

/// Why an object could not be retrieved. Every variant is final: none of
/// these conditions goes away when tried again.
#[derive(Debug, PartialEq, Eq)]
pub enum ObjectError {
    /// The object file does not exist or cannot be opened.
    ObjectNotFound,
    /// The compressed data is malformed.
    DecompressionError,
    /// The header is not `kind SP size NUL`.
    MalformedHeader(HeaderFault),
    /// The stream ended after `received` of the `expected` payload bytes.
    TruncatedPayload { expected: usize, received: usize },
    /// More bytes follow the `expected` payload bytes.
    TrailingData { expected: usize },
    /// The header is well formed but names a kind that has no handler.
    UnsupportedKind(String),
}

/// An `ObjectError` with the kind's text seen as characters.
pub enum ErrorView {
    ObjectNotFound,
    DecompressionError,
    MalformedHeader(HeaderFault),
    TruncatedPayload { expected: nat, received: nat },
    TrailingData { expected: nat },
    UnsupportedKind(Seq<char>),
}

impl View for ObjectError {
    type V = ErrorView;

    open spec fn view(&self) -> ErrorView {
        match self {
            ObjectError::ObjectNotFound => ErrorView::ObjectNotFound,
            ObjectError::DecompressionError => ErrorView::DecompressionError,
            ObjectError::MalformedHeader(f) => ErrorView::MalformedHeader(*f),
            ObjectError::TruncatedPayload { expected, received } => ErrorView::TruncatedPayload {
                expected: *expected as nat,
                received: *received as nat,
            },
            ObjectError::TrailingData { expected } => ErrorView::TrailingData {
                expected: *expected as nat,
            },
            ObjectError::UnsupportedKind(k) => ErrorView::UnsupportedKind(k@),
        }
    }
}

/// A retrieval result seen through the views of payload and error.
pub open spec fn outcome_view(r: Result<Vec<u8>, ObjectError>) -> Result<Seq<u8>, ErrorView> {
    match r {
        Ok(p) => Ok(p@),
        Err(e) => Err(e@),
    }
}

} // verus!
