//! Why a part stream ended early.

use vstd::prelude::*;

verus! {

/// An error when reading from the underlying stream or parsing it. After one is
/// reported the parser produces nothing more.
#[derive(Debug, Clone, PartialEq, Eq)]
pub enum Error {
    /// The bytes where a boundary line belongs differ from it.
    BadBoundary,
    /// The header block is not valid header syntax (or holds more headers than
    /// the parser makes room for).
    InvalidHeaders,
    /// A header name is not a valid HTTP header name.
    BadHeaderName,
    /// A header value holds a control byte.
    BadHeaderValue,
    /// The `Content-Length` value holds bytes that are not visible ASCII.
    ContentLengthNotString,
    /// The `Content-Length` value is not a decimal number that fits in `usize`.
    ContentLengthNotUsize,
    /// A body, declared or buffered, is longer than the configured maximum.
    BodyTooLong { len: usize, max: usize },
    /// A header block is still incomplete at the configured maximum size.
    HeaderTooLong { len: usize, max: usize },
    /// The input ended in the middle of a part.
    UnexpectedEof,
    /// Reading the underlying stream failed; the message of that failure.
    Underlying(String),
}

impl Error {
    /// Whether the error came from the underlying stream rather than from parsing.
    pub fn is_underlying(&self) -> (r: bool)
        ensures
            r == (*self is Underlying),
    {
        match self {
            Error::Underlying(_) => true,
            _ => false,
        }
    }
}

} // verus!
