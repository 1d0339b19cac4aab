//! The failures that reading and writing keys can report.

use vstd::prelude::*;

verus! {

/// A slice ended before the bytes that were to be read from its front.
#[derive(Debug, Clone, Copy, PartialEq, Eq)]
pub struct SliceTooShortError;

/// Why a composite key could not be encoded or decoded.
///
/// `E` is the error type of the value codec; its errors are passed on
/// untouched, tagged with the direction in which the value segment failed.
#[derive(Debug, PartialEq, Eq)]
pub enum KeyError<E> {
    /// The input is shorter than the fixed prefix of a key.
    TruncatedInput,
    /// The value codec could not encode the value.
    ValueEncoding(E),
    /// The value codec could not decode the bytes after the prefix.
    ValueDecoding(E),
}

} // verus!
