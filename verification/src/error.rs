//! Line-scoped tokenization failures.

use vstd::prelude::*;

verus! {

/// Why a line could not be tokenized.
#[derive(Debug, PartialEq, Eq, Structural, Clone, Copy)]
pub enum ErrorKind {
    /// The leading prefix of the line is not a digit run terminated by a
    /// single space (or by the end of the line).
    MissingOrInvalidLineNumber,
    /// The leading digit run does not fit in an unsigned 16-bit integer.
    MalformedLineNumber,
    /// A numeric buffer in the line body exceeds the signed 32-bit range.
    IntegerOverflow,
}

/// A tokenization failure, together with the index of the input line on
/// which it arose.
#[derive(Debug, PartialEq, Eq, Structural, Clone, Copy)]
pub struct LexError {
    /// Zero-based index of the failing line in the input.
    pub line: usize,
    /// Why that line could not be tokenized.
    pub kind: ErrorKind,
}

} // verus!
