//! Error reporting: a closed set of error kinds paired with the 1-indexed
//! line/column of the token at which the mismatch was detected. Errors are
//! returned, never used for control flow; the first failure ends the call.

use vstd::prelude::*;

verus! {

/// A 1-indexed (line, column) pair. Columns count characters, not bytes.
#[derive(Clone, Debug, PartialEq, Eq, Structural, Copy)]
pub struct Position {
    pub line: usize,
    pub col: usize,
}

/// The closed set of reader error kinds.
///
/// Every kind produced while scanning text carries, through [`Error`], the
/// position of the offending token. `Mismatch` is the generic kind used when
/// a dynamic value is re-bound into a typed shape, where no position exists;
/// it carries a description of what was found.
#[derive(Clone, Debug, PartialEq, Eq)]
pub enum ErrorCode {
    Eof,
    ExpectedArray,
    ExpectedArrayEnd,
    ExpectedBoolean,
    ExpectedChar,
    ExpectedFloat,
    ExpectedInteger,
    ExpectedIdentifier,
    ExpectedMap,
    ExpectedMapEnd,
    ExpectedString,
    ExpectedStringEnd,
    ExpectedUnit,
    ExpectedNamedStruct(String),
    ExpectedStructName { expected: String, found: String },
    TrailingCharacters,
    Mismatch(String),
}

/// An error kind together with the position where it was detected.
#[derive(Clone, Debug, PartialEq, Eq)]
pub struct Error {
    pub code: ErrorCode,
    pub position: Position,
}

/// Builds the error result that the reader returns for `kind` detected at
/// 1-indexed `line` and `col`.
pub fn err<T>(kind: ErrorCode, line: usize, col: usize) -> (r: Result<T, Error>)
    ensures
        r == Result::<T, Error>::Err(Error {
            code: kind,
            position: Position { line, col },
        }),
{
    Err(Error { code: kind, position: Position { line, col } })
}

} // verus!
