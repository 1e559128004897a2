use vstd::prelude::*;

verus! {

/// Failures that abort decoding; no rows are produced alongside one.
#[derive(Debug, Clone, Copy, PartialEq, Eq, Structural)]
pub enum DecodeError {
    /// Ten bytes in a row carried the continuation bit.
    MalformedVarInt,
    /// The input ended in the middle of a value.
    TruncatedStream,
    /// The column buffers disagree with each other or with the declared columns.
    ColumnLengthMismatch,
    /// A column list has no line for its column count.
    MissingColumnCount,
    /// A line of a column list is not a name and a type separated by a space.
    InvalidColumnLine,
    /// A row count file does not hold a 64-bit unsigned number.
    InvalidRowCount,
}

/// A decoding result whose position is widened to a mathematical integer.
pub open spec fn at_int<T>(r: Result<(T, usize), DecodeError>) -> Result<(T, int), DecodeError> {
    match r {
        Ok((v, p)) => Ok((v, p as int)),
        Err(e) => Err(e),
    }
}

} // verus!
