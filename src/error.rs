//! What can go wrong in a conversion.
use vstd::prelude::*;

verus! {

/// A data line whose token count differs from the header's column count.
#[derive(Clone, Copy, Debug, PartialEq, Eq, Structural)]
pub enum Anomaly {
    /// The token at `index` has no column in the header.
    Overflow { index: usize },
    /// The line has `found` tokens where the header has `expected` columns.
    Underflow { found: usize, expected: usize },
}

#[derive(Debug)]
pub enum CsvError {
    /// The format name is none of the known ones.
    UnknownFormat(String),
    /// An anomaly met in strict mode.
    Anomaly(Anomaly),
    /// The serializer refused the result.
    SerializationFailure,
}

} // verus!
