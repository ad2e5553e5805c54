//! The ways an operation on matrices can be refused.
use vstd::prelude::*;

verus! {

/// Why an operation was refused. Nothing is changed when one is returned.
#[derive(Debug, Clone, Copy, PartialEq, Eq)]
pub enum MatrixError {
    /// Rows of unequal length, or operands whose shapes do not fit together.
    ShapeError,
    /// A square matrix was needed.
    NotSquare,
    /// The right-hand side has another length than the matrix has rows.
    DimensionMismatch,
    /// A row or column index lies outside the matrix.
    IndexOutOfRange,
    /// A literal could not be read.
    ParseError,
}

} // verus!
