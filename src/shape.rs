use vstd::prelude::*;

verus! {

/// Why a pair of point matrices cannot be compared.
#[derive(Debug, Clone, Copy, PartialEq, Eq, Structural)]
pub enum AlignError {
    /// The two matrices differ in row count, or one of them is not three columns wide.
    ShapeMismatch,
    /// The matrices hold no rows, so no mean can be taken.
    EmptyInput,
    /// The singular value decomposition of the covariance matrix failed.
    DecompositionFailure,
}

/// Number of coordinates per point.
pub const DIM: usize = 3;

/// The outcome `check_shapes` owes for matrices of the given dimensions.
pub open spec fn shape_outcome(rows_a: nat, cols_a: nat, rows_b: nat, cols_b: nat) -> Result<usize, AlignError> {
    if rows_a != rows_b || cols_a != DIM || cols_b != DIM {
        Err(AlignError::ShapeMismatch)
    } else if rows_a == 0 {
        Err(AlignError::EmptyInput)
    } else {
        Ok(rows_a as usize)
    }
}

/// Checks that two point matrices can be compared row for row, before any
/// arithmetic; on success returns their common number of points.
pub fn check_shapes(rows_a: usize, cols_a: usize, rows_b: usize, cols_b: usize) -> (r: Result<usize, AlignError>)
    ensures
        r == shape_outcome(rows_a as nat, cols_a as nat, rows_b as nat, cols_b as nat),
        r is Ok ==> r->Ok_0 == rows_a && r->Ok_0 == rows_b && r->Ok_0 >= 1,
{
    if rows_a != rows_b || cols_a != DIM || cols_b != DIM {
        Err(AlignError::ShapeMismatch)
    } else if rows_a == 0 {
        Err(AlignError::EmptyInput)
    } else {
        Ok(rows_a)
    }
}

} // verus!
