//! The ways in which a clustering request can be refused.

use vstd::prelude::*;

verus! {

/// Why a dataset or a run was refused.
#[derive(Clone, Copy, Debug, PartialEq, Eq, Structural)]
pub enum KMeansError {
    /// The dataset has fewer observations than clusters were asked for.
    InsufficientData,
    /// Observations do not all have the same number of coordinates.
    DimensionMismatch,
    /// A parameter is zero where a positive value is needed, or a size is
    /// beyond what the machine can address.
    InvalidParameter,
}

} // verus!
