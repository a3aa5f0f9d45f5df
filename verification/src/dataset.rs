//! The dataset: an ordered, rectangular collection of observations.

use vstd::prelude::*;
use vstd::arithmetic::div_mod::lemma_fundamental_div_mod;
use crate::error::KMeansError;
use crate::matrix::{
    matrix_from_shape_vec, matrix_ncols, matrix_nrows, matrix_row, matrix_rows, matrix_width,
    nonzero_extent, Matrix,
};

verus! {

/// Every row of `rows` has exactly `dim` coordinates.
pub open spec fn rectangular(rows: Seq<Seq<i64>>, dim: nat) -> bool {
    forall|i: int| 0 <= i < rows.len() ==> (#[trigger] rows[i]).len() == dim
}

/// A sequence of vectors as a sequence of their contents.
pub open spec fn vectors(rows: Seq<Vec<i64>>) -> Seq<Seq<i64>> {
    Seq::new(rows.len(), |i: int| rows[i]@)
}

/// The row-major reading of `flat` as observations of `dim` coordinates each.
pub open spec fn rows_of(flat: Seq<i64>, dim: nat) -> Seq<Seq<i64>>
    recommends
        dim > 0,
{
    Seq::new(flat.len() / dim, |i: int| flat.subrange(i * dim, i * dim + dim))
}

/// The error, if any, with which `Dataset::from_flat` refuses `len` values
/// read as observations of `dim` coordinates.
pub open spec fn flat_shape_error(dim: usize, len: nat) -> Option<KMeansError> {
    if dim == 0 || dim > isize::MAX || len > isize::MAX {
        Some(KMeansError::InvalidParameter)
    } else if len % (dim as nat) != 0 {
        Some(KMeansError::DimensionMismatch)
    } else {
        None
    }
}

/// The error, if any, with which `Dataset::from_rows` refuses `rows` as
/// observations of `dim` coordinates.
pub open spec fn rows_shape_error(dim: usize, rows: Seq<Seq<i64>>) -> Option<KMeansError> {
    if dim == 0 || dim > isize::MAX {
        Some(KMeansError::InvalidParameter)
    } else if !rectangular(rows, dim as nat) {
        Some(KMeansError::DimensionMismatch)
    } else if rows.len() * dim > isize::MAX {
        Some(KMeansError::InvalidParameter)
    } else {
        None
    }
}

/// An ordered sequence of observations that all have the same, non-zero
/// number of coordinates. It is read-only once built.
#[derive(Debug)]
pub struct Dataset {
    cells: Matrix,
}

impl Dataset {
    /// The observations, in order.
    pub closed spec fn view(&self) -> Seq<Seq<i64>> {
        matrix_rows(self.cells)
    }

    /// The number of coordinates of each observation.
    pub closed spec fn width(&self) -> nat {
        matrix_width(self.cells)
    }

    /// The invariant of a dataset: at least one coordinate, and the same
    /// number of them in every observation.
    #[verifier::type_invariant]
    pub open spec fn wf(&self) -> bool {
        &&& self.width() >= 1
        &&& rectangular(self@, self.width())
    }

    /// Builds a dataset from `values` read row by row, `dim` coordinates to
    /// an observation.
    pub fn from_flat(dim: usize, values: Vec<i64>) -> (r: Result<Dataset, KMeansError>)
        ensures
            match flat_shape_error(dim, values@.len()) {
                Some(e) => r == Err::<Dataset, KMeansError>(e),
                None => r is Ok && r->Ok_0.wf() && r->Ok_0.width() == dim && r->Ok_0@ =~= rows_of(
                    values@,
                    dim as nat,
                ),
            },
    {
        let len = values.len();
        if dim == 0 || dim > isize::MAX as usize || len > isize::MAX as usize {
            return Err(KMeansError::InvalidParameter);
        }
        if len % dim != 0 {
            return Err(KMeansError::DimensionMismatch);
        }
        let n = len / dim;
        let ghost flat = values@;
        proof {
            lemma_fundamental_div_mod(len as int, dim as int);
            assert(n * dim == len) by (nonlinear_arith)
                requires
                    len == dim * n + 0,
            ;
            assert(nonzero_extent(n, dim) <= isize::MAX);
        }
        match matrix_from_shape_vec(n, dim, values) {
            Ok(cells) => {
                let data = Dataset { cells };
                proof {
                    assert forall|i: int| 0 <= i < n implies #[trigger] data@[i] =~= rows_of(
                        flat,
                        dim as nat,
                    )[i] by {
                        assert(i * dim + dim <= n * dim) by (nonlinear_arith)
                            requires
                                0 <= i < n,
                                dim > 0,
                        ;
                        assert(0 <= i * dim) by (nonlinear_arith)
                            requires
                                0 <= i,
                                dim > 0,
                        ;
                        assert forall|j: int| 0 <= j < dim implies data@[i][j] == flat.subrange(
                            i * dim,
                            i * dim + dim,
                        )[j] by {}
                    }
                }
                Ok(data)
            },
            Err(_) => Err(KMeansError::InvalidParameter),
        }
    }

    /// Builds a dataset from observations that each have `dim` coordinates.
    pub fn from_rows(dim: usize, rows: &Vec<Vec<i64>>) -> (r: Result<Dataset, KMeansError>)
        ensures
            match rows_shape_error(dim, vectors(rows@)) {
                Some(e) => r == Err::<Dataset, KMeansError>(e),
                None => r is Ok && r->Ok_0.wf() && r->Ok_0.width() == dim && r->Ok_0@ =~= vectors(
                    rows@,
                ),
            },
    {
        if dim == 0 || dim > isize::MAX as usize {
            return Err(KMeansError::InvalidParameter);
        }
        let n = rows.len();
        let mut flat: Vec<i64> = Vec::new();
        let mut i: usize = 0;
        while i < n
            invariant
                1 <= dim <= isize::MAX,
                n == rows@.len(),
                i <= n,
                flat@.len() == i * dim,
                rectangular(vectors(rows@).take(i as int), dim as nat),
                forall|r: int, j: int|
                    0 <= r < i && 0 <= j < dim ==> flat@[r * dim + j] == #[trigger] rows@[r]@[j],
            decreases n - i,
        {
            let row = &rows[i];
            if row.len() != dim {
                assert(vectors(rows@)[i as int].len() != dim);
                return Err(KMeansError::DimensionMismatch);
            }
            let mut j: usize = 0;
            while j < dim
                invariant
                    dim >= 1,
                    i < n,
                    n == rows@.len(),
                    row@ == rows@[i as int]@,
                    row@.len() == dim,
                    j <= dim,
                    flat@.len() == i * dim + j,
                    forall|r: int, c: int|
                        0 <= r < i && 0 <= c < dim ==> flat@[r * dim + c] == #[trigger] rows@[r]@[c],
                    forall|c: int| 0 <= c < j ==> flat@[i * dim + c] == #[trigger] row@[c],
                decreases dim - j,
            {
                let ghost before = flat@;
                flat.push(row[j]);
                proof {
                    assert forall|r: int, c: int| 0 <= r < i && 0 <= c < dim implies flat@[r * dim
                        + c] == #[trigger] rows@[r]@[c] by {
                        assert(0 <= r * dim && r * dim + dim <= i * dim) by (nonlinear_arith)
                            requires
                                0 <= r < i,
                                dim >= 1,
                        ;
                        assert(before[r * dim + c] == rows@[r]@[c]);
                    }
                }
                j = j + 1;
            }
            proof {
                assert((i + 1) * dim == i * dim + dim) by (nonlinear_arith);
                assert(vectors(rows@).take(i + 1)[i as int].len() == dim);
                assert forall|r: int| 0 <= r < i + 1 implies (#[trigger] vectors(rows@).take(
                    i + 1,
                )[r]).len() == dim by {
                    if r < i {
                        assert(vectors(rows@).take(i as int)[r].len() == dim);
                    }
                }
            }
            i = i + 1;
        }
        proof {
            assert(vectors(rows@).take(n as int) =~= vectors(rows@));
            assert(flat@.len() % (dim as nat) == 0 && flat@.len() / (dim as nat) == n) by {
                vstd::arithmetic::div_mod::lemma_fundamental_div_mod_converse(
                    flat@.len() as int,
                    dim as int,
                    n as int,
                    0,
                );
            }
            assert forall|r: int| 0 <= r < n implies #[trigger] rows_of(flat@, dim as nat)[r]
                =~= vectors(rows@)[r] by {
                assert(r * dim + dim <= n * dim) by (nonlinear_arith)
                    requires
                        0 <= r < n,
                        dim >= 1,
                ;
                assert(0 <= r * dim) by (nonlinear_arith)
                    requires
                        0 <= r,
                        dim >= 1,
                ;
                assert forall|j: int| 0 <= j < dim implies rows_of(flat@, dim as nat)[r][j]
                    == vectors(rows@)[r][j] by {
                    assert(flat@[r * dim + j] == rows@[r]@[j]);
                }
            }
            assert(rows_of(flat@, dim as nat) =~= vectors(rows@));
        }
        Dataset::from_flat(dim, flat)
    }

    /// The number of observations.
    pub fn len(&self) -> (n: usize)
        ensures
            n == self@.len(),
    {
        matrix_nrows(&self.cells)
    }

    /// The number of coordinates of each observation.
    pub fn dim(&self) -> (d: usize)
        ensures
            d == self.width(),
            d >= 1,
            rectangular(self@, d as nat),
    {
        proof {
            use_type_invariant(self);
        }
        matrix_ncols(&self.cells)
    }

    /// A copy of the observation at `index`.
    pub fn row(&self, index: usize) -> (point: Vec<i64>)
        requires
            index < self@.len(),
        ensures
            point@ == self@[index as int],
            point@.len() == self.width(),
    {
        proof {
            use_type_invariant(self);
        }
        matrix_row(&self.cells, index)
    }
}

} // verus!
