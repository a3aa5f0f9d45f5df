//! The storage of a dataset: a two-dimensional `ndarray` array of `i64`
//! cells, reached through a handful of operations whose contracts are taken
//! on trust from the `ndarray` sources.

use vstd::prelude::*;

verus! {

/// `ndarray::ShapeError`, the error of `ndarray`'s checked constructors.
#[verifier::external_type_specification]
#[verifier::external_body]
pub struct ExShapeError(ndarray::ShapeError);

/// An owned two-dimensional array of `ndarray`, in its default (row-major)
/// layout. Verification sees nothing inside it: what it holds is spoken of
/// through `matrix_rows` and `matrix_width`.
#[verifier::external_body]
#[derive(Debug)]
pub struct Matrix {
    cells: ndarray::Array2<i64>,
}

/// The rows that a matrix holds, first row first.
pub uninterp spec fn matrix_rows(m: Matrix) -> Seq<Seq<i64>>;

/// The length of the second axis of a matrix, which is the length of each of
/// its rows.
pub uninterp spec fn matrix_width(m: Matrix) -> nat;

/// The product of the axis lengths that are not zero: the quantity that
/// `ndarray` holds to `isize::MAX` when it admits a shape.
pub open spec fn nonzero_extent(nrows: usize, ncols: usize) -> int {
    (if nrows == 0 { 1int } else { nrows as int })
        * (if ncols == 0 { 1int } else { ncols as int })
}

/// `ndarray::Array2::from_shape_vec` with the shape `(nrows, ncols)`.
///
/// Trusted: the call succeeds exactly when the shape holds as many cells as
/// `flat` has elements and the product of its non-zero axis lengths does not
/// exceed `isize::MAX`; the array then reads `flat` row by row.
#[verifier::external_body]
pub(crate) fn matrix_from_shape_vec(nrows: usize, ncols: usize, flat: Vec<i64>) -> (r: Result<
    Matrix,
    ndarray::ShapeError,
>)
    ensures
        r is Ok <==> (nrows * ncols == flat@.len() && nonzero_extent(nrows, ncols) <= isize::MAX),
        r is Ok ==> matrix_width(r->Ok_0) == ncols,
        r is Ok ==> matrix_rows(r->Ok_0).len() == nrows,
        r is Ok ==> forall|i: int, j: int|
            0 <= i < nrows && 0 <= j < ncols ==> #[trigger] matrix_rows(r->Ok_0)[i][j]
                == flat@[i * ncols + j],
        r is Ok ==> forall|i: int|
            0 <= i < nrows ==> (#[trigger] matrix_rows(r->Ok_0)[i]).len() == ncols,
{
    match ndarray::Array2::from_shape_vec((nrows, ncols), flat) {
        Ok(cells) => Ok(Matrix { cells }),
        Err(e) => Err(e),
    }
}

/// `ndarray::ArrayBase::nrows`.
///
/// Trusted: the length of the first axis is the number of rows.
#[verifier::external_body]
pub(crate) fn matrix_nrows(m: &Matrix) -> (r: usize)
    ensures
        r == matrix_rows(*m).len(),
{
    m.cells.nrows()
}

/// `ndarray::ArrayBase::ncols`.
///
/// Trusted: the length of the second axis is the length of every row.
#[verifier::external_body]
pub(crate) fn matrix_ncols(m: &Matrix) -> (r: usize)
    ensures
        r == matrix_width(*m),
        forall|i: int| 0 <= i < matrix_rows(*m).len() ==> (#[trigger] matrix_rows(*m)[i]).len() == r,
{
    m.cells.ncols()
}

/// `ndarray::ArrayBase::row` followed by `ndarray::ArrayBase::to_vec`.
///
/// Trusted: the vector holds the cells of row `index` in order. `row` panics
/// on an index past the last row, which the precondition leaves out.
#[verifier::external_body]
pub(crate) fn matrix_row(m: &Matrix, index: usize) -> (r: Vec<i64>)
    requires
        index < matrix_rows(*m).len(),
    ensures
        r@ == matrix_rows(*m)[index as int],
{
    m.cells.row(index).to_vec()
}

} // verus!
