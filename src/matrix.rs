//! The kernel's weight matrix: an `ndarray` two-dimensional array of `i64`,
//! seen by the proofs through the names below.
use vstd::prelude::*;
use ndarray::{Array2, ShapeError};

verus! {

/// The error of `ndarray`'s shape-checked constructors.
#[verifier::external_type_specification]
#[verifier::external_body]
pub struct ExShapeError(ShapeError);

/// A two-dimensional array of weights. The `ndarray` array is kept in a
/// private field: Verus refuses a declaration of `ndarray::ArrayBase`, whose
/// parameters are bound by `ndarray`'s own traits.
#[verifier::external_body]
pub struct WeightMatrix {
    cells: Array2<i64>,
}

/// The elements of a weight matrix in row-major order.
pub uninterp spec fn matrix_cells(m: WeightMatrix) -> Seq<i64>;

/// The number of rows and of columns of a weight matrix.
pub uninterp spec fn matrix_dims(m: WeightMatrix) -> (nat, nat);

impl WeightMatrix {
    /// Relies on `ndarray::Array2::from_shape_vec`: a vector whose length is
    /// the product of a shape with no empty axis becomes the array of that
    /// shape, with the vector's elements in row-major order. (The product is
    /// then a vector's length, so it fits the `isize` bound the constructor
    /// checks.)
    #[verifier::external_body]
    fn from_shape_vec(rows: usize, cols: usize, cells: Vec<i64>) -> (r: Result<WeightMatrix, ShapeError>)
        ensures
            1 <= rows && 1 <= cols && rows * cols == cells@.len() ==> r is Ok,
            r is Ok ==> matrix_cells(r->Ok_0) == cells@,
            r is Ok ==> matrix_dims(r->Ok_0).0 == rows && matrix_dims(r->Ok_0).1 == cols,
    {
        match Array2::from_shape_vec((rows, cols), cells) {
            Ok(cells) => Ok(WeightMatrix { cells }),
            Err(e) => Err(e),
        }
    }

    /// The `rows` by `cols` matrix with the elements of `cells` in row-major
    /// order.
    pub fn new(rows: usize, cols: usize, cells: Vec<i64>) -> (r: WeightMatrix)
        requires
            1 <= rows,
            1 <= cols,
            rows * cols == cells@.len(),
        ensures
            matrix_cells(r) == cells@,
            matrix_dims(r).0 == rows && matrix_dims(r).1 == cols,
    {
        match WeightMatrix::from_shape_vec(rows, cols, cells) {
            Ok(m) => m,
            Err(_) => unreached(),
        }
    }

    /// Relies on indexing `ndarray::Array2` by `[row, column]`: inside the
    /// shape it reads element `row * cols + column` of the row-major order.
    #[verifier::external_body]
    pub(crate) fn get(&self, i: usize, j: usize) -> (r: i64)
        requires
            i < matrix_dims(*self).0,
            j < matrix_dims(*self).1,
        ensures
            r == matrix_cells(*self)[i * matrix_dims(*self).1 + j],
    {
        self.cells[[i, j]]
    }
}

} // verus!
