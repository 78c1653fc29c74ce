//! What the iterators and the transposed wrapper ask of a matrix.

use vstd::prelude::*;
use crate::grid::Grid;
use crate::vector::{Col, Row};

verus! {

/// A matrix that knows its shape.
pub trait MatrixShape {
    /// The value describes elements that exist: its layout lies inside its
    /// buffer.
    spec fn wf(&self) -> bool;

    /// Number of rows.
    spec fn spec_nrows(&self) -> usize;

    /// Number of columns.
    spec fn spec_ncols(&self) -> usize;

    /// Whether the value is valid: a check at run time for values that were
    /// put together by hand.
    fn is_wf(&self) -> (r: bool)
        ensures
            r == self.wf(),
    ;

    /// Number of rows.
    fn nrows(&self) -> (n: usize)
        ensures
            n == self.spec_nrows(),
    ;

    /// Number of columns.
    fn ncols(&self) -> (n: usize)
        ensures
            n == self.spec_ncols(),
    ;

    /// Shape as `(rows, columns)`.
    fn size(&self) -> (r: (usize, usize))
        ensures
            r == (self.spec_nrows(), self.spec_ncols()),
    {
        (self.nrows(), self.ncols())
    }
}

/// A matrix whose elements can be read.
pub trait MatrixRead<T>: Sized + MatrixShape + View<V = Grid<T>> {
    /// The elements that the matrix shows have the shape of the matrix.
    proof fn lemma_shape(&self)
        requires
            self.wf(),
        ensures
            self@.wf(),
            self@.nrows == self.spec_nrows(),
            self@.ncols == self.spec_ncols(),
    ;

    /// Element `(row, col)`, which the caller knows to exist.
    fn get(&self, row: usize, col: usize) -> (r: &T)
        requires
            self.wf(),
            row < self.spec_nrows(),
            col < self.spec_ncols(),
        ensures
            *r == self@.at(row as int, col as int),
    ;
}

/// A matrix that hands out its rows.
pub trait MatrixRow: MatrixShape {
    /// Storage of a row.
    type RowVector;

    /// Row `i`, as the matrix hands it out.
    spec fn spec_row(&self, i: int) -> Row<Self::RowVector>;

    /// Row `i`, which the caller knows to exist.
    fn row_unchecked(&self, i: usize) -> (r: Row<Self::RowVector>)
        requires
            self.wf(),
            i < self.spec_nrows(),
        ensures
            r == self.spec_row(i as int),
    ;
}

/// A matrix that hands out its columns.
pub trait MatrixCol: MatrixShape {
    /// Storage of a column.
    type ColVector;

    /// Column `j`, as the matrix hands it out.
    spec fn spec_col(&self, j: int) -> Col<Self::ColVector>;

    /// Column `j`, which the caller knows to exist.
    fn col_unchecked(&self, j: usize) -> (r: Col<Self::ColVector>)
        requires
            self.wf(),
            j < self.spec_ncols(),
        ensures
            r == self.spec_col(j as int),
    ;
}

impl<'a, M: MatrixShape> MatrixShape for &'a M {
    open spec fn wf(&self) -> bool {
        (**self).wf()
    }

    open spec fn spec_nrows(&self) -> usize {
        (**self).spec_nrows()
    }

    open spec fn spec_ncols(&self) -> usize {
        (**self).spec_ncols()
    }

    fn is_wf(&self) -> (r: bool) {
        (**self).is_wf()
    }

    fn nrows(&self) -> (n: usize) {
        (**self).nrows()
    }

    fn ncols(&self) -> (n: usize) {
        (**self).ncols()
    }
}

impl<'a, T, M: MatrixRead<T>> MatrixRead<T> for &'a M {
    proof fn lemma_shape(&self) {
        (**self).lemma_shape();
    }

    fn get(&self, row: usize, col: usize) -> (r: &T) {
        (**self).get(row, col)
    }
}

} // verus!
