//! The transposed wrapper: a matrix read with rows and columns exchanged.

use vstd::prelude::*;
use crate::grid::{diag_len, Grid};
use crate::layout::magnitude;
use crate::mat::{Cols, Rows};
use crate::traits::{MatrixCol, MatrixRead, MatrixRow, MatrixShape};
use crate::vector::{Col, Diag, Row, Slice};
use crate::error::Error;
use crate::mat::Mat;
use crate::mutview::MutView;
use crate::view::MatView;

verus! {

/// `Trans(m)` is `m` with rows and columns exchanged: its element `(r, c)`
/// is element `(c, r)` of `m`. It owns nothing beyond `m` and moves no
/// element.
pub struct Trans<M>(pub M);

impl<M: Copy> Clone for Trans<M> {
    fn clone(&self) -> (r: Self)
        ensures
            r == *self,
    {
        Trans(self.0)
    }
}

impl<M: Copy> Copy for Trans<M> {

}

impl<T, M: View<V = Grid<T>>> View for Trans<M> {
    type V = Grid<T>;

    open spec fn view(&self) -> Grid<T> {
        self.0@.transpose()
    }
}

impl<M: MatrixShape> MatrixShape for Trans<M> {
    open spec fn wf(&self) -> bool {
        self.0.wf()
    }

    open spec fn spec_nrows(&self) -> usize {
        self.0.spec_ncols()
    }

    open spec fn spec_ncols(&self) -> usize {
        self.0.spec_nrows()
    }

    fn is_wf(&self) -> (r: bool) {
        self.0.is_wf()
    }

    fn nrows(&self) -> (n: usize) {
        self.0.ncols()
    }

    fn ncols(&self) -> (n: usize) {
        self.0.nrows()
    }
}

impl<T, M: MatrixRead<T>> MatrixRead<T> for Trans<M> {
    proof fn lemma_shape(&self) {
        self.0.lemma_shape();
    }

    fn get(&self, row: usize, col: usize) -> (r: &T) {
        proof {
            self.0.lemma_shape();
        }
        self.0.get(col, row)
    }
}

impl<M: MatrixCol> MatrixRow for Trans<M> {
    type RowVector = M::ColVector;

    open spec fn spec_row(&self, i: int) -> Row<M::ColVector> {
        Row(self.0.spec_col(i).0)
    }

    fn row_unchecked(&self, i: usize) -> (r: Row<M::ColVector>) {
        Row(self.0.col_unchecked(i).0)
    }
}

impl<M: MatrixRow> MatrixCol for Trans<M> {
    type ColVector = M::RowVector;

    open spec fn spec_col(&self, j: int) -> Col<M::RowVector> {
        Col(self.0.spec_row(j).0)
    }

    fn col_unchecked(&self, j: usize) -> (r: Col<M::RowVector>) {
        Col(self.0.row_unchecked(j).0)
    }
}

/// Transposing twice changes nothing: a matrix wrapped twice shows the
/// elements of the matrix itself, in its shape, also where it has no rows or
/// no columns.
pub proof fn law_double_transpose<T, M: MatrixRead<T>>(m: M)
    requires
        m.wf(),
    ensures
        Trans(Trans(m)).wf(),
        Trans(Trans(m))@ == m@,
        Trans(Trans(m)).spec_nrows() == m.spec_nrows(),
        Trans(Trans(m)).spec_ncols() == m.spec_ncols(),
        forall|i: int, j: int|
            m@.in_range(i, j) ==> #[trigger] Trans(m)@.at(j, i) == m@.at(i, j),
{
    m.lemma_shape();
    m@.law_transpose_involution();
}

impl<M> Trans<M> {
    /// Transposing a transposed matrix gives the matrix itself back: the two
    /// wrappers cancel.
    pub fn t(self) -> (r: M)
        ensures
            r == self.0,
    {
        self.0
    }
}

impl<'a, T> Trans<MatView<'a, T>> {
    /// Diagonal `k` of the transposed view: diagonal `-k` of the view.
    pub open spec fn spec_diag(&self, k: int) -> Diag<Slice<'a, T>> {
        self.0.spec_diag(-k)
    }

    /// The rows, columns and diagonals that the transposed view hands out
    /// show the rows, columns and diagonals of its elements.
    pub proof fn lemma_vectors(&self, k: int)
        requires
            self.wf(),
        ensures
            self@.wf(),
            0 <= k < self.spec_nrows() ==> self.spec_row(k).0.wf() && self.spec_row(k).0@
                == self@.row(k),
            0 <= k < self.spec_ncols() ==> self.spec_col(k).0.wf() && self.spec_col(k).0@
                == self@.col(k),
            diag_len(self.spec_nrows() as int, self.spec_ncols() as int, k) > 0 ==> self.spec_diag(
                k,
            ).0.wf() && self.spec_diag(k).0@ == self@.diag(k),
    {
        self.0.lemma_vectors(k);
        self.0.lemma_vectors(-k);
        self.0@.law_transpose_row_col(k);
        self.0@.law_transpose_diag(k);
    }

    /// Element `(row, col)`, or `None` where there is no such element.
    pub fn at(&self, idx: (usize, usize)) -> (r: Option<&'a T>)
        requires
            self.wf(),
        ensures
            r == if self@.in_range(idx.0 as int, idx.1 as int) {
                Some(&self@.at(idx.0 as int, idx.1 as int))
            } else {
                None
            },
            self@.in_range(idx.0 as int, idx.1 as int) ==> self@.at(idx.0 as int, idx.1 as int)
                == self.0@.at(idx.1 as int, idx.0 as int),
    {
        self.0.at((idx.1, idx.0))
    }

    /// The transposed view of the sub-rectangle from `start` (inclusive) to
    /// `end` (exclusive) of this transposed view; `None` unless
    /// `start <= end <= size` in both coordinates.
    pub fn slice(&self, start: (usize, usize), end: (usize, usize)) -> (r: Option<
        Trans<MatView<'a, T>>,
    >)
        requires
            self.wf(),
        ensures
            r is Some <==> self@.contains_rect(
                start.0 as int,
                start.1 as int,
                end.0 as int,
                end.1 as int,
            ),
            r matches Some(v) ==> v.wf() && v@ == self@.sub(
                start.0 as int,
                start.1 as int,
                end.0 as int,
                end.1 as int,
            ) && v.0.data@ == self.0.data@ && v.0.layout == self.0.layout.sub(
                start.1 as int,
                start.0 as int,
                end.1 as int,
                end.0 as int,
            ),
    {
        proof {
            if self.0@.contains_rect(start.1 as int, start.0 as int, end.1 as int, end.0 as int) {
                self.0@.law_transpose_sub(
                    start.1 as int,
                    start.0 as int,
                    end.1 as int,
                    end.0 as int,
                );
            }
        }
        match self.0.slice((start.1, start.0), (end.1, end.0)) {
            Some(v) => Some(Trans(v)),
            None => None,
        }
    }

    /// Row `i`, or `None` where there is no such row.
    pub fn row(&self, i: usize) -> (r: Option<Row<Slice<'a, T>>>)
        requires
            self.wf(),
        ensures
            r == if i < self.spec_nrows() { Some(self.spec_row(i as int)) } else { None },
            r matches Some(v) ==> v.0.wf() && v.0@ == self@.row(i as int),
    {
        proof {
            self.lemma_vectors(i as int);
        }
        match self.0.col(i) {
            Some(c) => Some(Row(c.0)),
            None => None,
        }
    }

    /// Column `j`, or `None` where there is no such column.
    pub fn col(&self, j: usize) -> (r: Option<Col<Slice<'a, T>>>)
        requires
            self.wf(),
        ensures
            r == if j < self.spec_ncols() { Some(self.spec_col(j as int)) } else { None },
            r matches Some(v) ==> v.0.wf() && v.0@ == self@.col(j as int),
    {
        proof {
            self.lemma_vectors(j as int);
        }
        match self.0.row(j) {
            Some(c) => Some(Col(c.0)),
            None => None,
        }
    }

    /// Diagonal `k`, or `None` where there is no such diagonal.
    pub fn diag(&self, k: isize) -> (r: Option<Diag<Slice<'a, T>>>)
        requires
            self.wf(),
        ensures
            r == if diag_len(self.spec_nrows() as int, self.spec_ncols() as int, k as int) > 0 {
                Some(self.spec_diag(k as int))
            } else {
                None
            },
            r matches Some(v) ==> v.0.wf() && v.0@ == self@.diag(k as int),
    {
        proof {
            self.lemma_vectors(k as int);
        }
        let found = if k > 0 {
            self.0.layout.diag_below(k as usize)
        } else if k == 0 {
            self.0.layout.diag_above(0)
        } else {
            self.0.layout.diag_above(magnitude(k))
        };
        match found {
            Some(layout) => Some(Diag(Slice { data: self.0.data, layout })),
            None => None,
        }
    }

    /// The rows, first to last.
    pub fn rows(&self) -> (r: Rows<Trans<MatView<'a, T>>>)
        requires
            self.wf(),
        ensures
            r.wf(),
            r.mat() == *self,
            r.state() == 0,
            r.stop() == self.spec_nrows(),
            r.remaining().len() == self.spec_nrows(),
    {
        Rows::new(*self)
    }

    /// The columns, first to last.
    pub fn cols(&self) -> (r: Cols<Trans<MatView<'a, T>>>)
        requires
            self.wf(),
        ensures
            r.wf(),
            r.mat() == *self,
            r.state() == 0,
            r.stop() == self.spec_ncols(),
            r.remaining().len() == self.spec_ncols(),
    {
        Cols::new(*self)
    }
}

impl<T> Trans<Mat<T>> {
    /// A shared view of the whole transposed matrix.
    pub fn as_view(&self) -> (r: Trans<MatView<'_, T>>)
        requires
            self.wf(),
        ensures
            r.wf(),
            r@ == self@,
            r.0.data@ == self.0.data@,
            r.0.layout == self.0.layout(),
    {
        Trans(self.0.as_view())
    }

    /// An exclusive view of the whole transposed matrix. What is written
    /// through it is what the matrix holds once the view is gone.
    pub fn as_mut_view(&mut self) -> (r: Trans<MutView<'_, T>>)
        requires
            old(self).wf(),
        ensures
            r.wf(),
            r@ == old(self)@,
            r.0.buffer() == old(self).0.data@,
            r.0.layout == old(self).0.layout(),
            final(self).0.size == old(self).0.size,
            final(self).0.data@ == final(r.0.data)@,
    {
        Trans(self.0.as_mut_view())
    }

    /// Element `(row, col)`, or `None` where there is no such element.
    pub fn at(&self, idx: (usize, usize)) -> (r: Option<&T>)
        requires
            self.wf(),
        ensures
            r == if self@.in_range(idx.0 as int, idx.1 as int) {
                Some(&self@.at(idx.0 as int, idx.1 as int))
            } else {
                None
            },
    {
        proof {
            self.0.lemma_layout();
        }
        self.0.at((idx.1, idx.0))
    }
}

impl<'a, T> Trans<MutView<'a, T>> {
    /// A shared view of the same elements, for as long as this view is not
    /// written through.
    pub fn as_view(&self) -> (r: Trans<MatView<'_, T>>)
        ensures
            r.0.data@ == self.0.buffer(),
            r.0.layout == self.0.layout,
            r@ == self@,
            self.wf() ==> r.wf(),
    {
        Trans(self.0.as_view())
    }

    /// Element `(row, col)`, or `None` where there is no such element.
    pub fn at(&self, idx: (usize, usize)) -> (r: Option<&T>)
        requires
            self.wf(),
        ensures
            r == if self@.in_range(idx.0 as int, idx.1 as int) {
                Some(&self@.at(idx.0 as int, idx.1 as int))
            } else {
                None
            },
    {
        self.0.at((idx.1, idx.0))
    }

    /// Element `(row, col)` for writing, or `None` where there is no such
    /// element. Whatever is written lands at that element's place in the
    /// buffer, and nowhere else.
    pub fn at_mut(&mut self, idx: (usize, usize)) -> (r: Option<&mut T>)
        requires
            old(self).wf(),
        ensures
            final(self).0.layout == old(self).0.layout,
            final(final(self).0.data)@ == final(old(self).0.data)@,
            r is Some <==> old(self)@.in_range(idx.0 as int, idx.1 as int),
            r is None ==> final(self).0.buffer() == old(self).0.buffer(),
            r matches Some(e) ==> *e == old(self)@.at(idx.0 as int, idx.1 as int)
                && final(self).0.buffer() == old(self).0.buffer().update(
                old(self).0.layout.index(idx.1 as int, idx.0 as int),
                *final(e),
            ),
    {
        self.0.at_mut((idx.1, idx.0))
    }

    /// The exclusive transposed view of the sub-rectangle from `start`
    /// (inclusive) to `end` (exclusive) of this transposed view; `None`
    /// unless `start <= end <= size` in both coordinates.
    pub fn mut_slice<'b>(&'b mut self, start: (usize, usize), end: (usize, usize)) -> (r: Option<
        Trans<MutView<'b, T>>,
    >)
        requires
            old(self).wf(),
        ensures
            final(self).0.layout == old(self).0.layout,
            final(final(self).0.data)@ == final(old(self).0.data)@,
            r is Some <==> old(self)@.contains_rect(
                start.0 as int,
                start.1 as int,
                end.0 as int,
                end.1 as int,
            ),
            r is None ==> final(self).0.buffer() == old(self).0.buffer(),
            r matches Some(v) ==> v.wf() && v@ == old(self)@.sub(
                start.0 as int,
                start.1 as int,
                end.0 as int,
                end.1 as int,
            ) && v.0.buffer() == old(self).0.buffer() && v.0.layout == old(self).0.layout.sub(
                start.1 as int,
                start.0 as int,
                end.1 as int,
                end.0 as int,
            ) && final(self).0.buffer() == final(v.0.data)@,
    {
        proof {
            if self.0@.contains_rect(start.1 as int, start.0 as int, end.1 as int, end.0 as int) {
                self.0@.law_transpose_sub(
                    start.1 as int,
                    start.0 as int,
                    end.1 as int,
                    end.0 as int,
                );
            }
        }
        match self.0.mut_slice((start.1, start.0), (end.1, end.0)) {
            Some(v) => Some(Trans(v)),
            None => None,
        }
    }

    /// Replaces every element `x` of the transposed view by `f(x)`.
    pub fn apply<F: Fn(&T) -> T>(&mut self, f: F)
        requires
            old(self).wf(),
            forall|i: int, j: int|
                old(self)@.in_range(i, j) ==> call_requires(f, (&#[trigger] old(self)@.at(i, j),)),
        ensures
            final(self).wf(),
            final(self).0.layout == old(self).0.layout,
            final(final(self).0.data)@ == final(old(self).0.data)@,
            final(self).0.buffer().len() == old(self).0.buffer().len(),
            forall|i: int, j: int|
                old(self)@.in_range(i, j) ==> call_ensures(
                    f,
                    (&old(self)@.at(i, j),),
                    #[trigger] final(self)@.at(i, j),
                ),
            forall|k: int|
                0 <= k < old(self).0.buffer().len() && !old(self).0.layout.covers(k)
                    ==> final(self).0.buffer()[k] == old(self).0.buffer()[k],
    {
        proof {
            assert forall|i: int, j: int| old(self).0@.in_range(i, j) implies call_requires(
                f,
                (&#[trigger] old(self).0@.at(i, j),),
            ) by {
                assert(old(self)@.in_range(j, i));
                assert(old(self)@.at(j, i) == old(self).0@.at(i, j));
            }
        }
        self.0.apply(f);
        proof {
            assert forall|i: int, j: int| old(self)@.in_range(i, j) implies call_ensures(
                f,
                (&old(self)@.at(i, j),),
                #[trigger] self@.at(i, j),
            ) by {
                assert(old(self).0@.in_range(j, i));
                assert(self@.at(i, j) == self.0@.at(j, i));
                assert(old(self)@.at(i, j) == old(self).0@.at(j, i));
            }
        }
    }

    /// Replaces every element `x` of the transposed view by `f(x, y)`, where
    /// `y` is the element of `rhs` at the same place;
    /// `Err(Error::ShapeMismatch)`, with nothing changed, unless `rhs` has
    /// the shape of the transposed view.
    pub fn zip_apply<R: MatrixRead<T>, F: Fn(&T, &T) -> T>(&mut self, rhs: &R, f: F) -> (r: Result<
        (),
        Error,
    >)
        requires
            old(self).wf(),
            rhs.wf(),
            forall|i: int, j: int|
                old(self)@.in_range(i, j) && rhs@.in_range(i, j) ==> call_requires(
                    f,
                    (&#[trigger] old(self)@.at(i, j), &rhs@.at(i, j)),
                ),
        ensures
            final(self).wf(),
            final(self).0.layout == old(self).0.layout,
            final(final(self).0.data)@ == final(old(self).0.data)@,
            final(self).0.buffer().len() == old(self).0.buffer().len(),
            r == if old(self).spec_nrows() == rhs.spec_nrows() && old(self).spec_ncols()
                == rhs.spec_ncols() {
                Ok::<(), Error>(())
            } else {
                Err(Error::ShapeMismatch)
            },
            r is Err ==> final(self).0.buffer() == old(self).0.buffer(),
            r is Ok ==> forall|i: int, j: int|
                old(self)@.in_range(i, j) ==> call_ensures(
                    f,
                    (&old(self)@.at(i, j), &rhs@.at(i, j)),
                    #[trigger] final(self)@.at(i, j),
                ),
            forall|k: int|
                0 <= k < old(self).0.buffer().len() && !old(self).0.layout.covers(k)
                    ==> final(self).0.buffer()[k] == old(self).0.buffer()[k],
    {
        let other = Trans(rhs);
        proof {
            rhs.lemma_shape();
            assert forall|i: int, j: int|
                old(self).0@.in_range(i, j) && other@.in_range(i, j) implies call_requires(
                f,
                (&#[trigger] old(self).0@.at(i, j), &other@.at(i, j)),
            ) by {
                assert(old(self)@.in_range(j, i));
                assert(rhs@.in_range(j, i));
                assert(old(self)@.at(j, i) == old(self).0@.at(i, j));
                assert(other@.at(i, j) == rhs@.at(j, i));
            }
        }
        let r = self.0.zip_apply(&other, f);
        proof {
            if r is Ok {
                assert forall|i: int, j: int| old(self)@.in_range(i, j) implies call_ensures(
                    f,
                    (&old(self)@.at(i, j), &rhs@.at(i, j)),
                    #[trigger] self@.at(i, j),
                ) by {
                    assert(old(self).0@.in_range(j, i));
                    assert(self@.at(i, j) == self.0@.at(j, i));
                    assert(old(self)@.at(i, j) == old(self).0@.at(j, i));
                    assert(other@.at(j, i) == rhs@.at(i, j));
                }
            }
        }
        r
    }
}

} // verus!
