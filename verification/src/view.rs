//! Shared views of a rectangle of a buffer.

use vstd::prelude::*;
use crate::grid::{diag_len, Grid};
use crate::layout::Layout;
use crate::mat::{Cols, Rows};
use crate::traits::{MatrixCol, MatrixRead, MatrixRow, MatrixShape};
use crate::stripes::{HStripes, VStripes};
use crate::trans::Trans;
use crate::vector::{Col, Diag, Row, Slice};

verus! {

/// A shared view of a rectangle of a row-major buffer.
///
/// Any number of such views may look at the same elements. Slicing one gives
/// another view of the same buffer; nothing is copied.
pub struct MatView<'a, T> {
    pub data: &'a [T],
    pub layout: Layout,
}

impl<'a, T> Clone for MatView<'a, T> {
    fn clone(&self) -> (r: Self)
        ensures
            r == *self,
    {
        MatView { data: self.data, layout: self.layout }
    }
}

impl<'a, T> Copy for MatView<'a, T> {

}

impl<'a, T> View for MatView<'a, T> {
    type V = Grid<T>;

    /// The elements that the view shows.
    open spec fn view(&self) -> Grid<T> {
        self.layout.grid(self.data@)
    }
}

impl<'a, T> MatrixShape for MatView<'a, T> {
    open spec fn wf(&self) -> bool {
        &&& self.layout.wf()
        &&& self.layout.fits(self.data@.len() as int)
    }

    open spec fn spec_nrows(&self) -> usize {
        self.layout.nrows
    }

    open spec fn spec_ncols(&self) -> usize {
        self.layout.ncols
    }

    fn is_wf(&self) -> (r: bool) {
        self.layout.check(self.data.len())
    }

    fn nrows(&self) -> (n: usize) {
        self.layout.nrows
    }

    fn ncols(&self) -> (n: usize) {
        self.layout.ncols
    }
}

impl<'a, T> MatrixRead<T> for MatView<'a, T> {
    proof fn lemma_shape(&self) {
    }

    fn get(&self, row: usize, col: usize) -> (r: &T) {
        proof {
            self.layout.lemma_index_bound(self.data@.len() as int, row as int, col as int);
        }
        &self.data[self.layout.offset + row * self.layout.stride + col]
    }
}

impl<'a, T> MatrixRow for MatView<'a, T> {
    type RowVector = Slice<'a, T>;

    open spec fn spec_row(&self, i: int) -> Row<Slice<'a, T>> {
        Row(Slice { data: self.data, layout: self.layout.spec_row(i) })
    }

    fn row_unchecked(&self, i: usize) -> (r: Row<Slice<'a, T>>) {
        let layout = self.layout.row(i).unwrap();
        Row(Slice { data: self.data, layout })
    }
}

impl<'a, T> MatrixCol for MatView<'a, T> {
    type ColVector = Slice<'a, T>;

    open spec fn spec_col(&self, j: int) -> Col<Slice<'a, T>> {
        Col(Slice { data: self.data, layout: self.layout.spec_col(j) })
    }

    fn col_unchecked(&self, j: usize) -> (r: Col<Slice<'a, T>>) {
        let layout = self.layout.col(j).unwrap();
        Col(Slice { data: self.data, layout })
    }
}

impl<'a, T> MatView<'a, T> {
    /// Diagonal `k` of the view, as the run of the buffer that it is.
    pub open spec fn spec_diag(&self, k: int) -> Diag<Slice<'a, T>> {
        Diag(Slice { data: self.data, layout: self.layout.spec_diag(k) })
    }

    /// The rows, columns and diagonals that the view hands out are valid
    /// runs that show the rows, columns and diagonals of its elements.
    pub proof fn lemma_vectors(&self, k: int)
        requires
            self.wf(),
        ensures
            0 <= k < self.spec_nrows() ==> self.spec_row(k).0.wf() && self.spec_row(k).0@
                == self@.row(k),
            0 <= k < self.spec_ncols() ==> self.spec_col(k).0.wf() && self.spec_col(k).0@
                == self@.col(k),
            diag_len(self.spec_nrows() as int, self.spec_ncols() as int, k) > 0 ==> self.spec_diag(
                k,
            ).0.wf() && self.spec_diag(k).0@ == self@.diag(k),
    {
        self.layout.lemma_runs(self.data@.len() as int, k);
        self.layout.lemma_runs_seq(self.data@, k);
    }

    /// A view of all of `data` as `size.0` packed rows of `size.1` elements;
    /// `None` unless `data` holds exactly that many elements, and one row
    /// more than `data` holds would still be addressable.
    pub fn new(data: &'a [T], size: (usize, usize)) -> (r: Option<MatView<'a, T>>)
        ensures
            r is Some <==> size.0 * size.1 == data@.len() && data@.len() + size.1 <= usize::MAX,
            r matches Some(v) ==> v.wf() && v.data@ == data@ && v.layout == Layout::spec_packed(
                size.0,
                size.1,
            ),
    {
        match Layout::packed(size.0, size.1) {
            Some(layout) => {
                if size.0 * size.1 == data.len() {
                    Some(MatView { data, layout })
                } else {
                    None
                }
            },
            None => None,
        }
    }

    /// The view of the rectangle `layout` of `data`; `None` unless the
    /// rectangle is valid and lies inside `data`.
    pub fn from_parts(data: &'a [T], layout: Layout) -> (r: Option<MatView<'a, T>>)
        ensures
            r == if layout.wf() && layout.fits(data@.len() as int) {
                Some(MatView { data, layout })
            } else {
                None
            },
    {
        if layout.check(data.len()) {
            Some(MatView { data, layout })
        } else {
            None
        }
    }

    /// Element `(row, col)`, or `None` where the view has no such element.
    pub fn at(&self, idx: (usize, usize)) -> (r: Option<&'a T>)
        requires
            self.wf(),
        ensures
            r == if self@.in_range(idx.0 as int, idx.1 as int) {
                Some(&self@.at(idx.0 as int, idx.1 as int))
            } else {
                None
            },
    {
        match self.layout.at(idx.0, idx.1) {
            Some(k) => {
                proof {
                    self.layout.lemma_index_bound(
                        self.data@.len() as int,
                        idx.0 as int,
                        idx.1 as int,
                    );
                }
                Some(&self.data[k])
            },
            None => None,
        }
    }

    /// The view of the sub-rectangle from `start` (inclusive) to `end`
    /// (exclusive), both given as `(row, column)`; `None` unless
    /// `start <= end <= size` in both coordinates.
    ///
    /// The result looks at the same buffer, from the element at `start` on,
    /// with the same stride.
    pub fn slice(&self, start: (usize, usize), end: (usize, usize)) -> (r: Option<MatView<'a, T>>)
        requires
            self.wf(),
        ensures
            r is Some <==> self@.contains_rect(
                start.0 as int,
                start.1 as int,
                end.0 as int,
                end.1 as int,
            ),
            r matches Some(v) ==> v.wf() && v@ == self@.sub(
                start.0 as int,
                start.1 as int,
                end.0 as int,
                end.1 as int,
            ) && v.data@ == self.data@ && v.layout == self.layout.sub(
                start.0 as int,
                start.1 as int,
                end.0 as int,
                end.1 as int,
            ),
    {
        match self.layout.slice(start, end) {
            Some(layout) => {
                proof {
                    self.layout.lemma_sub(
                        self.data@.len() as int,
                        start.0 as int,
                        start.1 as int,
                        end.0 as int,
                        end.1 as int,
                    );
                    self.layout.lemma_sub_grid(
                        self.data@,
                        start.0 as int,
                        start.1 as int,
                        end.0 as int,
                        end.1 as int,
                    );
                }
                Some(MatView { data: self.data, layout })
            },
            None => None,
        }
    }

    /// Row `i`, or `None` where there is no such row.
    pub fn row(&self, i: usize) -> (r: Option<Row<Slice<'a, T>>>)
        requires
            self.wf(),
        ensures
            r == if i < self.spec_nrows() { Some(self.spec_row(i as int)) } else { None },
            r matches Some(v) ==> v.0.wf() && v.0@ == self@.row(i as int),
    {
        proof {
            self.lemma_vectors(i as int);
        }
        match self.layout.row(i) {
            Some(layout) => Some(Row(Slice { data: self.data, layout })),
            None => None,
        }
    }

    /// Column `j`, or `None` where there is no such column.
    pub fn col(&self, j: usize) -> (r: Option<Col<Slice<'a, T>>>)
        requires
            self.wf(),
        ensures
            r == if j < self.spec_ncols() { Some(self.spec_col(j as int)) } else { None },
            r matches Some(v) ==> v.0.wf() && v.0@ == self@.col(j as int),
    {
        proof {
            self.lemma_vectors(j as int);
        }
        match self.layout.col(j) {
            Some(layout) => Some(Col(Slice { data: self.data, layout })),
            None => None,
        }
    }

    /// Diagonal `k`, or `None` where the view has no such diagonal.
    ///
    /// Diagonal `0` is the main diagonal, diagonal `k > 0` starts at
    /// `(0, k)` and diagonal `k < 0` starts at `(-k, 0)`.
    pub fn diag(&self, k: isize) -> (r: Option<Diag<Slice<'a, T>>>)
        requires
            self.wf(),
        ensures
            r == if diag_len(self.spec_nrows() as int, self.spec_ncols() as int, k as int) > 0 {
                Some(self.spec_diag(k as int))
            } else {
                None
            },
            r matches Some(v) ==> v.0.wf() && v.0@ == self@.diag(k as int),
    {
        proof {
            self.lemma_vectors(k as int);
        }
        match self.layout.diag(k) {
            Some(layout) => Some(Diag(Slice { data: self.data, layout })),
            None => None,
        }
    }

    /// The rows, first to last.
    pub fn rows(&self) -> (r: Rows<MatView<'a, T>>)
        requires
            self.wf(),
        ensures
            r.wf(),
            r.mat() == *self,
            r.state() == 0,
            r.stop() == self.spec_nrows(),
            r.remaining().len() == self.spec_nrows(),
    {
        Rows::new(*self)
    }

    /// The columns, first to last.
    pub fn cols(&self) -> (r: Cols<MatView<'a, T>>)
        requires
            self.wf(),
        ensures
            r.wf(),
            r.mat() == *self,
            r.state() == 0,
            r.stop() == self.spec_ncols(),
            r.remaining().len() == self.spec_ncols(),
    {
        Cols::new(*self)
    }

    /// The stripes of `width` columns, left to right; `None` where `width`
    /// is zero.
    pub fn vstripes(&self, width: usize) -> (r: Option<VStripes<'a, T>>)
        requires
            self.wf(),
        ensures
            r is Some <==> width > 0,
            r matches Some(s) ==> s.wf() && s.mat() == *self && s.width() == width && s.state()
                == 0,
    {
        VStripes::new(*self, width)
    }

    /// The stripes of `height` rows, top to bottom; `None` where `height` is
    /// zero.
    pub fn hstripes(&self, height: usize) -> (r: Option<HStripes<'a, T>>)
        requires
            self.wf(),
        ensures
            r is Some <==> height > 0,
            r matches Some(s) ==> s.wf() && s.mat() == *self && s.width() == height && s.state()
                == 0,
    {
        HStripes::new(*self, height)
    }

    /// The same elements with rows and columns exchanged.
    pub fn t(self) -> (r: Trans<MatView<'a, T>>)
        ensures
            r.0 == self,
    {
        Trans(self)
    }
}

} // verus!
