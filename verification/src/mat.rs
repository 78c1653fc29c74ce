//! Owned matrices, and the iterators over the rows and columns of a matrix.

use vstd::prelude::*;
use crate::grid::{diag_len, Grid};
use crate::layout::{lemma_mul_add, lemma_mul_le, Layout};
use crate::mutview::MutView;
use crate::traits::{MatrixRead, MatrixShape};
use crate::trans::Trans;
use crate::vector::{Col, Diag, MutSlice, Row, Slice};
use crate::view::MatView;

pub mod cols;
pub mod rows;

pub use cols::Cols;
pub use rows::Rows;

verus! {

/// A matrix that owns its elements: `size.0` rows of `size.1` elements,
/// stored row after row without gaps.
pub struct Mat<T> {
    pub data: Vec<T>,
    pub size: (usize, usize),
}

impl<T: Clone> Clone for Mat<T> {
    /// A matrix of the same shape whose elements are clones of the elements
    /// of this one.
    fn clone(&self) -> (r: Self)
        ensures
            r.size == self.size,
            r.data@.len() == self.data@.len(),
            forall|i: int|
                0 <= i < self.data@.len() ==> cloned::<T>(#[trigger] self.data@[i], r.data@[i]),
            self.wf() ==> r.wf(),
    {
        Mat { data: self.data.clone(), size: self.size }
    }
}

impl<T> View for Mat<T> {
    type V = Grid<T>;

    /// The elements of the matrix.
    open spec fn view(&self) -> Grid<T> {
        self.layout().grid(self.data@)
    }
}

impl<T> MatrixShape for Mat<T> {
    /// The buffer holds exactly the elements of the shape, and one row more
    /// than the buffer would still be addressable.
    open spec fn wf(&self) -> bool {
        &&& self.data@.len() == self.size.0 * self.size.1
        &&& self.size.0 * self.size.1 + self.size.1 <= usize::MAX
    }

    open spec fn spec_nrows(&self) -> usize {
        self.size.0
    }

    open spec fn spec_ncols(&self) -> usize {
        self.size.1
    }

    fn is_wf(&self) -> (r: bool) {
        match Layout::packed(self.size.0, self.size.1) {
            Some(_) => self.size.0 * self.size.1 == self.data.len(),
            None => false,
        }
    }

    fn nrows(&self) -> (n: usize) {
        self.size.0
    }

    fn ncols(&self) -> (n: usize) {
        self.size.1
    }
}

impl<T> MatrixRead<T> for Mat<T> {
    proof fn lemma_shape(&self) {
        self.lemma_layout();
    }

    fn get(&self, row: usize, col: usize) -> (r: &T) {
        proof {
            self.lemma_layout();
            self.layout().lemma_index_bound(self.data@.len() as int, row as int, col as int);
        }
        &self.data[row * self.size.1 + col]
    }
}

impl<T> Mat<T> {
    /// Where the elements lie in the buffer: packed rows from index 0.
    pub open spec fn layout(&self) -> Layout {
        Layout::spec_packed(self.size.0, self.size.1)
    }

    /// Whether a matrix of this shape can exist: whether its element count,
    /// and one row more, fit in a `usize`.
    pub open spec fn addressable(size: (usize, usize)) -> bool {
        size.0 * size.1 + size.1 <= usize::MAX
    }

    /// The layout of a valid matrix is valid and lies inside its buffer.
    pub proof fn lemma_layout(&self)
        requires
            self.wf(),
        ensures
            self.layout().wf(),
            self.layout().fits(self.data@.len() as int),
            self@.wf(),
            self@.nrows == self.size.0,
            self@.ncols == self.size.1,
    {
        if self.size.0 > 0 {
            lemma_mul_add(self.size.0 as int, 1, self.size.1 as int);
        }
    }

    /// The matrix of shape `size` whose elements are those of `data`, row
    /// after row; `None` unless `data` holds exactly `size.0 * size.1`
    /// elements and a matrix of that shape can exist.
    pub fn from_vec(data: Vec<T>, size: (usize, usize)) -> (r: Option<Mat<T>>)
        ensures
            r is Some <==> size.0 * size.1 == data@.len() && Self::addressable(size),
            r matches Some(m) ==> m.wf() && m.data@ == data@ && m.size == size,
    {
        match Layout::packed(size.0, size.1) {
            Some(_) => {
                if size.0 * size.1 == data.len() {
                    Some(Mat { data, size })
                } else {
                    None
                }
            },
            None => None,
        }
    }

    /// The matrix of shape `size` whose element `(r, c)` is what `f(r, c)`
    /// returned; `None` where no matrix of that shape can exist. `f` is
    /// called once for each element, row by row, and may keep a state of its
    /// own from call to call, as a source of random numbers does.
    pub fn from_fn<F: FnMut(usize, usize) -> T>(size: (usize, usize), mut f: F) -> (r: Option<
        Mat<T>,
    >)
        requires
            forall|i: usize, j: usize| i < size.0 && j < size.1 ==> call_requires(f, (i, j)),
        ensures
            r is Some <==> Self::addressable(size),
            r matches Some(m) ==> m.wf() && m.size == size && forall|i: usize, j: usize|
                i < size.0 && j < size.1 ==> call_ensures(f, (i, j), #[trigger] m@.at(i as int, j as int)),
    {
        let (nrows, ncols) = size;
        let layout = match Layout::packed(nrows, ncols) {
            Some(layout) => layout,
            None => {
                return None;
            },
        };
        let ghost given = f;
        let mut data: Vec<T> = Vec::new();
        let mut r: usize = 0;
        while r < nrows
            invariant
                r <= nrows,
                f == given,
                layout == Layout::spec_packed(nrows, ncols),
                nrows * ncols + ncols <= usize::MAX,
                data@.len() == r * ncols,
                forall|i: usize, j: usize| i < size.0 && j < size.1 ==> call_requires(f, (i, j)),
                size == (nrows, ncols),
                forall|i: usize, j: usize|
                    i < r && j < ncols ==> call_ensures(
                        f,
                        (i, j),
                        #[trigger] data@[layout.index(i as int, j as int)],
                    ),
            decreases nrows - r,
        {
            let mut c: usize = 0;
            while c < ncols
                invariant
                    r < nrows,
                    c <= ncols,
                    f == given,
                    layout == Layout::spec_packed(nrows, ncols),
                    nrows * ncols + ncols <= usize::MAX,
                    data@.len() == r * ncols + c,
                    forall|i: usize, j: usize| i < size.0 && j < size.1 ==> call_requires(f, (i, j)),
                    size == (nrows, ncols),
                    forall|i: usize, j: usize|
                        (i < r && j < ncols) || (i == r && j < c) ==> call_ensures(
                            f,
                            (i, j),
                            #[trigger] data@[layout.index(i as int, j as int)],
                        ),
                decreases ncols - c,
            {
                let e = f(r, c);
                let ghost before = data@;
                data.push(e);
                proof {
                    assert forall|i: usize, j: usize|
                        (i < r && j < ncols) || (i == r && j < c + 1) implies call_ensures(
                        f,
                        (i, j),
                        #[trigger] data@[layout.index(i as int, j as int)],
                    ) by {
                        if i < r {
                            lemma_mul_le(i as int, r - 1, ncols as int);
                            lemma_mul_add(r as int, 1, ncols as int);
                            assert(data@[layout.index(i as int, j as int)] == before[layout.index(
                                i as int,
                                j as int,
                            )]);
                        } else if j < c {
                            assert(data@[layout.index(i as int, j as int)] == before[layout.index(
                                i as int,
                                j as int,
                            )]);
                        }
                    }
                }
                c = c + 1;
            }
            proof {
                lemma_mul_add(r as int, 1, ncols as int);
            }
            r = r + 1;
        }
        let m = Mat { data, size };
        proof {
            m.lemma_layout();
        }
        Some(m)
    }

    /// The matrix of shape `size` with every element equal to `elem`; `None`
    /// where no matrix of that shape can exist.
    pub fn from_elem(size: (usize, usize), elem: T) -> (r: Option<Mat<T>>) where T: Copy
        ensures
            r is Some <==> Self::addressable(size),
            r matches Some(m) ==> m.wf() && m.size == size && forall|i: int, j: int|
                m@.in_range(i, j) ==> #[trigger] m@.at(i, j) == elem,
    {
        let (nrows, ncols) = size;
        match Layout::packed(nrows, ncols) {
            Some(layout) => {
                let n = nrows * ncols;
                let mut data: Vec<T> = Vec::new();
                let mut k: usize = 0;
                while k < n
                    invariant
                        k <= n,
                        data@.len() == k,
                        forall|i: int| 0 <= i < k ==> data@[i] == elem,
                    decreases n - k,
                {
                    data.push(elem);
                    k = k + 1;
                }
                let m = Mat { data, size };
                proof {
                    m.lemma_layout();
                    assert forall|i: int, j: int| m@.in_range(i, j) implies #[trigger] m@.at(i, j)
                        == elem by {
                        m.layout().lemma_index_bound(m.data@.len() as int, i, j);
                    }
                }
                Some(m)
            },
            None => None,
        }
    }

    /// The elements, row after row.
    pub fn into_vec(self) -> (r: Vec<T>)
        ensures
            r@ == self.data@,
    {
        self.data
    }

    /// A shared view of the whole matrix.
    pub fn as_view(&self) -> (r: MatView<'_, T>)
        requires
            self.wf(),
        ensures
            r.wf(),
            r@ == self@,
            r.data@ == self.data@,
            r.layout == self.layout(),
    {
        proof {
            self.lemma_layout();
        }
        MatView {
            data: self.data.as_slice(),
            layout: Layout { offset: 0, nrows: self.size.0, ncols: self.size.1, stride: self.size.1 },
        }
    }

    /// An exclusive view of the whole matrix. What is written through it is
    /// what the matrix holds once the view is gone.
    pub fn as_mut_view(&mut self) -> (r: MutView<'_, T>)
        requires
            old(self).wf(),
        ensures
            r.wf(),
            r@ == old(self)@,
            r.buffer() == old(self).data@,
            r.layout == old(self).layout(),
            final(self).size == old(self).size,
            final(self).data@ == final(r.data)@,
    {
        proof {
            self.lemma_layout();
        }
        let layout = Layout { offset: 0, nrows: self.size.0, ncols: self.size.1, stride: self.size.1 };
        MutView { data: self.data.as_mut_slice(), layout }
    }

    /// Element `(row, col)`, or `None` where the matrix has no such element.
    pub fn at(&self, idx: (usize, usize)) -> (r: Option<&T>)
        requires
            self.wf(),
        ensures
            r == if self@.in_range(idx.0 as int, idx.1 as int) {
                Some(&self@.at(idx.0 as int, idx.1 as int))
            } else {
                None
            },
    {
        self.as_view().at(idx)
    }

    /// Element `(row, col)` for writing, or `None` where the matrix has no
    /// such element. Whatever is written lands at that element, and nowhere
    /// else.
    pub fn at_mut(&mut self, idx: (usize, usize)) -> (r: Option<&mut T>)
        requires
            old(self).wf(),
        ensures
            final(self).size == old(self).size,
            r is Some <==> old(self)@.in_range(idx.0 as int, idx.1 as int),
            r is None ==> final(self).data@ == old(self).data@,
            r matches Some(e) ==> *e == old(self)@.at(idx.0 as int, idx.1 as int) && final(self).data@
                == old(self).data@.update(
                old(self).layout().index(idx.0 as int, idx.1 as int),
                *final(e),
            ) && final(self).wf(),
    {
        proof {
            self.lemma_layout();
        }
        if idx.0 < self.size.0 && idx.1 < self.size.1 {
            proof {
                self.layout().lemma_index_bound(self.data@.len() as int, idx.0 as int, idx.1 as int);
            }
            let k = idx.0 * self.size.1 + idx.1;
            Some(&mut self.data[k])
        } else {
            None
        }
    }

    /// The shared view of the sub-rectangle from `start` (inclusive) to `end`
    /// (exclusive); `None` unless `start <= end <= size` in both coordinates.
    pub fn slice(&self, start: (usize, usize), end: (usize, usize)) -> (r: Option<MatView<'_, T>>)
        requires
            self.wf(),
        ensures
            r is Some <==> self@.contains_rect(
                start.0 as int,
                start.1 as int,
                end.0 as int,
                end.1 as int,
            ),
            r matches Some(v) ==> v.wf() && v@ == self@.sub(
                start.0 as int,
                start.1 as int,
                end.0 as int,
                end.1 as int,
            ) && v.data@ == self.data@ && v.layout == self.layout().sub(
                start.0 as int,
                start.1 as int,
                end.0 as int,
                end.1 as int,
            ),
    {
        self.as_view().slice(start, end)
    }

    /// The exclusive view of the sub-rectangle from `start` (inclusive) to
    /// `end` (exclusive); `None` unless `start <= end <= size` in both
    /// coordinates. What is written through the view is what the matrix holds
    /// once the view is gone.
    pub fn mut_slice(&mut self, start: (usize, usize), end: (usize, usize)) -> (r: Option<
        MutView<'_, T>,
    >)
        requires
            old(self).wf(),
        ensures
            final(self).size == old(self).size,
            r is Some <==> old(self)@.contains_rect(
                start.0 as int,
                start.1 as int,
                end.0 as int,
                end.1 as int,
            ),
            r is None ==> final(self).data@ == old(self).data@,
            r matches Some(v) ==> v.wf() && v@ == old(self)@.sub(
                start.0 as int,
                start.1 as int,
                end.0 as int,
                end.1 as int,
            ) && v.buffer() == old(self).data@ && v.layout == old(self).layout().sub(
                start.0 as int,
                start.1 as int,
                end.0 as int,
                end.1 as int,
            ) && final(self).data@ == final(v.data)@,
    {
        proof {
            self.lemma_layout();
        }
        let whole = Layout { offset: 0, nrows: self.size.0, ncols: self.size.1, stride: self.size.1 };
        match whole.slice(start, end) {
            Some(layout) => {
                proof {
                    whole.lemma_sub(
                        self.data@.len() as int,
                        start.0 as int,
                        start.1 as int,
                        end.0 as int,
                        end.1 as int,
                    );
                    whole.lemma_sub_grid(
                        self.data@,
                        start.0 as int,
                        start.1 as int,
                        end.0 as int,
                        end.1 as int,
                    );
                }
                Some(MutView { data: self.data.as_mut_slice(), layout })
            },
            None => None,
        }
    }

    /// Row `i` for writing, or `None` where there is no such row.
    pub fn row_mut(&mut self, i: usize) -> (r: Option<Row<MutSlice<'_, T>>>)
        requires
            old(self).wf(),
        ensures
            final(self).size == old(self).size,
            r is Some <==> i < old(self).spec_nrows(),
            r is None ==> final(self).data@ == old(self).data@,
            r matches Some(v) ==> v.0.wf() && v.0@ == old(self)@.row(i as int) && v.0.buffer()
                == old(self).data@ && v.0.layout == old(self).layout().spec_row(i as int)
                && final(self).data@ == final(v.0.data)@,
    {
        proof {
            self.lemma_layout();
            self.layout().lemma_runs(self.data@.len() as int, i as int);
            self.layout().lemma_runs_seq(self.data@, i as int);
        }
        let whole = Layout { offset: 0, nrows: self.size.0, ncols: self.size.1, stride: self.size.1 };
        match whole.row(i) {
            Some(layout) => Some(Row(MutSlice { data: self.data.as_mut_slice(), layout })),
            None => None,
        }
    }

    /// Column `j` for writing, or `None` where there is no such column.
    pub fn col_mut(&mut self, j: usize) -> (r: Option<Col<MutSlice<'_, T>>>)
        requires
            old(self).wf(),
        ensures
            final(self).size == old(self).size,
            r is Some <==> j < old(self).spec_ncols(),
            r is None ==> final(self).data@ == old(self).data@,
            r matches Some(v) ==> v.0.wf() && v.0@ == old(self)@.col(j as int) && v.0.buffer()
                == old(self).data@ && v.0.layout == old(self).layout().spec_col(j as int)
                && final(self).data@ == final(v.0.data)@,
    {
        proof {
            self.lemma_layout();
            self.layout().lemma_runs(self.data@.len() as int, j as int);
            self.layout().lemma_runs_seq(self.data@, j as int);
        }
        let whole = Layout { offset: 0, nrows: self.size.0, ncols: self.size.1, stride: self.size.1 };
        match whole.col(j) {
            Some(layout) => Some(Col(MutSlice { data: self.data.as_mut_slice(), layout })),
            None => None,
        }
    }

    /// Diagonal `k` for writing, or `None` where the matrix has no such
    /// diagonal.
    pub fn diag_mut(&mut self, k: isize) -> (r: Option<Diag<MutSlice<'_, T>>>)
        requires
            old(self).wf(),
        ensures
            final(self).size == old(self).size,
            r is Some <==> diag_len(
                old(self).spec_nrows() as int,
                old(self).spec_ncols() as int,
                k as int,
            ) > 0,
            r is None ==> final(self).data@ == old(self).data@,
            r matches Some(v) ==> v.0.wf() && v.0@ == old(self)@.diag(k as int) && v.0.buffer()
                == old(self).data@ && v.0.layout == old(self).layout().spec_diag(k as int)
                && final(self).data@ == final(v.0.data)@,
    {
        proof {
            self.lemma_layout();
            self.layout().lemma_runs(self.data@.len() as int, k as int);
            self.layout().lemma_runs_seq(self.data@, k as int);
        }
        let whole = Layout { offset: 0, nrows: self.size.0, ncols: self.size.1, stride: self.size.1 };
        match whole.diag(k) {
            Some(layout) => Some(Diag(MutSlice { data: self.data.as_mut_slice(), layout })),
            None => None,
        }
    }

    /// Row `i`, or `None` where there is no such row.
    pub fn row(&self, i: usize) -> (r: Option<Row<Slice<'_, T>>>)
        requires
            self.wf(),
        ensures
            r is Some <==> i < self.spec_nrows(),
            r matches Some(v) ==> v.0.wf() && v.0@ == self@.row(i as int) && v.0.data@
                == self.data@ && v.0.layout == self.layout().spec_row(i as int),
    {
        self.as_view().row(i)
    }

    /// Column `j`, or `None` where there is no such column.
    pub fn col(&self, j: usize) -> (r: Option<Col<Slice<'_, T>>>)
        requires
            self.wf(),
        ensures
            r is Some <==> j < self.spec_ncols(),
            r matches Some(v) ==> v.0.wf() && v.0@ == self@.col(j as int) && v.0.data@
                == self.data@ && v.0.layout == self.layout().spec_col(j as int),
    {
        self.as_view().col(j)
    }

    /// Diagonal `k`, or `None` where the matrix has no such diagonal:
    /// diagonal `0` is the main diagonal, diagonal `k > 0` starts at `(0, k)`
    /// and diagonal `k < 0` starts at `(-k, 0)`.
    pub fn diag(&self, k: isize) -> (r: Option<Diag<Slice<'_, T>>>)
        requires
            self.wf(),
        ensures
            r is Some <==> diag_len(self.spec_nrows() as int, self.spec_ncols() as int, k as int) > 0,
            r matches Some(v) ==> v.0.wf() && v.0@ == self@.diag(k as int) && v.0.data@
                == self.data@ && v.0.layout == self.layout().spec_diag(k as int),
    {
        self.as_view().diag(k)
    }

    /// The rows, first to last.
    pub fn rows(&self) -> (r: Rows<MatView<'_, T>>)
        requires
            self.wf(),
        ensures
            r.wf(),
            r.mat()@ == self@,
            r.mat().data@ == self.data@,
            r.mat().layout == self.layout(),
            r.state() == 0,
            r.stop() == self.spec_nrows(),
            r.remaining().len() == self.spec_nrows(),
    {
        self.as_view().rows()
    }

    /// The columns, first to last.
    pub fn cols(&self) -> (r: Cols<MatView<'_, T>>)
        requires
            self.wf(),
        ensures
            r.wf(),
            r.mat()@ == self@,
            r.mat().data@ == self.data@,
            r.mat().layout == self.layout(),
            r.state() == 0,
            r.stop() == self.spec_ncols(),
            r.remaining().len() == self.spec_ncols(),
    {
        self.as_view().cols()
    }

    /// The same elements with rows and columns exchanged.
    pub fn t(self) -> (r: Trans<Mat<T>>)
        ensures
            r.0 == self,
    {
        Trans(self)
    }
}

} // verus!
