//! Exclusive views of a rectangle of a buffer.

use vstd::prelude::*;
use crate::grid::{diag_len, Grid};
use crate::layout::{lemma_mul_add, lemma_mul_le, Layout};
use crate::traits::{MatrixRead, MatrixShape};
use crate::trans::Trans;
use crate::vector::{Col, Diag, MutSlice, Row};
use crate::view::MatView;

verus! {

/// An exclusive view of a rectangle of a row-major buffer.
///
/// While it lives, nothing else can reach the buffer: the borrow rules see
/// to that. Slicing it borrows it in turn, so that a sub-view and the view it
/// was cut from are never usable at the same time.
pub struct MutView<'a, T> {
    pub data: &'a mut [T],
    pub layout: Layout,
}

impl<'a, T> View for MutView<'a, T> {
    type V = Grid<T>;

    /// The elements that the view shows now.
    open spec fn view(&self) -> Grid<T> {
        self.layout.grid(self.data@)
    }
}

impl<'a, T> MatrixShape for MutView<'a, T> {
    open spec fn wf(&self) -> bool {
        &&& self.layout.wf()
        &&& self.layout.fits(self.data@.len() as int)
    }

    open spec fn spec_nrows(&self) -> usize {
        self.layout.nrows
    }

    open spec fn spec_ncols(&self) -> usize {
        self.layout.ncols
    }

    fn is_wf(&self) -> (r: bool) {
        let data: &[T] = &*self.data;
        self.layout.check(data.len())
    }

    fn nrows(&self) -> (n: usize) {
        self.layout.nrows
    }

    fn ncols(&self) -> (n: usize) {
        self.layout.ncols
    }
}

impl<'a, T> MatrixRead<T> for MutView<'a, T> {
    proof fn lemma_shape(&self) {
    }

    fn get(&self, row: usize, col: usize) -> (r: &T) {
        proof {
            self.layout.lemma_index_bound(self.data@.len() as int, row as int, col as int);
        }
        &self.data[self.layout.offset + row * self.layout.stride + col]
    }
}

impl<'a, T> MutView<'a, T> {
    /// The whole buffer that the view reaches into, as it is now.
    pub open spec fn buffer(&self) -> Seq<T> {
        self.data@
    }

    /// An exclusive view of all of `data` as `size.0` packed rows of `size.1`
    /// elements; `None` unless `data` holds exactly that many elements, and
    /// one row more than `data` holds would still be addressable.
    pub fn new(data: &'a mut [T], size: (usize, usize)) -> (r: Option<MutView<'a, T>>)
        ensures
            r is Some <==> size.0 * size.1 == old(data)@.len() && old(data)@.len() + size.1
                <= usize::MAX,
            r matches Some(v) ==> v.wf() && v.buffer() == old(data)@ && v.layout
                == Layout::spec_packed(size.0, size.1) && final(v.data)@ == final(data)@,
            r is None ==> final(data)@ == old(data)@,
    {
        match Layout::packed(size.0, size.1) {
            Some(layout) => {
                if size.0 * size.1 == data.len() {
                    Some(MutView { data, layout })
                } else {
                    None
                }
            },
            None => None,
        }
    }

    /// The exclusive view of the rectangle `layout` of `data`; `None` unless
    /// the rectangle is valid and lies inside `data`.
    pub fn from_parts(data: &'a mut [T], layout: Layout) -> (r: Option<MutView<'a, T>>)
        ensures
            r is Some <==> layout.wf() && layout.fits(old(data)@.len() as int),
            r matches Some(v) ==> v.wf() && v.buffer() == old(data)@ && v.layout == layout
                && final(v.data)@ == final(data)@,
            r is None ==> final(data)@ == old(data)@,
    {
        if layout.check(data.len()) {
            Some(MutView { data, layout })
        } else {
            None
        }
    }

    /// A shared view of the same elements, for as long as this view is not
    /// written through.
    pub fn as_view(&self) -> (r: MatView<'_, T>)
        ensures
            r.data@ == self.buffer(),
            r.layout == self.layout,
            r@ == self@,
            self.wf() ==> r.wf(),
    {
        MatView { data: &*self.data, layout: self.layout }
    }

    /// Element `(row, col)`, or `None` where the view has no such element.
    pub fn at(&self, idx: (usize, usize)) -> (r: Option<&T>)
        requires
            self.wf(),
        ensures
            r == if self@.in_range(idx.0 as int, idx.1 as int) {
                Some(&self@.at(idx.0 as int, idx.1 as int))
            } else {
                None
            },
    {
        match self.layout.at(idx.0, idx.1) {
            Some(k) => {
                proof {
                    self.layout.lemma_index_bound(
                        self.data@.len() as int,
                        idx.0 as int,
                        idx.1 as int,
                    );
                }
                Some(&self.data[k])
            },
            None => None,
        }
    }

    /// Element `(row, col)` for writing, or `None` where the view has no such
    /// element. Whatever is written lands at that element's place in the
    /// buffer, and nowhere else.
    pub fn at_mut(&mut self, idx: (usize, usize)) -> (r: Option<&mut T>)
        requires
            old(self).wf(),
        ensures
            final(self).layout == old(self).layout,
            final(final(self).data)@ == final(old(self).data)@,
            r is Some <==> old(self)@.in_range(idx.0 as int, idx.1 as int),
            r is None ==> final(self).buffer() == old(self).buffer(),
            r matches Some(e) ==> *e == old(self)@.at(idx.0 as int, idx.1 as int)
                && final(self).buffer() == old(self).buffer().update(
                old(self).layout.index(idx.0 as int, idx.1 as int),
                *final(e),
            ),
    {
        match self.layout.at(idx.0, idx.1) {
            Some(k) => {
                proof {
                    self.layout.lemma_index_bound(
                        self.data@.len() as int,
                        idx.0 as int,
                        idx.1 as int,
                    );
                }
                Some(&mut self.data[k])
            },
            None => None,
        }
    }

    /// The exclusive view of the sub-rectangle from `start` (inclusive) to
    /// `end` (exclusive), both given as `(row, column)`; `None` unless
    /// `start <= end <= size` in both coordinates.
    ///
    /// The sub-view borrows this view: it reaches the same buffer, from the
    /// element at `start` on, with the same stride, and what is written
    /// through it is what this view shows once the sub-view is gone.
    pub fn mut_slice<'b>(&'b mut self, start: (usize, usize), end: (usize, usize)) -> (r: Option<
        MutView<'b, T>,
    >)
        requires
            old(self).wf(),
        ensures
            final(self).layout == old(self).layout,
            final(final(self).data)@ == final(old(self).data)@,
            r is Some <==> old(self)@.contains_rect(
                start.0 as int,
                start.1 as int,
                end.0 as int,
                end.1 as int,
            ),
            r is None ==> final(self).buffer() == old(self).buffer(),
            r matches Some(v) ==> v.wf() && v@ == old(self)@.sub(
                start.0 as int,
                start.1 as int,
                end.0 as int,
                end.1 as int,
            ) && v.buffer() == old(self).buffer() && v.layout == old(self).layout.sub(
                start.0 as int,
                start.1 as int,
                end.0 as int,
                end.1 as int,
            ) && final(self).buffer() == final(v.data)@,
    {
        let (end_row, end_col) = end;
        let (nrows, ncols) = self.size();
        let (start_row, start_col) = start;

        if end_col <= ncols && start_col <= end_col && end_row <= nrows && start_row <= end_row {
            proof {
                self.layout.lemma_sub(
                    self.data@.len() as int,
                    start_row as int,
                    start_col as int,
                    end_row as int,
                    end_col as int,
                );
                self.layout.lemma_sub_grid(
                    self.data@,
                    start_row as int,
                    start_col as int,
                    end_row as int,
                    end_col as int,
                );
                self.layout.lemma_index_bound_corner(start_row as int, start_col as int);
            }
            let stride = self.layout.stride;
            let offset = self.layout.offset + start_row * stride + start_col;

            Some(
                MutView {
                    data: &mut *self.data,
                    layout: Layout {
                        offset,
                        nrows: end_row - start_row,
                        ncols: end_col - start_col,
                        stride,
                    },
                },
            )
        } else {
            None
        }
    }

    /// The same elements with rows and columns exchanged.
    pub fn t(self) -> (r: Trans<MutView<'a, T>>)
        ensures
            r.0 == self,
    {
        Trans(self)
    }

    /// Row `i` for writing, or `None` where there is no such row.
    pub fn row_mut<'b>(&'b mut self, i: usize) -> (r: Option<Row<MutSlice<'b, T>>>)
        requires
            old(self).wf(),
        ensures
            final(self).layout == old(self).layout,
            final(final(self).data)@ == final(old(self).data)@,
            r is Some <==> i < old(self).spec_nrows(),
            r is None ==> final(self).buffer() == old(self).buffer(),
            r matches Some(v) ==> v.0.wf() && v.0@ == old(self)@.row(i as int) && v.0.buffer()
                == old(self).buffer() && v.0.layout == old(self).layout.spec_row(i as int)
                && final(self).buffer() == final(v.0.data)@,
    {
        proof {
            self.layout.lemma_runs(self.data@.len() as int, i as int);
            self.layout.lemma_runs_seq(self.data@, i as int);
        }
        match self.layout.row(i) {
            Some(layout) => Some(Row(MutSlice { data: &mut *self.data, layout })),
            None => None,
        }
    }

    /// Column `j` for writing, or `None` where there is no such column.
    pub fn col_mut<'b>(&'b mut self, j: usize) -> (r: Option<Col<MutSlice<'b, T>>>)
        requires
            old(self).wf(),
        ensures
            final(self).layout == old(self).layout,
            final(final(self).data)@ == final(old(self).data)@,
            r is Some <==> j < old(self).spec_ncols(),
            r is None ==> final(self).buffer() == old(self).buffer(),
            r matches Some(v) ==> v.0.wf() && v.0@ == old(self)@.col(j as int) && v.0.buffer()
                == old(self).buffer() && v.0.layout == old(self).layout.spec_col(j as int)
                && final(self).buffer() == final(v.0.data)@,
    {
        proof {
            self.layout.lemma_runs(self.data@.len() as int, j as int);
            self.layout.lemma_runs_seq(self.data@, j as int);
        }
        match self.layout.col(j) {
            Some(layout) => Some(Col(MutSlice { data: &mut *self.data, layout })),
            None => None,
        }
    }

    /// Diagonal `k` for writing, or `None` where the view has no such
    /// diagonal.
    pub fn diag_mut<'b>(&'b mut self, k: isize) -> (r: Option<Diag<MutSlice<'b, T>>>)
        requires
            old(self).wf(),
        ensures
            final(self).layout == old(self).layout,
            final(final(self).data)@ == final(old(self).data)@,
            r is Some <==> diag_len(
                old(self).spec_nrows() as int,
                old(self).spec_ncols() as int,
                k as int,
            ) > 0,
            r is None ==> final(self).buffer() == old(self).buffer(),
            r matches Some(v) ==> v.0.wf() && v.0@ == old(self)@.diag(k as int) && v.0.buffer()
                == old(self).buffer() && v.0.layout == old(self).layout.spec_diag(k as int)
                && final(self).buffer() == final(v.0.data)@,
    {
        proof {
            self.layout.lemma_runs(self.data@.len() as int, k as int);
            self.layout.lemma_runs_seq(self.data@, k as int);
        }
        match self.layout.diag(k) {
            Some(layout) => Some(Diag(MutSlice { data: &mut *self.data, layout })),
            None => None,
        }
    }

    /// Two exclusive views at once: of the sub-rectangle `first` and of the
    /// sub-rectangle `second`, each given as `(start, end)` with `start`
    /// inclusive and `end` exclusive.
    ///
    /// `None` unless both rectangles lie in the view and one of them ends at
    /// or before the row where the other begins. Two rectangles that share a
    /// row are refused, also where their columns are apart: each of the two
    /// views gets a piece of the buffer for itself, and rows that interleave
    /// cannot be cut apart. `Layout::slice_pair` hands out the layouts of any
    /// two rectangles that have no cell in common.
    ///
    /// The two views reach disjoint pieces of the buffer, the upper rectangle
    /// the front piece and the lower rectangle the back piece: what is
    /// written through them is what this view shows once they are gone.
    pub fn mut_slice_pair<'b>(
        &'b mut self,
        first: ((usize, usize), (usize, usize)),
        second: ((usize, usize), (usize, usize)),
    ) -> (r: Option<(MutView<'b, T>, MutView<'b, T>)>)
        requires
            old(self).wf(),
        ensures
            final(self).layout == old(self).layout,
            final(final(self).data)@ == final(old(self).data)@,
            r is Some <==> Self::spec_pair_ok(old(self).layout, first, second),
            r is None ==> final(self).buffer() == old(self).buffer(),
            r matches Some((x, y)) ==> {
                &&& x.wf()
                &&& y.wf()
                &&& x@ == old(self)@.sub(
                    first.0.0 as int,
                    first.0.1 as int,
                    first.1.0 as int,
                    first.1.1 as int,
                )
                &&& y@ == old(self)@.sub(
                    second.0.0 as int,
                    second.0.1 as int,
                    second.1.0 as int,
                    second.1.1 as int,
                )
                &&& if first.1.0 <= second.0.0 {
                    &&& Self::spec_cut(
                        old(self).buffer(),
                        old(self).layout.sub(
                            first.0.0 as int,
                            first.0.1 as int,
                            first.1.0 as int,
                            first.1.1 as int,
                        ),
                        old(self).layout.sub(
                            second.0.0 as int,
                            second.0.1 as int,
                            second.1.0 as int,
                            second.1.1 as int,
                        ),
                        x,
                        y,
                    )
                    &&& final(self).buffer() == final(x.data)@ + final(y.data)@
                } else {
                    &&& Self::spec_cut(
                        old(self).buffer(),
                        old(self).layout.sub(
                            second.0.0 as int,
                            second.0.1 as int,
                            second.1.0 as int,
                            second.1.1 as int,
                        ),
                        old(self).layout.sub(
                            first.0.0 as int,
                            first.0.1 as int,
                            first.1.0 as int,
                            first.1.1 as int,
                        ),
                        y,
                        x,
                    )
                    &&& final(self).buffer() == final(y.data)@ + final(x.data)@
                }
            },
    {
        let la = match self.layout.slice(first.0, first.1) {
            Some(l) => l,
            None => {
                return None;
            },
        };
        let lb = match self.layout.slice(second.0, second.1) {
            Some(l) => l,
            None => {
                return None;
            },
        };
        let ghost n = self.data@.len() as int;
        let ghost buf = self.data@;
        let ghost whole = self.layout;
        proof {
            whole.lemma_sub(
                n,
                first.0.0 as int,
                first.0.1 as int,
                first.1.0 as int,
                first.1.1 as int,
            );
            whole.lemma_sub(
                n,
                second.0.0 as int,
                second.0.1 as int,
                second.1.0 as int,
                second.1.1 as int,
            );
            whole.lemma_sub_grid(
                buf,
                first.0.0 as int,
                first.0.1 as int,
                first.1.0 as int,
                first.1.1 as int,
            );
            whole.lemma_sub_grid(
                buf,
                second.0.0 as int,
                second.0.1 as int,
                second.1.0 as int,
                second.1.1 as int,
            );
            let s = whole.stride as int;
            if first.1.0 <= second.0.0 && first.0.0 < first.1.0 {
                lemma_mul_le(first.1.0 as int, second.0.0 as int, s);
                lemma_mul_add(first.1.0 as int, 1, s);
                lemma_mul_add(first.1.0 - first.0.0 - 1, first.0.0 as int, s);
            }
            if second.1.0 <= first.0.0 && second.0.0 < second.1.0 {
                lemma_mul_le(second.1.0 as int, first.0.0 as int, s);
                lemma_mul_add(second.1.0 as int, 1, s);
                lemma_mul_add(second.1.0 - second.0.0 - 1, second.0.0 as int, s);
            }
        }
        if first.1.0 <= second.0.0 {
            let (x, y) = Self::cut(&mut *self.data, la, lb);
            Some((x, y))
        } else if second.1.0 <= first.0.0 {
            let (y, x) = Self::cut(&mut *self.data, lb, la);
            Some((x, y))
        } else {
            None
        }
    }

    /// The view cut in two between row `row - 1` and row `row`: the rows
    /// above, and the rows from `row` on. `None` where the view has fewer
    /// than `row` rows. Each of the two views has a piece of the buffer for
    /// itself and lives as long as this view could have.
    pub fn split_at_row(self, row: usize) -> (r: Option<(MutView<'a, T>, MutView<'a, T>)>)
        requires
            self.wf(),
        ensures
            r is Some <==> row <= self.spec_nrows(),
            r is None ==> final(self.data)@ == self.buffer(),
            r matches Some((x, y)) ==> {
                &&& x.wf()
                &&& y.wf()
                &&& x@ == self@.sub(0, 0, row as int, self.spec_ncols() as int)
                &&& y@ == self@.sub(
                    row as int,
                    0,
                    self.spec_nrows() as int,
                    self.spec_ncols() as int,
                )
                &&& Self::spec_cut(
                    self.buffer(),
                    self.layout.sub(0, 0, row as int, self.spec_ncols() as int),
                    self.layout.sub(
                        row as int,
                        0,
                        self.spec_nrows() as int,
                        self.spec_ncols() as int,
                    ),
                    x,
                    y,
                )
                &&& final(self.data)@ == final(x.data)@ + final(y.data)@
            },
    {
        let (nrows, ncols) = (self.layout.nrows, self.layout.ncols);
        if row > nrows {
            return None;
        }
        let la = self.layout.slice((0, 0), (row, ncols)).unwrap();
        let lb = self.layout.slice((row, 0), (nrows, ncols)).unwrap();
        proof {
            let n = self.data@.len() as int;
            let s = self.layout.stride as int;
            self.layout.lemma_sub(n, 0, 0, row as int, ncols as int);
            self.layout.lemma_sub(n, row as int, 0, nrows as int, ncols as int);
            self.layout.lemma_sub_grid(self.data@, 0, 0, row as int, ncols as int);
            self.layout.lemma_sub_grid(self.data@, row as int, 0, nrows as int, ncols as int);
            if row > 0 {
                lemma_mul_add(row as int, 1, s);
            }
        }
        let (x, y) = Self::cut(self.data, la, lb);
        Some((x, y))
    }

    /// Whether `mut_slice_pair` hands out the two rectangles: both lie in the
    /// layout, and one ends at or before the row where the other begins.
    pub open spec fn spec_pair_ok(
        layout: Layout,
        first: ((usize, usize), (usize, usize)),
        second: ((usize, usize), (usize, usize)),
    ) -> bool {
        &&& layout.contains_rect(
            first.0.0 as int,
            first.0.1 as int,
            first.1.0 as int,
            first.1.1 as int,
        )
        &&& layout.contains_rect(
            second.0.0 as int,
            second.0.1 as int,
            second.1.0 as int,
            second.1.1 as int,
        )
        &&& (first.1.0 <= second.0.0 || second.1.0 <= first.0.0)
    }

    /// Where the buffer is cut for the rectangle `upper` and the rectangle
    /// `lower` below it: at the first element of `lower`, or at the end where
    /// `lower` has no rows.
    pub open spec fn spec_cut_point(buf: Seq<T>, lower: Layout) -> int {
        if lower.nrows > 0 {
            lower.offset as int
        } else {
            buf.len() as int
        }
    }

    /// Whether `above` and `below` are the two views that come of cutting
    /// `buf` for the rectangles `upper` and `lower`: `above` has the front
    /// piece and the layout `upper`; `below` has the back piece and the layout
    /// `lower` with its offset counted from the cut.
    pub open spec fn spec_cut(
        buf: Seq<T>,
        upper: Layout,
        lower: Layout,
        above: MutView<'_, T>,
        below: MutView<'_, T>,
    ) -> bool {
        let p = Self::spec_cut_point(buf, lower);
        &&& above.buffer() == buf.subrange(0, p)
        &&& below.buffer() == buf.subrange(p, buf.len() as int)
        &&& above.layout == upper
        &&& below.layout == if lower.nrows > 0 {
            lower.rebase(p)
        } else {
            Layout { offset: 0, ..lower }
        }
    }

    /// Cuts `data` in two between the rectangle `upper` and the rectangle
    /// `lower`, which begins after `upper` ends, and hands each rectangle its
    /// piece.
    fn cut<'b>(data: &'b mut [T], upper: Layout, lower: Layout) -> (r: (
        MutView<'b, T>,
        MutView<'b, T>,
    ))
        requires
            upper.wf(),
            lower.wf(),
            upper.fits(old(data)@.len() as int),
            lower.fits(old(data)@.len() as int),
            upper.nrows > 0 && lower.nrows > 0 ==> upper.offset + (upper.nrows - 1) * upper.stride
                + upper.ncols <= lower.offset,
        ensures
            r.0.wf(),
            r.1.wf(),
            r.0@ == upper.grid(old(data)@),
            r.1@ == lower.grid(old(data)@),
            Self::spec_cut(old(data)@, upper, lower, r.0, r.1),
            final(data)@ == final(r.0.data)@ + final(r.1.data)@,
    {
        let ghost buf = data@;
        let n = data.len();
        let p = if lower.nrows > 0 {
            proof {
                lemma_mul_le(0, lower.nrows - 1, lower.stride as int);
            }
            lower.offset
        } else {
            n
        };
        let (head, tail) = data.split_at_mut(p);
        let below = if lower.nrows > 0 {
            Layout { offset: 0, nrows: lower.nrows, ncols: lower.ncols, stride: lower.stride }
        } else {
            Layout { offset: 0, nrows: 0, ncols: lower.ncols, stride: lower.stride }
        };
        proof {
            assert(head@ + tail@ =~= buf);
            upper.lemma_grid_prefix(head@, buf, p as int);
            if lower.nrows > 0 {
                lower.lemma_grid_rebase(buf, p as int);
                assert(below == lower.rebase(p as int));
            } else {
                below.grid(tail@).lemma_ext_equal(lower.grid(buf));
            }
        }
        (MutView { data: head, layout: upper }, MutView { data: tail, layout: below })
    }
}

} // verus!
