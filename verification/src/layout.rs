//! Shapes and strides: where the elements of a view lie in its buffer.
//!
//! A [`Layout`] places a rectangle in a row-major buffer and a [`Strided`]
//! places a one-dimensional run there. Neither holds the buffer: they are
//! plain index arithmetic, and everything that is proved about slicing,
//! transposition and aliasing is proved here once, for every view type.

use vstd::prelude::*;
use crate::grid::{diag_len, Grid};

verus! {

/// `a * s <= b * s` for `0 <= a <= b` and `0 <= s`.
pub proof fn lemma_mul_le(a: int, b: int, s: int)
    by (nonlinear_arith)
    requires
        0 <= a <= b,
        0 <= s,
    ensures
        0 <= a * s <= b * s,
{
}

/// `(a + b) * s == a * s + b * s`.
pub proof fn lemma_mul_add(a: int, b: int, s: int)
    by (nonlinear_arith)
    ensures
        (a + b) * s == a * s + b * s,
        (a - b) * s == a * s - b * s,
{
}

/// Two cells of a grid with row pitch `s` and fewer than `s` columns share
/// an index only if they are the same cell.
pub proof fn lemma_cell_unique(i: int, j: int, i2: int, j2: int, n: int, s: int)
    by (nonlinear_arith)
    requires
        0 <= j < n,
        0 <= j2 < n,
        n <= s,
        i * s + j == i2 * s + j2,
    ensures
        i == i2,
        j == j2,
{
}

/// A one-dimensional run of `len` elements: element `i` lies at index
/// `offset + i * stride` of the buffer.
#[derive(Clone, Copy, Debug, PartialEq, Eq, Structural)]
pub struct Strided {
    pub offset: usize,
    pub len: usize,
    pub stride: usize,
}

impl Strided {
    /// The run's far end is addressable: no index computed from it overflows.
    pub open spec fn wf(self) -> bool {
        self.offset + self.len * self.stride <= usize::MAX
    }

    /// Every element of the run lies inside a buffer of `n` elements.
    pub open spec fn fits(self, n: int) -> bool {
        self.len > 0 ==> self.offset + (self.len - 1) * self.stride < n
    }

    /// Index in the buffer of element `i`.
    pub open spec fn index(self, i: int) -> int {
        self.offset + i * self.stride
    }

    /// The elements of the run, read out of `buf`.
    pub open spec fn seq<T>(self, buf: Seq<T>) -> Seq<T> {
        Seq::new(self.len as nat, |i: int| buf[self.index(i)])
    }

    /// The run of elements `[a, b)` of this run.
    pub open spec fn sub(self, a: int, b: int) -> Strided {
        Strided {
            offset: (self.offset + a * self.stride) as usize,
            len: (b - a) as usize,
            stride: self.stride,
        }
    }

    /// Whether the run touches index `k` of the buffer.
    pub open spec fn covers(self, k: int) -> bool {
        exists|i: int| 0 <= i < self.len && #[trigger] self.index(i) == k
    }

    /// Elements of a valid run have indices inside the buffer.
    pub proof fn lemma_index_bound(self, n: int, i: int)
        requires
            self.wf(),
            self.fits(n),
            0 <= i < self.len,
        ensures
            0 <= self.index(i) < n,
            self.index(i) <= usize::MAX,
            0 <= i * self.stride <= usize::MAX,
    {
        lemma_mul_le(i, self.len - 1, self.stride as int);
        lemma_mul_le(self.len - 1, self.len as int, self.stride as int);
    }

    /// Different elements of a run with a stride of at least one lie at
    /// different indices.
    pub proof fn lemma_index_injective(self, i: int, i2: int)
        requires
            self.stride >= 1,
            self.index(i) == self.index(i2),
        ensures
            i == i2,
    {
        assert(i * self.stride == i2 * self.stride ==> i == i2) by (nonlinear_arith)
            requires
                self.stride >= 1,
        ;
    }

    /// A part of a valid run is a valid run over the same elements.
    pub proof fn lemma_sub(self, n: int, a: int, b: int)
        requires
            self.wf(),
            self.fits(n),
            0 <= a <= b <= self.len,
        ensures
            self.sub(a, b).offset == self.offset + a * self.stride,
            self.sub(a, b).len == b - a,
            self.sub(a, b).wf(),
            self.sub(a, b).fits(n),
            forall|i: int| 0 <= i < b - a ==> #[trigger] self.sub(a, b).index(i) == self.index(a + i),
    {
        let s = self.stride as int;
        lemma_mul_le(a, b, s);
        lemma_mul_le(b, self.len as int, s);
        lemma_mul_add(b, a, s);
        if b > a {
            lemma_mul_le(b - 1, self.len - 1, s);
            lemma_mul_add(b - 1, a, s);
        }
        assert forall|i: int| 0 <= i < b - a implies #[trigger] self.sub(a, b).index(i)
            == self.index(a + i) by {
            lemma_mul_add(a, i, s);
        }
    }

    /// The elements of a part of a run are the matching part of its elements.
    pub proof fn lemma_sub_seq<T>(self, buf: Seq<T>, a: int, b: int)
        requires
            self.wf(),
            self.fits(buf.len() as int),
            0 <= a <= b <= self.len,
        ensures
            self.sub(a, b).seq(buf) == self.seq(buf).subrange(a, b),
    {
        self.lemma_sub(buf.len() as int, a, b);
        assert(self.sub(a, b).seq(buf) =~= self.seq(buf).subrange(a, b));
    }

    /// Whether the run is valid and lies inside a buffer of `n` elements.
    pub fn check(&self, n: usize) -> (r: bool)
        ensures
            r == (self.wf() && self.fits(n as int)),
    {
        let span = match self.len.checked_mul(self.stride) {
            Some(span) => span,
            None => {
                return false;
            },
        };
        if self.offset.checked_add(span).is_none() {
            return false;
        }
        if self.len == 0 {
            return true;
        }
        proof {
            lemma_mul_le(self.len - 1, self.len as int, self.stride as int);
        }
        self.offset + (self.len - 1) * self.stride < n
    }

    /// Number of elements.
    pub fn len(&self) -> (n: usize)
        ensures
            n == self.len,
    {
        self.len
    }

    /// Index in the buffer of element `i`, or `None` where the run has no
    /// such element.
    pub fn at(&self, i: usize) -> (r: Option<usize>)
        requires
            self.wf(),
        ensures
            r == if i < self.len { Some(self.index(i as int) as usize) } else { None },
            i < self.len ==> r.unwrap() == self.index(i as int),
    {
        if i < self.len {
            proof {
                lemma_mul_le(i as int, self.len as int, self.stride as int);
            }
            Some(self.offset + i * self.stride)
        } else {
            None
        }
    }

    /// The run of elements `[start, end)`, or `None` unless
    /// `start <= end <= len`.
    pub fn slice(&self, start: usize, end: usize) -> (r: Option<Strided>)
        requires
            self.wf(),
        ensures
            r == if start <= end <= self.len {
                Some(self.sub(start as int, end as int))
            } else {
                None
            },
            r matches Some(s) ==> s.wf() && s.offset == self.offset + start * self.stride,
    {
        if start <= end && end <= self.len {
            proof {
                let s = self.stride as int;
                lemma_mul_le(start as int, end as int, s);
                lemma_mul_le(end as int, self.len as int, s);
                lemma_mul_add(end as int, start as int, s);
            }
            Some(
                Strided {
                    offset: self.offset + start * self.stride,
                    len: end - start,
                    stride: self.stride,
                },
            )
        } else {
            None
        }
    }
}

/// A rectangle of `nrows * ncols` elements in a row-major buffer: element
/// `(i, j)` lies at index `offset + i * stride + j`.
///
/// `stride` is the leading dimension, the distance between the starts of two
/// consecutive rows. It equals `ncols` only where the rows are packed.
#[derive(Clone, Copy, Debug, PartialEq, Eq, Structural)]
pub struct Layout {
    pub offset: usize,
    pub nrows: usize,
    pub ncols: usize,
    pub stride: usize,
}

impl Layout {
    /// Rows do not run into each other, and the far corner of the rectangle
    /// is addressable: no index computed from it overflows.
    pub open spec fn wf(self) -> bool {
        &&& self.ncols <= self.stride
        &&& self.offset + self.nrows * self.stride + self.ncols <= usize::MAX
    }

    /// Every element of the rectangle lies inside a buffer of `n` elements.
    pub open spec fn fits(self, n: int) -> bool {
        self.nrows > 0 ==> self.offset + (self.nrows - 1) * self.stride + self.ncols <= n
    }

    /// Whether the rectangle has an element at row `i`, column `j`.
    pub open spec fn in_range(self, i: int, j: int) -> bool {
        0 <= i < self.nrows && 0 <= j < self.ncols
    }

    /// Index in the buffer of element `(i, j)`.
    pub open spec fn index(self, i: int, j: int) -> int {
        self.offset + i * self.stride + j
    }

    /// The layout of `nrows` packed rows of `ncols` elements from index 0.
    pub open spec fn spec_packed(nrows: usize, ncols: usize) -> Layout {
        Layout { offset: 0, nrows, ncols, stride: ncols }
    }

    /// The elements of the rectangle, read out of `buf`.
    pub open spec fn grid<T>(self, buf: Seq<T>) -> Grid<T> {
        Grid::new(self.nrows as nat, self.ncols as nat, |i: int, j: int| buf[self.index(i, j)])
    }

    /// Whether `[r0, r1) x [c0, c1)` is a rectangle inside this one.
    pub open spec fn contains_rect(self, r0: int, c0: int, r1: int, c1: int) -> bool {
        0 <= r0 <= r1 <= self.nrows && 0 <= c0 <= c1 <= self.ncols
    }

    /// The layout of the sub-rectangle of rows `[r0, r1)` and columns
    /// `[c0, c1)`: the offset moves to element `(r0, c0)`, the stride stays.
    pub open spec fn sub(self, r0: int, c0: int, r1: int, c1: int) -> Layout {
        Layout {
            offset: (self.offset + r0 * self.stride + c0) as usize,
            nrows: (r1 - r0) as usize,
            ncols: (c1 - c0) as usize,
            stride: self.stride,
        }
    }

    /// Row `i` as a run: `ncols` consecutive elements.
    pub open spec fn spec_row(self, i: int) -> Strided {
        Strided { offset: (self.offset + i * self.stride) as usize, len: self.ncols, stride: 1 }
    }

    /// Column `j` as a run: `nrows` elements, one stride apart.
    pub open spec fn spec_col(self, j: int) -> Strided {
        Strided { offset: (self.offset + j) as usize, len: self.nrows, stride: self.stride }
    }

    /// Diagonal `k` as a run: its elements lie `stride + 1` apart.
    pub open spec fn spec_diag(self, k: int) -> Strided {
        Strided {
            offset: (if k >= 0 { self.offset + k } else { self.offset + (-k) * self.stride }) as usize,
            len: diag_len(self.nrows as int, self.ncols as int, k) as usize,
            stride: (self.stride + 1) as usize,
        }
    }

    /// Whether the rectangle touches index `k` of the buffer.
    pub open spec fn covers(self, k: int) -> bool {
        exists|i: int, j: int| self.in_range(i, j) && #[trigger] self.index(i, j) == k
    }

    /// Whether two rectangles, given by their corners in the coordinates of
    /// one matrix, have a cell in common.
    pub open spec fn rects_overlap(
        a0: (int, int),
        a1: (int, int),
        b0: (int, int),
        b1: (int, int),
    ) -> bool {
        &&& a0.0 < a1.0 && a0.1 < a1.1
        &&& b0.0 < b1.0 && b0.1 < b1.1
        &&& a0.0 < b1.0 && b0.0 < a1.0
        &&& a0.1 < b1.1 && b0.1 < a1.1
    }

    /// Elements of a valid rectangle have indices inside the buffer.
    pub proof fn lemma_index_bound(self, n: int, i: int, j: int)
        requires
            self.wf(),
            self.fits(n),
            self.in_range(i, j),
        ensures
            0 <= self.index(i, j) < n,
            self.index(i, j) <= usize::MAX,
            0 <= i * self.stride <= usize::MAX,
            self.offset + i * self.stride <= usize::MAX,
    {
        let s = self.stride as int;
        lemma_mul_le(i, self.nrows - 1, s);
        lemma_mul_le(self.nrows - 1, self.nrows as int, s);
    }

    /// The index of a corner `(i, j)` with `i <= nrows` and `j <= ncols` can
    /// be computed without overflow, also where no element lies there.
    pub proof fn lemma_index_bound_corner(self, i: int, j: int)
        requires
            self.wf(),
            0 <= i <= self.nrows,
            0 <= j <= self.ncols,
        ensures
            0 <= i * self.stride <= usize::MAX,
            self.offset + i * self.stride + j <= usize::MAX,
    {
        lemma_mul_le(i, self.nrows as int, self.stride as int);
    }

    /// Different elements of a valid rectangle lie at different indices.
    pub proof fn lemma_index_injective(self, i: int, j: int, i2: int, j2: int)
        requires
            self.wf(),
            self.in_range(i, j),
            self.in_range(i2, j2),
            self.index(i, j) == self.index(i2, j2),
        ensures
            i == i2,
            j == j2,
    {
        lemma_cell_unique(i, j, i2, j2, self.ncols as int, self.stride as int);
    }

    /// A sub-rectangle of a valid rectangle is valid, lies in the same
    /// buffer, and its element `(i, j)` is element `(r0 + i, c0 + j)` of the
    /// rectangle it was cut from.
    pub proof fn lemma_sub(self, n: int, r0: int, c0: int, r1: int, c1: int)
        requires
            self.wf(),
            self.fits(n),
            self.contains_rect(r0, c0, r1, c1),
        ensures
            self.sub(r0, c0, r1, c1).offset == self.offset + r0 * self.stride + c0,
            self.sub(r0, c0, r1, c1).nrows == r1 - r0,
            self.sub(r0, c0, r1, c1).ncols == c1 - c0,
            self.sub(r0, c0, r1, c1).wf(),
            self.sub(r0, c0, r1, c1).fits(n),
            forall|i: int, j: int|
                0 <= i < r1 - r0 && 0 <= j < c1 - c0 ==> #[trigger] self.sub(r0, c0, r1, c1).index(
                    i,
                    j,
                ) == self.index(r0 + i, c0 + j),
    {
        let s = self.stride as int;
        lemma_mul_le(r0, r1, s);
        lemma_mul_le(r1, self.nrows as int, s);
        lemma_mul_add(r1, r0, s);
        if r1 > r0 {
            lemma_mul_le(r1 - 1, self.nrows - 1, s);
            lemma_mul_add(r1 - 1, r0, s);
        }
        assert forall|i: int, j: int| 0 <= i < r1 - r0 && 0 <= j < c1 - c0 implies #[trigger] self.sub(
            r0,
            c0,
            r1,
            c1,
        ).index(i, j) == self.index(r0 + i, c0 + j) by {
            lemma_mul_add(r0, i, s);
        }
    }

    /// The elements of a sub-rectangle are the matching sub-rectangle of the
    /// elements.
    pub proof fn lemma_sub_grid<T>(self, buf: Seq<T>, r0: int, c0: int, r1: int, c1: int)
        requires
            self.wf(),
            self.fits(buf.len() as int),
            self.contains_rect(r0, c0, r1, c1),
        ensures
            self.sub(r0, c0, r1, c1).grid(buf) == self.grid(buf).sub(r0, c0, r1, c1),
    {
        self.lemma_sub(buf.len() as int, r0, c0, r1, c1);
        self.sub(r0, c0, r1, c1).grid(buf).lemma_ext_equal(self.grid(buf).sub(r0, c0, r1, c1));
    }

    /// A rectangle that fits in the first `p` elements shows the same
    /// elements in two buffers that agree on their first `p` elements.
    pub proof fn lemma_grid_prefix<T>(self, a: Seq<T>, b: Seq<T>, p: int)
        requires
            self.wf(),
            self.fits(p),
            forall|k: int| 0 <= k < p ==> a[k] == b[k],
        ensures
            self.grid(a) == self.grid(b),
    {
        assert forall|i: int, j: int| self.grid(a).in_range(i, j) implies self.grid(a).at(i, j)
            == self.grid(b).at(i, j) by {
            assert(self.in_range(i, j));
            self.lemma_index_bound(p, i, j);
        }
        self.grid(a).lemma_ext_equal(self.grid(b));
    }

    /// The same rectangle with its offset counted from index `p` of the
    /// buffer.
    pub open spec fn rebase(self, p: int) -> Layout {
        Layout { offset: (self.offset - p) as usize, ..self }
    }

    /// A rectangle that begins at or after index `p` shows, in the buffer
    /// from `p` on and with its offset counted from there, the elements that
    /// it shows in the whole buffer.
    pub proof fn lemma_grid_rebase<T>(self, buf: Seq<T>, p: int)
        requires
            self.wf(),
            self.fits(buf.len() as int),
            0 <= p <= self.offset,
            p <= buf.len(),
        ensures
            self.rebase(p).wf(),
            self.rebase(p).fits(buf.len() - p),
            self.rebase(p).grid(buf.subrange(p, buf.len() as int)) == self.grid(buf),
    {
        let r = self.rebase(p);
        let tail = buf.subrange(p, buf.len() as int);
        assert forall|i: int, j: int| r.grid(tail).in_range(i, j) implies r.grid(tail).at(i, j)
            == self.grid(buf).at(i, j) by {
            assert(self.in_range(i, j));
            self.lemma_index_bound(buf.len() as int, i, j);
            assert(r.index(i, j) == self.index(i, j) - p);
        }
        r.grid(tail).lemma_ext_equal(self.grid(buf));
    }

    /// Two sub-rectangles without a common cell touch no common index of the
    /// buffer: writing through one leaves every element of the other alone.
    pub proof fn law_disjoint_rects(
        self,
        n: int,
        a0: (int, int),
        a1: (int, int),
        b0: (int, int),
        b1: (int, int),
        k: int,
    )
        requires
            self.wf(),
            self.fits(n),
            self.contains_rect(a0.0, a0.1, a1.0, a1.1),
            self.contains_rect(b0.0, b0.1, b1.0, b1.1),
            !Self::rects_overlap(a0, a1, b0, b1),
        ensures
            !(self.sub(a0.0, a0.1, a1.0, a1.1).covers(k) && self.sub(b0.0, b0.1, b1.0, b1.1).covers(
                k,
            )),
    {
        let a = self.sub(a0.0, a0.1, a1.0, a1.1);
        let b = self.sub(b0.0, b0.1, b1.0, b1.1);
        self.lemma_sub(n, a0.0, a0.1, a1.0, a1.1);
        self.lemma_sub(n, b0.0, b0.1, b1.0, b1.1);
        if a.covers(k) && b.covers(k) {
            let (i, j) = choose|i: int, j: int| a.in_range(i, j) && #[trigger] a.index(i, j) == k;
            let (i2, j2) = choose|i: int, j: int| b.in_range(i, j) && #[trigger] b.index(i, j) == k;
            assert(a.index(i, j) == self.index(a0.0 + i, a0.1 + j));
            assert(b.index(i2, j2) == self.index(b0.0 + i2, b0.1 + j2));
            self.lemma_index_injective(a0.0 + i, a0.1 + j, b0.0 + i2, b0.1 + j2);
        }
    }

    /// Two sub-rectangles with a common cell touch a common index of the
    /// buffer: the index of that cell.
    pub proof fn law_overlapping_rects(
        self,
        n: int,
        a0: (int, int),
        a1: (int, int),
        b0: (int, int),
        b1: (int, int),
    ) -> (k: int)
        requires
            self.wf(),
            self.fits(n),
            self.contains_rect(a0.0, a0.1, a1.0, a1.1),
            self.contains_rect(b0.0, b0.1, b1.0, b1.1),
            Self::rects_overlap(a0, a1, b0, b1),
        ensures
            0 <= k < n,
            self.sub(a0.0, a0.1, a1.0, a1.1).covers(k),
            self.sub(b0.0, b0.1, b1.0, b1.1).covers(k),
    {
        let a = self.sub(a0.0, a0.1, a1.0, a1.1);
        let b = self.sub(b0.0, b0.1, b1.0, b1.1);
        self.lemma_sub(n, a0.0, a0.1, a1.0, a1.1);
        self.lemma_sub(n, b0.0, b0.1, b1.0, b1.1);
        let i = if a0.0 >= b0.0 { a0.0 } else { b0.0 };
        let j = if a0.1 >= b0.1 { a0.1 } else { b0.1 };
        self.lemma_index_bound(n, i, j);
        let k = self.index(i, j);
        assert(a.in_range(i - a0.0, j - a0.1) && a.index(i - a0.0, j - a0.1) == k);
        assert(b.in_range(i - b0.0, j - b0.1) && b.index(i - b0.0, j - b0.1) == k);
        k
    }

    /// Rows, columns and diagonals of a valid rectangle are valid runs in the
    /// same buffer.
    pub proof fn lemma_runs(self, n: int, k: int)
        requires
            self.wf(),
            self.fits(n),
        ensures
            0 <= k < self.nrows ==> self.spec_row(k).wf() && self.spec_row(k).fits(n)
                && self.spec_row(k).offset == self.offset + k * self.stride,
            0 <= k < self.ncols ==> self.spec_col(k).wf() && self.spec_col(k).fits(n)
                && self.spec_col(k).offset == self.offset + k,
            diag_len(self.nrows as int, self.ncols as int, k) > 0 ==> self.spec_diag(k).wf()
                && self.spec_diag(k).fits(n) && self.spec_diag(k).stride == self.stride + 1
                && self.spec_diag(k).len == diag_len(self.nrows as int, self.ncols as int, k)
                && self.spec_diag(k).offset == (if k >= 0 {
                self.offset + k
            } else {
                self.offset + (-k) * self.stride
            }),
    {
        let s = self.stride as int;
        let nr = self.nrows as int;
        if 0 <= k < self.nrows {
            lemma_mul_le(k, nr - 1, s);
            lemma_mul_le(nr - 1, nr, s);
        }
        if 0 <= k < self.ncols {
            if nr > 0 {
                lemma_mul_le(nr - 1, nr, s);
                lemma_mul_add(nr, 1, s);
            }
        }
        let len = diag_len(nr, self.ncols as int, k) as int;
        if len > 0 {
            lemma_mul_le(1, nr, s);
            lemma_mul_add(len, 1, s + 1);
            lemma_mul_add(s, 1, len);
            lemma_mul_add(s, 1, len - 1);
            assert(len * (s + 1) == len * s + len) by (nonlinear_arith);
            assert((len - 1) * (s + 1) == (len - 1) * s + len - 1) by (nonlinear_arith);
            if k >= 0 {
                lemma_mul_le(len, nr, s);
                lemma_mul_le(len - 1, nr - 1, s);
            } else {
                lemma_mul_le(len - k, nr, s);
                lemma_mul_le(len - 1 - k, nr - 1, s);
                lemma_mul_add(len, -k, s);
                lemma_mul_add(len - 1, -k, s);
                lemma_mul_le(0, -k, s);
            }
        }
    }

    /// The elements of the runs are the rows, columns and diagonals of the
    /// elements.
    pub proof fn lemma_runs_seq<T>(self, buf: Seq<T>, k: int)
        requires
            self.wf(),
            self.fits(buf.len() as int),
        ensures
            0 <= k < self.nrows ==> self.spec_row(k).seq(buf) == self.grid(buf).row(k),
            0 <= k < self.ncols ==> self.spec_col(k).seq(buf) == self.grid(buf).col(k),
            diag_len(self.nrows as int, self.ncols as int, k) > 0 ==> self.spec_diag(k).seq(buf)
                == self.grid(buf).diag(k),
    {
        let s = self.stride as int;
        self.lemma_runs(buf.len() as int, k);
        if 0 <= k < self.nrows {
            assert(self.spec_row(k).seq(buf) =~= self.grid(buf).row(k));
        }
        if 0 <= k < self.ncols {
            assert(self.spec_col(k).seq(buf) =~= self.grid(buf).col(k));
        }
        let len = diag_len(self.nrows as int, self.ncols as int, k) as int;
        if len > 0 {
            let d = self.spec_diag(k);
            assert forall|i: int| 0 <= i < len implies d.seq(buf)[i] == self.grid(buf).diag(k)[i] by {
                assert(i * (s + 1) == i * s + i) by (nonlinear_arith);
                if k < 0 {
                    lemma_mul_add(i, -k, s);
                }
            }
            assert(d.seq(buf) =~= self.grid(buf).diag(k));
        }
    }

    /// The layout of `nrows` packed rows of `ncols` elements, or `None` where
    /// a buffer of that shape would not be addressable.
    pub fn packed(nrows: usize, ncols: usize) -> (r: Option<Layout>)
        ensures
            r == if nrows * ncols + ncols <= usize::MAX {
                Some(Self::spec_packed(nrows, ncols))
            } else {
                None
            },
            r matches Some(l) ==> l.wf() && l.fits(nrows * ncols),
    {
        match nrows.checked_mul(ncols) {
            Some(n) => match n.checked_add(ncols) {
                Some(_) => {
                    proof {
                        if nrows > 0 {
                            lemma_mul_add(nrows as int, 1, ncols as int);
                        }
                    }
                    Some(Layout { offset: 0, nrows, ncols, stride: ncols })
                },
                None => None,
            },
            None => {
                proof {
                    lemma_mul_le(0, nrows as int, ncols as int);
                }
                None
            },
        }
    }

    /// Whether the rectangle is valid and lies inside a buffer of `n`
    /// elements.
    pub fn check(&self, n: usize) -> (r: bool)
        ensures
            r == (self.wf() && self.fits(n as int)),
    {
        if self.ncols > self.stride {
            return false;
        }
        let span = match self.nrows.checked_mul(self.stride) {
            Some(span) => span,
            None => {
                return false;
            },
        };
        let below = match self.offset.checked_add(span) {
            Some(below) => below,
            None => {
                return false;
            },
        };
        if below.checked_add(self.ncols).is_none() {
            return false;
        }
        if self.nrows == 0 {
            return true;
        }
        proof {
            lemma_mul_le(self.nrows - 1, self.nrows as int, self.stride as int);
        }
        self.offset + (self.nrows - 1) * self.stride + self.ncols <= n
    }

    /// Whether the rectangles `first` and `second`, each given as
    /// `(start, end)` with `start` inclusive and `end` exclusive, have a cell
    /// in common. Two rectangles that touch along an edge have none, and a
    /// rectangle without cells has none in common with any.
    pub fn overlap(
        first: ((usize, usize), (usize, usize)),
        second: ((usize, usize), (usize, usize)),
    ) -> (r: bool)
        ensures
            r == Self::rects_overlap(
                (first.0.0 as int, first.0.1 as int),
                (first.1.0 as int, first.1.1 as int),
                (second.0.0 as int, second.0.1 as int),
                (second.1.0 as int, second.1.1 as int),
            ),
    {
        let (a0, a1) = first;
        let (b0, b1) = second;
        a0.0 < a1.0 && a0.1 < a1.1 && b0.0 < b1.0 && b0.1 < b1.1 && a0.0 < b1.0 && b0.0 < a1.0
            && a0.1 < b1.1 && b0.1 < a1.1
    }

    /// Shape as `(rows, columns)`.
    pub fn size(&self) -> (r: (usize, usize))
        ensures
            r == (self.nrows, self.ncols),
    {
        (self.nrows, self.ncols)
    }

    /// Whether the rows follow each other without a gap.
    pub fn is_packed(&self) -> (r: bool)
        ensures
            r == (self.stride == self.ncols),
    {
        self.stride == self.ncols
    }

    /// Index in the buffer of element `(row, col)`, or `None` where the
    /// rectangle has no such element.
    pub fn at(&self, row: usize, col: usize) -> (r: Option<usize>)
        requires
            self.wf(),
        ensures
            r == if self.in_range(row as int, col as int) {
                Some(self.index(row as int, col as int) as usize)
            } else {
                None
            },
            self.in_range(row as int, col as int) ==> r.unwrap() == self.index(
                row as int,
                col as int,
            ),
    {
        if row < self.nrows && col < self.ncols {
            proof {
                lemma_mul_le(row as int, self.nrows as int, self.stride as int);
            }
            Some(self.offset + row * self.stride + col)
        } else {
            None
        }
    }

    /// The layout of the sub-rectangle from `start` (inclusive) to `end`
    /// (exclusive), both given as `(row, column)`; `None` unless
    /// `start <= end <= size` in both coordinates.
    pub fn slice(&self, start: (usize, usize), end: (usize, usize)) -> (r: Option<Layout>)
        requires
            self.wf(),
        ensures
            r == if self.contains_rect(start.0 as int, start.1 as int, end.0 as int, end.1 as int) {
                Some(self.sub(start.0 as int, start.1 as int, end.0 as int, end.1 as int))
            } else {
                None
            },
            r matches Some(l) ==> l.wf() && l.offset == self.offset + start.0 * self.stride
                + start.1 && l.nrows == end.0 - start.0 && l.ncols == end.1 - start.1 && l.stride
                == self.stride,
    {
        let (start_row, start_col) = start;
        let (end_row, end_col) = end;
        if start_row <= end_row && end_row <= self.nrows && start_col <= end_col && end_col
            <= self.ncols {
            proof {
                let s = self.stride as int;
                lemma_mul_le(start_row as int, end_row as int, s);
                lemma_mul_le(end_row as int, self.nrows as int, s);
                lemma_mul_add(end_row as int, start_row as int, s);
            }
            Some(
                Layout {
                    offset: self.offset + start_row * self.stride + start_col,
                    nrows: end_row - start_row,
                    ncols: end_col - start_col,
                    stride: self.stride,
                },
            )
        } else {
            None
        }
    }

    /// The layouts of two sub-rectangles at once, each given as
    /// `(start, end)` with `start` inclusive and `end` exclusive; `None`
    /// unless both lie in this rectangle and they have no cell in common.
    ///
    /// The two layouts touch no common index of the buffer, so that what is
    /// written through one is never read through the other.
    pub fn slice_pair(
        &self,
        first: ((usize, usize), (usize, usize)),
        second: ((usize, usize), (usize, usize)),
    ) -> (r: Option<(Layout, Layout)>)
        requires
            self.wf(),
        ensures
            r == if self.contains_rect(
                first.0.0 as int,
                first.0.1 as int,
                first.1.0 as int,
                first.1.1 as int,
            ) && self.contains_rect(
                second.0.0 as int,
                second.0.1 as int,
                second.1.0 as int,
                second.1.1 as int,
            ) && !Self::rects_overlap(
                (first.0.0 as int, first.0.1 as int),
                (first.1.0 as int, first.1.1 as int),
                (second.0.0 as int, second.0.1 as int),
                (second.1.0 as int, second.1.1 as int),
            ) {
                Some(
                    (
                        self.sub(
                            first.0.0 as int,
                            first.0.1 as int,
                            first.1.0 as int,
                            first.1.1 as int,
                        ),
                        self.sub(
                            second.0.0 as int,
                            second.0.1 as int,
                            second.1.0 as int,
                            second.1.1 as int,
                        ),
                    ),
                )
            } else {
                None
            },
            r matches Some((a, b)) ==> a.wf() && b.wf() && forall|k: int|
                !(#[trigger] a.covers(k) && b.covers(k)),
    {
        let a = match self.slice(first.0, first.1) {
            Some(a) => a,
            None => {
                return None;
            },
        };
        let b = match self.slice(second.0, second.1) {
            Some(b) => b,
            None => {
                return None;
            },
        };
        if Self::overlap(first, second) {
            return None;
        }
        proof {
            // Any buffer that reaches the far corner holds the rectangle.
            if self.nrows > 0 {
                lemma_mul_le(self.nrows - 1, self.nrows as int, self.stride as int);
            }
            let n = self.offset + self.nrows * self.stride + self.ncols;
            assert forall|k: int| !(#[trigger] a.covers(k) && b.covers(k)) by {
                self.law_disjoint_rects(
                    n,
                    (first.0.0 as int, first.0.1 as int),
                    (first.1.0 as int, first.1.1 as int),
                    (second.0.0 as int, second.0.1 as int),
                    (second.1.0 as int, second.1.1 as int),
                    k,
                );
            }
        }
        Some((a, b))
    }

    /// Row `i` as a run, or `None` where there is no such row.
    pub fn row(&self, i: usize) -> (r: Option<Strided>)
        requires
            self.wf(),
        ensures
            r == if i < self.nrows { Some(self.spec_row(i as int)) } else { None },
            r matches Some(s) ==> s.wf() && s.offset == self.offset + i * self.stride,
    {
        if i < self.nrows {
            proof {
                let s = self.stride as int;
                lemma_mul_le(i as int, self.nrows - 1, s);
                lemma_mul_le(self.nrows - 1, self.nrows as int, s);
                lemma_mul_add(self.nrows as int, 1, s);
            }
            Some(Strided { offset: self.offset + i * self.stride, len: self.ncols, stride: 1 })
        } else {
            None
        }
    }

    /// Column `j` as a run, or `None` where there is no such column.
    pub fn col(&self, j: usize) -> (r: Option<Strided>)
        requires
            self.wf(),
        ensures
            r == if j < self.ncols { Some(self.spec_col(j as int)) } else { None },
            r matches Some(s) ==> s.wf() && s.offset == self.offset + j,
    {
        if j < self.ncols {
            proof {
                lemma_mul_le(0, self.nrows as int, self.stride as int);
            }
            Some(Strided { offset: self.offset + j, len: self.nrows, stride: self.stride })
        } else {
            None
        }
    }

    /// Diagonal `k >= 0`, which starts at `(0, k)`, as a run; `None` where
    /// the rectangle has no such diagonal.
    pub fn diag_above(&self, k: usize) -> (r: Option<Strided>)
        requires
            self.wf(),
        ensures
            r == if diag_len(self.nrows as int, self.ncols as int, k as int) > 0 {
                Some(self.spec_diag(k as int))
            } else {
                None
            },
            r matches Some(s) ==> s.wf() && s.len == diag_len(
                self.nrows as int,
                self.ncols as int,
                k as int,
            ) && s.stride == self.stride + 1,
    {
        proof {
            self.lemma_diag_wf(k as int);
        }
        if self.nrows == 0 || k >= self.ncols {
            return None;
        }
        let room: usize = self.ncols - k;
        let len: usize = if self.nrows <= room { self.nrows } else { room };
        Some(Strided { offset: self.offset + k, len, stride: self.stride + 1 })
    }

    /// Diagonal `-k` for `k > 0`, which starts at `(k, 0)`, as a run; `None`
    /// where the rectangle has no such diagonal.
    pub fn diag_below(&self, k: usize) -> (r: Option<Strided>)
        requires
            self.wf(),
            k > 0,
        ensures
            r == if diag_len(self.nrows as int, self.ncols as int, -(k as int)) > 0 {
                Some(self.spec_diag(-(k as int)))
            } else {
                None
            },
            r matches Some(s) ==> s.wf() && s.len == diag_len(
                self.nrows as int,
                self.ncols as int,
                -(k as int),
            ) && s.stride == self.stride + 1,
    {
        proof {
            self.lemma_diag_wf(-(k as int));
        }
        if self.ncols == 0 || k >= self.nrows {
            return None;
        }
        let room: usize = self.nrows - k;
        let len: usize = if room <= self.ncols { room } else { self.ncols };
        proof {
            lemma_mul_le(k as int, self.nrows as int, self.stride as int);
        }
        Some(Strided { offset: self.offset + k * self.stride, len, stride: self.stride + 1 })
    }

    /// Diagonal `k` as a run, or `None` where the rectangle has no such
    /// diagonal: where it would be empty or start outside.
    pub fn diag(&self, k: isize) -> (r: Option<Strided>)
        requires
            self.wf(),
        ensures
            r == if diag_len(self.nrows as int, self.ncols as int, k as int) > 0 {
                Some(self.spec_diag(k as int))
            } else {
                None
            },
            r matches Some(s) ==> s.wf() && s.len == diag_len(
                self.nrows as int,
                self.ncols as int,
                k as int,
            ) && s.stride == self.stride + 1,
    {
        if k >= 0 {
            self.diag_above(k as usize)
        } else {
            self.diag_below(magnitude(k))
        }
    }

    /// A diagonal that has elements is a valid run.
    proof fn lemma_diag_wf(self, k: int)
        requires
            self.wf(),
        ensures
            diag_len(self.nrows as int, self.ncols as int, k) > 0 ==> self.spec_diag(k).wf()
                && self.spec_diag(k).stride == self.stride + 1 && self.spec_diag(k).len == diag_len(
                self.nrows as int,
                self.ncols as int,
                k,
            ) && self.spec_diag(k).offset == (if k >= 0 {
                self.offset + k
            } else {
                self.offset + (-k) * self.stride
            }) && self.stride < usize::MAX,
    {
        if diag_len(self.nrows as int, self.ncols as int, k) > 0 {
            // Any buffer that reaches the far corner holds the rectangle.
            lemma_mul_le(1, self.nrows as int, self.stride as int);
            lemma_mul_le(self.nrows - 1, self.nrows as int, self.stride as int);
            self.lemma_runs(self.offset + self.nrows * self.stride + self.ncols, k);
        }
    }
}

/// `-k` for a negative `k`, which may be too large for an `isize`.
pub fn magnitude(k: isize) -> (r: usize)
    requires
        k < 0,
    ensures
        r == -(k as int),
{
    (-(k + 1)) as usize + 1
}

} // verus!
