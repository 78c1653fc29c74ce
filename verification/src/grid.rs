//! The mathematical model of a matrix: a rectangle of elements.

use vstd::prelude::*;

verus! {

/// A rectangle of `nrows * ncols` elements, stored as a sequence of rows.
///
/// The shape is kept beside the rows so that a rectangle without rows still
/// knows how many columns it has.
#[verifier::ext_equal]
pub struct Grid<T> {
    pub nrows: nat,
    pub ncols: nat,
    pub rows: Seq<Seq<T>>,
}

/// Number of elements on diagonal `k` of an `nrows * ncols` rectangle.
///
/// Diagonal `0` is the main diagonal, diagonal `k > 0` starts at `(0, k)` and
/// diagonal `k < 0` starts at `(-k, 0)`. A diagonal that lies outside the
/// rectangle has length zero.
pub open spec fn diag_len(nrows: int, ncols: int, k: int) -> nat {
    let n = if k >= 0 {
        if nrows <= ncols - k { nrows } else { ncols - k }
    } else {
        if nrows + k <= ncols { nrows + k } else { ncols }
    };
    if n > 0 { n as nat } else { 0 }
}

impl<T> Grid<T> {
    /// Every row is present and has `ncols` elements.
    pub open spec fn wf(self) -> bool {
        &&& self.rows.len() == self.nrows
        &&& forall|i: int| 0 <= i < self.nrows ==> (#[trigger] self.rows[i]).len() == self.ncols
    }

    /// The rectangle whose element `(i, j)` is `f(i, j)`.
    pub open spec fn new(nrows: nat, ncols: nat, f: spec_fn(int, int) -> T) -> Grid<T> {
        Grid { nrows, ncols, rows: Seq::new(nrows, |i: int| Seq::new(ncols, |j: int| f(i, j))) }
    }

    /// Whether the rectangle has an element at row `i`, column `j`.
    pub open spec fn in_range(self, i: int, j: int) -> bool {
        0 <= i < self.nrows && 0 <= j < self.ncols
    }

    /// Element at row `i`, column `j`.
    pub open spec fn at(self, i: int, j: int) -> T
        recommends
            self.in_range(i, j),
    {
        self.rows[i][j]
    }

    /// Whether `[r0, r1) x [c0, c1)` is a rectangle inside this one.
    pub open spec fn contains_rect(self, r0: int, c0: int, r1: int, c1: int) -> bool {
        0 <= r0 <= r1 <= self.nrows && 0 <= c0 <= c1 <= self.ncols
    }

    /// The sub-rectangle of rows `[r0, r1)` and columns `[c0, c1)`.
    pub open spec fn sub(self, r0: int, c0: int, r1: int, c1: int) -> Grid<T>
        recommends
            self.contains_rect(r0, c0, r1, c1),
    {
        Grid::new((r1 - r0) as nat, (c1 - c0) as nat, |i: int, j: int| self.at(r0 + i, c0 + j))
    }

    /// Rows and columns exchanged.
    pub open spec fn transpose(self) -> Grid<T> {
        Grid::new(self.ncols, self.nrows, |i: int, j: int| self.at(j, i))
    }

    /// Row `i`, left to right.
    pub open spec fn row(self, i: int) -> Seq<T>
        recommends
            0 <= i < self.nrows,
    {
        self.rows[i]
    }

    /// Column `j`, top to bottom.
    pub open spec fn col(self, j: int) -> Seq<T>
        recommends
            0 <= j < self.ncols,
    {
        Seq::new(self.nrows, |i: int| self.at(i, j))
    }

    /// Diagonal `k`, from its top-left end to its bottom-right end.
    pub open spec fn diag(self, k: int) -> Seq<T> {
        Seq::new(
            diag_len(self.nrows as int, self.ncols as int, k),
            |i: int| if k >= 0 { self.at(i, i + k) } else { self.at(i - k, i) },
        )
    }

    /// Two well-formed rectangles of the same shape with the same elements
    /// are equal.
    pub proof fn lemma_ext_equal(self, other: Grid<T>)
        requires
            self.wf(),
            other.wf(),
            self.nrows == other.nrows,
            self.ncols == other.ncols,
            forall|i: int, j: int| self.in_range(i, j) ==> self.at(i, j) == other.at(i, j),
        ensures
            self == other,
    {
        assert forall|i: int| 0 <= i < self.nrows implies self.rows[i] =~= other.rows[i] by {
            assert forall|j: int| 0 <= j < self.ncols implies self.rows[i][j] == other.rows[i][j] by {
                assert(self.at(i, j) == other.at(i, j));
            }
        }
        assert(self.rows =~= other.rows);
        assert(self =~= other);
    }

    /// Reading element `(i, j)` of a sub-rectangle reads element
    /// `(r0 + i, c0 + j)` of the rectangle it was cut from.
    pub proof fn law_sub_at(self, r0: int, c0: int, r1: int, c1: int, i: int, j: int)
        requires
            self.contains_rect(r0, c0, r1, c1),
            0 <= i < r1 - r0,
            0 <= j < c1 - c0,
        ensures
            self.sub(r0, c0, r1, c1).nrows == r1 - r0,
            self.sub(r0, c0, r1, c1).ncols == c1 - c0,
            self.sub(r0, c0, r1, c1).in_range(i, j),
            self.in_range(r0 + i, c0 + j),
            self.sub(r0, c0, r1, c1).at(i, j) == self.at(r0 + i, c0 + j),
    {
    }

    /// Cutting a rectangle out of a sub-rectangle is cutting it out of the
    /// whole rectangle, with the offsets added.
    pub proof fn law_sub_sub(
        self,
        r0: int,
        c0: int,
        r1: int,
        c1: int,
        s0: int,
        d0: int,
        s1: int,
        d1: int,
    )
        requires
            self.contains_rect(r0, c0, r1, c1),
            self.sub(r0, c0, r1, c1).contains_rect(s0, d0, s1, d1),
        ensures
            self.contains_rect(r0 + s0, c0 + d0, r0 + s1, c0 + d1),
            self.sub(r0, c0, r1, c1).sub(s0, d0, s1, d1) == self.sub(
                r0 + s0,
                c0 + d0,
                r0 + s1,
                c0 + d1,
            ),
    {
        let a = self.sub(r0, c0, r1, c1).sub(s0, d0, s1, d1);
        let b = self.sub(r0 + s0, c0 + d0, r0 + s1, c0 + d1);
        a.lemma_ext_equal(b);
    }

    /// The whole rectangle is a sub-rectangle of itself.
    pub proof fn law_sub_full(self)
        requires
            self.wf(),
        ensures
            self.sub(0, 0, self.nrows as int, self.ncols as int) == self,
    {
        self.sub(0, 0, self.nrows as int, self.ncols as int).lemma_ext_equal(self);
    }

    /// Element `(i, j)` of the transpose is element `(j, i)` of the rectangle.
    pub proof fn law_transpose_at(self, i: int, j: int)
        requires
            0 <= i < self.ncols,
            0 <= j < self.nrows,
        ensures
            self.transpose().nrows == self.ncols,
            self.transpose().ncols == self.nrows,
            self.transpose().wf(),
            self.transpose().at(i, j) == self.at(j, i),
    {
    }

    /// Transposing twice gives the rectangle back, element for element, for
    /// every shape: also for one without rows or without columns.
    pub proof fn law_transpose_involution(self)
        requires
            self.wf(),
        ensures
            self.transpose().transpose() == self,
    {
        self.transpose().transpose().lemma_ext_equal(self);
    }

    /// A row of the transpose is a column of the rectangle, and a column of
    /// the transpose is a row of the rectangle.
    pub proof fn law_transpose_row_col(self, k: int)
        requires
            self.wf(),
        ensures
            0 <= k < self.ncols ==> self.transpose().row(k) == self.col(k),
            0 <= k < self.nrows ==> self.transpose().col(k) == self.row(k),
    {
        if 0 <= k < self.ncols {
            assert(self.transpose().row(k) =~= self.col(k));
        }
        if 0 <= k < self.nrows {
            assert(self.transpose().col(k) =~= self.row(k));
        }
    }

    /// The transpose of a sub-rectangle is the matching sub-rectangle of the
    /// transpose.
    pub proof fn law_transpose_sub(self, r0: int, c0: int, r1: int, c1: int)
        requires
            self.wf(),
            self.contains_rect(r0, c0, r1, c1),
        ensures
            self.sub(r0, c0, r1, c1).transpose() == self.transpose().sub(c0, r0, c1, r1),
    {
        self.sub(r0, c0, r1, c1).transpose().lemma_ext_equal(self.transpose().sub(c0, r0, c1, r1));
    }

    /// Diagonal `k` of the transpose is diagonal `-k` of the rectangle.
    pub proof fn law_transpose_diag(self, k: int)
        requires
            self.wf(),
        ensures
            self.transpose().diag(k) == self.diag(-k),
    {
        assert(self.transpose().diag(k) =~= self.diag(-k));
    }
}

} // verus!
