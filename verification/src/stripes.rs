//! Stripes: a matrix cut into blocks of whole columns, or of whole rows.
//!
//! The stripes of a matrix share no element and leave none out, so that each
//! can be worked on by itself.

use vstd::prelude::*;
use vstd::arithmetic::div_mod::{
    lemma_basic_div,
    lemma_div_minus_one,
    lemma_mod_sub_multiples_vanish,
    lemma_small_mod,
};
use crate::layout::Layout;
use crate::traits::MatrixShape;
use crate::view::MatView;

verus! {

/// Number of stripes of width `width` that `left` columns or rows make: the
/// last stripe may be narrower than the others.
pub open spec fn spec_stripe_count(left: int, width: int) -> int {
    if left % width == 0 {
        left / width
    } else {
        left / width + 1
    }
}

/// Taking one stripe leaves one stripe less.
pub proof fn lemma_stripe_count_step(left: int, width: int)
    requires
        0 < width,
        0 < left,
    ensures
        spec_stripe_count(left, width) >= 1,
        left >= width ==> spec_stripe_count(left - width, width) == spec_stripe_count(left, width)
            - 1,
        left < width ==> spec_stripe_count(left, width) == 1,
        spec_stripe_count(0, width) == 0,
{
    lemma_basic_div(0, width);
    lemma_small_mod(0, width as nat);
    if left >= width {
        lemma_div_minus_one(left, width);
        lemma_mod_sub_multiples_vanish(left, width);
        lemma_stripe_count_nonnegative(left - width, width);
    } else {
        lemma_basic_div(left, width);
        lemma_small_mod(left as nat, width as nat);
    }
}

/// There is never a negative number of stripes.
pub proof fn lemma_stripe_count_nonnegative(left: int, width: int)
    by (nonlinear_arith)
    requires
        0 < width,
        0 <= left,
    ensures
        spec_stripe_count(left, width) >= 0,
        spec_stripe_count(left, width) <= left,
{
}

/// Two stripes of one matrix, the columns `[c0, c1)` and the columns
/// `[d0, d1)` with `c1 <= d0`, touch no common index of the buffer.
pub proof fn law_stripes_disjoint(layout: Layout, n: int, c0: int, c1: int, d0: int, d1: int, k: int)
    requires
        layout.wf(),
        layout.fits(n),
        0 <= c0 <= c1 <= d0 <= d1 <= layout.ncols,
    ensures
        !(layout.sub(0, c0, layout.nrows as int, c1).covers(k) && layout.sub(
            0,
            d0,
            layout.nrows as int,
            d1,
        ).covers(k)),
{
    layout.law_disjoint_rects(
        n,
        (0, c0),
        (layout.nrows as int, c1),
        (0, d0),
        (layout.nrows as int, d1),
        k,
    );
}

/// The stripes of whole columns of a matrix, left to right.
pub struct VStripes<'a, T> {
    mat: MatView<'a, T>,
    width: usize,
    state: usize,
}

impl<'a, T> VStripes<'a, T> {
    /// The matrix that is cut into stripes.
    pub closed spec fn mat(&self) -> MatView<'a, T> {
        self.mat
    }

    /// Number of columns of each stripe but the last, which may have fewer.
    pub closed spec fn width(&self) -> usize {
        self.width
    }

    /// First column of the next stripe.
    pub closed spec fn state(&self) -> usize {
        self.state
    }

    /// The stripes left to hand out exist.
    pub open spec fn wf(&self) -> bool {
        &&& self.mat().wf()
        &&& self.width() > 0
        &&& self.state() <= self.mat().spec_ncols()
    }

    /// Number of stripes left.
    pub open spec fn spec_len(&self) -> int {
        spec_stripe_count(self.mat().spec_ncols() - self.state(), self.width() as int)
    }

    /// One past the last column of the next stripe.
    pub open spec fn spec_end(&self) -> int {
        if self.mat().spec_ncols() - self.state() < self.width() {
            self.mat().spec_ncols() as int
        } else {
            self.state() + self.width()
        }
    }

    /// The stripes of `width` columns of `mat`; `None` where `width` is zero.
    pub fn new(mat: MatView<'a, T>, width: usize) -> (r: Option<VStripes<'a, T>>)
        requires
            mat.wf(),
        ensures
            r is Some <==> width > 0,
            r matches Some(s) ==> s.wf() && s.mat() == mat && s.width() == width && s.state() == 0,
    {
        if width > 0 {
            Some(VStripes { mat, width, state: 0 })
        } else {
            None
        }
    }

    /// The next stripe, if any: the columns from `state` up to `width`
    /// columns further, or up to the last column where fewer are left.
    pub fn next(&mut self) -> (r: Option<MatView<'a, T>>)
        requires
            old(self).wf(),
        ensures
            final(self).wf(),
            final(self).mat() == old(self).mat(),
            final(self).width() == old(self).width(),
            r is Some <==> old(self).state() < old(self).mat().spec_ncols(),
            r is None ==> final(self).state() == old(self).state(),
            r matches Some(v) ==> {
                &&& v.wf()
                &&& v@ == old(self).mat()@.sub(
                    0,
                    old(self).state() as int,
                    old(self).mat().spec_nrows() as int,
                    old(self).spec_end(),
                )
                &&& v.data@ == old(self).mat().data@
                &&& v.layout == old(self).mat().layout.sub(
                    0,
                    old(self).state() as int,
                    old(self).mat().spec_nrows() as int,
                    old(self).spec_end(),
                )
                &&& final(self).state() == old(self).spec_end()
                &&& final(self).spec_len() == old(self).spec_len() - 1
            },
    {
        let ncols = self.mat.layout.ncols;
        if self.state < ncols {
            let left = ncols - self.state;
            let end = if left < self.width { ncols } else { self.state + self.width };
            proof {
                lemma_stripe_count_step(left as int, self.width as int);
            }
            let start = self.state;
            self.state = end;
            self.mat.slice((0, start), (self.mat.layout.nrows, end))
        } else {
            None
        }
    }

    /// How many stripes are left: a lower bound and an upper bound, which are
    /// always the same number.
    pub fn size_hint(&self) -> (r: (usize, Option<usize>))
        requires
            self.wf(),
        ensures
            r.0 == self.spec_len(),
            r.1 == Some(r.0),
    {
        let left = self.mat.layout.ncols - self.state;
        proof {
            lemma_stripe_count_nonnegative(left as int, self.width as int);
        }
        let exact = if left % self.width == 0 { left / self.width } else { left / self.width + 1 };
        (exact, Some(exact))
    }
}

/// The stripes of whole rows of a matrix, top to bottom.
pub struct HStripes<'a, T> {
    mat: MatView<'a, T>,
    width: usize,
    state: usize,
}

impl<'a, T> HStripes<'a, T> {
    /// The matrix that is cut into stripes.
    pub closed spec fn mat(&self) -> MatView<'a, T> {
        self.mat
    }

    /// Number of rows of each stripe but the last, which may have fewer.
    pub closed spec fn width(&self) -> usize {
        self.width
    }

    /// First row of the next stripe.
    pub closed spec fn state(&self) -> usize {
        self.state
    }

    /// The stripes left to hand out exist.
    pub open spec fn wf(&self) -> bool {
        &&& self.mat().wf()
        &&& self.width() > 0
        &&& self.state() <= self.mat().spec_nrows()
    }

    /// Number of stripes left.
    pub open spec fn spec_len(&self) -> int {
        spec_stripe_count(self.mat().spec_nrows() - self.state(), self.width() as int)
    }

    /// One past the last row of the next stripe.
    pub open spec fn spec_end(&self) -> int {
        if self.mat().spec_nrows() - self.state() < self.width() {
            self.mat().spec_nrows() as int
        } else {
            self.state() + self.width()
        }
    }

    /// The stripes of `width` rows of `mat`; `None` where `width` is zero.
    pub fn new(mat: MatView<'a, T>, width: usize) -> (r: Option<HStripes<'a, T>>)
        requires
            mat.wf(),
        ensures
            r is Some <==> width > 0,
            r matches Some(s) ==> s.wf() && s.mat() == mat && s.width() == width && s.state() == 0,
    {
        if width > 0 {
            Some(HStripes { mat, width, state: 0 })
        } else {
            None
        }
    }

    /// The next stripe, if any: the rows from `state` up to `width`
    /// rows further, or up to the last row where fewer are left.
    pub fn next(&mut self) -> (r: Option<MatView<'a, T>>)
        requires
            old(self).wf(),
        ensures
            final(self).wf(),
            final(self).mat() == old(self).mat(),
            final(self).width() == old(self).width(),
            r is Some <==> old(self).state() < old(self).mat().spec_nrows(),
            r is None ==> final(self).state() == old(self).state(),
            r matches Some(v) ==> {
                &&& v.wf()
                &&& v@ == old(self).mat()@.sub(
                    old(self).state() as int,
                    0,
                    old(self).spec_end(),
                    old(self).mat().spec_ncols() as int,
                )
                &&& v.data@ == old(self).mat().data@
                &&& v.layout == old(self).mat().layout.sub(
                    old(self).state() as int,
                    0,
                    old(self).spec_end(),
                    old(self).mat().spec_ncols() as int,
                )
                &&& final(self).state() == old(self).spec_end()
                &&& final(self).spec_len() == old(self).spec_len() - 1
            },
    {
        let nrows = self.mat.layout.nrows;
        if self.state < nrows {
            let left = nrows - self.state;
            let end = if left < self.width { nrows } else { self.state + self.width };
            proof {
                lemma_stripe_count_step(left as int, self.width as int);
            }
            let start = self.state;
            self.state = end;
            self.mat.slice((start, 0), (end, self.mat.layout.ncols))
        } else {
            None
        }
    }

    /// How many stripes are left: a lower bound and an upper bound, which are
    /// always the same number.
    pub fn size_hint(&self) -> (r: (usize, Option<usize>))
        requires
            self.wf(),
        ensures
            r.0 == self.spec_len(),
            r.1 == Some(r.0),
    {
        let left = self.mat.layout.nrows - self.state;
        proof {
            lemma_stripe_count_nonnegative(left as int, self.width as int);
        }
        let exact = if left % self.width == 0 { left / self.width } else { left / self.width + 1 };
        (exact, Some(exact))
    }
}

} // verus!
