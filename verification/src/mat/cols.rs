//! Iteration over the columns of a matrix.

use vstd::prelude::*;
use crate::traits::{MatrixCol, MatrixShape};
use crate::vector::Col;

verus! {

/// The columns `[state, stop)` of `mat`, handed out one at a time from either
/// end.
pub struct Cols<M> {
    mat: M,
    state: usize,
    stop: usize,
}

impl<M: Copy + MatrixShape> Cols<M> {
    /// The matrix whose columns are handed out.
    pub closed spec fn mat(&self) -> M {
        self.mat
    }

    /// Index of the next column from the front.
    pub closed spec fn state(&self) -> usize {
        self.state
    }

    /// One past the index of the next column from the back.
    pub closed spec fn stop(&self) -> usize {
        self.stop
    }

    /// The columns left to hand out exist.
    pub open spec fn wf(&self) -> bool {
        &&& self.mat().wf()
        &&& self.state() <= self.stop() <= self.mat().spec_ncols()
    }

    /// All columns of `mat`, first to last.
    #[inline]
    pub fn new(mat: M) -> (r: Cols<M>)
        requires
            mat.wf(),
        ensures
            r.wf(),
            r.mat() == mat,
            r.state() == 0,
            r.stop() == mat.spec_ncols(),
    {
        Cols { mat: mat, state: 0, stop: mat.ncols() }
    }
}

impl<M: Copy + MatrixCol> Cols<M> {
    /// The columns left to hand out, in order from the front.
    pub open spec fn remaining(&self) -> Seq<Col<M::ColVector>> {
        Seq::new(
            (self.stop() - self.state()) as nat,
            |k: int| self.mat().spec_col(self.state() + k),
        )
    }

    /// The first column left, if any; the iterator moves past it.
    #[inline]
    pub fn next(&mut self) -> (r: Option<Col<M::ColVector>>)
        requires
            old(self).wf(),
        ensures
            final(self).wf(),
            final(self).mat() == old(self).mat(),
            final(self).stop() == old(self).stop(),
            final(self).state() == if old(self).state() < old(self).stop() {
                old(self).state() + 1
            } else {
                old(self).state() as int
            },
            r == if old(self).remaining().len() > 0 {
                Some(old(self).remaining().first())
            } else {
                None
            },
            final(self).remaining() == if old(self).remaining().len() > 0 {
                old(self).remaining().drop_first()
            } else {
                old(self).remaining()
            },
    {
        if self.state < self.stop {
            let state = self.state;
            self.state = state + 1;
            assert(self.remaining() =~= old(self).remaining().drop_first());
            Some(self.mat.col_unchecked(state))
        } else {
            None
        }
    }

    /// The last column left, if any; the iterator's end moves before it.
    #[inline]
    pub fn next_back(&mut self) -> (r: Option<Col<M::ColVector>>)
        requires
            old(self).wf(),
        ensures
            final(self).wf(),
            final(self).mat() == old(self).mat(),
            final(self).state() == old(self).state(),
            final(self).stop() == if old(self).state() < old(self).stop() {
                old(self).stop() - 1
            } else {
                old(self).stop() as int
            },
            r == if old(self).remaining().len() > 0 {
                Some(old(self).remaining().last())
            } else {
                None
            },
            final(self).remaining() == if old(self).remaining().len() > 0 {
                old(self).remaining().drop_last()
            } else {
                old(self).remaining()
            },
    {
        if self.state < self.stop {
            self.stop = self.stop - 1;
            assert(self.remaining() =~= old(self).remaining().drop_last());
            Some(self.mat.col_unchecked(self.stop))
        } else {
            None
        }
    }

    /// How many columns are left: a lower bound and an upper bound, which are
    /// always the same number. This holds in every state that the iterator
    /// can reach, whatever was taken from its front or its back before.
    #[inline]
    pub fn size_hint(&self) -> (r: (usize, Option<usize>))
        requires
            self.wf(),
        ensures
            r.0 == self.stop() - self.state(),
            r.0 == self.remaining().len(),
            r.1 == Some(r.0),
    {
        let exact = self.stop - self.state;

        (exact, Some(exact))
    }

    /// The rest of the iterator without its first `n` columns, or without any
    /// column where fewer than `n` are left.
    pub fn skip(self, n: usize) -> (r: Cols<M>)
        requires
            self.wf(),
        ensures
            r.wf(),
            r.mat() == self.mat(),
            r.stop() == self.stop(),
            r.remaining() == if n <= self.remaining().len() {
                self.remaining().subrange(n as int, self.remaining().len() as int)
            } else {
                Seq::empty()
            },
    {
        let left = self.stop - self.state;
        let state = if n <= left { self.state + n } else { self.stop };
        let r = Cols { mat: self.mat, state, stop: self.stop };
        proof {
            if n <= left {
                assert(r.remaining() =~= self.remaining().subrange(
                    n as int,
                    self.remaining().len() as int,
                ));
            } else {
                assert(r.remaining() =~= Seq::empty());
            }
        }
        r
    }

    /// Number of columns left; uses the iterator up.
    pub fn count(self) -> (n: usize)
        requires
            self.wf(),
        ensures
            n == self.remaining().len(),
    {
        self.stop - self.state
    }

    /// The columns left, first to last; uses the iterator up.
    pub fn collect(self) -> (v: Vec<Col<M::ColVector>>)
        requires
            self.wf(),
        ensures
            v@ == self.remaining(),
    {
        let mut it = self;
        let mut v: Vec<Col<M::ColVector>> = Vec::new();
        loop
            invariant
                it.wf(),
                v@ + it.remaining() == self.remaining(),
            ensures
                it.remaining().len() == 0,
            decreases it.remaining().len(),
        {
            let ghost before = it.remaining();
            match it.next() {
                Some(column) => {
                    v.push(column);
                    assert(v@ + it.remaining() =~= v@.drop_last() + before);
                },
                None => {
                    break ;
                },
            }
        }
        assert(v@ =~= v@ + it.remaining());
        v
    }

    /// The columns left, last to first; uses the iterator up.
    pub fn collect_rev(self) -> (v: Vec<Col<M::ColVector>>)
        requires
            self.wf(),
        ensures
            v@ == self.remaining().reverse(),
    {
        let mut it = self;
        let mut v: Vec<Col<M::ColVector>> = Vec::new();
        loop
            invariant
                it.wf(),
                it.remaining() + v@.reverse() == self.remaining(),
            ensures
                it.remaining().len() == 0,
            decreases it.remaining().len(),
        {
            let ghost before = it.remaining();
            match it.next_back() {
                Some(column) => {
                    v.push(column);
                    assert(it.remaining() + v@.reverse() =~= before + v@.drop_last().reverse());
                },
                None => {
                    break ;
                },
            }
        }
        assert(v@.reverse() =~= it.remaining() + v@.reverse());
        assert(v@ =~= v@.reverse().reverse());
        v
    }

    /// The iterator over all columns of a matrix holds as many columns as the
    /// matrix has, and its `k`-th column is column `k` of the matrix.
    pub proof fn law_all_columns(&self, k: int)
        requires
            self.wf(),
            self.state() == 0,
            self.stop() == self.mat().spec_ncols(),
        ensures
            self.remaining().len() == self.mat().spec_ncols(),
            0 <= k < self.mat().spec_ncols() ==> self.remaining()[k] == self.mat().spec_col(k),
    {
    }

    /// Going through the columns from the back gives the columns in reverse: after
    /// `k` columns were skipped at the front, the `i`-th column from the back is
    /// the column that is `i` places before the last of all.
    pub proof fn law_reverse_mirrors(&self, k: int, i: int)
        requires
            self.wf(),
            0 <= k < self.remaining().len(),
            0 <= i < self.remaining().len() - k,
        ensures
            self.remaining().subrange(k, self.remaining().len() as int).reverse()[i]
                == self.remaining()[self.remaining().len() - 1 - i],
            self.remaining().subrange(k, self.remaining().len() as int).reverse()
                == self.remaining().reverse().subrange(0, self.remaining().len() - k),
    {
        let all = self.remaining();
        let n = all.len() as int;
        assert(all.subrange(k, n).reverse() =~= all.reverse().subrange(0, n - k));
    }
}

} // verus!
