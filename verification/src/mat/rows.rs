//! Iteration over the rows of a matrix.

use vstd::prelude::*;
use crate::traits::{MatrixRow, MatrixShape};
use crate::vector::Row;

verus! {

/// The rows `[state, stop)` of `mat`, handed out one at a time from either
/// end.
pub struct Rows<M> {
    mat: M,
    state: usize,
    stop: usize,
}

impl<M: Copy + MatrixShape> Rows<M> {
    /// The matrix whose rows are handed out.
    pub closed spec fn mat(&self) -> M {
        self.mat
    }

    /// Index of the next row from the front.
    pub closed spec fn state(&self) -> usize {
        self.state
    }

    /// One past the index of the next row from the back.
    pub closed spec fn stop(&self) -> usize {
        self.stop
    }

    /// The rows left to hand out exist.
    pub open spec fn wf(&self) -> bool {
        &&& self.mat().wf()
        &&& self.state() <= self.stop() <= self.mat().spec_nrows()
    }

    /// All rows of `mat`, first to last.
    #[inline]
    pub fn new(mat: M) -> (r: Rows<M>)
        requires
            mat.wf(),
        ensures
            r.wf(),
            r.mat() == mat,
            r.state() == 0,
            r.stop() == mat.spec_nrows(),
    {
        Rows { mat: mat, state: 0, stop: mat.nrows() }
    }
}

impl<M: Copy + MatrixRow> Rows<M> {
    /// The rows left to hand out, in order from the front.
    pub open spec fn remaining(&self) -> Seq<Row<M::RowVector>> {
        Seq::new(
            (self.stop() - self.state()) as nat,
            |k: int| self.mat().spec_row(self.state() + k),
        )
    }

    /// The first row left, if any; the iterator moves past it.
    #[inline]
    pub fn next(&mut self) -> (r: Option<Row<M::RowVector>>)
        requires
            old(self).wf(),
        ensures
            final(self).wf(),
            final(self).mat() == old(self).mat(),
            final(self).stop() == old(self).stop(),
            final(self).state() == if old(self).state() < old(self).stop() {
                old(self).state() + 1
            } else {
                old(self).state() as int
            },
            r == if old(self).remaining().len() > 0 {
                Some(old(self).remaining().first())
            } else {
                None
            },
            final(self).remaining() == if old(self).remaining().len() > 0 {
                old(self).remaining().drop_first()
            } else {
                old(self).remaining()
            },
    {
        if self.state < self.stop {
            let state = self.state;
            self.state = state + 1;
            assert(self.remaining() =~= old(self).remaining().drop_first());
            Some(self.mat.row_unchecked(state))
        } else {
            None
        }
    }

    /// The last row left, if any; the iterator's end moves before it.
    #[inline]
    pub fn next_back(&mut self) -> (r: Option<Row<M::RowVector>>)
        requires
            old(self).wf(),
        ensures
            final(self).wf(),
            final(self).mat() == old(self).mat(),
            final(self).state() == old(self).state(),
            final(self).stop() == if old(self).state() < old(self).stop() {
                old(self).stop() - 1
            } else {
                old(self).stop() as int
            },
            r == if old(self).remaining().len() > 0 {
                Some(old(self).remaining().last())
            } else {
                None
            },
            final(self).remaining() == if old(self).remaining().len() > 0 {
                old(self).remaining().drop_last()
            } else {
                old(self).remaining()
            },
    {
        if self.state < self.stop {
            self.stop = self.stop - 1;
            assert(self.remaining() =~= old(self).remaining().drop_last());
            Some(self.mat.row_unchecked(self.stop))
        } else {
            None
        }
    }

    /// How many rows are left: a lower bound and an upper bound, which are
    /// always the same number. This holds in every state that the iterator
    /// can reach, whatever was taken from its front or its back before.
    #[inline]
    pub fn size_hint(&self) -> (r: (usize, Option<usize>))
        requires
            self.wf(),
        ensures
            r.0 == self.stop() - self.state(),
            r.0 == self.remaining().len(),
            r.1 == Some(r.0),
    {
        let exact = self.stop - self.state;

        (exact, Some(exact))
    }

    /// The rest of the iterator without its first `n` rows, or without any
    /// row where fewer than `n` are left.
    pub fn skip(self, n: usize) -> (r: Rows<M>)
        requires
            self.wf(),
        ensures
            r.wf(),
            r.mat() == self.mat(),
            r.stop() == self.stop(),
            r.remaining() == if n <= self.remaining().len() {
                self.remaining().subrange(n as int, self.remaining().len() as int)
            } else {
                Seq::empty()
            },
    {
        let left = self.stop - self.state;
        let state = if n <= left { self.state + n } else { self.stop };
        let r = Rows { mat: self.mat, state, stop: self.stop };
        proof {
            if n <= left {
                assert(r.remaining() =~= self.remaining().subrange(
                    n as int,
                    self.remaining().len() as int,
                ));
            } else {
                assert(r.remaining() =~= Seq::empty());
            }
        }
        r
    }

    /// Number of rows left; uses the iterator up.
    pub fn count(self) -> (n: usize)
        requires
            self.wf(),
        ensures
            n == self.remaining().len(),
    {
        self.stop - self.state
    }

    /// The rows left, first to last; uses the iterator up.
    pub fn collect(self) -> (v: Vec<Row<M::RowVector>>)
        requires
            self.wf(),
        ensures
            v@ == self.remaining(),
    {
        let mut it = self;
        let mut v: Vec<Row<M::RowVector>> = Vec::new();
        loop
            invariant
                it.wf(),
                v@ + it.remaining() == self.remaining(),
            ensures
                it.remaining().len() == 0,
            decreases it.remaining().len(),
        {
            let ghost before = it.remaining();
            match it.next() {
                Some(row) => {
                    v.push(row);
                    assert(v@ + it.remaining() =~= v@.drop_last() + before);
                },
                None => {
                    break ;
                },
            }
        }
        assert(v@ =~= v@ + it.remaining());
        v
    }

    /// The rows left, last to first; uses the iterator up.
    pub fn collect_rev(self) -> (v: Vec<Row<M::RowVector>>)
        requires
            self.wf(),
        ensures
            v@ == self.remaining().reverse(),
    {
        let mut it = self;
        let mut v: Vec<Row<M::RowVector>> = Vec::new();
        loop
            invariant
                it.wf(),
                it.remaining() + v@.reverse() == self.remaining(),
            ensures
                it.remaining().len() == 0,
            decreases it.remaining().len(),
        {
            let ghost before = it.remaining();
            match it.next_back() {
                Some(row) => {
                    v.push(row);
                    assert(it.remaining() + v@.reverse() =~= before + v@.drop_last().reverse());
                },
                None => {
                    break ;
                },
            }
        }
        assert(v@.reverse() =~= it.remaining() + v@.reverse());
        assert(v@ =~= v@.reverse().reverse());
        v
    }

    /// The iterator over all rows of a matrix holds as many rows as the
    /// matrix has, and its `k`-th row is row `k` of the matrix.
    pub proof fn law_all_rows(&self, k: int)
        requires
            self.wf(),
            self.state() == 0,
            self.stop() == self.mat().spec_nrows(),
        ensures
            self.remaining().len() == self.mat().spec_nrows(),
            0 <= k < self.mat().spec_nrows() ==> self.remaining()[k] == self.mat().spec_row(k),
    {
    }

    /// Going through the rows from the back gives the rows in reverse: after
    /// `k` rows were skipped at the front, the `i`-th row from the back is
    /// the row that is `i` places before the last of all.
    pub proof fn law_reverse_mirrors(&self, k: int, i: int)
        requires
            self.wf(),
            0 <= k < self.remaining().len(),
            0 <= i < self.remaining().len() - k,
        ensures
            self.remaining().subrange(k, self.remaining().len() as int).reverse()[i]
                == self.remaining()[self.remaining().len() - 1 - i],
            self.remaining().subrange(k, self.remaining().len() as int).reverse()
                == self.remaining().reverse().subrange(0, self.remaining().len() - k),
    {
        let all = self.remaining();
        let n = all.len() as int;
        assert(all.subrange(k, n).reverse() =~= all.reverse().subrange(0, n - k));
    }
}

} // verus!
