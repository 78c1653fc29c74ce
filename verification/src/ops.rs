//! Element-wise operators and reductions, for any element type.
//!
//! The arithmetic of the elements is the caller's: each operator takes the
//! scalar operation as a function and applies it in a fixed order. What is
//! proved here is the traversal: which elements are combined with which,
//! where each result is written, and that nothing else is touched.

use vstd::prelude::*;
use crate::error::Error;
use crate::mutview::MutView;
use crate::traits::{MatrixRead, MatrixShape};
use crate::vector::{MutSlice, Slice};

verus! {

impl<'a, T> MutView<'a, T> {
    /// Replaces every element `x` of the view by `f(x)`, row by row.
    ///
    /// Scaling is `apply` with a multiplication by the factor.
    pub fn apply<F: Fn(&T) -> T>(&mut self, f: F)
        requires
            old(self).wf(),
            forall|i: int, j: int|
                old(self)@.in_range(i, j) ==> call_requires(f, (&#[trigger] old(self)@.at(i, j),)),
        ensures
            final(self).wf(),
            final(self).layout == old(self).layout,
            final(final(self).data)@ == final(old(self).data)@,
            final(self).buffer().len() == old(self).buffer().len(),
            forall|i: int, j: int|
                old(self)@.in_range(i, j) ==> call_ensures(
                    f,
                    (&old(self)@.at(i, j),),
                    #[trigger] final(self)@.at(i, j),
                ),
            forall|k: int|
                0 <= k < old(self).buffer().len() && !old(self).layout.covers(k)
                    ==> final(self).buffer()[k] == old(self).buffer()[k],
    {
        let layout = self.layout;
        let ghost start = self.data@;
        let ghost n = self.data@.len() as int;
        proof {
            assert forall|r: int, c: int| layout.in_range(r, c) implies call_requires(
                f,
                (&#[trigger] start[layout.index(r, c)],),
            ) by {
                assert(old(self)@.in_range(r, c));
                assert(old(self)@.at(r, c) == start[layout.index(r, c)]);
            }
        }
        let mut i: usize = 0;
        while i < layout.nrows
            invariant
                i <= layout.nrows,
                self.layout == layout,
                layout.wf(),
                layout.fits(n),
                self.data@.len() == n,
                start.len() == n,
                final(self.data)@ == final(old(self).data)@,
                forall|r: int, c: int|
                    layout.in_range(r, c) ==> call_requires(
                        f,
                        (&#[trigger] start[layout.index(r, c)],),
                    ),
                forall|r: int, c: int|
                    layout.in_range(r, c) && r < i ==> call_ensures(
                        f,
                        (&start[layout.index(r, c)],),
                        #[trigger] self.data@[layout.index(r, c)],
                    ),
                forall|r: int, c: int|
                    layout.in_range(r, c) && r >= i ==> #[trigger] self.data@[layout.index(r, c)]
                        == start[layout.index(r, c)],
                forall|k: int| 0 <= k < n && !layout.covers(k) ==> self.data@[k] == start[k],
            decreases layout.nrows - i,
        {
            let mut j: usize = 0;
            while j < layout.ncols
                invariant
                    i < layout.nrows,
                    j <= layout.ncols,
                    self.layout == layout,
                    layout.wf(),
                    layout.fits(n),
                    self.data@.len() == n,
                    start.len() == n,
                    final(self.data)@ == final(old(self).data)@,
                    forall|r: int, c: int|
                        layout.in_range(r, c) ==> call_requires(
                            f,
                            (&#[trigger] start[layout.index(r, c)],),
                        ),
                    forall|r: int, c: int|
                        layout.in_range(r, c) && (r < i || (r == i && c < j)) ==> call_ensures(
                            f,
                            (&start[layout.index(r, c)],),
                            #[trigger] self.data@[layout.index(r, c)],
                        ),
                    forall|r: int, c: int|
                        layout.in_range(r, c) && !(r < i || (r == i && c < j))
                            ==> #[trigger] self.data@[layout.index(r, c)] == start[layout.index(
                            r,
                            c,
                        )],
                    forall|k: int| 0 <= k < n && !layout.covers(k) ==> self.data@[k] == start[k],
                decreases layout.ncols - j,
            {
                proof {
                    layout.lemma_index_bound(n, i as int, j as int);
                }
                let k = layout.offset + i * layout.stride + j;
                let ghost before = self.data@;
                assert(before[k as int] == start[layout.index(i as int, j as int)]);
                assert(layout.in_range(i as int, j as int));
                let v = f(&self.data[k]);
                self.data[k] = v;
                proof {
                    assert(layout.in_range(i as int, j as int) && layout.index(i as int, j as int)
                        == k);
                    assert(layout.covers(k as int));
                    assert forall|r: int, c: int|
                        layout.in_range(r, c) && !(r == i && c == j) implies #[trigger] self.data@[layout.index(
                        r,
                        c,
                    )] == before[layout.index(r, c)] by {
                        if layout.index(r, c) == k {
                            layout.lemma_index_injective(r, c, i as int, j as int);
                        }
                        layout.lemma_index_bound(n, r, c);
                    }
                }
                j = j + 1;
            }
            i = i + 1;
        }
        proof {
            assert forall|r: int, c: int| old(self)@.in_range(r, c) implies call_ensures(
                f,
                (&old(self)@.at(r, c),),
                #[trigger] self@.at(r, c),
            ) by {
                assert(layout.in_range(r, c));
                assert(self@.at(r, c) == self.data@[layout.index(r, c)]);
            }
        }
    }

    /// Replaces every element `x` of the view by `f(x, y)`, where `y` is the
    /// element of `rhs` at the same place; `Err(Error::ShapeMismatch)`, with
    /// nothing changed, unless `rhs` has the shape of the view.
    ///
    /// Addition in place is `zip_apply` with an addition, subtraction in
    /// place with a subtraction, and so on; assignment is `zip_apply` with a
    /// function that hands back a copy of `y`.
    pub fn zip_apply<R: MatrixRead<T>, F: Fn(&T, &T) -> T>(&mut self, rhs: &R, f: F) -> (r: Result<
        (),
        Error,
    >)
        requires
            old(self).wf(),
            rhs.wf(),
            forall|i: int, j: int|
                old(self)@.in_range(i, j) && rhs@.in_range(i, j) ==> call_requires(
                    f,
                    (&#[trigger] old(self)@.at(i, j), &rhs@.at(i, j)),
                ),
        ensures
            final(self).wf(),
            final(self).layout == old(self).layout,
            final(final(self).data)@ == final(old(self).data)@,
            final(self).buffer().len() == old(self).buffer().len(),
            r == if old(self).spec_nrows() == rhs.spec_nrows() && old(self).spec_ncols()
                == rhs.spec_ncols() {
                Ok::<(), Error>(())
            } else {
                Err(Error::ShapeMismatch)
            },
            r is Err ==> final(self).buffer() == old(self).buffer(),
            r is Ok ==> forall|i: int, j: int|
                old(self)@.in_range(i, j) ==> call_ensures(
                    f,
                    (&old(self)@.at(i, j), &rhs@.at(i, j)),
                    #[trigger] final(self)@.at(i, j),
                ),
            forall|k: int|
                0 <= k < old(self).buffer().len() && !old(self).layout.covers(k)
                    ==> final(self).buffer()[k] == old(self).buffer()[k],
    {
        let layout = self.layout;
        if layout.nrows != rhs.nrows() || layout.ncols != rhs.ncols() {
            return Err(Error::ShapeMismatch);
        }
        let ghost start = self.data@;
        let ghost n = self.data@.len() as int;
        let ghost other = rhs@;
        proof {
            rhs.lemma_shape();
            assert forall|r: int, c: int| layout.in_range(r, c) implies call_requires(
                f,
                (&#[trigger] start[layout.index(r, c)], &other.at(r, c)),
            ) by {
                assert(old(self)@.in_range(r, c));
                assert(rhs@.in_range(r, c));
                assert(old(self)@.at(r, c) == start[layout.index(r, c)]);
            }
        }
        let mut i: usize = 0;
        while i < layout.nrows
            invariant
                i <= layout.nrows,
                self.layout == layout,
                layout.wf(),
                layout.fits(n),
                rhs.wf(),
                rhs@ == other,
                layout.nrows == rhs.spec_nrows(),
                layout.ncols == rhs.spec_ncols(),
                self.data@.len() == n,
                start.len() == n,
                final(self.data)@ == final(old(self).data)@,
                forall|r: int, c: int|
                    layout.in_range(r, c) ==> call_requires(
                        f,
                        (&#[trigger] start[layout.index(r, c)], &other.at(r, c)),
                    ),
                forall|r: int, c: int|
                    layout.in_range(r, c) && r < i ==> call_ensures(
                        f,
                        (&start[layout.index(r, c)], &other.at(r, c)),
                        #[trigger] self.data@[layout.index(r, c)],
                    ),
                forall|r: int, c: int|
                    layout.in_range(r, c) && r >= i ==> #[trigger] self.data@[layout.index(r, c)]
                        == start[layout.index(r, c)],
                forall|k: int| 0 <= k < n && !layout.covers(k) ==> self.data@[k] == start[k],
            decreases layout.nrows - i,
        {
            let mut j: usize = 0;
            while j < layout.ncols
                invariant
                    i < layout.nrows,
                    j <= layout.ncols,
                    self.layout == layout,
                    layout.wf(),
                    layout.fits(n),
                    rhs.wf(),
                    rhs@ == other,
                    layout.nrows == rhs.spec_nrows(),
                    layout.ncols == rhs.spec_ncols(),
                    self.data@.len() == n,
                    start.len() == n,
                    final(self.data)@ == final(old(self).data)@,
                    forall|r: int, c: int|
                        layout.in_range(r, c) ==> call_requires(
                            f,
                            (&#[trigger] start[layout.index(r, c)], &other.at(r, c)),
                        ),
                    forall|r: int, c: int|
                        layout.in_range(r, c) && (r < i || (r == i && c < j)) ==> call_ensures(
                            f,
                            (&start[layout.index(r, c)], &other.at(r, c)),
                            #[trigger] self.data@[layout.index(r, c)],
                        ),
                    forall|r: int, c: int|
                        layout.in_range(r, c) && !(r < i || (r == i && c < j))
                            ==> #[trigger] self.data@[layout.index(r, c)] == start[layout.index(
                            r,
                            c,
                        )],
                    forall|k: int| 0 <= k < n && !layout.covers(k) ==> self.data@[k] == start[k],
                decreases layout.ncols - j,
            {
                proof {
                    layout.lemma_index_bound(n, i as int, j as int);
                }
                let k = layout.offset + i * layout.stride + j;
                let ghost before = self.data@;
                assert(before[k as int] == start[layout.index(i as int, j as int)]);
                assert(layout.in_range(i as int, j as int));
                let v = f(&self.data[k], rhs.get(i, j));
                self.data[k] = v;
                proof {
                    assert(layout.in_range(i as int, j as int) && layout.index(i as int, j as int)
                        == k);
                    assert(layout.covers(k as int));
                    assert forall|r: int, c: int|
                        layout.in_range(r, c) && !(r == i && c == j) implies #[trigger] self.data@[layout.index(
                        r,
                        c,
                    )] == before[layout.index(r, c)] by {
                        if layout.index(r, c) == k {
                            layout.lemma_index_injective(r, c, i as int, j as int);
                        }
                        layout.lemma_index_bound(n, r, c);
                    }
                }
                j = j + 1;
            }
            i = i + 1;
        }
        proof {
            assert forall|r: int, c: int| old(self)@.in_range(r, c) implies call_ensures(
                f,
                (&old(self)@.at(r, c), &rhs@.at(r, c)),
                #[trigger] self@.at(r, c),
            ) by {
                assert(layout.in_range(r, c));
                assert(self@.at(r, c) == self.data@[layout.index(r, c)]);
            }
        }
        Ok(())
    }
}

/// Whether `accs` is a run of a fold of `f` over `xs`: it begins with the
/// initial value, and each of its values is what `f` made of the value before
/// it and the next element of `xs`.
pub open spec fn spec_fold_run<T, A, F: Fn(A, &T) -> A>(f: F, xs: Seq<T>, accs: Seq<A>) -> bool {
    &&& accs.len() == xs.len() + 1
    &&& forall|i: int|
        0 <= i < xs.len() ==> call_ensures(f, (accs[i], &xs[i]), #[trigger] accs[i + 1])
}

/// Whether `out` is what comes of taking `init` and combining it by `f` with
/// each element of `xs` in turn, first to last.
pub open spec fn spec_fold<T, A, F: Fn(A, &T) -> A>(f: F, xs: Seq<T>, init: A, out: A) -> bool {
    exists|accs: Seq<A>|
        #[trigger] spec_fold_run(f, xs, accs) && accs.first() == init && accs.last() == out
}

/// Whether `accs` is a run of a fold of `f` over the pairs of `xs` and `ys`.
pub open spec fn spec_zip_fold_run<T, A, F: Fn(A, &T, &T) -> A>(
    f: F,
    xs: Seq<T>,
    ys: Seq<T>,
    accs: Seq<A>,
) -> bool {
    &&& accs.len() == xs.len() + 1
    &&& ys.len() == xs.len()
    &&& forall|i: int|
        0 <= i < xs.len() ==> call_ensures(f, (accs[i], &xs[i], &ys[i]), #[trigger] accs[i + 1])
}

/// Whether `out` is what comes of taking `init` and combining it by `f` with
/// each pair of elements of `xs` and `ys` in turn, first to last.
pub open spec fn spec_zip_fold<T, A, F: Fn(A, &T, &T) -> A>(
    f: F,
    xs: Seq<T>,
    ys: Seq<T>,
    init: A,
    out: A,
) -> bool {
    exists|accs: Seq<A>|
        #[trigger] spec_zip_fold_run(f, xs, ys, accs) && accs.first() == init && accs.last()
            == out
}

impl<'a, T> Slice<'a, T> {
    /// Combines `init` by `f` with each element in turn, first to last, and
    /// hands back what comes of it.
    ///
    /// A sum is a `fold` with an addition.
    pub fn fold<A, F: Fn(A, &T) -> A>(&self, init: A, f: F) -> (r: A)
        requires
            self.wf(),
            forall|acc: A, i: int| 0 <= i < self@.len() ==> call_requires(f, (acc, &self@[i])),
        ensures
            spec_fold(f, self@, init, r),
    {
        let n = self.len();
        let mut acc = init;
        let mut i: usize = 0;
        let ghost mut accs: Seq<A> = seq![init];
        while i < n
            invariant
                i <= n,
                n == self@.len(),
                self.wf(),
                forall|acc: A, i: int| 0 <= i < self@.len() ==> call_requires(f, (acc, &self@[i])),
                accs.len() == i + 1,
                accs.first() == init,
                accs.last() == acc,
                forall|k: int|
                    0 <= k < i ==> call_ensures(f, (accs[k], &self@[k]), #[trigger] accs[k + 1]),
            decreases n - i,
        {
            let e = self.at(i).unwrap();
            acc = f(acc, e);
            proof {
                accs = accs.push(acc);
            }
            i = i + 1;
        }
        assert(spec_fold_run(f, self@, accs));
        acc
    }

    /// The squared norm: `zero` combined by `add_square` with each element in
    /// turn, where `add_square(acc, x)` stands for `acc` plus the squared
    /// magnitude of `x`.
    pub fn norm2<A, F: Fn(A, &T) -> A>(&self, zero: A, add_square: F) -> (r: A)
        requires
            self.wf(),
            forall|acc: A, i: int|
                0 <= i < self@.len() ==> call_requires(add_square, (acc, &self@[i])),
        ensures
            spec_fold(add_square, self@, zero, r),
    {
        self.fold(zero, add_square)
    }

    /// The dot product with `other`: `zero` combined by `mul_add` with each
    /// pair of elements in turn, where `mul_add(acc, x, y)` stands for `acc`
    /// plus the product of `x` and `y`. `Err(Error::ShapeMismatch)` unless
    /// the two vectors have the same length.
    pub fn dot<A, F: Fn(A, &T, &T) -> A>(&self, other: &Slice<'_, T>, zero: A, mul_add: F) -> (r:
        Result<A, Error>)
        requires
            self.wf(),
            other.wf(),
            forall|acc: A, i: int|
                0 <= i < self@.len() && i < other@.len() ==> call_requires(
                    mul_add,
                    (acc, &self@[i], &other@[i]),
                ),
        ensures
            r is Ok <==> self@.len() == other@.len(),
            r matches Ok(out) ==> spec_zip_fold(mul_add, self@, other@, zero, out),
            r matches Err(e) ==> e == Error::ShapeMismatch,
    {
        let n = self.len();
        if n != other.len() {
            return Err(Error::ShapeMismatch);
        }
        let mut acc = zero;
        let mut i: usize = 0;
        let ghost mut accs: Seq<A> = seq![zero];
        while i < n
            invariant
                i <= n,
                n == self@.len(),
                n == other@.len(),
                self.wf(),
                other.wf(),
                forall|acc: A, i: int|
                    0 <= i < self@.len() && i < other@.len() ==> call_requires(
                        mul_add,
                        (acc, &self@[i], &other@[i]),
                    ),
                accs.len() == i + 1,
                accs.first() == zero,
                accs.last() == acc,
                forall|k: int|
                    0 <= k < i ==> call_ensures(
                        mul_add,
                        (accs[k], &self@[k], &other@[k]),
                        #[trigger] accs[k + 1],
                    ),
            decreases n - i,
        {
            let x = self.at(i).unwrap();
            let y = other.at(i).unwrap();
            acc = mul_add(acc, x, y);
            proof {
                accs = accs.push(acc);
            }
            i = i + 1;
        }
        assert(spec_zip_fold_run(mul_add, self@, other@, accs));
        Ok(acc)
    }
}

impl<'a, T> MutSlice<'a, T> {
    /// Replaces every element `x` of the run by `f(x)`, first to last.
    pub fn apply<F: Fn(&T) -> T>(&mut self, f: F)
        requires
            old(self).wf(),
            forall|i: int| 0 <= i < old(self)@.len() ==> call_requires(f, (&old(self)@[i],)),
        ensures
            final(self).wf(),
            final(self).layout == old(self).layout,
            final(final(self).data)@ == final(old(self).data)@,
            final(self).buffer().len() == old(self).buffer().len(),
            forall|i: int|
                0 <= i < old(self)@.len() ==> call_ensures(
                    f,
                    (&old(self)@[i],),
                    #[trigger] final(self)@[i],
                ),
            forall|k: int|
                0 <= k < old(self).buffer().len() && !old(self).layout.covers(k)
                    ==> final(self).buffer()[k] == old(self).buffer()[k],
    {
        let layout = self.layout;
        let ghost start = self.data@;
        let ghost n = self.data@.len() as int;
        proof {
            assert forall|r: int| 0 <= r < layout.len implies call_requires(
                f,
                (&#[trigger] start[layout.index(r)],),
            ) by {
                assert(old(self)@[r] == start[layout.index(r)]);
            }
        }
        let mut i: usize = 0;
        while i < layout.len
            invariant
                i <= layout.len,
                self.layout == layout,
                layout.wf(),
                layout.fits(n),
                layout.stride >= 1,
                self.data@.len() == n,
                start.len() == n,
                final(self.data)@ == final(old(self).data)@,
                forall|r: int|
                    0 <= r < layout.len ==> call_requires(f, (&#[trigger] start[layout.index(r)],)),
                forall|r: int|
                    0 <= r < i ==> call_ensures(
                        f,
                        (&start[layout.index(r)],),
                        #[trigger] self.data@[layout.index(r)],
                    ),
                forall|r: int|
                    i <= r < layout.len ==> #[trigger] self.data@[layout.index(r)]
                        == start[layout.index(r)],
                forall|k: int| 0 <= k < n && !layout.covers(k) ==> self.data@[k] == start[k],
            decreases layout.len - i,
        {
            proof {
                layout.lemma_index_bound(n, i as int);
            }
            let k = layout.offset + i * layout.stride;
            let ghost before = self.data@;
            assert(before[k as int] == start[layout.index(i as int)]);
            let v = f(&self.data[k]);
            self.data[k] = v;
            proof {
                assert(layout.index(i as int) == k);
                assert(layout.covers(k as int));
                assert forall|r: int| 0 <= r < layout.len && r != i implies #[trigger] self.data@[layout.index(
                    r,
                )] == before[layout.index(r)] by {
                    if layout.index(r) == k {
                        layout.lemma_index_injective(r, i as int);
                    }
                    layout.lemma_index_bound(n, r);
                }
            }
            i = i + 1;
        }
    }

    /// Replaces every element `x` of the run by `f(x, y)`, where `y` is the
    /// element of `rhs` at the same place; `Err(Error::ShapeMismatch)`, with
    /// nothing changed, unless `rhs` has the length of the run.
    ///
    /// The scaled addition `y += alpha * x` is `zip_apply` with the function
    /// that adds `alpha` times its second argument to its first.
    pub fn zip_apply<F: Fn(&T, &T) -> T>(&mut self, rhs: &Slice<'_, T>, f: F) -> (r: Result<
        (),
        Error,
    >)
        requires
            old(self).wf(),
            rhs.wf(),
            forall|i: int|
                0 <= i < old(self)@.len() && i < rhs@.len() ==> call_requires(
                    f,
                    (&old(self)@[i], &rhs@[i]),
                ),
        ensures
            final(self).wf(),
            final(self).layout == old(self).layout,
            final(final(self).data)@ == final(old(self).data)@,
            final(self).buffer().len() == old(self).buffer().len(),
            r == if old(self)@.len() == rhs@.len() {
                Ok::<(), Error>(())
            } else {
                Err(Error::ShapeMismatch)
            },
            r is Err ==> final(self).buffer() == old(self).buffer(),
            r is Ok ==> forall|i: int|
                0 <= i < old(self)@.len() ==> call_ensures(
                    f,
                    (&old(self)@[i], &rhs@[i]),
                    #[trigger] final(self)@[i],
                ),
            forall|k: int|
                0 <= k < old(self).buffer().len() && !old(self).layout.covers(k)
                    ==> final(self).buffer()[k] == old(self).buffer()[k],
    {
        let layout = self.layout;
        if layout.len != rhs.len() {
            return Err(Error::ShapeMismatch);
        }
        let ghost start = self.data@;
        let ghost n = self.data@.len() as int;
        let ghost other = rhs@;
        proof {
            assert forall|r: int| 0 <= r < layout.len implies call_requires(
                f,
                (&#[trigger] start[layout.index(r)], &other[r]),
            ) by {
                assert(old(self)@[r] == start[layout.index(r)]);
            }
        }
        let mut i: usize = 0;
        while i < layout.len
            invariant
                i <= layout.len,
                self.layout == layout,
                layout.wf(),
                layout.fits(n),
                layout.stride >= 1,
                rhs.wf(),
                rhs@ == other,
                other.len() == layout.len,
                self.data@.len() == n,
                start.len() == n,
                final(self.data)@ == final(old(self).data)@,
                forall|r: int|
                    0 <= r < layout.len ==> call_requires(
                        f,
                        (&#[trigger] start[layout.index(r)], &other[r]),
                    ),
                forall|r: int|
                    0 <= r < i ==> call_ensures(
                        f,
                        (&start[layout.index(r)], &other[r]),
                        #[trigger] self.data@[layout.index(r)],
                    ),
                forall|r: int|
                    i <= r < layout.len ==> #[trigger] self.data@[layout.index(r)]
                        == start[layout.index(r)],
                forall|k: int| 0 <= k < n && !layout.covers(k) ==> self.data@[k] == start[k],
            decreases layout.len - i,
        {
            proof {
                layout.lemma_index_bound(n, i as int);
            }
            let k = layout.offset + i * layout.stride;
            let ghost before = self.data@;
            assert(before[k as int] == start[layout.index(i as int)]);
            let y = rhs.at(i).unwrap();
            let v = f(&self.data[k], y);
            self.data[k] = v;
            proof {
                assert(layout.index(i as int) == k);
                assert(layout.covers(k as int));
                assert forall|r: int| 0 <= r < layout.len && r != i implies #[trigger] self.data@[layout.index(
                    r,
                )] == before[layout.index(r)] by {
                    if layout.index(r) == k {
                        layout.lemma_index_injective(r, i as int);
                    }
                    layout.lemma_index_bound(n, r);
                }
            }
            i = i + 1;
        }
        Ok(())
    }
}

/// Whether `out` can be element `(i, j)` of a product: what comes of `start`,
/// made by `init` from the element that was there, combined by `mul_add` with
/// each pair of an element of `row` and an element of `col` in turn.
pub open spec fn spec_product_cell<T, I: Fn(&T) -> T, F: Fn(T, &T, &T) -> T>(
    init: I,
    mul_add: F,
    was: T,
    row: Seq<T>,
    col: Seq<T>,
    out: T,
) -> bool {
    exists|start: T|
        call_ensures(init, (&was,), start) && #[trigger] spec_zip_fold(
            mul_add,
            row,
            col,
            start,
            out,
        )
}

/// Row `i` of `a` times column `j` of `b`, on top of `start`.
fn inner_product<T, A: MatrixRead<T>, B: MatrixRead<T>, F: Fn(T, &T, &T) -> T>(
    a: &A,
    b: &B,
    i: usize,
    j: usize,
    start: T,
    mul_add: &F,
) -> (r: T)
    requires
        a.wf(),
        b.wf(),
        a.spec_ncols() == b.spec_nrows(),
        i < a.spec_nrows(),
        j < b.spec_ncols(),
        forall|acc: T, k: int|
            0 <= k < a.spec_ncols() ==> call_requires(
                *mul_add,
                (acc, &a@.row(i as int)[k], &b@.col(j as int)[k]),
            ),
    ensures
        spec_zip_fold(*mul_add, a@.row(i as int), b@.col(j as int), start, r),
{
    let n = a.ncols();
    let ghost xs = a@.row(i as int);
    let ghost ys = b@.col(j as int);
    proof {
        a.lemma_shape();
        b.lemma_shape();
    }
    let mut acc = start;
    let mut k: usize = 0;
    let ghost mut accs: Seq<T> = seq![start];
    while k < n
        invariant
            k <= n,
            n == a.spec_ncols(),
            n == b.spec_nrows(),
            a.wf(),
            b.wf(),
            i < a.spec_nrows(),
            j < b.spec_ncols(),
            xs == a@.row(i as int),
            ys == b@.col(j as int),
            xs.len() == n,
            ys.len() == n,
            a@.wf(),
            b@.wf(),
            a@.nrows == a.spec_nrows(),
            a@.ncols == a.spec_ncols(),
            b@.nrows == b.spec_nrows(),
            b@.ncols == b.spec_ncols(),
            forall|acc: T, k: int| 0 <= k < n ==> call_requires(*mul_add, (acc, &xs[k], &ys[k])),
            accs.len() == k + 1,
            accs.first() == start,
            accs.last() == acc,
            forall|m: int|
                0 <= m < k ==> call_ensures(
                    *mul_add,
                    (accs[m], &xs[m], &ys[m]),
                    #[trigger] accs[m + 1],
                ),
        decreases n - k,
    {
        let x = a.get(i, k);
        let y = b.get(k, j);
        assert(*x == xs[k as int]);
        assert(*y == ys[k as int]);
        acc = mul_add(acc, x, y);
        proof {
            accs = accs.push(acc);
        }
        k = k + 1;
    }
    assert(spec_zip_fold_run(*mul_add, xs, ys, accs));
    acc
}

/// The matrix product by the plain triple loop: element `(i, j)` of `c`
/// becomes what comes of `init` of the element that was there, combined by
/// `mul_add` with each pair of an element of row `i` of `a` and an element of
/// column `j` of `b` in turn. `Err(Error::ShapeMismatch)`, with nothing
/// changed, unless `a` has the rows of `c`, `b` the columns of `c`, and `a`
/// as many columns as `b` has rows.
///
/// `c = alpha * a * b + beta * c` is `matmul` with `init(x)` for `beta * x`
/// and `mul_add(acc, x, y)` for `acc + alpha * x * y`.
pub fn matmul<T, A: MatrixRead<T>, B: MatrixRead<T>, I: Fn(&T) -> T, F: Fn(T, &T, &T) -> T>(
    c: &mut MutView<'_, T>,
    a: &A,
    b: &B,
    init: I,
    mul_add: F,
) -> (r: Result<(), Error>)
    requires
        old(c).wf(),
        a.wf(),
        b.wf(),
        forall|i: int, j: int|
            old(c)@.in_range(i, j) ==> call_requires(init, (&#[trigger] old(c)@.at(i, j),)),
        forall|acc: T, i: int, k: int, j: int|
            a@.in_range(i, k) && b@.in_range(k, j) ==> #[trigger] call_requires(
                mul_add,
                (acc, &a@.at(i, k), &b@.at(k, j)),
            ),
    ensures
        final(c).wf(),
        final(c).layout == old(c).layout,
        final(final(c).data)@ == final(old(c).data)@,
        final(c).buffer().len() == old(c).buffer().len(),
        r == if a.spec_nrows() == old(c).spec_nrows() && a.spec_ncols() == b.spec_nrows()
            && b.spec_ncols() == old(c).spec_ncols() {
            Ok::<(), Error>(())
        } else {
            Err(Error::ShapeMismatch)
        },
        r is Err ==> final(c).buffer() == old(c).buffer(),
        r is Ok ==> forall|i: int, j: int|
            old(c)@.in_range(i, j) ==> spec_product_cell(
                init,
                mul_add,
                old(c)@.at(i, j),
                a@.row(i),
                b@.col(j),
                #[trigger] final(c)@.at(i, j),
            ),
        forall|k: int|
            0 <= k < old(c).buffer().len() && !old(c).layout.covers(k) ==> final(c).buffer()[k]
                == old(c).buffer()[k],
{
    let layout = c.layout;
    if a.nrows() != layout.nrows || a.ncols() != b.nrows() || b.ncols() != layout.ncols {
        return Err(Error::ShapeMismatch);
    }
    let ghost start = c.data@;
    let ghost n = c.data@.len() as int;
    let ghost ga = a@;
    let ghost gb = b@;
    proof {
        a.lemma_shape();
        b.lemma_shape();
        assert forall|r: int, s: int| layout.in_range(r, s) implies call_requires(
            init,
            (&#[trigger] start[layout.index(r, s)],),
        ) by {
            assert(old(c)@.in_range(r, s));
            assert(old(c)@.at(r, s) == start[layout.index(r, s)]);
        }
    }
    let mut i: usize = 0;
    while i < layout.nrows
        invariant
            i <= layout.nrows,
            c.layout == layout,
            layout.wf(),
            layout.fits(n),
            a.wf(),
            b.wf(),
            a@ == ga,
            b@ == gb,
            a.spec_nrows() == layout.nrows,
            a.spec_ncols() == b.spec_nrows(),
            b.spec_ncols() == layout.ncols,
            c.data@.len() == n,
            start.len() == n,
            final(c.data)@ == final(old(c).data)@,
            forall|r: int, s: int|
                layout.in_range(r, s) ==> call_requires(init, (&#[trigger] start[layout.index(r, s)],)),
            forall|acc: T, r: int, k: int, s: int|
                ga.in_range(r, k) && gb.in_range(k, s) ==> #[trigger] call_requires(
                    mul_add,
                    (acc, &ga.at(r, k), &gb.at(k, s)),
                ),
            ga.wf(),
            gb.wf(),
            ga.nrows == a.spec_nrows(),
            ga.ncols == a.spec_ncols(),
            gb.nrows == b.spec_nrows(),
            gb.ncols == b.spec_ncols(),
            forall|r: int, s: int|
                layout.in_range(r, s) && r < i ==> spec_product_cell(
                    init,
                    mul_add,
                    start[layout.index(r, s)],
                    ga.row(r),
                    gb.col(s),
                    #[trigger] c.data@[layout.index(r, s)],
                ),
            forall|r: int, s: int|
                layout.in_range(r, s) && r >= i ==> #[trigger] c.data@[layout.index(r, s)]
                    == start[layout.index(r, s)],
            forall|k: int| 0 <= k < n && !layout.covers(k) ==> c.data@[k] == start[k],
        decreases layout.nrows - i,
    {
        let mut j: usize = 0;
        while j < layout.ncols
            invariant
                i < layout.nrows,
                j <= layout.ncols,
                c.layout == layout,
                layout.wf(),
                layout.fits(n),
                a.wf(),
                b.wf(),
                a@ == ga,
                b@ == gb,
                a.spec_nrows() == layout.nrows,
                a.spec_ncols() == b.spec_nrows(),
                b.spec_ncols() == layout.ncols,
                c.data@.len() == n,
                start.len() == n,
                final(c.data)@ == final(old(c).data)@,
                forall|r: int, s: int|
                    layout.in_range(r, s) ==> call_requires(
                        init,
                        (&#[trigger] start[layout.index(r, s)],),
                    ),
                forall|acc: T, r: int, k: int, s: int|
                    ga.in_range(r, k) && gb.in_range(k, s) ==> #[trigger] call_requires(
                        mul_add,
                        (acc, &ga.at(r, k), &gb.at(k, s)),
                    ),
                ga.wf(),
                gb.wf(),
                ga.nrows == a.spec_nrows(),
                ga.ncols == a.spec_ncols(),
                gb.nrows == b.spec_nrows(),
                gb.ncols == b.spec_ncols(),
                forall|r: int, s: int|
                    layout.in_range(r, s) && (r < i || (r == i && s < j)) ==> spec_product_cell(
                        init,
                        mul_add,
                        start[layout.index(r, s)],
                        ga.row(r),
                        gb.col(s),
                        #[trigger] c.data@[layout.index(r, s)],
                    ),
                forall|r: int, s: int|
                    layout.in_range(r, s) && !(r < i || (r == i && s < j))
                        ==> #[trigger] c.data@[layout.index(r, s)] == start[layout.index(r, s)],
                forall|k: int| 0 <= k < n && !layout.covers(k) ==> c.data@[k] == start[k],
            decreases layout.ncols - j,
        {
            proof {
                layout.lemma_index_bound(n, i as int, j as int);
            }
            let k = layout.offset + i * layout.stride + j;
            let ghost before = c.data@;
            assert(layout.in_range(i as int, j as int));
            assert(before[k as int] == start[layout.index(i as int, j as int)]);
            let first = init(&c.data[k]);
            proof {
                assert forall|acc: T, m: int| 0 <= m < a.spec_ncols() implies call_requires(
                    mul_add,
                    (acc, &a@.row(i as int)[m], &b@.col(j as int)[m]),
                ) by {
                    assert(ga.in_range(i as int, m) && gb.in_range(m, j as int));
                    assert(ga.row(i as int)[m] == ga.at(i as int, m));
                    assert(gb.col(j as int)[m] == gb.at(m, j as int));
                }
            }
            let v = inner_product(a, b, i, j, first, &mul_add);
            assert(spec_product_cell(init, mul_add, before[k as int], ga.row(i as int), gb.col(
                j as int,
            ), v)) by {
                assert(call_ensures(init, (&before[k as int],), first) && spec_zip_fold(
                    mul_add,
                    ga.row(i as int),
                    gb.col(j as int),
                    first,
                    v,
                ));
            }
            c.data[k] = v;
            proof {
                assert(layout.index(i as int, j as int) == k);
                assert(layout.covers(k as int));
                assert forall|r: int, s: int|
                    layout.in_range(r, s) && !(r == i && s == j) implies #[trigger] c.data@[layout.index(
                    r,
                    s,
                )] == before[layout.index(r, s)] by {
                    if layout.index(r, s) == k {
                        layout.lemma_index_injective(r, s, i as int, j as int);
                    }
                    layout.lemma_index_bound(n, r, s);
                }
            }
            j = j + 1;
        }
        i = i + 1;
    }
    proof {
        assert forall|r: int, s: int| old(c)@.in_range(r, s) implies spec_product_cell(
            init,
            mul_add,
            old(c)@.at(r, s),
            a@.row(r),
            b@.col(s),
            #[trigger] c@.at(r, s),
        ) by {
            assert(layout.in_range(r, s));
            assert(c@.at(r, s) == c.data@[layout.index(r, s)]);
            assert(old(c)@.at(r, s) == start[layout.index(r, s)]);
        }
    }
    Ok(())
}

/// Row `i` of `a` times the vector `x`, on top of `start`.
fn row_product<T, A: MatrixRead<T>, F: Fn(T, &T, &T) -> T>(
    a: &A,
    x: &Slice<'_, T>,
    i: usize,
    start: T,
    mul_add: &F,
) -> (r: T)
    requires
        a.wf(),
        x.wf(),
        a.spec_ncols() == x@.len(),
        i < a.spec_nrows(),
        forall|acc: T, k: int|
            0 <= k < a.spec_ncols() ==> call_requires(
                *mul_add,
                (acc, &a@.row(i as int)[k], &x@[k]),
            ),
    ensures
        spec_zip_fold(*mul_add, a@.row(i as int), x@, start, r),
{
    let n = a.ncols();
    let ghost xs = a@.row(i as int);
    let ghost ys = x@;
    proof {
        a.lemma_shape();
    }
    let mut acc = start;
    let mut k: usize = 0;
    let ghost mut accs: Seq<T> = seq![start];
    while k < n
        invariant
            k <= n,
            n == a.spec_ncols(),
            a.wf(),
            x.wf(),
            i < a.spec_nrows(),
            xs == a@.row(i as int),
            ys == x@,
            xs.len() == n,
            ys.len() == n,
            a@.wf(),
            a@.nrows == a.spec_nrows(),
            a@.ncols == a.spec_ncols(),
            forall|acc: T, k: int| 0 <= k < n ==> call_requires(*mul_add, (acc, &xs[k], &ys[k])),
            accs.len() == k + 1,
            accs.first() == start,
            accs.last() == acc,
            forall|m: int|
                0 <= m < k ==> call_ensures(
                    *mul_add,
                    (accs[m], &xs[m], &ys[m]),
                    #[trigger] accs[m + 1],
                ),
        decreases n - k,
    {
        let u = a.get(i, k);
        let v = x.at(k).unwrap();
        assert(*u == xs[k as int]);
        acc = mul_add(acc, u, v);
        proof {
            accs = accs.push(acc);
        }
        k = k + 1;
    }
    assert(spec_zip_fold_run(*mul_add, xs, ys, accs));
    acc
}

/// The matrix-vector product by the plain double loop: element `i` of `y`
/// becomes what comes of `init` of the element that was there, combined by
/// `mul_add` with each pair of an element of row `i` of `a` and an element of
/// `x` in turn. `Err(Error::ShapeMismatch)`, with nothing changed, unless `x`
/// has as many elements as `a` has columns and `y` as many as `a` has rows.
///
/// `y = alpha * a * x + beta * y` is `matvec` with `init(v)` for `beta * v`
/// and `mul_add(acc, u, v)` for `acc + alpha * u * v`.
pub fn matvec<T, A: MatrixRead<T>, I: Fn(&T) -> T, F: Fn(T, &T, &T) -> T>(
    y: &mut MutSlice<'_, T>,
    a: &A,
    x: &Slice<'_, T>,
    init: I,
    mul_add: F,
) -> (r: Result<(), Error>)
    requires
        old(y).wf(),
        a.wf(),
        x.wf(),
        forall|i: int| 0 <= i < old(y)@.len() ==> call_requires(init, (&old(y)@[i],)),
        forall|acc: T, i: int, k: int|
            a@.in_range(i, k) && 0 <= k < x@.len() ==> #[trigger] call_requires(
                mul_add,
                (acc, &a@.at(i, k), &x@[k]),
            ),
    ensures
        final(y).wf(),
        final(y).layout == old(y).layout,
        final(final(y).data)@ == final(old(y).data)@,
        final(y).buffer().len() == old(y).buffer().len(),
        r == if a.spec_nrows() == old(y)@.len() && a.spec_ncols() == x@.len() {
            Ok::<(), Error>(())
        } else {
            Err(Error::ShapeMismatch)
        },
        r is Err ==> final(y).buffer() == old(y).buffer(),
        r is Ok ==> forall|i: int|
            0 <= i < old(y)@.len() ==> spec_product_cell(
                init,
                mul_add,
                old(y)@[i],
                a@.row(i),
                x@,
                #[trigger] final(y)@[i],
            ),
        forall|k: int|
            0 <= k < old(y).buffer().len() && !old(y).layout.covers(k) ==> final(y).buffer()[k]
                == old(y).buffer()[k],
{
    let layout = y.layout;
    if a.nrows() != layout.len || a.ncols() != x.len() {
        return Err(Error::ShapeMismatch);
    }
    let ghost start = y.data@;
    let ghost n = y.data@.len() as int;
    let ghost ga = a@;
    proof {
        a.lemma_shape();
        assert forall|r: int| 0 <= r < layout.len implies call_requires(
            init,
            (&#[trigger] start[layout.index(r)],),
        ) by {
            assert(old(y)@[r] == start[layout.index(r)]);
        }
    }
    let mut i: usize = 0;
    while i < layout.len
        invariant
            i <= layout.len,
            y.layout == layout,
            layout.wf(),
            layout.fits(n),
            layout.stride >= 1,
            a.wf(),
            x.wf(),
            a@ == ga,
            a.spec_nrows() == layout.len,
            a.spec_ncols() == x@.len(),
            y.data@.len() == n,
            start.len() == n,
            final(y.data)@ == final(old(y).data)@,
            forall|r: int|
                0 <= r < layout.len ==> call_requires(init, (&#[trigger] start[layout.index(r)],)),
            forall|acc: T, r: int, k: int|
                ga.in_range(r, k) && 0 <= k < x@.len() ==> #[trigger] call_requires(
                    mul_add,
                    (acc, &ga.at(r, k), &x@[k]),
                ),
            ga.wf(),
            ga.nrows == a.spec_nrows(),
            ga.ncols == a.spec_ncols(),
            forall|r: int|
                0 <= r < i ==> spec_product_cell(
                    init,
                    mul_add,
                    start[layout.index(r)],
                    ga.row(r),
                    x@,
                    #[trigger] y.data@[layout.index(r)],
                ),
            forall|r: int|
                i <= r < layout.len ==> #[trigger] y.data@[layout.index(r)] == start[layout.index(
                    r,
                )],
            forall|k: int| 0 <= k < n && !layout.covers(k) ==> y.data@[k] == start[k],
        decreases layout.len - i,
    {
        proof {
            layout.lemma_index_bound(n, i as int);
        }
        let k = layout.offset + i * layout.stride;
        let ghost before = y.data@;
        assert(before[k as int] == start[layout.index(i as int)]);
        let first = init(&y.data[k]);
        proof {
            assert forall|acc: T, m: int| 0 <= m < a.spec_ncols() implies call_requires(
                mul_add,
                (acc, &a@.row(i as int)[m], &x@[m]),
            ) by {
                assert(ga.in_range(i as int, m));
                assert(ga.row(i as int)[m] == ga.at(i as int, m));
            }
        }
        let v = row_product(a, x, i, first, &mul_add);
        assert(spec_product_cell(init, mul_add, before[k as int], ga.row(i as int), x@, v)) by {
            assert(call_ensures(init, (&before[k as int],), first) && spec_zip_fold(
                mul_add,
                ga.row(i as int),
                x@,
                first,
                v,
            ));
        }
        y.data[k] = v;
        proof {
            assert(layout.index(i as int) == k);
            assert(layout.covers(k as int));
            assert forall|r: int| 0 <= r < layout.len && r != i implies #[trigger] y.data@[layout.index(
                r,
            )] == before[layout.index(r)] by {
                if layout.index(r) == k {
                    layout.lemma_index_injective(r, i as int);
                }
                layout.lemma_index_bound(n, r);
            }
        }
        i = i + 1;
    }
    Ok(())
}

} // verus!
