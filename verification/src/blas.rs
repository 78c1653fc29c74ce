//! The way to an accelerated backend.
//!
//! A backend kernel takes each operand as a flat run of memory, an element
//! count, a stride or leading dimension, and a flag that says whether a
//! matrix is to be read transposed. This module derives those arguments from
//! the operands and shows that they describe the operand: the kernel reads
//! the elements that the operand shows, and none outside its buffer.

use vstd::prelude::*;
use vstd::slice::slice_subrange;

pub mod dispatch;

use crate::error::Error;
use crate::grid::Grid;
use crate::layout::{lemma_mul_add, lemma_mul_le};
use crate::mat::Mat;
use crate::mutview::MutView;
use crate::traits::{MatrixRead, MatrixShape};
use crate::trans::Trans;
use crate::vector::{Col, MutSlice, Row, Slice};
use crate::view::MatView;

verus! {

/// The index type of the backend.
pub type BlasInt = i32;

/// Transpose matrix before operation?
#[derive(Clone, Copy, Debug, PartialEq, Eq, Structural)]
pub enum Transpose {
    /// Don't transpose
    No,
    /// Transpose
    Yes,
}

impl Transpose {
    /// The other flag.
    pub open spec fn flip(self) -> Transpose {
        match self {
            Transpose::No => Transpose::Yes,
            Transpose::Yes => Transpose::No,
        }
    }

    /// The other flag: transposing once more undoes a transposition.
    pub fn not(&self) -> (r: Transpose)
        ensures
            r == self.flip(),
    {
        match *self {
            Transpose::No => Transpose::Yes,
            Transpose::Yes => Transpose::No,
        }
    }

    /// The letter by which the backend knows the flag: `n` or `t`.
    pub fn code(&self) -> (r: u8)
        ensures
            r == match *self {
                Transpose::No => 110u8,
                Transpose::Yes => 116u8,
            },
    {
        match *self {
            Transpose::No => 110,
            Transpose::Yes => 116,
        }
    }
}

/// `n` as an index of the backend, where it is one.
pub open spec fn spec_blasint(n: int) -> Result<BlasInt, Error> {
    if BlasInt::MIN <= n <= BlasInt::MAX {
        Ok(n as BlasInt)
    } else {
        Err(Error::Overflow)
    }
}

/// Extension trait to convert an integer into a BLAS integer
pub trait ToBlasInt: Sized {
    /// The number that the value stands for.
    spec fn spec_int(self) -> int;

    /// The same number in the index type of the backend;
    /// `Err(Error::Overflow)` where that type cannot hold it.
    fn to_blasint(self) -> (r: Result<BlasInt, Error>)
        ensures
            r == spec_blasint(self.spec_int()),
    ;
}

impl ToBlasInt for usize {
    open spec fn spec_int(self) -> int {
        self as int
    }

    fn to_blasint(self) -> (r: Result<BlasInt, Error>) {
        assert(self.spec_int() == self as int);
        if self <= 0x7fff_ffff {
            Ok(self as BlasInt)
        } else {
            Err(Error::Overflow)
        }
    }
}

/// Immutable BLAS vector
pub trait Vector<T> {
    /// The vector's elements exist in its buffer.
    spec fn wf(&self) -> bool;

    /// The elements of the vector, first to last.
    spec fn spec_elems(&self) -> Seq<T>;

    /// The memory that is handed to the backend: the buffer from the first
    /// element of the vector on.
    spec fn spec_memory(&self) -> Seq<T>;

    /// Distance in memory between two consecutive elements.
    spec fn spec_stride(&self) -> usize;

    /// Element `i` of the vector lies `i * stride` elements into the memory
    /// that is handed to the backend.
    proof fn lemma_memory(&self, i: int)
        requires
            self.wf(),
            0 <= i < self.spec_elems().len(),
        ensures
            0 <= i * self.spec_stride() < self.spec_memory().len(),
            self.spec_memory()[i * self.spec_stride()] == self.spec_elems()[i],
    ;

    /// Whether the vector is valid: a check at run time for values that were
    /// put together by hand.
    fn is_wf(&self) -> (r: bool)
        ensures
            r == self.wf(),
    ;

    /// Returns the memory chunk, from the first element on
    fn as_slice(&self) -> (r: &[T])
        requires
            self.wf(),
        ensures
            r@ == self.spec_memory(),
    ;

    /// Number of elements.
    fn count(&self) -> (n: usize)
        requires
            self.wf(),
        ensures
            n == self.spec_elems().len(),
    ;

    /// Returns the stride of the vector
    fn stride(&self) -> (r: Result<BlasInt, Error>)
        requires
            self.wf(),
        ensures
            r == spec_blasint(self.spec_stride() as int),
    ;

    /// Returns the length of the vector
    fn len(&self) -> (r: Result<BlasInt, Error>)
        requires
            self.wf(),
        ensures
            r == spec_blasint(self.spec_elems().len() as int),
    {
        self.count().to_blasint()
    }
}

impl<'a, T, V> Vector<T> for &'a V where V: Vector<T> {
    open spec fn wf(&self) -> bool {
        (**self).wf()
    }

    open spec fn spec_elems(&self) -> Seq<T> {
        (**self).spec_elems()
    }

    open spec fn spec_memory(&self) -> Seq<T> {
        (**self).spec_memory()
    }

    open spec fn spec_stride(&self) -> usize {
        (**self).spec_stride()
    }

    proof fn lemma_memory(&self, i: int) {
        (**self).lemma_memory(i);
    }

    fn is_wf(&self) -> (r: bool) {
        Vector::is_wf(*self)
    }

    fn as_slice(&self) -> (r: &[T]) {
        Vector::as_slice(*self)
    }

    fn count(&self) -> (n: usize) {
        Vector::count(*self)
    }

    fn stride(&self) -> (r: Result<BlasInt, Error>) {
        Vector::stride(*self)
    }

    fn len(&self) -> (r: Result<BlasInt, Error>) {
        Vector::len(*self)
    }
}

impl<'a, T> Vector<T> for &'a [T] {
    open spec fn wf(&self) -> bool {
        true
    }

    open spec fn spec_elems(&self) -> Seq<T> {
        self@
    }

    open spec fn spec_memory(&self) -> Seq<T> {
        self@
    }

    open spec fn spec_stride(&self) -> usize {
        1
    }

    proof fn lemma_memory(&self, i: int) {
    }

    fn is_wf(&self) -> (r: bool) {
        true
    }

    fn as_slice(&self) -> (r: &[T]) {
        *self
    }

    fn count(&self) -> (n: usize) {
        <[T]>::len(*self)
    }

    fn stride(&self) -> (r: Result<BlasInt, Error>) {
        Ok(1)
    }
}

impl<T> Vector<T> for Vec<T> {
    open spec fn wf(&self) -> bool {
        true
    }

    open spec fn spec_elems(&self) -> Seq<T> {
        self@
    }

    open spec fn spec_memory(&self) -> Seq<T> {
        self@
    }

    open spec fn spec_stride(&self) -> usize {
        1
    }

    proof fn lemma_memory(&self, i: int) {
    }

    fn is_wf(&self) -> (r: bool) {
        true
    }

    fn as_slice(&self) -> (r: &[T]) {
        Vec::as_slice(self)
    }

    fn count(&self) -> (n: usize) {
        Vec::len(self)
    }

    fn stride(&self) -> (r: Result<BlasInt, Error>) {
        Ok(1)
    }
}

impl<'a, T> Vector<T> for Slice<'a, T> {
    open spec fn wf(&self) -> bool {
        Slice::wf(self)
    }

    open spec fn spec_elems(&self) -> Seq<T> {
        self@
    }

    open spec fn spec_memory(&self) -> Seq<T> {
        if self.layout.len > 0 {
            self.data@.subrange(self.layout.offset as int, self.data@.len() as int)
        } else {
            Seq::empty()
        }
    }

    open spec fn spec_stride(&self) -> usize {
        self.layout.stride
    }

    proof fn lemma_memory(&self, i: int) {
        self.layout.lemma_index_bound(self.data@.len() as int, i);
    }

    fn is_wf(&self) -> (r: bool) {
        Slice::is_wf(self)
    }

    fn as_slice(&self) -> (r: &[T]) {
        if self.layout.len > 0 {
            proof {
                self.layout.lemma_index_bound(self.data@.len() as int, 0);
            }
            slice_subrange(self.data, self.layout.offset, self.data.len())
        } else {
            slice_subrange(self.data, 0, 0)
        }
    }

    fn count(&self) -> (n: usize) {
        self.layout.len
    }

    fn stride(&self) -> (r: Result<BlasInt, Error>) {
        self.layout.stride.to_blasint()
    }
}

impl<T, V> Vector<T> for Col<V> where V: Vector<T> {
    open spec fn wf(&self) -> bool {
        self.0.wf()
    }

    open spec fn spec_elems(&self) -> Seq<T> {
        self.0.spec_elems()
    }

    open spec fn spec_memory(&self) -> Seq<T> {
        self.0.spec_memory()
    }

    open spec fn spec_stride(&self) -> usize {
        self.0.spec_stride()
    }

    proof fn lemma_memory(&self, i: int) {
        self.0.lemma_memory(i);
    }

    fn is_wf(&self) -> (r: bool) {
        Vector::is_wf(&self.0)
    }

    fn as_slice(&self) -> (r: &[T]) {
        Vector::as_slice(&self.0)
    }

    fn count(&self) -> (n: usize) {
        Vector::count(&self.0)
    }

    fn stride(&self) -> (r: Result<BlasInt, Error>) {
        Vector::stride(&self.0)
    }

    fn len(&self) -> (r: Result<BlasInt, Error>) {
        Vector::len(&self.0)
    }
}

impl<T, V> Vector<T> for Row<V> where V: Vector<T> {
    open spec fn wf(&self) -> bool {
        self.0.wf()
    }

    open spec fn spec_elems(&self) -> Seq<T> {
        self.0.spec_elems()
    }

    open spec fn spec_memory(&self) -> Seq<T> {
        self.0.spec_memory()
    }

    open spec fn spec_stride(&self) -> usize {
        self.0.spec_stride()
    }

    proof fn lemma_memory(&self, i: int) {
        self.0.lemma_memory(i);
    }

    fn is_wf(&self) -> (r: bool) {
        Vector::is_wf(&self.0)
    }

    fn as_slice(&self) -> (r: &[T]) {
        Vector::as_slice(&self.0)
    }

    fn count(&self) -> (n: usize) {
        Vector::count(&self.0)
    }

    fn stride(&self) -> (r: Result<BlasInt, Error>) {
        Vector::stride(&self.0)
    }

    fn len(&self) -> (r: Result<BlasInt, Error>) {
        Vector::len(&self.0)
    }
}

impl<'a, T> Vector<T> for &'a mut [T] {
    open spec fn wf(&self) -> bool {
        true
    }

    open spec fn spec_elems(&self) -> Seq<T> {
        self@
    }

    open spec fn spec_memory(&self) -> Seq<T> {
        self@
    }

    open spec fn spec_stride(&self) -> usize {
        1
    }

    proof fn lemma_memory(&self, i: int) {
    }

    fn is_wf(&self) -> (r: bool) {
        true
    }

    fn as_slice(&self) -> (r: &[T]) {
        &**self
    }

    fn count(&self) -> (n: usize) {
        <[T]>::len(&**self)
    }

    fn stride(&self) -> (r: Result<BlasInt, Error>) {
        Ok(1)
    }
}

impl<'a, T> Vector<T> for MutSlice<'a, T> {
    open spec fn wf(&self) -> bool {
        MutSlice::wf(self)
    }

    open spec fn spec_elems(&self) -> Seq<T> {
        self@
    }

    open spec fn spec_memory(&self) -> Seq<T> {
        if self.layout.len > 0 {
            self.data@.subrange(self.layout.offset as int, self.data@.len() as int)
        } else {
            Seq::empty()
        }
    }

    open spec fn spec_stride(&self) -> usize {
        self.layout.stride
    }

    proof fn lemma_memory(&self, i: int) {
        self.layout.lemma_index_bound(self.data@.len() as int, i);
    }

    fn is_wf(&self) -> (r: bool) {
        MutSlice::is_wf(self)
    }

    fn as_slice(&self) -> (r: &[T]) {
        let data: &[T] = &*self.data;
        if self.layout.len > 0 {
            proof {
                self.layout.lemma_index_bound(self.data@.len() as int, 0);
            }
            slice_subrange(data, self.layout.offset, data.len())
        } else {
            slice_subrange(data, 0, 0)
        }
    }

    fn count(&self) -> (n: usize) {
        self.layout.len
    }

    fn stride(&self) -> (r: Result<BlasInt, Error>) {
        self.layout.stride.to_blasint()
    }
}

/// Mutable BLAS vector
pub trait MutVector<T>: Vector<T> {
    /// Returns the memory chunk, from the first element on, for writing.
    /// What the backend writes there is what the vector holds afterwards.
    fn as_mut_slice(&mut self) -> (r: &mut [T])
        requires
            old(self).wf(),
        ensures
            r@ == old(self).spec_memory(),
            final(r)@.len() == r@.len() ==> final(self).wf(),
            final(r)@.len() == r@.len() ==> final(self).spec_memory() == final(r)@,
            final(self).spec_stride() == old(self).spec_stride(),
            final(r)@.len() == r@.len() ==> final(self).spec_elems().len()
                == old(self).spec_elems().len(),
    ;
}

impl<'a, T> MutVector<T> for &'a mut [T] {
    fn as_mut_slice(&mut self) -> (r: &mut [T]) {
        &mut **self
    }
}

impl<T> MutVector<T> for Vec<T> {
    fn as_mut_slice(&mut self) -> (r: &mut [T]) {
        Vec::as_mut_slice(self)
    }
}

impl<'a, T> MutVector<T> for MutSlice<'a, T> {
    fn as_mut_slice(&mut self) -> (r: &mut [T]) {
        if self.layout.len > 0 {
            proof {
                self.layout.lemma_index_bound(self.data@.len() as int, 0);
            }
            let ghost buf = self.data@;
            let (head, tail) = self.data.split_at_mut(self.layout.offset);
            assert forall|s: Seq<T>| #[trigger] s.len() == tail@.len() implies (head@ + s).subrange(
                self.layout.offset as int,
                (head@ + s).len() as int,
            ) == s by {
                assert((head@ + s).subrange(self.layout.offset as int, (head@ + s).len() as int)
                    =~= s);
            }
            tail
        } else {
            let (head, tail) = self.data.split_at_mut(0);
            head
        }
    }
}

impl<V, T> MutVector<T> for Col<V> where V: MutVector<T> {
    fn as_mut_slice(&mut self) -> (r: &mut [T]) {
        self.0.as_mut_slice()
    }
}

impl<V, T> MutVector<T> for Row<V> where V: MutVector<T> {
    fn as_mut_slice(&mut self) -> (r: &mut [T]) {
        self.0.as_mut_slice()
    }
}

/// Immutable BLAS matrix
///
/// The matrix is stored row after row, `leading_dim` elements from the start
/// of one row to the start of the next. Where `spec_trans` is
/// `Transpose::Yes`, what is stored is the transpose of what the matrix
/// shows.
pub trait Matrix<T>: MatrixRead<T> {
    /// The memory that is handed to the backend: the buffer from the first
    /// element of the matrix on.
    spec fn spec_memory(&self) -> Seq<T>;

    /// Distance in memory between two consecutive stored rows, where the
    /// matrix keeps one; `None` where the stored rows are packed.
    spec fn spec_stride(&self) -> Option<usize>;

    /// Whether what is stored is the transpose of the matrix.
    spec fn spec_trans(&self) -> Transpose;

    /// Element `(i, j)` of the matrix lies where the backend looks for it:
    /// at `i * leading_dim + j` in the memory, or at `j * leading_dim + i`
    /// where the matrix is stored transposed.
    proof fn lemma_memory(&self, i: int, j: int)
        requires
            self.wf(),
            0 <= i < self.spec_nrows(),
            0 <= j < self.spec_ncols(),
        ensures
            ({
                let ld = match self.spec_stride() {
                    Some(s) => s,
                    None => match self.spec_trans() {
                        Transpose::No => self.spec_ncols(),
                        Transpose::Yes => self.spec_nrows(),
                    },
                };
                let k = match self.spec_trans() {
                    Transpose::No => i * ld + j,
                    Transpose::Yes => j * ld + i,
                };
                0 <= k < self.spec_memory().len() && self.spec_memory()[k] == self@.at(i, j)
            }),
    ;

    /// Returns the memory chunk, from the first element on
    fn as_slice(&self) -> (r: &[T])
        requires
            self.wf(),
        ensures
            r@ == self.spec_memory(),
    ;

    /// Returns stride
    fn stride(&self) -> (r: Result<Option<BlasInt>, Error>)
        requires
            self.wf(),
        ensures
            r == match self.spec_stride() {
                Some(s) => match spec_blasint(s as int) {
                    Ok(n) => Ok(Some(n)),
                    Err(e) => Err(e),
                },
                None => Ok(None),
            },
    ;

    /// Returns whether `Self` is a transpose view
    fn trans(&self) -> (r: Transpose)
        ensures
            r == self.spec_trans(),
    ;
}

/// Number of rows and of columns of what is stored: the shape of the matrix,
/// or the shape exchanged where the matrix is stored transposed.
pub open spec fn spec_stored_size<T, M: Matrix<T>>(m: &M) -> (usize, usize) {
    match m.spec_trans() {
        Transpose::No => (m.spec_nrows(), m.spec_ncols()),
        Transpose::Yes => (m.spec_ncols(), m.spec_nrows()),
    }
}

/// The leading dimension: the stride where the matrix keeps one, else the
/// length of a stored row.
pub open spec fn spec_leading_dim<T, M: Matrix<T>>(m: &M) -> usize {
    match m.spec_stride() {
        Some(s) => s,
        None => spec_stored_size(m).1,
    }
}

/// Where element `(i, j)` of the matrix lies in the memory that is handed to
/// the backend.
pub open spec fn spec_memory_index<T, M: Matrix<T>>(m: &M, i: int, j: int) -> int {
    match m.spec_trans() {
        Transpose::No => i * spec_leading_dim(m) + j,
        Transpose::Yes => j * spec_leading_dim(m) + i,
    }
}

impl<'a, T, M> Matrix<T> for &'a M where M: Matrix<T> {
    open spec fn spec_memory(&self) -> Seq<T> {
        (**self).spec_memory()
    }

    open spec fn spec_stride(&self) -> Option<usize> {
        (**self).spec_stride()
    }

    open spec fn spec_trans(&self) -> Transpose {
        (**self).spec_trans()
    }

    proof fn lemma_memory(&self, i: int, j: int) {
        (**self).lemma_memory(i, j);
    }

    fn as_slice(&self) -> (r: &[T]) {
        Matrix::as_slice(*self)
    }

    fn stride(&self) -> (r: Result<Option<BlasInt>, Error>) {
        Matrix::stride(*self)
    }

    fn trans(&self) -> (r: Transpose) {
        Matrix::trans(*self)
    }
}

impl<T> Matrix<T> for Mat<T> {
    open spec fn spec_memory(&self) -> Seq<T> {
        self.data@
    }

    open spec fn spec_stride(&self) -> Option<usize> {
        None
    }

    open spec fn spec_trans(&self) -> Transpose {
        Transpose::No
    }

    proof fn lemma_memory(&self, i: int, j: int) {
        self.lemma_layout();
        self.layout().lemma_index_bound(self.data@.len() as int, i, j);
    }

    fn as_slice(&self) -> (r: &[T]) {
        self.data.as_slice()
    }

    fn stride(&self) -> (r: Result<Option<BlasInt>, Error>) {
        Ok(None)
    }

    fn trans(&self) -> (r: Transpose) {
        Transpose::No
    }
}

impl<T, M> Matrix<T> for Trans<M> where M: Matrix<T> {
    open spec fn spec_memory(&self) -> Seq<T> {
        self.0.spec_memory()
    }

    open spec fn spec_stride(&self) -> Option<usize> {
        self.0.spec_stride()
    }

    open spec fn spec_trans(&self) -> Transpose {
        self.0.spec_trans().flip()
    }

    proof fn lemma_memory(&self, i: int, j: int) {
        self.0.lemma_shape();
        self.0.lemma_memory(j, i);
    }

    fn as_slice(&self) -> (r: &[T]) {
        self.0.as_slice()
    }

    fn stride(&self) -> (r: Result<Option<BlasInt>, Error>) {
        self.0.stride()
    }

    fn trans(&self) -> (r: Transpose) {
        self.0.trans().not()
    }
}

impl<'a, T> Matrix<T> for MatView<'a, T> {
    open spec fn spec_memory(&self) -> Seq<T> {
        if self.layout.nrows > 0 && self.layout.ncols > 0 {
            self.data@.subrange(self.layout.offset as int, self.data@.len() as int)
        } else {
            Seq::empty()
        }
    }

    open spec fn spec_stride(&self) -> Option<usize> {
        Some(self.layout.stride)
    }

    open spec fn spec_trans(&self) -> Transpose {
        Transpose::No
    }

    proof fn lemma_memory(&self, i: int, j: int) {
        self.layout.lemma_index_bound(self.data@.len() as int, i, j);
        self.layout.lemma_index_bound(self.data@.len() as int, 0, 0);
    }

    fn as_slice(&self) -> (r: &[T]) {
        if self.layout.nrows > 0 && self.layout.ncols > 0 {
            proof {
                self.layout.lemma_index_bound(self.data@.len() as int, 0, 0);
            }
            slice_subrange(self.data, self.layout.offset, self.data.len())
        } else {
            slice_subrange(self.data, 0, 0)
        }
    }

    fn stride(&self) -> (r: Result<Option<BlasInt>, Error>) {
        match self.layout.stride.to_blasint() {
            Ok(n) => Ok(Some(n)),
            Err(e) => Err(e),
        }
    }

    fn trans(&self) -> (r: Transpose) {
        Transpose::No
    }
}

impl<'a, T> Matrix<T> for MutView<'a, T> {
    open spec fn spec_memory(&self) -> Seq<T> {
        if self.layout.nrows > 0 && self.layout.ncols > 0 {
            self.data@.subrange(self.layout.offset as int, self.data@.len() as int)
        } else {
            Seq::empty()
        }
    }

    open spec fn spec_stride(&self) -> Option<usize> {
        Some(self.layout.stride)
    }

    open spec fn spec_trans(&self) -> Transpose {
        Transpose::No
    }

    proof fn lemma_memory(&self, i: int, j: int) {
        self.layout.lemma_index_bound(self.data@.len() as int, i, j);
        self.layout.lemma_index_bound(self.data@.len() as int, 0, 0);
    }

    fn as_slice(&self) -> (r: &[T]) {
        if self.layout.nrows > 0 && self.layout.ncols > 0 {
            proof {
                self.layout.lemma_index_bound(self.data@.len() as int, 0, 0);
            }
            let data: &[T] = &*self.data;
            slice_subrange(data, self.layout.offset, data.len())
        } else {
            slice_subrange(&*self.data, 0, 0)
        }
    }

    fn stride(&self) -> (r: Result<Option<BlasInt>, Error>) {
        match self.layout.stride.to_blasint() {
            Ok(n) => Ok(Some(n)),
            Err(e) => Err(e),
        }
    }

    fn trans(&self) -> (r: Transpose) {
        Transpose::No
    }
}

/// Mutable BLAS matrix
pub trait MutMatrix<T>: Matrix<T> {
    /// Returns the memory chunk, from the first element on, for writing.
    /// What the backend writes there is what the matrix holds afterwards.
    fn as_mut_slice(&mut self) -> (r: &mut [T])
        requires
            old(self).wf(),
        ensures
            r@ == old(self).spec_memory(),
            final(self).spec_stride() == old(self).spec_stride(),
            final(self).spec_trans() == old(self).spec_trans(),
            final(self).spec_nrows() == old(self).spec_nrows(),
            final(self).spec_ncols() == old(self).spec_ncols(),
            final(r)@.len() == r@.len() ==> final(self).wf(),
            final(r)@.len() == r@.len() ==> final(self).spec_memory() == final(r)@,
    ;
}

impl<T> MutMatrix<T> for Mat<T> {
    fn as_mut_slice(&mut self) -> (r: &mut [T]) {
        self.data.as_mut_slice()
    }
}

impl<'a, T> MutMatrix<T> for MutView<'a, T> {
    fn as_mut_slice(&mut self) -> (r: &mut [T]) {
        if self.layout.nrows > 0 && self.layout.ncols > 0 {
            proof {
                self.layout.lemma_index_bound(self.data@.len() as int, 0, 0);
            }
            let (head, tail) = self.data.split_at_mut(self.layout.offset);
            assert forall|s: Seq<T>| #[trigger] s.len() == tail@.len() implies (head@ + s).subrange(
                self.layout.offset as int,
                (head@ + s).len() as int,
            ) == s by {
                assert((head@ + s).subrange(self.layout.offset as int, (head@ + s).len() as int)
                    =~= s);
            }
            tail
        } else {
            let (head, tail) = self.data.split_at_mut(0);
            head
        }
    }
}

impl<T, M> MutMatrix<T> for Trans<M> where M: MutMatrix<T> {
    fn as_mut_slice(&mut self) -> (r: &mut [T]) {
        self.0.as_mut_slice()
    }
}

} // verus!
