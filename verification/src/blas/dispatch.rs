//! The arguments of the backend kernels, derived from the operands.
//!
//! For each kernel a function checks that the shapes of the operands go
//! together, converts every count, stride and leading dimension to the index
//! type of the backend, and hands back the arguments in the order in which
//! the kernel takes them. The memory itself comes from `as_slice` and
//! `as_mut_slice` of the operands.

use vstd::prelude::*;
use crate::blas::{spec_blasint, BlasInt, Matrix, ToBlasInt, Transpose, Vector};
use crate::blas::{spec_leading_dim, spec_stored_size};
use crate::error::Error;
use crate::grid::Grid;
use crate::traits::{MatrixRead, MatrixShape};

verus! {

/// Whether the index type of the backend can hold the count `n`.
pub open spec fn fits(n: int) -> bool {
    n <= BlasInt::MAX
}

/// What the backend reads as the `rows * cols` matrix that lies in `memory`
/// with leading dimension `ld`: element `(i, j)` from `i * ld + j`, or from
/// `j * ld + i` where it is told to transpose.
pub open spec fn spec_read<T>(memory: Seq<T>, rows: int, cols: int, ld: int, trans: Transpose) -> Grid<
    T,
> {
    Grid::new(
        rows as nat,
        cols as nat,
        |i: int, j: int|
            match trans {
                Transpose::No => memory[i * ld + j],
                Transpose::Yes => memory[j * ld + i],
            },
    )
}

/// What the backend reads as the vector of `n` elements that lies in `memory`
/// with increment `inc`.
pub open spec fn spec_read_vector<T>(memory: Seq<T>, n: int, inc: int) -> Seq<T> {
    Seq::new(n as nat, |i: int| memory[i * inc])
}

/// A matrix, read by the backend with its own flag and leading dimension, is
/// the matrix; read with the flag flipped, it is the transpose. Either way
/// every element that is read lies inside the memory that is handed over.
pub proof fn law_matrix_read<T, M: Matrix<T>>(m: &M)
    requires
        m.wf(),
    ensures
        spec_read(
            m.spec_memory(),
            m.spec_nrows() as int,
            m.spec_ncols() as int,
            spec_leading_dim(m) as int,
            m.spec_trans(),
        ) == m@,
        spec_read(
            m.spec_memory(),
            m.spec_ncols() as int,
            m.spec_nrows() as int,
            spec_leading_dim(m) as int,
            m.spec_trans().flip(),
        ) == m@.transpose(),
        forall|i: int, j: int|
            0 <= i < m.spec_nrows() && 0 <= j < m.spec_ncols() ==> 0 <= #[trigger] crate::blas::spec_memory_index(
                m,
                i,
                j,
            ) < m.spec_memory().len(),
{
    m.lemma_shape();
    let ld = spec_leading_dim(m) as int;
    let a = spec_read(
        m.spec_memory(),
        m.spec_nrows() as int,
        m.spec_ncols() as int,
        ld,
        m.spec_trans(),
    );
    let b = spec_read(
        m.spec_memory(),
        m.spec_ncols() as int,
        m.spec_nrows() as int,
        ld,
        m.spec_trans().flip(),
    );
    assert forall|i: int, j: int| a.in_range(i, j) implies a.at(i, j) == m@.at(i, j) by {
        m.lemma_memory(i, j);
    }
    assert forall|i: int, j: int| b.in_range(i, j) implies b.at(i, j) == m@.transpose().at(i, j) by {
        m.lemma_memory(j, i);
    }
    assert forall|i: int, j: int|
        0 <= i < m.spec_nrows() && 0 <= j < m.spec_ncols() implies 0
        <= #[trigger] crate::blas::spec_memory_index(m, i, j) < m.spec_memory().len() by {
        m.lemma_memory(i, j);
    }
    a.lemma_ext_equal(m@);
    b.lemma_ext_equal(m@.transpose());
}

/// A vector, read by the backend with its own length and stride, is the
/// vector, and every element that is read lies inside the memory that is
/// handed over.
pub proof fn law_vector_read<T, V: Vector<T>>(v: &V)
    requires
        v.wf(),
    ensures
        spec_read_vector(v.spec_memory(), v.spec_elems().len() as int, v.spec_stride() as int)
            == v.spec_elems(),
        forall|i: int|
            0 <= i < v.spec_elems().len() ==> 0 <= #[trigger] (i * v.spec_stride())
                < v.spec_memory().len(),
{
    let r = spec_read_vector(
        v.spec_memory(),
        v.spec_elems().len() as int,
        v.spec_stride() as int,
    );
    assert forall|i: int| 0 <= i < v.spec_elems().len() implies r[i] == v.spec_elems()[i] && 0
        <= #[trigger] (i * v.spec_stride()) < v.spec_memory().len() by {
        v.lemma_memory(i);
    }
    assert(r =~= v.spec_elems());
}

/// The leading dimension of `m` in the index type of the backend: its stride
/// where it keeps one, else the length of a stored row.
pub fn leading_dim<T, M: Matrix<T>>(m: &M) -> (r: Result<BlasInt, Error>)
    requires
        m.wf(),
    ensures
        r == spec_blasint(spec_leading_dim(m) as int),
{
    match m.stride() {
        Ok(Some(ld)) => Ok(ld),
        Ok(None) => match m.trans() {
            Transpose::No => m.ncols().to_blasint(),
            Transpose::Yes => m.nrows().to_blasint(),
        },
        Err(e) => Err(e),
    }
}

/// How the backend is told about one vector.
#[derive(Clone, Copy, Debug, PartialEq, Eq, Structural)]
pub struct VectorArgs {
    /// Number of elements.
    pub n: BlasInt,
    /// Distance in memory between two consecutive elements.
    pub inc: BlasInt,
}

/// How the backend is told about one matrix.
#[derive(Clone, Copy, Debug, PartialEq, Eq, Structural)]
pub struct MatrixArgs {
    /// Whether the backend is to read the stored matrix transposed.
    pub trans: Transpose,
    /// Number of stored rows.
    pub rows: BlasInt,
    /// Number of stored columns.
    pub cols: BlasInt,
    /// Distance in memory between two consecutive stored rows.
    pub ld: BlasInt,
}

/// The arguments that describe a vector of `len` elements and stride
/// `stride`, where both fit the index type of the backend.
pub open spec fn spec_vector_args(len: int, stride: int) -> Result<VectorArgs, Error> {
    if fits(len) && fits(stride) {
        Ok(VectorArgs { n: len as BlasInt, inc: stride as BlasInt })
    } else {
        Err(Error::Overflow)
    }
}

/// The arguments that describe the matrix `m`, where its counts fit the index
/// type of the backend.
pub open spec fn spec_matrix_args<T, M: Matrix<T>>(m: &M) -> Result<MatrixArgs, Error> {
    let (rows, cols) = spec_stored_size(m);
    let ld = spec_leading_dim(m);
    if fits(rows as int) && fits(cols as int) && fits(ld as int) {
        Ok(
            MatrixArgs {
                trans: m.spec_trans(),
                rows: rows as BlasInt,
                cols: cols as BlasInt,
                ld: ld as BlasInt,
            },
        )
    } else {
        Err(Error::Overflow)
    }
}

/// The arguments for a kernel that reads or writes the vector `v`;
/// `Err(Error::Overflow)` where its length or its stride does not fit the
/// index type of the backend.
pub fn vector_args<T, V: Vector<T>>(v: &V) -> (r: Result<VectorArgs, Error>)
    requires
        v.wf(),
    ensures
        r == spec_vector_args(v.spec_elems().len() as int, v.spec_stride() as int),
{
    let n = match v.len() {
        Ok(n) => n,
        Err(e) => {
            return Err(e);
        },
    };
    let inc = match v.stride() {
        Ok(inc) => inc,
        Err(e) => {
            return Err(e);
        },
    };
    Ok(VectorArgs { n, inc })
}

/// The arguments for a kernel that reads or writes the matrix `m`;
/// `Err(Error::Overflow)` where one of its counts does not fit the index type
/// of the backend.
pub fn matrix_args<T, M: Matrix<T>>(m: &M) -> (r: Result<MatrixArgs, Error>)
    requires
        m.wf(),
    ensures
        r == spec_matrix_args(m),
{
    let trans = m.trans();
    let (rows, cols) = match trans {
        Transpose::No => (m.nrows(), m.ncols()),
        Transpose::Yes => (m.ncols(), m.nrows()),
    };
    let rows = match rows.to_blasint() {
        Ok(n) => n,
        Err(e) => {
            return Err(e);
        },
    };
    let cols = match cols.to_blasint() {
        Ok(n) => n,
        Err(e) => {
            return Err(e);
        },
    };
    let ld = match leading_dim(m) {
        Ok(n) => n,
        Err(e) => {
            return Err(e);
        },
    };
    Ok(MatrixArgs { trans, rows, cols, ld })
}

/// How the backend is told about two vectors of one length: the arguments
/// of the dot product, of the scaled addition `y += alpha * x` and of the
/// copy `y = x`.
#[derive(Clone, Copy, Debug, PartialEq, Eq, Structural)]
pub struct PairArgs {
    /// Number of elements of each vector.
    pub n: BlasInt,
    /// Stride of the first vector.
    pub incx: BlasInt,
    /// Stride of the second vector.
    pub incy: BlasInt,
}

/// The arguments for two vectors with the given lengths and strides.
pub open spec fn spec_pair_args(xlen: int, incx: int, ylen: int, incy: int) -> Result<
    PairArgs,
    Error,
> {
    if xlen != ylen {
        Err(Error::ShapeMismatch)
    } else if fits(xlen) && fits(incx) && fits(incy) {
        Ok(PairArgs { n: xlen as BlasInt, incx: incx as BlasInt, incy: incy as BlasInt })
    } else {
        Err(Error::Overflow)
    }
}

/// The arguments for a kernel on the two vectors `x` and `y`:
/// `Err(Error::ShapeMismatch)` where their lengths differ, else
/// `Err(Error::Overflow)` where the length or a stride does not fit the
/// index type of the backend.
pub fn pair_args<T, X: Vector<T>, Y: Vector<T>>(x: &X, y: &Y) -> (r: Result<PairArgs, Error>)
    requires
        x.wf(),
        y.wf(),
    ensures
        r == spec_pair_args(
            x.spec_elems().len() as int,
            x.spec_stride() as int,
            y.spec_elems().len() as int,
            y.spec_stride() as int,
        ),
{
    if x.count() != y.count() {
        return Err(Error::ShapeMismatch);
    }
    let xa = match vector_args(x) {
        Ok(a) => a,
        Err(e) => {
            return Err(e);
        },
    };
    let incy = match y.stride() {
        Ok(inc) => inc,
        Err(e) => {
            return Err(e);
        },
    };
    Ok(PairArgs { n: xa.n, incx: xa.inc, incy })
}

/// How the backend is told about a matrix-vector product
/// `y = alpha * A * x + beta * y`.
#[derive(Clone, Copy, Debug, PartialEq, Eq, Structural)]
pub struct GemvArgs {
    /// Whether the backend is to read the stored `A` transposed.
    pub trans: Transpose,
    /// Number of stored rows of `A`.
    pub m: BlasInt,
    /// Number of stored columns of `A`.
    pub n: BlasInt,
    /// Leading dimension of `A`.
    pub lda: BlasInt,
    /// Stride of `x`.
    pub incx: BlasInt,
    /// Stride of `y`.
    pub incy: BlasInt,
}

/// The arguments of the matrix-vector product of `a` and `x` into `y`.
pub open spec fn spec_gemv_args<T, A: Matrix<T>, X: Vector<T>, Y: Vector<T>>(
    a: &A,
    x: &X,
    y: &Y,
) -> Result<GemvArgs, Error> {
    if a.spec_ncols() != x.spec_elems().len() || a.spec_nrows() != y.spec_elems().len() {
        Err(Error::ShapeMismatch)
    } else {
        match (spec_matrix_args(a), spec_blasint(x.spec_stride() as int), spec_blasint(
            y.spec_stride() as int,
        )) {
            (Ok(ma), Ok(incx), Ok(incy)) => Ok(
                GemvArgs { trans: ma.trans, m: ma.rows, n: ma.cols, lda: ma.ld, incx, incy },
            ),
            _ => Err(Error::Overflow),
        }
    }
}

/// The arguments for the matrix-vector product `y = alpha * a * x + beta * y`:
/// `Err(Error::ShapeMismatch)` unless `x` has as many elements as `a` has
/// columns and `y` as many as `a` has rows, else `Err(Error::Overflow)` where
/// a count does not fit the index type of the backend.
pub fn gemv_args<T, A: Matrix<T>, X: Vector<T>, Y: Vector<T>>(a: &A, x: &X, y: &Y) -> (r: Result<
    GemvArgs,
    Error,
>)
    requires
        a.wf(),
        x.wf(),
        y.wf(),
    ensures
        r == spec_gemv_args(a, x, y),
{
    if a.ncols() != x.count() || a.nrows() != y.count() {
        return Err(Error::ShapeMismatch);
    }
    let ma = match matrix_args(a) {
        Ok(ma) => ma,
        Err(e) => {
            return Err(e);
        },
    };
    let incx = match x.stride() {
        Ok(inc) => inc,
        Err(e) => {
            return Err(e);
        },
    };
    let incy = match y.stride() {
        Ok(inc) => inc,
        Err(e) => {
            return Err(e);
        },
    };
    Ok(GemvArgs { trans: ma.trans, m: ma.rows, n: ma.cols, lda: ma.ld, incx, incy })
}

/// How the backend is told about a matrix-matrix product
/// `C = alpha * A * B + beta * C`.
///
/// The backend writes a stored matrix of `m` rows and `n` columns. Where `C`
/// is stored transposed, that stored matrix is the transpose of `C`, which is
/// the product of the transpose of `B` and the transpose of `A`: the two
/// factors then change places, each with its flag flipped, and `swapped`
/// says so.
#[derive(Clone, Copy, Debug, PartialEq, Eq, Structural)]
pub struct GemmArgs {
    /// Whether the first factor handed to the backend is `B` and the second
    /// `A`.
    pub swapped: bool,
    /// Whether the backend is to read the first factor transposed.
    pub transa: Transpose,
    /// Whether the backend is to read the second factor transposed.
    pub transb: Transpose,
    /// Number of rows of the stored result.
    pub m: BlasInt,
    /// Number of columns of the stored result.
    pub n: BlasInt,
    /// Number of terms of each inner product.
    pub k: BlasInt,
    /// Leading dimension of the first factor.
    pub lda: BlasInt,
    /// Leading dimension of the second factor.
    pub ldb: BlasInt,
    /// Leading dimension of the result.
    pub ldc: BlasInt,
}

/// Whether `a * b` can be stored in `c`.
pub open spec fn spec_gemm_shapes<T, A: Matrix<T>, B: Matrix<T>, C: Matrix<T>>(
    a: &A,
    b: &B,
    c: &C,
) -> bool {
    &&& a.spec_nrows() == c.spec_nrows()
    &&& a.spec_ncols() == b.spec_nrows()
    &&& b.spec_ncols() == c.spec_ncols()
}

/// The arguments of the matrix-matrix product of `a` and `b` into `c`.
pub open spec fn spec_gemm_args<T, A: Matrix<T>, B: Matrix<T>, C: Matrix<T>>(
    a: &A,
    b: &B,
    c: &C,
) -> Result<GemmArgs, Error> {
    if !spec_gemm_shapes(a, b, c) {
        Err(Error::ShapeMismatch)
    } else {
        match (spec_matrix_args(a), spec_matrix_args(b), spec_matrix_args(c), spec_blasint(
            a.spec_ncols() as int,
        )) {
            (Ok(ma), Ok(mb), Ok(mc), Ok(k)) => Ok(
                match mc.trans {
                    Transpose::No => GemmArgs {
                        swapped: false,
                        transa: ma.trans,
                        transb: mb.trans,
                        m: mc.rows,
                        n: mc.cols,
                        k,
                        lda: ma.ld,
                        ldb: mb.ld,
                        ldc: mc.ld,
                    },
                    Transpose::Yes => GemmArgs {
                        swapped: true,
                        transa: mb.trans.flip(),
                        transb: ma.trans.flip(),
                        m: mc.rows,
                        n: mc.cols,
                        k,
                        lda: mb.ld,
                        ldb: ma.ld,
                        ldc: mc.ld,
                    },
                },
            ),
            _ => Err(Error::Overflow),
        }
    }
}

/// The arguments for the matrix-matrix product
/// `c = alpha * a * b + beta * c`: `Err(Error::ShapeMismatch)` unless `a` has
/// the rows of `c`, `b` the columns of `c`, and `a` as many columns as `b`
/// has rows; else `Err(Error::Overflow)` where a count does not fit the index
/// type of the backend.
pub fn gemm_args<T, A: Matrix<T>, B: Matrix<T>, C: Matrix<T>>(a: &A, b: &B, c: &C) -> (r: Result<
    GemmArgs,
    Error,
>)
    requires
        a.wf(),
        b.wf(),
        c.wf(),
    ensures
        r == spec_gemm_args(a, b, c),
{
    if a.nrows() != c.nrows() || a.ncols() != b.nrows() || b.ncols() != c.ncols() {
        return Err(Error::ShapeMismatch);
    }
    let ma = match matrix_args(a) {
        Ok(ma) => ma,
        Err(e) => {
            return Err(e);
        },
    };
    let mb = match matrix_args(b) {
        Ok(mb) => mb,
        Err(e) => {
            return Err(e);
        },
    };
    let mc = match matrix_args(c) {
        Ok(mc) => mc,
        Err(e) => {
            return Err(e);
        },
    };
    let k = match a.ncols().to_blasint() {
        Ok(k) => k,
        Err(e) => {
            return Err(e);
        },
    };
    match mc.trans {
        Transpose::No => Ok(
            GemmArgs {
                swapped: false,
                transa: ma.trans,
                transb: mb.trans,
                m: mc.rows,
                n: mc.cols,
                k,
                lda: ma.ld,
                ldb: mb.ld,
                ldc: mc.ld,
            },
        ),
        Transpose::Yes => Ok(
            GemmArgs {
                swapped: true,
                transa: mb.trans.not(),
                transb: ma.trans.not(),
                m: mc.rows,
                n: mc.cols,
                k,
                lda: mb.ld,
                ldb: ma.ld,
                ldc: mc.ld,
            },
        ),
    }
}

/// With the arguments of the matrix-vector product the backend reads `a` as
/// the matrix that it is.
pub proof fn law_gemv_args<T, A: Matrix<T>, X: Vector<T>, Y: Vector<T>>(a: &A, x: &X, y: &Y)
    requires
        a.wf(),
        x.wf(),
        y.wf(),
        spec_gemv_args(a, x, y) is Ok,
    ensures
        ({
            let g = spec_gemv_args(a, x, y).unwrap();
            &&& spec_read(
                a.spec_memory(),
                a.spec_nrows() as int,
                a.spec_ncols() as int,
                g.lda as int,
                g.trans,
            ) == a@
            &&& (g.m as int, g.n as int) == match g.trans {
                Transpose::No => (a.spec_nrows() as int, a.spec_ncols() as int),
                Transpose::Yes => (a.spec_ncols() as int, a.spec_nrows() as int),
            }
            &&& spec_read_vector(x.spec_memory(), a.spec_ncols() as int, g.incx as int)
                == x.spec_elems()
            &&& spec_read_vector(y.spec_memory(), a.spec_nrows() as int, g.incy as int)
                == y.spec_elems()
        }),
{
    law_matrix_read(a);
    law_vector_read(x);
    law_vector_read(y);
}

/// With the arguments of the matrix-matrix product the backend reads the
/// factors and the result as what they are: the stored result as `c`, and
/// the factors as `a` and `b`; or, where `c` is stored transposed, the stored
/// result as the transpose of `c`, and the factors as the transpose of `b`
/// and the transpose of `a`, whose product that is.
pub proof fn law_gemm_args<T, A: Matrix<T>, B: Matrix<T>, C: Matrix<T>>(a: &A, b: &B, c: &C)
    requires
        a.wf(),
        b.wf(),
        c.wf(),
        spec_gemm_args(a, b, c) is Ok,
    ensures
        ({
            let g = spec_gemm_args(a, b, c).unwrap();
            let stored = spec_read(
                c.spec_memory(),
                g.m as int,
                g.n as int,
                g.ldc as int,
                Transpose::No,
            );
            if g.swapped {
                &&& stored == c@.transpose()
                &&& spec_read(b.spec_memory(), g.m as int, g.k as int, g.lda as int, g.transa)
                    == b@.transpose()
                &&& spec_read(a.spec_memory(), g.k as int, g.n as int, g.ldb as int, g.transb)
                    == a@.transpose()
            } else {
                &&& stored == c@
                &&& spec_read(a.spec_memory(), g.m as int, g.k as int, g.lda as int, g.transa) == a@
                &&& spec_read(b.spec_memory(), g.k as int, g.n as int, g.ldb as int, g.transb) == b@
            }
        }),
{
    law_matrix_read(a);
    law_matrix_read(b);
    law_matrix_read(c);
}

/// The kinds of element for which the backend has kernels.
#[derive(Clone, Copy, Debug, PartialEq, Eq, Structural)]
pub enum ElementKind {
    /// Real numbers in single precision.
    Single,
    /// Real numbers in double precision.
    Double,
    /// Complex numbers made of two reals in single precision.
    ComplexSingle,
    /// Complex numbers made of two reals in double precision.
    ComplexDouble,
}

impl ElementKind {
    /// The letter with which the names of the backend's kernels for this
    /// kind begin: `s`, `d`, `c` or `z`.
    pub fn prefix(&self) -> (r: u8)
        ensures
            r == match *self {
                ElementKind::Single => 115u8,
                ElementKind::Double => 100u8,
                ElementKind::ComplexSingle => 99u8,
                ElementKind::ComplexDouble => 122u8,
            },
    {
        match *self {
            ElementKind::Single => 115,
            ElementKind::Double => 100,
            ElementKind::ComplexSingle => 99,
            ElementKind::ComplexDouble => 122,
        }
    }

    /// How many reals make one element.
    pub fn reals(&self) -> (r: usize)
        ensures
            r == match *self {
                ElementKind::Single | ElementKind::Double => 1usize,
                ElementKind::ComplexSingle | ElementKind::ComplexDouble => 2usize,
            },
    {
        match *self {
            ElementKind::Single | ElementKind::Double => 1,
            ElementKind::ComplexSingle | ElementKind::ComplexDouble => 2,
        }
    }
}

/// Which way an operation goes.
#[derive(Clone, Copy, Debug, PartialEq, Eq, Structural)]
pub enum Path {
    /// Through the kernel of the backend for the given kind of element.
    Accelerated(ElementKind),
    /// Through the loops of this library, which work for every element type.
    Generic,
}

/// The way for an operation on elements of kind `kind`, or of no kind that
/// the backend knows, whose arguments for the backend are `args`: through the
/// backend where it has kernels for the kind and the arguments could be
/// derived, else through the generic loops.
pub fn select_path<A>(kind: Option<ElementKind>, args: &Result<A, Error>) -> (r: Path)
    ensures
        r == match (kind, args) {
            (Some(k), Ok(_)) => Path::Accelerated(k),
            _ => Path::Generic,
        },
{
    match kind {
        Some(k) => match args {
            Ok(_) => Path::Accelerated(k),
            Err(_) => Path::Generic,
        },
        None => Path::Generic,
    }
}

} // verus!
