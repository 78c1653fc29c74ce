use linalg::blas::dispatch::{
    gemm_args, gemv_args, leading_dim, matrix_args, pair_args, select_path, vector_args,
    ElementKind, GemmArgs, GemvArgs, MatrixArgs, PairArgs, Path, VectorArgs,
};
use linalg::blas::{Matrix, MutMatrix, MutVector, ToBlasInt, Transpose, Vector};
use linalg::traits::MatrixShape;
use linalg::{Error, Mat, MutSlice, Slice, Trans};

fn numbers(size: (usize, usize)) -> Mat<i64> {
    Mat::from_fn(size, |r, c| 10 * r as i64 + c as i64).unwrap()
}

#[test]
fn transpose_flag_flips() {
    assert_eq!(Transpose::No.not(), Transpose::Yes);
    assert_eq!(Transpose::Yes.not(), Transpose::No);
    assert_eq!(Transpose::No.not().not(), Transpose::No);
    assert_eq!(Transpose::No.code(), b'n');
    assert_eq!(Transpose::Yes.code(), b't');
}

#[test]
fn to_blasint_checks_the_range() {
    assert_eq!(0usize.to_blasint(), Ok(0));
    assert_eq!(12345usize.to_blasint(), Ok(12345));
    assert_eq!((i32::MAX as usize).to_blasint(), Ok(i32::MAX));
    assert_eq!((i32::MAX as usize + 1).to_blasint(), Err(Error::Overflow));
    assert_eq!(usize::MAX.to_blasint(), Err(Error::Overflow));
}

#[test]
fn contiguous_vectors_have_stride_one() {
    let data = vec![1i64, 2, 3];
    assert_eq!(Vector::stride(&data), Ok(1));
    assert_eq!(Vector::len(&data), Ok(3));
    assert_eq!(Vector::as_slice(&data), &[1, 2, 3]);
    let s: &[i64] = &data;
    assert_eq!(Vector::stride(&s), Ok(1));
    assert_eq!(Vector::len(&s), Ok(3));
    assert_eq!(vector_args(&s), Ok(VectorArgs { n: 3, inc: 1 }));
    assert_eq!(vector_args(&&data), Ok(VectorArgs { n: 3, inc: 1 }));
}

#[test]
fn strided_vectors_hand_over_their_memory() {
    let m = numbers((4, 5));
    let v = m.slice((1, 1), (4, 4)).unwrap();
    let col = v.col(2).unwrap();
    assert_eq!(vector_args(&col), Ok(VectorArgs { n: 3, inc: 5 }));
    let mem = Vector::as_slice(&col);
    for i in 0..3 {
        assert_eq!(mem[i * 5], 10 * (1 + i as i64) + 3);
    }
    let row = v.row(1).unwrap();
    assert_eq!(vector_args(&row), Ok(VectorArgs { n: 3, inc: 1 }));
    assert_eq!(&Vector::as_slice(&row)[..3], &[21, 22, 23]);
    let diag = v.diag(1).unwrap();
    assert_eq!(vector_args(&diag.0), Ok(VectorArgs { n: 2, inc: 6 }));
    let mem = Vector::as_slice(&diag.0);
    assert_eq!((mem[0], mem[6]), (12, 23));
    let empty = m.slice((0, 0), (0, 5)).unwrap();
    let none = empty.col(4).unwrap();
    assert_eq!(vector_args(&none), Ok(VectorArgs { n: 0, inc: 5 }));
    assert!(Vector::as_slice(&none).is_empty());
}

#[test]
fn owned_matrix_is_packed_and_not_transposed() {
    let m = numbers((3, 4));
    assert_eq!(Matrix::stride(&m), Ok(None));
    assert_eq!(Matrix::trans(&m), Transpose::No);
    assert_eq!(leading_dim(&m), Ok(4));
    assert_eq!(
        matrix_args(&m),
        Ok(MatrixArgs { trans: Transpose::No, rows: 3, cols: 4, ld: 4 })
    );
    assert_eq!(Matrix::as_slice(&m).len(), 12);
}

#[test]
fn views_keep_the_stride_of_their_buffer() {
    let m = numbers((5, 7));
    let v = m.slice((1, 2), (4, 6)).unwrap();
    assert_eq!(Matrix::stride(&v), Ok(Some(7)));
    assert_eq!(
        matrix_args(&v),
        Ok(MatrixArgs { trans: Transpose::No, rows: 3, cols: 4, ld: 7 })
    );
    let mem = Matrix::as_slice(&v);
    for i in 0..3 {
        for j in 0..4 {
            assert_eq!(mem[i * 7 + j], *v.at((i, j)).unwrap());
        }
    }
}

#[test]
fn transposed_forwards_memory_and_flips_the_flag() {
    let m = numbers((5, 7));
    let v = m.slice((1, 2), (4, 6)).unwrap();
    let t = v.t();
    assert_eq!(Matrix::trans(&t), Transpose::Yes);
    assert_eq!(Matrix::stride(&t), Ok(Some(7)));
    assert_eq!(
        matrix_args(&t),
        Ok(MatrixArgs { trans: Transpose::Yes, rows: 3, cols: 4, ld: 7 })
    );
    assert_eq!(Matrix::as_slice(&t), Matrix::as_slice(&v));
    let mem = Matrix::as_slice(&t);
    assert_eq!(t.size(), (4, 3));
    for i in 0..4 {
        for j in 0..3 {
            assert_eq!(mem[j * 7 + i], *t.at((i, j)).unwrap());
        }
    }
    let tt = Trans(t);
    assert_eq!(Matrix::trans(&tt), Transpose::No);
    assert_eq!(matrix_args(&tt), matrix_args(&v));
    let owned = numbers((2, 3)).t();
    assert_eq!(
        matrix_args(&owned),
        Ok(MatrixArgs { trans: Transpose::Yes, rows: 2, cols: 3, ld: 3 })
    );
}

#[test]
fn pair_arguments() {
    let m = numbers((4, 5));
    let x = m.col(0).unwrap();
    let y = m.col(3).unwrap();
    let z = m.row(0).unwrap();
    assert_eq!(pair_args(&x, &y), Ok(PairArgs { n: 4, incx: 5, incy: 5 }));
    assert_eq!(pair_args(&x, &z.0), Err(Error::ShapeMismatch));
    let owned = vec![0i64; 4];
    assert_eq!(pair_args(&owned, &y.0), Ok(PairArgs { n: 4, incx: 1, incy: 5 }));
}

#[test]
fn gemv_arguments() {
    let m = numbers((5, 7));
    let a = m.slice((1, 2), (4, 6)).unwrap();
    let x = vec![0i64; 4];
    let y = vec![0i64; 3];
    assert_eq!(
        gemv_args(&a, &x, &y),
        Ok(GemvArgs { trans: Transpose::No, m: 3, n: 4, lda: 7, incx: 1, incy: 1 })
    );
    assert_eq!(gemv_args(&a, &y, &x), Err(Error::ShapeMismatch));
    assert_eq!(
        gemv_args(&a.t(), &y, &x),
        Ok(GemvArgs { trans: Transpose::Yes, m: 3, n: 4, lda: 7, incx: 1, incy: 1 })
    );
    assert_eq!(gemv_args(&a.t(), &x, &y), Err(Error::ShapeMismatch));
    let col = m.col(1).unwrap();
    let c = col.0.slice(0, 4).unwrap();
    assert_eq!(
        gemv_args(&a, &c, &y),
        Ok(GemvArgs { trans: Transpose::No, m: 3, n: 4, lda: 7, incx: 7, incy: 1 })
    );
}

#[test]
fn gemm_arguments() {
    let a = numbers((2, 3));
    let b = numbers((3, 4));
    let c = numbers((2, 4));
    assert_eq!(
        gemm_args(&a, &b, &c),
        Ok(GemmArgs {
            swapped: false,
            transa: Transpose::No,
            transb: Transpose::No,
            m: 2,
            n: 4,
            k: 3,
            lda: 3,
            ldb: 4,
            ldc: 4
        })
    );
    let at = numbers((3, 2));
    let big = numbers((6, 6));
    let bv = big.slice((1, 1), (4, 5)).unwrap();
    assert_eq!(
        gemm_args(&Trans(&at), &bv, &c),
        Ok(GemmArgs {
            swapped: false,
            transa: Transpose::Yes,
            transb: Transpose::No,
            m: 2,
            n: 4,
            k: 3,
            lda: 2,
            ldb: 6,
            ldc: 4
        })
    );
    assert_eq!(gemm_args(&a, &b, &numbers((2, 3))), Err(Error::ShapeMismatch));
    assert_eq!(gemm_args(&a, &numbers((2, 4)), &c), Err(Error::ShapeMismatch));
    assert_eq!(gemm_args(&a, &b, &numbers((3, 4))), Err(Error::ShapeMismatch));
}

#[test]
fn gemm_into_a_transposed_result_swaps_the_factors() {
    let a = numbers((2, 3));
    let b = numbers((3, 4));
    let c = numbers((4, 2)).t();
    assert_eq!(c.size(), (2, 4));
    assert_eq!(
        gemm_args(&a, &b, &c),
        Ok(GemmArgs {
            swapped: true,
            transa: Transpose::Yes,
            transb: Transpose::Yes,
            m: 4,
            n: 2,
            k: 3,
            lda: 4,
            ldb: 3,
            ldc: 2
        })
    );
}

#[test]
fn memory_for_writing() {
    let mut m = numbers((3, 4));
    {
        let mut v = m.as_mut_view();
        let mut s = v.mut_slice((1, 1), (3, 3)).unwrap();
        let mem = MutMatrix::as_mut_slice(&mut s);
        mem[0] = -1;
        mem[4 + 1] = -2;
    }
    assert_eq!(*m.at((1, 1)).unwrap(), -1);
    assert_eq!(*m.at((2, 2)).unwrap(), -2);
    {
        let mut v = m.as_mut_view();
        let mut col = v.col_mut(3).unwrap();
        assert_eq!(Vector::stride(&col), Ok(4));
        let mem = MutVector::as_mut_slice(&mut col);
        mem[2 * 4] = -3;
    }
    assert_eq!(*m.at((2, 3)).unwrap(), -3);
    let mut data = vec![1i64, 2, 3];
    MutVector::as_mut_slice(&mut data)[1] = 20;
    let mut s = MutSlice::new(&mut data);
    MutVector::as_mut_slice(&mut s)[2] = 30;
    assert_eq!(data, vec![1, 20, 30]);
    let mut e = numbers((0, 3));
    assert!(MutMatrix::as_mut_slice(&mut e.as_mut_view()).is_empty());
}

#[test]
fn counts_that_do_not_fit_are_reported() {
    // A vector of units takes no memory, however long it is.
    let n = i32::MAX as usize + 1;
    let long = vec![(); n];
    assert_eq!(Vector::len(&long), Err(Error::Overflow));
    assert_eq!(vector_args(&long), Err(Error::Overflow));
    assert_eq!(pair_args(&long, &long), Err(Error::Overflow));
    let v = Slice::new(&long);
    assert_eq!(vector_args(&v), Err(Error::Overflow));
    let wide = Mat::from_vec(vec![(); n], (1, n)).unwrap();
    assert_eq!(matrix_args(&wide), Err(Error::Overflow));
    assert_eq!(matrix_args(&Trans(&wide)), Err(Error::Overflow));
    let x = vec![(); 1];
    assert_eq!(gemv_args(&wide, &long, &x), Err(Error::Overflow));
    assert_eq!(gemv_args(&wide, &x, &x), Err(Error::ShapeMismatch));
    let one = Mat::from_vec(vec![(); 1], (1, 1)).unwrap();
    let tall = Mat::from_vec(vec![(); n], (n, 1)).unwrap();
    assert_eq!(gemm_args(&wide, &tall, &one), Err(Error::Overflow));
    let fits = vec![(); i32::MAX as usize];
    assert_eq!(vector_args(&fits), Ok(VectorArgs { n: i32::MAX, inc: 1 }));
}

#[test]
fn path_selection() {
    let ok: Result<VectorArgs, Error> = Ok(VectorArgs { n: 1, inc: 1 });
    let overflow: Result<VectorArgs, Error> = Err(Error::Overflow);
    assert_eq!(select_path(Some(ElementKind::Double), &ok), Path::Accelerated(ElementKind::Double));
    assert_eq!(select_path(Some(ElementKind::Double), &overflow), Path::Generic);
    assert_eq!(select_path(None, &ok), Path::Generic);
    assert_eq!(ElementKind::Single.prefix(), b's');
    assert_eq!(ElementKind::Double.prefix(), b'd');
    assert_eq!(ElementKind::ComplexSingle.prefix(), b'c');
    assert_eq!(ElementKind::ComplexDouble.prefix(), b'z');
    assert_eq!(ElementKind::Single.reals(), 1);
    assert_eq!(ElementKind::ComplexDouble.reals(), 2);
}
