use linalg::ops::{matmul, matvec};
use linalg::traits::MatrixShape;
use linalg::{Error, Mat, MutSlice, Slice, Trans};

fn mat(size: (usize, usize)) -> Mat<(usize, usize)> {
    Mat::from_fn(size, |r, c| (r, c)).unwrap()
}

fn numbers(size: (usize, usize), scale: i64) -> Mat<i64> {
    Mat::from_fn(size, |r, c| scale * (10 * r as i64 + c as i64 + 1)).unwrap()
}

#[test]
fn column_sum() {
    // Summing column 1 of a 3x3 matrix of `(row, col)` pairs.
    let m = mat((3, 3));
    let col = m.col(1).unwrap();
    let sum = col.0.fold((0, 0), |acc, e| (acc.0 + e.0, acc.1 + e.1));
    assert_eq!(sum, (3, 3));
    let mut direct = (0, 0);
    for r in 0..3 {
        let e = m.at((r, 1)).unwrap();
        direct = (direct.0 + e.0, direct.1 + e.1);
    }
    assert_eq!(sum, direct);
}

#[test]
fn sum() {
    // The sum of the columns left after a skip, against the rows summed
    // element by element.
    for nrows in 0..5usize {
        for ncols in 1..5usize {
            let m = numbers((nrows, ncols), 1);
            for skip in 0..ncols {
                let mut total = vec![0i64; nrows];
                let mut cols = m.cols().skip(skip);
                while let Some(c) = cols.next() {
                    let mut acc = MutSlice::new(&mut total);
                    acc.zip_apply(&c.0, |a, b| a + b).unwrap();
                }
                let rows = m.rows().collect();
                for (e, r) in total.iter().zip(rows.iter()) {
                    let want = r.0.iter().skip(skip).collect().into_iter().sum::<i64>();
                    assert_eq!(*e, want);
                }
            }
        }
    }
}

#[test]
fn fold_goes_first_to_last() {
    let data = [1u32, 2, 3, 4];
    let v = Slice::new(&data);
    let digits = v.fold(0u32, |acc, e| acc * 10 + e);
    assert_eq!(digits, 1234);
    let empty: [u32; 0] = [];
    assert_eq!(Slice::new(&empty).fold(7u32, |acc, e| acc + e), 7);
}

#[test]
fn dot_and_norm2() {
    let x = [1i64, 2, 3];
    let y = [4i64, 5, 6];
    let z = [1i64, 2];
    let (x, y, z) = (Slice::new(&x), Slice::new(&y), Slice::new(&z));
    assert_eq!(x.dot(&y, 0, |acc, a, b| acc + a * b), Ok(32));
    assert_eq!(x.dot(&z, 0, |acc, a, b| acc + a * b), Err(Error::ShapeMismatch));
    assert_eq!(x.norm2(0, |acc, a| acc + a * a), 14);
    let m = numbers((3, 3), 1);
    let col = m.col(2).unwrap();
    let row = m.row(0).unwrap();
    // (3, 13, 23) . (1, 2, 3)
    assert_eq!(col.0.dot(&row.0, 0, |acc, a, b| acc + a * b), Ok(3 + 26 + 69));
}

#[test]
fn dot_of_floats() {
    let x = [0.5f64, 1.5, -2.0];
    let y = [2.0f64, 4.0, 0.25];
    let got = Slice::new(&x).dot(&Slice::new(&y), 0.0, |acc, a, b| acc + a * b).unwrap();
    assert_eq!(got, 1.0 + 6.0 - 0.5);
    let n = Slice::new(&x).norm2(0.0, |acc, a| acc + a * a);
    assert_eq!(n, 0.25 + 2.25 + 4.0);
}

#[test]
fn apply_scales_a_sub_view_only() {
    let mut m = numbers((4, 5), 1);
    let before = numbers((4, 5), 1);
    {
        let mut v = m.as_mut_view();
        let mut s = v.mut_slice((1, 2), (3, 4)).unwrap();
        s.apply(|x| 3 * x);
    }
    for r in 0..4 {
        for c in 0..5 {
            let x = *before.at((r, c)).unwrap();
            let inside = (1..3).contains(&r) && (2..4).contains(&c);
            assert_eq!(*m.at((r, c)).unwrap(), if inside { 3 * x } else { x });
        }
    }
}

#[test]
fn add_assign_and_sub_assign() {
    for nrows in 0..4usize {
        for ncols in 0..4usize {
            let mut lhs = numbers((nrows, ncols), 1);
            let rhs = numbers((nrows, ncols), 100);
            assert_eq!(lhs.as_mut_view().zip_apply(&rhs, |a, b| a + b), Ok(()));
            for r in 0..nrows {
                for c in 0..ncols {
                    let x = 10 * r as i64 + c as i64 + 1;
                    assert_eq!(*lhs.at((r, c)).unwrap(), 101 * x);
                }
            }
            assert_eq!(lhs.as_mut_view().zip_apply(&rhs.as_view(), |a, b| a - b), Ok(()));
            for r in 0..nrows {
                for c in 0..ncols {
                    let x = 10 * r as i64 + c as i64 + 1;
                    assert_eq!(*lhs.at((r, c)).unwrap(), x);
                }
            }
        }
    }
}

#[test]
fn shape_mismatch_changes_nothing() {
    let mut lhs = numbers((2, 3), 1);
    let rhs = numbers((3, 2), 1);
    assert_eq!(lhs.as_mut_view().zip_apply(&rhs, |a, b| a + b), Err(Error::ShapeMismatch));
    let same = numbers((2, 3), 1);
    for r in 0..2 {
        for c in 0..3 {
            assert_eq!(lhs.at((r, c)), same.at((r, c)));
        }
    }
    let other = numbers((2, 4), 1);
    assert_eq!(lhs.as_mut_view().zip_apply(&other, |a, b| a + b), Err(Error::ShapeMismatch));
}

#[test]
fn sub_assign_a_transposed_matrix() {
    // `view -= transposed`, element by element.
    let mut m = numbers((5, 6), 1);
    let before = numbers((5, 6), 1);
    let rhs = numbers((3, 2), 7);
    {
        let mut v = m.as_mut_view();
        let mut result = v.mut_slice((1, 2), (3, 5)).unwrap();
        assert_eq!(result.size(), (2, 3));
        assert_eq!(result.zip_apply(&Trans(&rhs), |a, b| a - b), Ok(()));
        assert_eq!(result.zip_apply(&rhs, |a, b| a - b), Err(Error::ShapeMismatch));
    }
    for r in 0..5 {
        for c in 0..6 {
            let x = *before.at((r, c)).unwrap();
            if (1..3).contains(&r) && (2..5).contains(&c) {
                let y = *rhs.at((c - 2, r - 1)).unwrap();
                assert_eq!(*m.at((r, c)).unwrap(), x - y);
            } else {
                assert_eq!(*m.at((r, c)).unwrap(), x);
            }
        }
    }
}

#[test]
fn add_assign_into_a_transposed_view() {
    let mut m = numbers((2, 3), 1);
    let rhs = numbers((3, 2), 1000);
    {
        let mut t = m.as_mut_view().t();
        assert_eq!(t.zip_apply(&rhs, |a, b| a + b), Ok(()));
        assert_eq!(t.zip_apply(&Trans(&rhs), |a, b| a + b), Err(Error::ShapeMismatch));
        t.apply(|x| -x);
    }
    for r in 0..2 {
        for c in 0..3 {
            let x = 10 * r as i64 + c as i64 + 1;
            let y = 1000 * (10 * c as i64 + r as i64 + 1);
            assert_eq!(*m.at((r, c)).unwrap(), -(x + y));
        }
    }
}

#[test]
fn add_assign_a_column() {
    // `column += column`, for an owned vector, a row and a strided column.
    let m = numbers((4, 3), 1);
    let mut result = vec![1i64, 1, 1, 1];
    {
        let mut lhs = MutSlice::new(&mut result);
        assert_eq!(lhs.zip_apply(&m.col(1).unwrap().0, |a, b| a + b), Ok(()));
        assert_eq!(lhs.zip_apply(&m.row(0).unwrap().0, |a, b| a + b), Err(Error::ShapeMismatch));
    }
    assert_eq!(result, vec![3, 13, 23, 33]);
    let mut n = numbers((4, 3), 1);
    {
        let mut v = n.as_mut_view();
        let mut col = v.col_mut(2).unwrap();
        assert_eq!(col.0.zip_apply(&Slice::new(&result), |a, b| a + 2 * b), Ok(()));
        col.0.apply(|x| x + 1);
    }
    for r in 0..4 {
        let x = 10 * r as i64;
        assert_eq!(*n.at((r, 0)).unwrap(), x + 1);
        assert_eq!(*n.at((r, 1)).unwrap(), x + 2);
        assert_eq!(*n.at((r, 2)).unwrap(), x + 3 + 2 * result[r] + 1);
    }
}

#[test]
fn rows_for_writing() {
    let mut m = numbers((3, 4), 1);
    {
        let mut v = m.as_mut_view();
        let mut s = v.mut_slice((0, 1), (3, 3)).unwrap();
        let mut row = s.row_mut(1).unwrap();
        assert_eq!(row.0.len(), 2);
        row.0.apply(|x| x * 100);
        let mut part = row.0.mut_slice(1, 2).unwrap();
        *part.at_mut(0).unwrap() += 5;
        assert!(s.row_mut(3).is_none());
        assert!(s.col_mut(2).is_none());
    }
    assert_eq!(*m.at((1, 0)).unwrap(), 11);
    assert_eq!(*m.at((1, 1)).unwrap(), 1200);
    assert_eq!(*m.at((1, 2)).unwrap(), 1305);
    assert_eq!(*m.at((1, 3)).unwrap(), 14);
    assert_eq!(*m.at((0, 1)).unwrap(), 2);
}

fn product(a: &Mat<i64>, b: &Mat<i64>) -> Vec<Vec<i64>> {
    let (m, k) = a.size();
    let (_, n) = b.size();
    (0..m)
        .map(|i| {
            (0..n)
                .map(|j| (0..k).map(|l| a.at((i, l)).unwrap() * b.at((l, j)).unwrap()).sum())
                .collect()
        })
        .collect()
}

#[test]
fn matmul_is_the_triple_loop() {
    for m in 0..4usize {
        for k in 0..4usize {
            for n in 0..4usize {
                let a = numbers((m, k), 1);
                let b = numbers((k, n), 3);
                let mut c = numbers((m, n), 5);
                let was = numbers((m, n), 5);
                let want = product(&a, &b);
                let r = matmul(&mut c.as_mut_view(), &a, &b, |x| 2 * x, |acc, x, y| acc + 7 * x * y);
                assert_eq!(r, Ok(()));
                for i in 0..m {
                    for j in 0..n {
                        let got = *c.at((i, j)).unwrap();
                        assert_eq!(got, 2 * was.at((i, j)).unwrap() + 7 * want[i][j]);
                    }
                }
            }
        }
    }
}

#[test]
fn matmul_with_transposed_operands() {
    let a = numbers((3, 2), 1);
    let b = numbers((4, 3), 1);
    // c = a^T * b^T: (2x3) * (3x4)
    let mut c = numbers((2, 4), 0);
    let r = matmul(&mut c.as_mut_view(), &Trans(&a), &Trans(&b), |_| 0, |acc, x, y| acc + x * y);
    assert_eq!(r, Ok(()));
    for i in 0..2 {
        for j in 0..4 {
            let want: i64 = (0..3).map(|l| a.at((l, i)).unwrap() * b.at((j, l)).unwrap()).sum();
            assert_eq!(*c.at((i, j)).unwrap(), want);
        }
    }
}

#[test]
fn matmul_shape_mismatch() {
    let a = numbers((2, 3), 1);
    let b = numbers((4, 2), 1);
    let mut c = numbers((2, 2), 1);
    let r = matmul(&mut c.as_mut_view(), &a, &b, |x| *x, |acc, x, y| acc + x * y);
    assert_eq!(r, Err(Error::ShapeMismatch));
    assert_eq!(c.into_vec(), numbers((2, 2), 1).into_vec());
    let b = numbers((3, 2), 1);
    let mut c = numbers((3, 2), 1);
    let r = matmul(&mut c.as_mut_view(), &a, &b, |x| *x, |acc, x, y| acc + x * y);
    assert_eq!(r, Err(Error::ShapeMismatch));
    let mut c = numbers((2, 3), 1);
    let r = matmul(&mut c.as_mut_view(), &a, &b, |x| *x, |acc, x, y| acc + x * y);
    assert_eq!(r, Err(Error::ShapeMismatch));
}

#[test]
fn matvec_on_a_sub_view() {
    // (alpha * A * x + beta * y)[r] == alpha * A[r, :] . x + beta * y[r]
    let big = numbers((5, 6), 1);
    let a = big.slice((1, 2), (4, 6)).unwrap();
    let x = [1i64, -1, 2, 3];
    let mut y = vec![10i64, 20, 30];
    let (alpha, beta) = (3, -2);
    let r = matvec(
        &mut MutSlice::new(&mut y),
        &a,
        &Slice::new(&x),
        |v| beta * v,
        |acc, u, v| acc + alpha * u * v,
    );
    assert_eq!(r, Ok(()));
    for row in 0..3 {
        let dot = a.row(row).unwrap().0.dot(&Slice::new(&x), 0, |acc, u, v| acc + u * v).unwrap();
        assert_eq!(y[row], alpha * dot + beta * (10 * (row as i64 + 1)));
    }
    let r = matvec(&mut MutSlice::new(&mut y), &a.t(), &Slice::new(&x), |v| *v, |acc, u, v| {
        acc + u * v
    });
    assert_eq!(r, Err(Error::ShapeMismatch));
    let mut z = vec![0i64; 4];
    let w = [1i64, 1, 1];
    let r = matvec(&mut MutSlice::new(&mut z), &a.t(), &Slice::new(&w), |_| 0, |acc, u, v| {
        acc + u * v
    });
    assert_eq!(r, Ok(()));
    for c in 0..4 {
        let want: i64 = (0..3).map(|r| *a.at((r, c)).unwrap()).sum();
        assert_eq!(z[c], want);
    }
}

#[test]
fn scale_of_floats() {
    let mut m = Mat::from_fn((2, 2), |r, c| (r * 2 + c) as f64).unwrap();
    let alpha = 4.0f64;
    m.as_mut_view().apply(|x| x * (1.0 / alpha));
    assert_eq!(m.into_vec(), vec![0.0, 0.25, 0.5, 0.75]);
}
