use linalg::traits::{MatrixRead, MatrixShape};
use linalg::{Mat, Slice, Trans};

fn mat(size: (usize, usize)) -> Mat<(usize, usize)> {
    Mat::from_fn(size, |r, c| (r, c)).unwrap()
}

fn elems(s: &Slice<(usize, usize)>) -> Vec<(usize, usize)> {
    s.iter().collect().into_iter().copied().collect()
}

#[test]
fn transposed_reads_swapped() {
    for nrows in 0..5usize {
        for ncols in 0..5usize {
            let m = mat((nrows, ncols));
            let t = m.as_view().t();
            assert_eq!(t.size(), (ncols, nrows));
            for r in 0..ncols {
                for c in 0..nrows {
                    assert_eq!(t.at((r, c)), Some(&(c, r)));
                }
            }
            assert_eq!(t.at((ncols, 0)), None);
            assert_eq!(t.at((0, nrows)), None);
        }
    }
}

#[test]
fn double_transpose_is_the_matrix() {
    for nrows in 0..5usize {
        for ncols in 0..5usize {
            let m = mat((nrows, ncols));
            let v = m.as_view();
            let tt = Trans(Trans(v));
            assert_eq!(tt.size(), (nrows, ncols));
            for r in 0..nrows {
                for c in 0..ncols {
                    assert_eq!(tt.get(r, c), v.get(r, c));
                }
            }
            let back = v.t().t();
            assert_eq!(back.size(), v.size());
            assert_eq!(back.layout, v.layout);
        }
    }
}

#[test]
fn double_transpose_of_degenerate_shapes() {
    for k in 0..4usize {
        let m = mat((0, k));
        let tt = Trans(Trans(m.as_view()));
        assert_eq!(tt.size(), (0, k));
        assert_eq!(m.as_view().t().size(), (k, 0));
        let m = mat((k, 0));
        let tt = Trans(Trans(m.as_view()));
        assert_eq!(tt.size(), (k, 0));
        assert_eq!(m.as_view().t().size(), (0, k));
    }
}

#[test]
fn iter() {
    // The columns of a transposed matrix are the rows of the matrix.
    for nrows in 0..5usize {
        for ncols in 0..5usize {
            let m = mat((nrows, ncols));
            let t = m.as_view().t();
            let mut cols = t.cols();
            let mut col = 0;
            while let Some(c) = cols.next() {
                for (row, e) in elems(&c.0).iter().enumerate() {
                    assert_eq!(*e, (col, row));
                }
                col += 1;
            }
            assert_eq!(col, nrows);
            let mut rows = t.rows();
            let mut row = 0;
            while let Some(r) = rows.next() {
                for (col, e) in elems(&r.0).iter().enumerate() {
                    assert_eq!(*e, (col, row));
                }
                row += 1;
            }
            assert_eq!(row, ncols);
        }
    }
}

#[test]
fn transposed_columns_from_the_back() {
    let m = mat((4, 3));
    let t = m.as_view().t();
    let mut cols = t.cols();
    let mut i = 0;
    while let Some(c) = cols.next_back() {
        for (row, e) in elems(&c.0).iter().enumerate() {
            assert_eq!(*e, (4 - i - 1, row));
        }
        i += 1;
    }
    assert_eq!(i, 4);
    for skip in 0..4 {
        assert_eq!(t.cols().skip(skip).size_hint(), (4 - skip, Some(4 - skip)));
    }
}

#[test]
fn at() {
    // Slicing a transposed view, then reading.
    for nrows in 1..4usize {
        for ncols in 1..4usize {
            let m = mat((nrows + 1, ncols + 2));
            let t = m.as_view().t();
            for r0 in 0..=ncols + 2 {
                for c0 in 0..=nrows + 1 {
                    let v = t.slice((r0, c0), (ncols + 2, nrows + 1)).unwrap();
                    assert_eq!(v.size(), (ncols + 2 - r0, nrows + 1 - c0));
                    for row in 0..ncols + 2 - r0 {
                        for col in 0..nrows + 1 - c0 {
                            assert_eq!(v.at((row, col)), Some(&(c0 + col, r0 + row)));
                        }
                    }
                }
            }
            assert!(t.slice((0, 0), (ncols + 3, nrows + 1)).is_none());
        }
    }
}

#[test]
fn at_mut() {
    let mut m = mat((3, 5));
    {
        let mut whole = m.as_mut_view().t();
        assert_eq!(whole.size(), (5, 3));
        let mut t = whole.mut_slice((1, 1), (4, 3)).unwrap();
        assert_eq!(t.size(), (3, 2));
        assert_eq!(t.at((2, 1)), Some(&(2, 3)));
        *t.at_mut((2, 1)).unwrap() = (7, 7);
        assert!(t.at_mut((3, 0)).is_none());
        let mut s = t.mut_slice((1, 0), (3, 2)).unwrap();
        assert_eq!(s.at((0, 0)), Some(&(1, 2)));
        *s.at_mut((0, 0)).unwrap() = (8, 8);
    }
    assert_eq!(m.at((2, 3)), Some(&(7, 7)));
    assert_eq!(m.at((1, 2)), Some(&(8, 8)));
    assert_eq!(m.at((1, 1)), Some(&(1, 1)));
}

#[test]
fn transposed_owned_matrix() {
    let mut t = mat((2, 3)).t();
    assert_eq!(t.size(), (3, 2));
    assert_eq!(t.at((2, 1)), Some(&(1, 2)));
    assert_eq!(t.at((1, 2)), None);
    *t.as_mut_view().at_mut((0, 1)).unwrap() = (5, 5);
    assert_eq!(t.as_view().at((0, 1)), Some(&(5, 5)));
    let m = t.t();
    assert_eq!(m.at((1, 0)), Some(&(5, 5)));
}

#[test]
fn transposed_diagonals() {
    let m = mat((3, 5));
    let t = m.as_view().t();
    let d = t.diag(-2).unwrap();
    assert_eq!(elems(&d.0), vec![(0, 2), (1, 3), (2, 4)]);
    let d = t.diag(1).unwrap();
    assert_eq!(elems(&d.0), vec![(1, 0), (2, 1)]);
    assert!(t.diag(3).is_none());
    assert!(t.diag(-5).is_none());
    assert!(t.diag(isize::MIN).is_none());
    assert!(t.diag(isize::MAX).is_none());
}
