use linalg::traits::MatrixShape;
use linalg::{Mat, Slice};

fn mat(size: (usize, usize)) -> Mat<(usize, usize)> {
    Mat::from_fn(size, |r, c| (r, c)).unwrap()
}

fn elems(s: &Slice<(usize, usize)>) -> Vec<(usize, usize)> {
    s.iter().collect().into_iter().copied().collect()
}

#[test]
fn rows_and_cols_are_counted() {
    for nrows in 0..6usize {
        for ncols in 0..6usize {
            let m = mat((nrows, ncols));
            assert_eq!(m.rows().count(), nrows);
            assert_eq!(m.cols().count(), ncols);
            assert_eq!(m.rows().size_hint(), (nrows, Some(nrows)));
            assert_eq!(m.cols().size_hint(), (ncols, Some(ncols)));
        }
    }
}

#[test]
fn iterator() {
    // Every column handed out by `cols` holds the elements of that column.
    for nrows in 0..5usize {
        for ncols in 0..5usize {
            let m = mat((nrows, ncols));
            let mut cols = m.cols();
            let mut c = 0;
            while let Some(col) = cols.next() {
                let got = elems(&col.0);
                assert_eq!(got.len(), nrows);
                for (r, e) in got.iter().enumerate() {
                    assert_eq!(m.at((r, c)), Some(e));
                    assert_eq!(*e, (r, c));
                }
                c += 1;
            }
            assert_eq!(c, ncols);
            assert!(cols.next().is_none());
        }
    }
}

#[test]
fn index() {
    // Element `row` of column `col` is element `(row, col)` of the matrix.
    for nrows in 0..5usize {
        for ncols in 1..5usize {
            let m = mat((nrows, ncols));
            for col in 0..ncols {
                let m_col = m.col(col).unwrap();
                for row in 0..nrows {
                    assert_eq!(m_col.0.at(row), Some(&(row, col)));
                }
                assert_eq!(m_col.0.at(nrows), None);
            }
            assert!(m.col(ncols).is_none());
        }
    }
}

#[test]
fn iterable() {
    for nrows in 0..5usize {
        for ncols in 1..5usize {
            let m = mat((nrows, ncols));
            for col in 0..ncols {
                let m_col = m.col(col).unwrap();
                for (r, e) in elems(&m_col.0).iter().enumerate() {
                    assert_eq!(m.at((r, col)), Some(e));
                }
            }
        }
    }
}

#[test]
fn rows_yield_the_rows() {
    for nrows in 0..5usize {
        for ncols in 0..5usize {
            let m = mat((nrows, ncols));
            let rows = m.rows().collect();
            assert_eq!(rows.len(), nrows);
            for (r, row) in rows.iter().enumerate() {
                let got = elems(&row.0);
                let want: Vec<_> = (0..ncols).map(|c| (r, c)).collect();
                assert_eq!(got, want);
            }
        }
    }
}

#[test]
fn size_hint_after_next_and_next_back() {
    let m = mat((7, 3));
    let mut rows = m.rows();
    let mut left = 7;
    let mut front = true;
    loop {
        assert_eq!(rows.size_hint(), (left, Some(left)));
        let got = if front { rows.next() } else { rows.next_back() };
        front = !front;
        match got {
            Some(_) => left -= 1,
            None => break,
        }
    }
    assert_eq!(left, 0);
    assert_eq!(rows.size_hint(), (0, Some(0)));
    assert!(rows.next().is_none());
    assert!(rows.next_back().is_none());
    assert_eq!(rows.size_hint(), (0, Some(0)));
}

#[test]
fn size_hint() {
    // After `skip` rows or columns, the hint is what is left.
    for nrows in 0..6usize {
        for ncols in 0..6usize {
            let m = mat((nrows, ncols));
            for skip in 0..nrows {
                let left = nrows - skip;
                assert_eq!(m.rows().skip(skip).size_hint(), (left, Some(left)));
            }
            for skip in 0..ncols {
                let left = ncols - skip;
                assert_eq!(m.cols().skip(skip).size_hint(), (left, Some(left)));
            }
            assert_eq!(m.rows().skip(nrows + 3).size_hint(), (0, Some(0)));
            assert_eq!(m.cols().skip(ncols + 1).size_hint(), (0, Some(0)));
        }
    }
}

#[test]
fn skip_then_next_starts_at_the_offset() {
    let m = mat((5, 4));
    let mut rows = m.rows().skip(2);
    let row = rows.next().unwrap();
    assert_eq!(row.0.at(3), Some(&(2, 3)));
    let mut cols = m.cols().skip(3);
    let col = cols.next().unwrap();
    assert_eq!(col.0.at(4), Some(&(4, 3)));
    assert!(cols.next().is_none());
}

#[test]
fn rev_iter() {
    // Rows and columns from the back come in reverse.
    for nrows in 0..5usize {
        for ncols in 0..5usize {
            let m = mat((nrows, ncols));
            let mut cols = m.cols();
            let mut i = 0;
            while let Some(c) = cols.next_back() {
                for (row, e) in elems(&c.0).iter().enumerate() {
                    assert_eq!(*e, (row, ncols - i - 1));
                }
                i += 1;
            }
            assert_eq!(i, ncols);
            let mut rows = m.rows();
            let mut i = 0;
            while let Some(r) = rows.next_back() {
                for (col, e) in elems(&r.0).iter().enumerate() {
                    assert_eq!(*e, (nrows - i - 1, col));
                }
                i += 1;
            }
            assert_eq!(i, nrows);
        }
    }
}

#[test]
fn reverse_is_the_mirror_of_forward_for_every_skip() {
    let m = mat((6, 5));
    for skip in 0..6 {
        let forward = m.rows().skip(skip).collect();
        let backward = m.rows().skip(skip).collect_rev();
        assert_eq!(forward.len(), backward.len());
        let n = forward.len();
        for i in 0..n {
            assert_eq!(elems(&forward[i].0), elems(&backward[n - 1 - i].0));
        }
    }
    let col = m.col(2).unwrap();
    for skip in 0..6 {
        let forward: Vec<_> = col.0.iter().skip(skip).collect();
        let mut backward: Vec<_> = col.0.iter().skip(skip).collect_rev();
        backward.reverse();
        assert_eq!(forward, backward);
        assert_eq!(forward.len(), 6 - skip);
    }
}

#[test]
fn element_iterators_from_both_ends() {
    let m = mat((4, 6));
    let row = m.row(1).unwrap();
    let mut it = row.0.iter();
    assert_eq!(it.size_hint(), (6, Some(6)));
    assert_eq!(it.next(), Some(&(1, 0)));
    assert_eq!(it.next_back(), Some(&(1, 5)));
    assert_eq!(it.size_hint(), (4, Some(4)));
    let mut it = it.skip(1);
    assert_eq!(it.size_hint(), (3, Some(3)));
    assert_eq!(it.next(), Some(&(1, 2)));
    assert_eq!(it.next_back(), Some(&(1, 4)));
    assert_eq!(it.next_back(), Some(&(1, 3)));
    assert_eq!(it.size_hint(), (0, Some(0)));
    assert_eq!(it.next_back(), None);
    assert_eq!(it.next(), None);
    assert_eq!(it.count(), 0);
}

#[test]
fn owned_vector_reversed() {
    for size in 0..8usize {
        let data: Vec<usize> = (0..size).collect();
        let v = Slice::new(&data);
        let back = v.iter().collect_rev();
        assert_eq!(back.len(), size);
        for (i, e) in back.iter().enumerate() {
            assert_eq!(**e, size - i - 1);
        }
    }
}

#[test]
fn sub_view_rows_and_columns() {
    let m = mat((6, 7));
    let v = m.slice((1, 2), (5, 6)).unwrap();
    assert_eq!(v.size(), (4, 4));
    let rows = v.rows().collect();
    for (r, row) in rows.iter().enumerate() {
        for (c, e) in elems(&row.0).iter().enumerate() {
            assert_eq!(*e, (1 + r, 2 + c));
        }
    }
    let cols = v.cols().collect_rev();
    for (i, col) in cols.iter().enumerate() {
        for (r, e) in elems(&col.0).iter().enumerate() {
            assert_eq!(*e, (1 + r, 2 + 4 - i - 1));
        }
    }
}

#[test]
fn slice_of_a_run() {
    let m = mat((5, 5));
    let col = m.col(3).unwrap();
    let part = col.0.slice(1, 4).unwrap();
    assert_eq!(elems(&part), vec![(1, 3), (2, 3), (3, 3)]);
    assert!(col.0.slice(2, 6).is_none());
    assert!(col.0.slice(3, 2).is_none());
    assert_eq!(col.0.slice(5, 5).unwrap().len(), 0);
}
