use linalg::traits::MatrixShape;
use linalg::Mat;

fn mat(size: (usize, usize)) -> Mat<(usize, usize)> {
    Mat::from_fn(size, |r, c| (r, c)).unwrap()
}

#[test]
fn submat() {
    // The columns of a sub-view, stripe after stripe, are ordered and
    // complete.
    for srow in 0..3usize {
        for scol in 0..3usize {
            for nrows in 1..4usize {
                for ncols in 0..6usize {
                    for size in 1..5usize {
                        let m = mat((srow + nrows, scol + ncols));
                        let v = m.slice((srow, scol), (srow + nrows, scol + ncols)).unwrap();
                        for row in 0..nrows {
                            let mut i = 0;
                            let mut stripes = v.vstripes(size).unwrap();
                            let mut count = ncols / size + if ncols % size == 0 { 0 } else { 1 };
                            assert_eq!(stripes.size_hint(), (count, Some(count)));
                            while let Some(s) = stripes.next() {
                                count -= 1;
                                assert_eq!(stripes.size_hint(), (count, Some(count)));
                                assert_eq!(s.nrows(), nrows);
                                let r = s.row(row).unwrap();
                                for k in 0..r.0.len() {
                                    assert_eq!(r.0.at(k), Some(&(srow + row, scol + i)));
                                    i += 1;
                                }
                            }
                            assert_eq!(i, ncols);
                            assert_eq!(count, 0);
                        }
                    }
                }
            }
        }
    }
}

#[test]
fn horizontal_stripes() {
    let m = mat((7, 3));
    let v = m.as_view();
    let mut stripes = v.hstripes(3).unwrap();
    assert_eq!(stripes.size_hint(), (3, Some(3)));
    let a = stripes.next().unwrap();
    let b = stripes.next().unwrap();
    let c = stripes.next().unwrap();
    assert!(stripes.next().is_none());
    assert_eq!(stripes.size_hint(), (0, Some(0)));
    assert_eq!((a.size(), b.size(), c.size()), ((3, 3), (3, 3), (1, 3)));
    assert_eq!(a.at((2, 2)), Some(&(2, 2)));
    assert_eq!(b.at((0, 0)), Some(&(3, 0)));
    assert_eq!(c.at((0, 1)), Some(&(6, 1)));
}

#[test]
fn stripes_of_a_transposed_view() {
    // The column stripes of a transposed view are the row stripes of the
    // view, transposed.
    let m = mat((5, 2));
    let v = m.as_view();
    let mut stripes = v.hstripes(2).unwrap();
    let mut i = 0;
    while let Some(s) = stripes.next() {
        let t = s.t();
        let row = t.row(1).unwrap();
        for k in 0..row.0.len() {
            assert_eq!(row.0.at(k), Some(&(i, 1)));
            i += 1;
        }
    }
    assert_eq!(i, 5);
}

#[test]
fn no_stripes_of_width_zero() {
    let m = mat((2, 2));
    assert!(m.as_view().vstripes(0).is_none());
    assert!(m.as_view().hstripes(0).is_none());
}

#[test]
fn one_wide_stripe() {
    let m = mat((2, 3));
    let mut s = m.as_view().vstripes(10).unwrap();
    assert_eq!(s.size_hint(), (1, Some(1)));
    assert_eq!(s.next().unwrap().size(), (2, 3));
    assert!(s.next().is_none());
    let e = mat((2, 0));
    let mut s = e.as_view().vstripes(1).unwrap();
    assert_eq!(s.size_hint(), (0, Some(0)));
    assert!(s.next().is_none());
}
