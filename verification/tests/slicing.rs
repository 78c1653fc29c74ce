use linalg::traits::MatrixShape;
use linalg::{Mat, MatView};

fn mat(size: (usize, usize)) -> Mat<(usize, usize)> {
    Mat::from_fn(size, |r, c| (r, c)).unwrap()
}

#[test]
fn slice_reads_the_parent() {
    for nrows in 0..5usize {
        for ncols in 0..5usize {
            let m = mat((nrows, ncols));
            for r0 in 0..=nrows {
                for r1 in r0..=nrows {
                    for c0 in 0..=ncols {
                        for c1 in c0..=ncols {
                            let v = m.slice((r0, c0), (r1, c1)).unwrap();
                            assert_eq!(v.size(), (r1 - r0, c1 - c0));
                            for i in 0..r1 - r0 {
                                for j in 0..c1 - c0 {
                                    assert_eq!(v.at((i, j)), Some(&(r0 + i, c0 + j)));
                                    assert_eq!(v.at((i, j)), m.at((r0 + i, c0 + j)));
                                }
                            }
                            assert_eq!(v.at((r1 - r0, 0)), None);
                            assert_eq!(v.at((0, c1 - c0)), None);
                        }
                    }
                }
            }
        }
    }
}

#[test]
fn slice_out_of_range_is_none() {
    let m = mat((3, 4));
    assert!(m.slice((0, 0), (4, 4)).is_none());
    assert!(m.slice((0, 0), (3, 5)).is_none());
    assert!(m.slice((2, 0), (1, 4)).is_none());
    assert!(m.slice((0, 3), (3, 2)).is_none());
    assert!(m.slice((0, 0), (3, 4)).is_some());
    assert!(m.slice((3, 4), (3, 4)).is_some());
}

#[test]
fn view_of_a_slice() {
    let data = [1, 2, 3, 4, 5, 6];
    let v = MatView::new(&data, (2, 3)).unwrap();
    assert_eq!(v.at((1, 0)), Some(&4));
    assert!(MatView::new(&data, (2, 2)).is_none());
}
