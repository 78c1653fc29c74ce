use linalg::{Mat, Slice};

fn mat(size: (usize, usize)) -> Mat<(usize, usize)> {
    Mat::from_fn(size, |r, c| (r, c)).unwrap()
}

fn elems(s: &Slice<(usize, usize)>) -> Vec<(usize, usize)> {
    s.iter().collect().into_iter().copied().collect()
}

#[test]
fn diagonals_of_a_square() {
    let m = mat((4, 4));
    assert_eq!(elems(&m.diag(1).unwrap().0), vec![(0, 1), (1, 2), (2, 3)]);
    assert_eq!(elems(&m.diag(-2).unwrap().0), vec![(2, 0), (3, 1)]);
    assert_eq!(elems(&m.diag(0).unwrap().0), vec![(0, 0), (1, 1), (2, 2), (3, 3)]);
    assert_eq!(elems(&m.diag(3).unwrap().0), vec![(0, 3)]);
    assert_eq!(elems(&m.diag(-3).unwrap().0), vec![(3, 0)]);
    assert!(m.diag(4).is_none());
    assert!(m.diag(-4).is_none());
    assert!(m.diag(isize::MAX).is_none());
    assert!(m.diag(isize::MIN).is_none());
}

#[test]
fn diagonal_lengths() {
    for nrows in 0..5isize {
        for ncols in 0..5isize {
            let m = mat((nrows as usize, ncols as usize));
            for k in -6..=6isize {
                let want = if k >= 0 {
                    nrows.min(ncols - k)
                } else {
                    (nrows + k).min(ncols)
                };
                match m.diag(k) {
                    Some(d) => {
                        assert!(want > 0);
                        assert_eq!(d.0.len(), want as usize);
                        for (i, e) in elems(&d.0).iter().enumerate() {
                            if k >= 0 {
                                assert_eq!(*e, (i, i + k as usize));
                            } else {
                                assert_eq!(*e, (i + (-k) as usize, i));
                            }
                        }
                    }
                    None => assert!(want <= 0),
                }
            }
        }
    }
}

#[test]
fn diagonal_of_a_sub_view_reversed() {
    let m = mat((6, 6));
    let v = m.slice((1, 2), (5, 6)).unwrap();
    let d = v.diag(-1).unwrap();
    let back: Vec<_> = d.0.iter().collect_rev().into_iter().copied().collect();
    assert_eq!(back, vec![(4, 4), (3, 3), (2, 2)]);
}

#[test]
fn diagonal_for_writing() {
    let mut m = mat((3, 4));
    {
        let mut v = m.as_mut_view();
        let mut d = v.diag_mut(1).unwrap();
        assert_eq!(d.0.len(), 3);
        *d.0.at_mut(2).unwrap() = (9, 9);
        assert!(d.0.at_mut(3).is_none());
        assert!(v.diag_mut(4).is_none());
        assert!(v.diag_mut(-3).is_none());
    }
    assert_eq!(m.at((2, 3)), Some(&(9, 9)));
    assert_eq!(m.at((1, 2)), Some(&(1, 2)));
}
