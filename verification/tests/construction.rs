use linalg::traits::{MatrixRead, MatrixShape};
use linalg::{Layout, Mat, MatView, Strided};

#[test]
fn from_fn_fills_row_by_row() {
    let m = Mat::from_fn((2, 3), |r, c| 10 * r + c).unwrap();
    assert_eq!(m.size(), (2, 3));
    assert_eq!((m.nrows(), m.ncols()), (2, 3));
    assert_eq!(m.into_vec(), vec![0, 1, 2, 10, 11, 12]);
}

#[test]
fn from_vec_checks_the_length() {
    assert!(Mat::from_vec(vec![1, 2, 3, 4, 5, 6], (2, 3)).is_some());
    assert!(Mat::from_vec(vec![1, 2, 3, 4, 5, 6], (3, 2)).is_some());
    assert!(Mat::from_vec(vec![1, 2, 3, 4, 5, 6], (2, 2)).is_none());
    assert!(Mat::from_vec(vec![1, 2, 3, 4, 5, 6], (6, 0)).is_none());
    assert!(Mat::<u8>::from_vec(vec![], (0, 9)).is_some());
    assert!(Mat::<u8>::from_vec(vec![], (9, 0)).is_some());
}

#[test]
fn from_elem_is_constant() {
    let m = Mat::from_elem((3, 2), 7u8).unwrap();
    for r in 0..3 {
        for c in 0..2 {
            assert_eq!(m.get(r, c), &7);
        }
    }
    assert_eq!(m.at((3, 0)), None);
}

#[test]
fn shapes_that_cannot_exist() {
    assert!(Mat::from_fn((usize::MAX, 2), |_, _| ()).is_none());
    assert!(Mat::from_elem((2, usize::MAX), ()).is_none());
    assert!(Mat::from_vec(vec![(); 4], (usize::MAX, usize::MAX)).is_none());
    assert!(Layout::packed(usize::MAX, 1).is_none());
    assert!(Layout::packed(usize::MAX - 1, 1).is_some());
    assert!(Layout::packed(0, usize::MAX).is_some());
    assert!(Layout::packed(1, usize::MAX).is_none());
}

#[test]
fn empty_matrices() {
    for k in 0..4usize {
        let m = Mat::from_fn((0, k), |r, c| (r, c)).unwrap();
        assert_eq!(m.size(), (0, k));
        assert_eq!(m.rows().count(), 0);
        assert_eq!(m.cols().count(), k);
        assert!(m.at((0, 0)).is_none());
        assert!(m.slice((0, 0), (0, k)).is_some());
        assert!(m.diag(0).is_none());
        let m = Mat::from_fn((k, 0), |r, c| (r, c)).unwrap();
        assert_eq!(m.size(), (k, 0));
        assert_eq!(m.rows().count(), k);
        assert_eq!(m.cols().count(), 0);
        assert!(m.slice((k, 0), (k, 0)).is_some());
    }
}

#[test]
fn layout_of_a_slice() {
    let l = Layout::packed(4, 5).unwrap();
    assert_eq!(l, Layout { offset: 0, nrows: 4, ncols: 5, stride: 5 });
    assert!(l.is_packed());
    let s = l.slice((1, 2), (3, 4)).unwrap();
    assert_eq!(s, Layout { offset: 7, nrows: 2, ncols: 2, stride: 5 });
    assert!(!s.is_packed());
    assert_eq!(s.size(), (2, 2));
    assert_eq!(s.at(1, 1), Some(13));
    assert_eq!(s.at(2, 0), None);
    let s2 = s.slice((1, 0), (2, 1)).unwrap();
    assert_eq!(s2, Layout { offset: 12, nrows: 1, ncols: 1, stride: 5 });
    let end = l.slice((4, 5), (4, 5)).unwrap();
    assert_eq!(end, Layout { offset: 25, nrows: 0, ncols: 0, stride: 5 });
    assert!(l.slice((0, 0), (5, 5)).is_none());
}

#[test]
fn runs_of_a_layout() {
    let l = Layout { offset: 3, nrows: 3, ncols: 4, stride: 6 };
    assert_eq!(l.row(2), Some(Strided { offset: 15, len: 4, stride: 1 }));
    assert_eq!(l.row(3), None);
    assert_eq!(l.col(1), Some(Strided { offset: 4, len: 3, stride: 6 }));
    assert_eq!(l.col(4), None);
    assert_eq!(l.diag(0), Some(Strided { offset: 3, len: 3, stride: 7 }));
    assert_eq!(l.diag(2), Some(Strided { offset: 5, len: 2, stride: 7 }));
    assert_eq!(l.diag(-1), Some(Strided { offset: 9, len: 2, stride: 7 }));
    assert_eq!(l.diag(-3), None);
    assert_eq!(l.diag(4), None);
    assert_eq!(l.diag_above(3), Some(Strided { offset: 6, len: 1, stride: 7 }));
    assert_eq!(l.diag_below(2), Some(Strided { offset: 15, len: 1, stride: 7 }));
    let run = Strided { offset: 4, len: 3, stride: 6 };
    assert_eq!(run.len(), 3);
    assert_eq!(run.at(2), Some(16));
    assert_eq!(run.at(3), None);
    assert_eq!(run.slice(1, 3), Some(Strided { offset: 10, len: 2, stride: 6 }));
    assert_eq!(run.slice(2, 4), None);
}

#[test]
fn view_keeps_the_buffer() {
    let data: Vec<u32> = (0..12).collect();
    let v = MatView::new(&data, (3, 4)).unwrap();
    let s = v.slice((1, 1), (3, 3)).unwrap();
    assert_eq!(s.layout, Layout { offset: 5, nrows: 2, ncols: 2, stride: 4 });
    assert_eq!(s.data.len(), 12);
    assert_eq!(s.get(1, 1), &10);
    let copy = s;
    assert_eq!(copy.at((0, 0)), s.at((0, 0)));
}

#[test]
fn rectangles_overlap_only_where_they_share_a_cell() {
    assert!(Layout::overlap(((0, 0), (6, 10)), ((5, 0), (10, 10))));
    assert!(!Layout::overlap(((0, 0), (5, 10)), ((5, 0), (10, 10))));
    assert!(!Layout::overlap(((0, 0), (10, 5)), ((0, 5), (10, 10))));
    assert!(Layout::overlap(((0, 0), (10, 6)), ((0, 5), (10, 10))));
    assert!(Layout::overlap(((2, 2), (3, 3)), ((0, 0), (10, 10))));
    assert!(!Layout::overlap(((2, 2), (2, 3)), ((0, 0), (10, 10))));
    assert!(!Layout::overlap(((0, 0), (10, 10)), ((4, 4), (5, 4))));
    assert!(!Layout::overlap(((0, 0), (2, 2)), ((2, 2), (4, 4))));
    assert!(Layout::overlap(((0, 0), (3, 3)), ((2, 2), (4, 4))));
}

#[test]
fn views_from_parts_are_checked() {
    let data: Vec<u32> = (0..12).collect();
    let ok = Layout { offset: 1, nrows: 2, ncols: 3, stride: 4 };
    let v = MatView::from_parts(&data, ok).unwrap();
    assert!(v.is_wf());
    assert_eq!(v.at((1, 2)), Some(&7));
    let too_long = Layout { offset: 1, nrows: 3, ncols: 4, stride: 4 };
    assert!(MatView::from_parts(&data, too_long).is_none());
    let rows_collide = Layout { offset: 0, nrows: 2, ncols: 4, stride: 3 };
    assert!(MatView::from_parts(&data, rows_collide).is_none());
    let wraps = Layout { offset: 1, nrows: usize::MAX, ncols: 1, stride: 2 };
    assert!(MatView::from_parts(&data, wraps).is_none());
    let no_rows = Layout { offset: 100, nrows: 0, ncols: 3, stride: 4 };
    assert!(MatView::from_parts(&data, no_rows).is_some());
    let by_hand = MatView { data: &data, layout: too_long };
    assert!(!by_hand.is_wf());
    assert!(ok.check(12) && !ok.check(7) && ok.check(8));
    let run = Strided { offset: 2, len: 4, stride: 3 };
    assert!(run.check(12) && !run.check(11));
    assert!(!Strided { offset: 2, len: usize::MAX, stride: 3 }.check(12));
    assert!(Strided { offset: 50, len: 0, stride: 3 }.check(12));
}

#[test]
fn vectors_from_a_function() {
    let v = linalg::vector::from_fn(5, |i| i * i);
    assert_eq!(v, vec![0, 1, 4, 9, 16]);
    assert!(linalg::vector::from_fn(0, |i| i).is_empty());
    let col = linalg::Col(v);
    let row = col.t();
    assert_eq!(row.0[3], 9);
    let col = row.t();
    assert_eq!(col.0.len(), 5);
}

#[test]
fn from_fn_with_a_state() {
    let mut next = 0u32;
    let m = Mat::from_fn((2, 3), |_, _| {
        next += 1;
        next
    })
    .unwrap();
    assert_eq!(m.into_vec(), vec![1, 2, 3, 4, 5, 6]);
    assert_eq!(next, 6);
    let mut calls = 0;
    assert!(Mat::from_fn((0, 5), |_, _| calls += 1).is_some());
    assert_eq!(calls, 0);
}

#[test]
fn clone_keeps_shape_and_elements() {
    let m = Mat::from_fn((3, 2), |r, c| vec![r; c + 1]).unwrap();
    let mut n = m.clone();
    assert_eq!(n.size(), (3, 2));
    for r in 0..3 {
        for c in 0..2 {
            assert_eq!(n.at((r, c)), m.at((r, c)));
        }
    }
    n.at_mut((0, 0)).unwrap().push(9);
    assert_eq!(m.at((0, 0)), Some(&vec![0]));
    assert_eq!(n.at((0, 0)), Some(&vec![0, 9]));
}

#[test]
fn layouts_of_two_rectangles_at_once() {
    let l = Layout::packed(10, 10).unwrap();
    let (a, b) = l.slice_pair(((0, 0), (5, 10)), ((5, 0), (10, 10))).unwrap();
    assert_eq!(a, Layout { offset: 0, nrows: 5, ncols: 10, stride: 10 });
    assert_eq!(b, Layout { offset: 50, nrows: 5, ncols: 10, stride: 10 });
    assert!(l.slice_pair(((0, 0), (6, 10)), ((5, 0), (10, 10))).is_none());
    // Columns apart: the rows interleave in the buffer, the cells do not meet.
    let (a, b) = l.slice_pair(((0, 0), (10, 4)), ((0, 4), (10, 10))).unwrap();
    assert_eq!(a, Layout { offset: 0, nrows: 10, ncols: 4, stride: 10 });
    assert_eq!(b, Layout { offset: 4, nrows: 10, ncols: 6, stride: 10 });
    for i in 0..10 {
        for j in 0..4 {
            for k in 0..6 {
                assert_ne!(a.at(i, j), b.at(i, k));
            }
        }
    }
    assert!(l.slice_pair(((0, 0), (10, 5)), ((0, 4), (10, 10))).is_none());
    assert!(l.slice_pair(((0, 0), (11, 4)), ((0, 4), (10, 10))).is_none());
    assert!(l.slice_pair(((3, 3), (3, 8)), ((0, 0), (10, 10))).is_some());
}
