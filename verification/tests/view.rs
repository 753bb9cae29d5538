use ijk::read_buffer::BufElem;
use ijk::screen::Color;
use ijk::view::{Area, DiffView, LineNumber, OverlayView, ToView, View, ViewElemDiff, MergeHorizontal, TranslateView, CloneView, NullView};

struct TestDiffView {}

impl DiffView for TestDiffView {
    fn diff_covers(&self, _col: usize, _row: usize) -> bool {
        true
    }

    fn spec_diff(&self, _col: usize, _row: usize) -> ViewElemDiff {
        (Some('a'), Some(Color::Red), None)
    }

    fn get(&self, _col: usize, _row: usize) -> ViewElemDiff {
        (Some('a'), Some(Color::Red), None)
    }
}

#[test]
fn test_lineno() {
    let view = LineNumber { from: 15, to: 15 };
    for (i, &c) in [' ', ' ', ' ', '1', '5', ' '].iter().enumerate() {
        assert_eq!(view.get(i, 0).0, c);
    }
}

#[test]
fn test_view_overlay() {
    let buf = vec![vec![BufElem::Eol]];
    let area = Area { col: 0, row: 0, width: 1, height: 1 };
    let v0 = ToView::new(&buf, area);
    let d0 = TestDiffView {};
    let v1 = OverlayView::new(v0, d0);

    let e = v1.get(0, 0);
    assert_eq!(e, ('a', Color::Red, Color::Black));
}

#[test]
fn lineno_past_the_end_is_blank() {
    let view = LineNumber { from: 9, to: 10 };
    assert_eq!(view.get(4, 0).0, '9');
    assert_eq!(view.get(3, 1).0, '1');
    assert_eq!(view.get(4, 1).0, '0');
    assert_eq!(view.get(0, 2).0, ' ');
}

#[test]
fn area_splits() {
    let a = Area { col: 2, row: 3, width: 10, height: 4 };
    let (l, r) = a.split_horizontal(7);
    assert!(l == Area { col: 2, row: 3, width: 7, height: 4 });
    assert!(r == Area { col: 9, row: 3, width: 3, height: 4 });
    let (t, b) = a.split_vertical(1);
    assert!(t == Area { col: 2, row: 3, width: 10, height: 1 });
    assert!(b == Area { col: 2, row: 4, width: 10, height: 3 });
    assert!(a.contains_area(&r));
    assert!(!r.contains_area(&a));
}

#[test]
fn merged_translated_cloned() {
    let buf = vec![vec![BufElem::Char('x'), BufElem::Eol], vec![BufElem::Eol]];
    let area = Area { col: 0, row: 0, width: 2, height: 2 };
    let right = TranslateView::new(ToView::new(&buf, area), 1, 0);
    let merged = MergeHorizontal { left: NullView {}, right, col_offset: 1 };
    let c = CloneView::new(merged, Area { col: 0, row: 0, width: 3, height: 2 });
    assert_eq!(c.get(0, 0), (' ', Color::Black, Color::Black));
    assert_eq!(c.get(1, 0).0, 'x');
    assert_eq!(c.get(2, 0).0, ' ');
    assert_eq!(c.get_cursor_pos(), None);
}
