use viewkai::error::check_page_index;
use viewkai::EngineError;
use viewkai::rotation::RotationDelta;
use viewkai::{CharIndex, PageIndex, PdfPageRotation, SelectionRange, ViewMode};

#[test]
fn view_mode_default_is_continuous() {
    assert_eq!(ViewMode::default(), ViewMode::Continuous);
}

#[test]
fn selection_normalize_forward() {
    let page = PageIndex(0);
    let a = CharIndex { page, char: 10 };
    let b = CharIndex { page, char: 5 };
    let sel = SelectionRange::new(a, b);
    assert_eq!(sel.start.char, 5);
    assert_eq!(sel.end.char, 10);
}

#[test]
fn selection_normalize_cross_page() {
    let a = CharIndex {
        page: PageIndex(5),
        char: 0,
    };
    let b = CharIndex {
        page: PageIndex(3),
        char: 0,
    };
    let sel = SelectionRange::new(a, b);
    assert_eq!(sel.start.page, PageIndex(3));
    assert_eq!(sel.end.page, PageIndex(5));
}

#[test]
fn selection_is_symmetric_and_empty_only_for_equal_ends() {
    let a = CharIndex { page: PageIndex(2), char: 7 };
    let b = CharIndex { page: PageIndex(1), char: 30 };
    assert_eq!(SelectionRange::new(a, b), SelectionRange::new(b, a));
    assert!(!SelectionRange::new(a, b).is_empty());
    assert!(SelectionRange::new(a, a).is_empty());
    let same_page = CharIndex { page: PageIndex(2), char: 3 };
    let sel = SelectionRange::new(a, same_page);
    assert_eq!(sel.start, same_page);
    assert_eq!(sel.end, a);
}

#[test]
fn rotation_degrees_and_steps() {
    assert_eq!(PdfPageRotation::default(), PdfPageRotation::R0);
    assert_eq!(PdfPageRotation::R0.as_degrees(), 0);
    assert_eq!(PdfPageRotation::R90.as_degrees(), 90);
    assert_eq!(PdfPageRotation::R180.as_degrees(), 180);
    assert_eq!(PdfPageRotation::R270.as_degrees(), 270);
    assert_eq!(PdfPageRotation::R270.apply(RotationDelta::Clockwise), PdfPageRotation::R0);
    assert_eq!(PdfPageRotation::R0.apply(RotationDelta::CounterClockwise), PdfPageRotation::R270);
    assert_eq!(PdfPageRotation::R90.apply(RotationDelta::Clockwise), PdfPageRotation::R180);
    assert_eq!(PdfPageRotation::R180.apply(RotationDelta::CounterClockwise), PdfPageRotation::R90);
}

#[test]
fn rotation_step_and_inverse_cancel() {
    let all = [PdfPageRotation::R0, PdfPageRotation::R90, PdfPageRotation::R180, PdfPageRotation::R270];
    for r in all {
        assert_eq!(r.apply(RotationDelta::Clockwise).apply(RotationDelta::CounterClockwise), r);
        assert_eq!(r.apply(RotationDelta::CounterClockwise).apply(RotationDelta::Clockwise), r);
        let mut turned = r;
        for _ in 0..4 {
            turned = turned.apply(RotationDelta::Clockwise);
        }
        assert_eq!(turned, r);
        assert_eq!(
            r.apply(RotationDelta::Clockwise).as_degrees(),
            (r.as_degrees() + 90) % 360
        );
    }
}

#[test]
fn engine_page_index_check() {
    assert_eq!(check_page_index(PageIndex(0), 1), Ok(()));
    assert_eq!(
        check_page_index(PageIndex(3), 2),
        Err(EngineError::PageIndexOutOfBounds { index: 3, count: 2 })
    );
}
