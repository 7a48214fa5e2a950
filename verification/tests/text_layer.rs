use viewkai::text_layer::reconstruct_text;
use viewkai::{
    CharIndex, CharSpan, DocumentText, PageIndex, PointerEvent, SelectionRange, TextLayerPlugin,
    TextPage,
};

fn page(text: &str, words: Vec<(usize, usize)>, lines: Vec<(usize, usize)>, p: usize) -> TextPage {
    TextPage {
        chars: text.chars().collect(),
        words: words
            .into_iter()
            .map(|(start, end)| CharSpan { page: PageIndex(p), start, end })
            .collect(),
        lines: lines
            .into_iter()
            .map(|(start, end)| CharSpan { page: PageIndex(p), start, end })
            .collect(),
    }
}

fn doc() -> DocumentText {
    DocumentText {
        pages: vec![
            Some(page("hello world", vec![(0, 5), (6, 11)], vec![(0, 11)], 0)),
            None,
            Some(page("abc def", vec![(0, 3), (4, 7)], vec![(0, 3), (4, 7)], 2)),
        ],
    }
}

fn at(p: usize, c: usize) -> CharIndex {
    CharIndex { page: PageIndex(p), char: c }
}

#[test]
fn debug_toggle_roundtrips() {
    let mut plugin = TextLayerPlugin::new();
    assert!(!plugin.debug());
    plugin.set_debug(true);
    assert!(plugin.debug());
    plugin.set_debug(false);
    assert!(!plugin.debug());
}

#[test]
fn text_layer_plugin_has_correct_id() {
    let plugin = TextLayerPlugin::new();
    assert_eq!(plugin.id(), "viewkai.text_layer");
}

#[test]
fn reconstruct_text_across_pages_skips_missing_page() {
    let sel = SelectionRange::new(at(0, 6), at(2, 3));
    assert_eq!(reconstruct_text(&sel, &doc()), "world\nabc");
}

#[test]
fn reconstruct_text_single_page_and_bad_range() {
    let d = doc();
    assert_eq!(reconstruct_text(&SelectionRange::new(at(0, 1), at(0, 4)), &d), "ell");
    let bad = SelectionRange { start: at(0, 4), end: at(0, 50) };
    assert_eq!(reconstruct_text(&bad, &d), "");
    let backwards = SelectionRange { start: at(2, 0), end: at(0, 3) };
    assert_eq!(reconstruct_text(&backwards, &d), "");
}

#[test]
fn select_all_then_selected_text() {
    let d = doc();
    let mut plugin = TextLayerPlugin::new();
    assert_eq!(plugin.selected_text(Some(&d)), "");
    plugin.select_all(Some(&d));
    let sel = *plugin.selection().expect("selection");
    assert_eq!(sel.start, at(0, 0));
    assert_eq!(sel.end, at(2, 7));
    assert_eq!(plugin.selected_text(Some(&d)), "hello world\nabc def");
    assert_eq!(plugin.selected_text(None), "");
    plugin.deselect();
    assert!(plugin.selection().is_none());
    assert_eq!(plugin.selected_text(Some(&d)), "");
}

#[test]
fn select_all_without_text_changes_nothing() {
    let mut plugin = TextLayerPlugin::new();
    plugin.select_all(None);
    assert!(plugin.selection().is_none());
    plugin.select_all(Some(&DocumentText { pages: vec![] }));
    assert!(plugin.selection().is_none());
    plugin.select_all(Some(&DocumentText { pages: vec![None] }));
    assert!(plugin.selection().is_none());
}

#[test]
fn double_click_selects_word() {
    let d = doc();
    let text = d.pages[0].as_ref().unwrap();
    let mut plugin = TextLayerPlugin::new();
    let ev = PointerEvent { primary_down: false, shift: false, click_count: 2 };
    assert!(plugin.on_pointer_event(PageIndex(0), &ev, Some(text), Some(8)));
    let sel = *plugin.selection().unwrap();
    assert_eq!(sel, SelectionRange { start: at(0, 6), end: at(0, 11) });
    // a double click on the space between words hits no word
    assert!(!plugin.on_pointer_event(PageIndex(0), &ev, Some(text), Some(5)));
    assert_eq!(*plugin.selection().unwrap(), sel);
}

#[test]
fn triple_click_selects_line() {
    let d = doc();
    let text = d.pages[2].as_ref().unwrap();
    let mut plugin = TextLayerPlugin::new();
    let ev = PointerEvent { primary_down: false, shift: false, click_count: 3 };
    assert!(plugin.on_pointer_event(PageIndex(2), &ev, Some(text), Some(5)));
    assert_eq!(*plugin.selection().unwrap(), SelectionRange { start: at(2, 4), end: at(2, 7) });
}

#[test]
fn press_drag_and_shift_click() {
    let d = doc();
    let text = d.pages[0].as_ref().unwrap();
    let mut plugin = TextLayerPlugin::new();
    let press = PointerEvent { primary_down: true, shift: false, click_count: 1 };
    assert!(plugin.on_pointer_event(PageIndex(0), &press, Some(text), Some(7)));
    assert!(plugin.selection().unwrap().is_empty());
    let drag = PointerEvent { primary_down: true, shift: false, click_count: 0 };
    assert!(plugin.on_pointer_event(PageIndex(0), &drag, Some(text), Some(2)));
    assert_eq!(*plugin.selection().unwrap(), SelectionRange { start: at(0, 2), end: at(0, 7) });
    assert_eq!(plugin.selected_text(Some(&d)), "llo w");
    let shift = PointerEvent { primary_down: false, shift: true, click_count: 1 };
    assert!(plugin.on_pointer_event(PageIndex(0), &shift, Some(text), Some(10)));
    assert_eq!(*plugin.selection().unwrap(), SelectionRange { start: at(0, 2), end: at(0, 10) });
    // pressing where no glyph is clears the selection and is not consumed
    assert!(!plugin.on_pointer_event(PageIndex(0), &press, Some(text), None));
    assert!(plugin.selection().is_none());
    // without page text nothing happens
    assert!(!plugin.on_pointer_event(PageIndex(0), &press, None, Some(1)));
    assert!(plugin.selection().is_none());
}

#[test]
fn double_click_selects_word_pure() {
    let page = PageIndex(0);
    let text = TextPage {
        chars: vec!['h', 'i'],
        words: vec![CharSpan { page, start: 0, end: 2 }],
        lines: vec![],
    };
    let mut plugin = TextLayerPlugin::new();
    let event = PointerEvent { primary_down: false, shift: false, click_count: 2 };
    // The pointer at (3, 5) lies on the first glyph, 'h' at x 0..5.
    let hit = Some(0);
    assert!(plugin.on_pointer_event(page, &event, Some(&text), hit));
    let sel = *plugin.selection().expect("word selected");
    assert_eq!(sel.start, CharIndex { page, char: 0 });
    assert_eq!(sel.end, CharIndex { page, char: 2 });
}

#[test]
fn selection_stays_ordered_through_any_events() {
    let d = doc();
    let text = d.pages[2].as_ref().unwrap();
    let mut plugin = TextLayerPlugin::new();
    let press = PointerEvent { primary_down: true, shift: false, click_count: 1 };
    let shift = PointerEvent { primary_down: false, shift: true, click_count: 1 };
    assert!(plugin.on_pointer_event(PageIndex(2), &press, Some(text), Some(6)));
    assert!(plugin.on_pointer_event(PageIndex(2), &press, Some(text), Some(1)));
    assert!(plugin.on_pointer_event(PageIndex(0), &shift, Some(text), Some(3)));
    plugin.select_all(Some(&d));
    let sel = *plugin.selection().unwrap();
    assert!((sel.start.page.0, sel.start.char) <= (sel.end.page.0, sel.end.char));
    plugin.deselect();
    assert!(plugin.selection().is_none());
}
