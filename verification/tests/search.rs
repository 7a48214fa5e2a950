use viewkai::{CharSpan, PageIndex, SearchMatch, SearchPlugin, SearchQuery, SearchState};

type Rect = [f32; 4];

fn m(page: usize, start: usize, end: usize) -> SearchMatch<Rect> {
    SearchMatch {
        page: PageIndex(page),
        char_span: CharSpan { page: PageIndex(page), start, end },
        rects: vec![],
    }
}

fn query(term: &str) -> SearchQuery {
    SearchQuery { term: term.to_string(), case_sensitive: false, whole_word: false }
}

#[test]
fn open_close_toggles_state() {
    let mut plugin = SearchPlugin::<Rect>::new();
    assert!(!plugin.is_open());
    plugin.open();
    assert!(plugin.is_open());
    plugin.close();
    assert!(!plugin.is_open());
    assert!(plugin.state().is_none());
}

#[test]
fn next_match_wraps_around() {
    let mut plugin = SearchPlugin::<Rect>::new();
    plugin.state = Some(SearchState {
        query: SearchQuery::default(),
        matches: vec![
            SearchMatch {
                page: PageIndex(0),
                char_span: CharSpan { page: PageIndex(0), start: 0, end: 1 },
                rects: vec![],
            },
            SearchMatch {
                page: PageIndex(0),
                char_span: CharSpan { page: PageIndex(0), start: 1, end: 2 },
                rects: vec![],
            },
        ],
        current_match: 1,
        pending_pages: vec![],
    });
    plugin.next_match();
    assert_eq!(plugin.state().expect("state").current_match, 0);
}

#[test]
fn prev_match_wraps_around() {
    let mut plugin = SearchPlugin::<Rect>::new();
    plugin.state = Some(SearchState {
        query: SearchQuery::default(),
        matches: vec![
            SearchMatch {
                page: PageIndex(0),
                char_span: CharSpan { page: PageIndex(0), start: 0, end: 1 },
                rects: vec![],
            },
            SearchMatch {
                page: PageIndex(0),
                char_span: CharSpan { page: PageIndex(0), start: 1, end: 2 },
                rects: vec![],
            },
        ],
        current_match: 0,
        pending_pages: vec![],
    });
    plugin.prev_match();
    assert_eq!(plugin.state().expect("state").current_match, 1);
}

#[test]
fn search_plugin_has_correct_id() {
    let plugin = SearchPlugin::<Rect>::new();
    assert_eq!(plugin.id(), "viewkai.search");
}

#[test]
fn empty_term_searches_nothing() {
    let mut plugin = SearchPlugin::<Rect>::new();
    plugin.update_query(query(""), 12);
    let state = plugin.state().unwrap();
    assert!(state.pending_pages.is_empty());
    assert!(state.matches.is_empty());
    assert_eq!(state.navigation_label(), "0 of 0");
    assert!(plugin.next_match().is_none());
    assert!(plugin.prev_match().is_none());
    assert!(plugin.current_match().is_none());
}

#[test]
fn chunks_merge_sorted_and_label() {
    let mut plugin = SearchPlugin::<Rect>::new();
    plugin.update_query(query("hello"), 23);
    assert_eq!(plugin.state().unwrap().pending_pages.len(), 23);
    let first = plugin.drain_pending_chunk();
    assert_eq!(first, (0..10).map(PageIndex).collect::<Vec<_>>());
    plugin.merge_matches(vec![m(7, 3, 8), m(2, 9, 14), m(2, 1, 6)]);
    let state = plugin.state().unwrap();
    let order: Vec<(usize, usize)> =
        state.matches.iter().map(|x| (x.page.0, x.char_span.start)).collect();
    assert_eq!(order, vec![(2, 1), (2, 9), (7, 3)]);
    assert_eq!(state.current_match, 0);
    assert_eq!(state.navigation_label(), "1 of 3+");
    assert_eq!(plugin.next_match().unwrap().page, PageIndex(2));
    assert_eq!(plugin.next_match().unwrap().page, PageIndex(7));
    assert_eq!(plugin.next_match().unwrap().char_span.start, 1);
    assert_eq!(plugin.prev_match().unwrap().page, PageIndex(7));
    assert_eq!(plugin.state().unwrap().current_match, 2);
    assert_eq!(plugin.drain_pending_chunk().len(), 10);
    assert_eq!(plugin.drain_pending_chunk(), vec![PageIndex(20), PageIndex(21), PageIndex(22)]);
    assert!(plugin.drain_pending_chunk().is_empty());
    plugin.merge_matches(vec![m(1, 0, 1)]);
    let state = plugin.state().unwrap();
    assert_eq!(state.matches[0].page, PageIndex(1));
    assert_eq!(state.current_match, 2);
    assert_eq!(state.navigation_label(), "3 of 4");
    assert_eq!(plugin.current_match().unwrap().page, PageIndex(2));
}

#[test]
fn merge_keeps_order_of_equal_positions_and_clamps() {
    let mut plugin = SearchPlugin::<Rect>::new();
    plugin.update_query(query("x"), 1);
    let mut a = m(0, 4, 5);
    a.rects.push([1.0, 0.0, 0.0, 0.0]);
    let mut b = m(0, 4, 6);
    b.rects.push([2.0, 0.0, 0.0, 0.0]);
    plugin.merge_matches(vec![a, b]);
    let state = plugin.state().unwrap();
    assert_eq!(state.matches[0].rects[0][0], 1.0);
    assert_eq!(state.matches[1].rects[0][0], 2.0);
    plugin.state.as_mut().unwrap().current_match = 40;
    plugin.merge_matches(vec![]);
    assert_eq!(plugin.state().unwrap().current_match, 1);
}

#[test]
fn merge_and_drain_without_state_do_nothing() {
    let mut plugin = SearchPlugin::<Rect>::new();
    assert!(plugin.drain_pending_chunk().is_empty());
    plugin.merge_matches(vec![m(0, 0, 1)]);
    assert!(plugin.state().is_none());
}

#[test]
fn colors_and_query_input() {
    let mut plugin = SearchPlugin::<Rect>::new();
    assert_eq!(plugin.match_color(), viewkai::Rgba { r: 255, g: 255, b: 0, a: 120 });
    assert_eq!(plugin.current_match_color(), viewkai::Rgba { r: 255, g: 150, b: 0, a: 180 });
    plugin.set_match_color(viewkai::Rgba { r: 1, g: 2, b: 3, a: 4 });
    assert_eq!(plugin.match_color(), viewkai::Rgba { r: 1, g: 2, b: 3, a: 4 });
    plugin.open();
    assert!(plugin.take_focus_request());
    assert!(!plugin.take_focus_request());
    plugin.set_query_input("abc".to_string());
    assert_eq!(plugin.query_input(), "abc");
}
