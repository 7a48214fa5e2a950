use viewkai::session::{describe_document, parse_trimmed_usize};
use viewkai::{AppSession, LoadState, SidebarTab};

#[test]
fn load_state_idle_to_loaded() {
    let mut s = AppSession::new();
    assert_eq!(s.load_state, LoadState::Idle);
    s.begin_load("Reading hello.pdf".to_string());
    assert_eq!(s.load_state, LoadState::AcquiringBytes { label: "Reading hello.pdf".to_string() });
    s.load_succeeded(1, Ok(describe_document(1, "612.0x792.0")));
    assert_eq!(s.load_state, LoadState::Loaded);
    assert_eq!(s.load_outcome(), Ok(()));
    assert_eq!(s.total_pages, 1);
    assert_eq!(s.page_input, "1");
    assert_eq!(
        s.debug_info.as_deref(),
        Some("PDF loaded: 1 pages. Page 1 size: 612.0x792.0 points.")
    );
}

#[test]
fn load_failure_then_dismiss_returns_to_idle() {
    let mut s = AppSession::new();
    s.load_succeeded(3, Err("bad page".to_string()));
    assert_eq!(s.debug_info.as_deref(), Some("PDF loaded; debug info unavailable: bad page"));
    s.load_failed("invalid PDF document".to_string());
    assert_eq!(s.load_outcome(), Err("invalid PDF document".to_string()));
    assert_eq!(s.total_pages, 0);
    assert_eq!(s.page_input, "");
    assert!(s.debug_info.is_none());
    s.reset();
    assert_eq!(s.load_state, LoadState::Idle);
    assert_eq!(s.load_outcome(), Err("unexpected state after load".to_string()));
}

#[test]
fn page_input_jumps_only_to_existing_pages() {
    let mut s = AppSession::new();
    s.load_succeeded(500, Ok(String::new()));
    assert_eq!(s.requested_page(), Some(0));
    s.page_input = "  42\t".to_string();
    assert_eq!(s.requested_page(), Some(41));
    s.page_input = "+500".to_string();
    assert_eq!(s.requested_page(), Some(499));
    for bad in ["0", "501", "", "   ", "4 2", "-3", "x", "99999999999999999999999"] {
        s.page_input = bad.to_string();
        assert_eq!(s.requested_page(), None, "input {bad:?}");
    }
}

#[test]
fn parse_matches_std() {
    for input in ["7", " 7 ", "+7", "007", "", "+", "++1", "1+", "18446744073709551615", "18446744073709551616", "\u{3000}12\u{2028}", "1_0"] {
        assert_eq!(parse_trimmed_usize(input), input.trim().parse::<usize>().ok(), "input {input:?}");
    }
}

#[test]
fn sidebar_tabs_follow_toggles() {
    let mut s = AppSession::new();
    assert_eq!(s.active_sidebar_tab(false, false), None);
    assert_eq!(s.active_sidebar_tab(false, true), Some(SidebarTab::Thumbnails));
    assert!(s.toggle_panel(SidebarTab::Thumbnails, false));
    assert_eq!(s.active_sidebar_tab(true, true), Some(SidebarTab::Thumbnails));
    assert!(!s.toggle_panel(SidebarTab::Outline, true));
    assert_eq!(s.sidebar_tab, SidebarTab::Thumbnails);
    assert!(s.toggle_panel(SidebarTab::Outline, false));
    assert_eq!(s.active_sidebar_tab(true, true), Some(SidebarTab::Outline));
    s.focus_page_input();
    assert!(s.take_page_input_focus());
    assert!(!s.take_page_input_focus());
}

#[test]
fn demo_load_state_idle_to_loaded() {
    let mut s = AppSession::new();
    assert!(matches!(s.load_state, viewkai::DemoLoadState::Idle));

    s.begin_load("hello.pdf".to_string());
    s.load_succeeded(1, Ok(describe_document(1, "612.0x792.0")));

    assert!(matches!(s.load_state, viewkai::DemoLoadState::Loaded));
    assert_eq!(s.total_pages, 1);
}

#[test]
fn demo_load_state_failed_dismiss_returns_to_idle() {
    let mut s = AppSession::new();

    s.begin_load("bytes".to_string());
    s.load_failed("invalid PDF document".to_string());
    let err = s.load_outcome().expect_err("invalid bytes should fail");
    assert!(!err.is_empty(), "failure should surface a message");

    assert!(matches!(s.load_state, viewkai::DemoLoadState::Failed { .. }));
    s.reset();

    assert!(matches!(s.load_state, viewkai::DemoLoadState::Idle));
    assert_eq!(s.total_pages, 0);
}
