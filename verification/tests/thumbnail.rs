use viewkai::thumbnail::{ThumbnailCache, ThumbnailCacheKey, ThumbnailPlugin, DEFAULT_THUMBNAIL_BUDGET};
use viewkai::{PageIndex, PdfPageRotation};

fn key(page: usize) -> ThumbnailCacheKey {
    ThumbnailCacheKey { page: PageIndex(page), rotation: PdfPageRotation::R0 }
}

#[test]
fn active_page_updates_only_on_transition() {
    let mut plugin = ThumbnailPlugin::<u32>::new();

    let first = [PageIndex(2), PageIndex(3)];
    assert!(plugin.update_active_page(&first));
    assert_eq!(plugin.active_page(), Some(2));

    assert!(!plugin.update_active_page(&first));
    assert_eq!(plugin.active_page(), Some(2));

    let second = [PageIndex(5)];
    assert!(plugin.update_active_page(&second));
    assert_eq!(plugin.active_page(), Some(5));
}

#[test]
fn active_page_clears_when_viewport_is_empty() {
    let mut plugin = ThumbnailPlugin::<u32>::new();

    let visible = [PageIndex(1)];
    assert!(plugin.update_active_page(&visible));
    assert_eq!(plugin.active_page(), Some(1));

    assert!(plugin.update_active_page(&[]));
    assert_eq!(plugin.active_page(), None);
}

#[test]
fn cache_evicts_least_recently_used_to_budget() {
    let mut cache = ThumbnailCache::<u32>::new(150_000);
    cache.insert(key(0), 100, 60_000);
    cache.tick_frame();
    cache.insert(key(1), 101, 60_000);
    cache.tick_frame();
    assert_eq!(cache.get(key(0)), Some(100));
    cache.tick_frame();
    cache.insert(key(2), 102, 60_000);
    assert!(cache.total_bytes() <= 150_000);
    assert_eq!(cache.get(key(1)), None);
    assert_eq!(cache.get(key(0)), Some(100));
    assert_eq!(cache.get(key(2)), Some(102));
    assert_eq!(cache.total_bytes(), 120_000);
}

#[test]
fn cache_replaces_same_key_and_rejects_oversized() {
    let mut cache = ThumbnailCache::<u32>::new(90_000);
    cache.insert(key(0), 1, 40_000);
    cache.insert(key(0), 2, 50_000);
    assert_eq!(cache.total_bytes(), 50_000);
    assert_eq!(cache.get(key(0)), Some(2));
    cache.insert(key(0), 3, 100_000);
    assert_eq!(cache.total_bytes(), 0);
    assert_eq!(cache.get(key(0)), None);
    cache.insert(key(4), 4, 90_000);
    assert_eq!(cache.get(key(4)), Some(4));
    cache.set_budget(10);
    assert_eq!(cache.total_bytes(), 0);
    assert_eq!(cache.get(key(4)), None);
}

#[test]
fn plugin_queues_missing_thumbnails_and_renders_in_chunks() {
    let mut plugin = ThumbnailPlugin::<u32>::new();
    assert_eq!(plugin.id(), "viewkai.thumbnail");
    assert!(!plugin.visible());
    assert_eq!(plugin.thumbnail_width(), 120);
    assert_eq!(plugin.cache_bytes(), 0);
    for p in 0..5 {
        assert_eq!(plugin.thumbnail_texture(7, PageIndex(p), PdfPageRotation::R0), (None, true));
    }
    assert_eq!(plugin.thumbnail_texture(7, PageIndex(1), PdfPageRotation::R0), (None, false));
    let (changed, now) = plugin.begin_frame(&[PageIndex(0)], Some(7));
    assert!(changed);
    assert_eq!(now, vec![PageIndex(0), PageIndex(1), PageIndex(2)]);
    for page in now {
        let k = ThumbnailCacheKey { page, rotation: PdfPageRotation::R0 };
        assert!(!plugin.touch_cached(k));
        plugin.store_thumbnail(k, page.0 as u32, 1_000);
    }
    assert_eq!(plugin.cache_bytes(), 3_000);
    assert!(plugin.has_pending());
    assert_eq!(plugin.thumbnail_texture(7, PageIndex(2), PdfPageRotation::R0), (Some(2), false));
    let (changed, now) = plugin.begin_frame(&[PageIndex(0)], Some(7));
    assert!(!changed);
    assert_eq!(now, vec![PageIndex(3), PageIndex(4)]);
    assert!(!plugin.has_pending());
    // another document drops everything
    assert_eq!(plugin.thumbnail_texture(8, PageIndex(2), PdfPageRotation::R0), (None, true));
    assert_eq!(plugin.cache_bytes(), 0);
    // no document: state is dropped
    // (switching documents already forgot the active page)
    let (changed, now) = plugin.begin_frame(&[], None);
    assert!(!changed);
    assert!(now.is_empty());
    assert!(!plugin.has_pending());
}

#[test]
fn plugin_click_and_budget() {
    let mut plugin = ThumbnailPlugin::<u32>::new();
    plugin.set_visible(true);
    assert!(plugin.visible());
    plugin.click_page(PageIndex(1));
    assert_eq!(plugin.pending_click_page(), Some(PageIndex(1)));
    assert_eq!(plugin.take_pending_click(), Some(PageIndex(1)));
    assert_eq!(plugin.pending_click_page(), None);
    plugin.store_thumbnail(key(0), 9, 5_000);
    plugin.set_cache_budget(4_000);
    assert_eq!(plugin.cache_bytes(), 0);
    assert_eq!(DEFAULT_THUMBNAIL_BUDGET, 64 * 1024 * 1024);
}

/// Bytes of a 120-pixel-wide RGBA thumbnail of a letter-size page (120 x 155).
const THUMBNAIL_BYTES: usize = 120 * 155 * 4;

/// One frame: the per-frame update renders up to three waiting pages, then
/// the requested page's thumbnail is looked up (and queued when missing).
fn run_cache_frame(plugin: &mut ThumbnailPlugin<u32>, document: usize, requested: PageIndex) -> Option<u32> {
    let (_, pending) = plugin.begin_frame(&[], Some(document));
    for page in pending {
        let k = key(page.0);
        if plugin.touch_cached(k) {
            continue;
        }
        plugin.store_thumbnail(k, 1000 + page.0 as u32, THUMBNAIL_BYTES);
    }
    plugin.thumbnail_texture(document, requested, PdfPageRotation::R0).0
}

fn run_steps(plugin: &mut ThumbnailPlugin<u32>, requested: PageIndex, steps: usize) -> Option<u32> {
    let mut last = None;
    for _ in 0..steps {
        last = run_cache_frame(plugin, 7, requested);
    }
    last
}

#[test]
fn thumbnail_cache_evicts_to_budget() {
    let mut plugin = ThumbnailPlugin::<u32>::new();
    plugin.set_cache_budget(90_000);

    for page in [PageIndex(0), PageIndex(1), PageIndex(2), PageIndex(3)] {
        let texture = run_steps(&mut plugin, page, 2);
        assert!(texture.is_some(), "page {} should render", page.0);
        assert!(plugin.cache_bytes() <= 90_000);
    }
}

#[test]
fn thumbnail_cache_hit_updates_lru() {
    let mut plugin = ThumbnailPlugin::<u32>::new();
    plugin.set_cache_budget(150_000);

    let page0 = run_steps(&mut plugin, PageIndex(0), 2).expect("page 0 texture");
    let page1 = run_steps(&mut plugin, PageIndex(1), 2).expect("page 1 texture");
    assert_ne!(page0, page1);

    assert_eq!(run_steps(&mut plugin, PageIndex(0), 1), Some(page0));

    run_steps(&mut plugin, PageIndex(2), 2);

    assert_eq!(run_steps(&mut plugin, PageIndex(0), 1), Some(page0));

    assert!(run_steps(&mut plugin, PageIndex(1), 1).is_none(), "page 1 should be evicted first");
}

#[test]
fn render_panel_click_queues_navigation() {
    let mut plugin = ThumbnailPlugin::<u32>::new();
    // The panel itself is drawn by the egui layer (app/plugins.rs,
    // render_thumbnail_panel); a click on the thumbnail labelled "Page 2"
    // ends in this call.
    plugin.click_page(PageIndex(1));
    assert_eq!(plugin.pending_click_page(), Some(PageIndex(1)));
}

#[test]
fn switching_or_closing_the_document_empties_the_cache() {
    let mut plugin = ThumbnailPlugin::<u32>::new();
    assert_eq!(run_steps(&mut plugin, PageIndex(0), 2), Some(1000));
    assert_eq!(plugin.cache_bytes(), THUMBNAIL_BYTES);

    // Same document: the thumbnail stays cached.
    let (_, pending) = plugin.begin_frame(&[], Some(7));
    assert!(pending.is_empty());
    assert_eq!(plugin.cache_bytes(), THUMBNAIL_BYTES);

    // Another document: nothing is cached any more.
    let (_, _) = plugin.begin_frame(&[], Some(8));
    assert_eq!(plugin.cache_bytes(), 0);

    assert_eq!(run_cache_frame(&mut plugin, 8, PageIndex(0)), None);
    assert_eq!(run_cache_frame(&mut plugin, 8, PageIndex(0)), Some(1000));
    // No document open: the cache is emptied too.
    let (_, pending) = plugin.begin_frame(&[], None);
    assert!(pending.is_empty());
    assert_eq!(plugin.cache_bytes(), 0);
}
