use std::collections::HashSet;
use verseapp::cache::{cap_request_quality, plan_page_renders, thumbnail_requests, CachedTexture, TextureCache, ThumbnailCache};
use verseapp::commands::{action_command, Command};
use verseapp::navigation::PageNav;
use verseapp::render::RenderQuality::{self, Draft, Fuzzy, High};
use verseapp::search::{page_matches, search_key, text_matches, SearchMatch, SearchState};
use verseapp::session::{Action, PageLayout};
use verseapp::tabs::TabStrip;

fn tex(q: RenderQuality, w: u32, h: u32) -> CachedTexture<u32> {
    CachedTexture { handle: w, quality: q, width: w, height: h }
}

#[test]
fn texture_sizes_and_totals() {
    assert_eq!(tex(High, 10, 20).memory_size_bytes(), 800);
    let nav = PageNav::new(50, 10, PageLayout::Single, false);
    let mut c: TextureCache<u32> = TextureCache::new();
    assert!(c.insert_texture_with_size(10, 1, High, 10, 10, true, &nav, usize::MAX));
    assert!(c.insert_texture_with_size(11, 2, Draft, 10, 10, true, &nav, usize::MAX));
    assert_eq!(c.total_texture_ram_bytes(), 800);
    assert_eq!(c.len(), 2);
    assert_eq!(c.get_texture(10), Some(&1));
    // Same zoom and no better quality: not stored.
    assert!(!c.insert_texture_with_size(10, 9, Draft, 10, 10, true, &nav, usize::MAX));
    assert_eq!(c.get_texture(10), Some(&1));
    // A finer render replaces the coarse one.
    assert!(c.insert_texture_with_size(11, 3, High, 10, 10, true, &nav, usize::MAX));
    assert_eq!(c.get(11).map(|t| t.quality), Some(High));
    // Another zoom always replaces.
    assert!(c.insert_texture_with_size(10, 4, Fuzzy, 5, 5, false, &nav, usize::MAX));
    assert_eq!(c.get_texture(10), Some(&4));
}

#[test]
fn needs_render_rules() {
    let nav = PageNav::new(50, 0, PageLayout::Single, false);
    let mut c: TextureCache<u32> = TextureCache::new();
    c.insert_texture_with_size(0, 1, Draft, 1, 1, true, &nav, usize::MAX);
    assert!(!c.needs_render(0, Draft, true));
    assert!(c.needs_render(0, High, true));
    assert!(c.needs_render(0, Fuzzy, false));
    assert!(c.needs_render(1, Fuzzy, true));
}

#[test]
fn memory_budget_evicts_farthest_first() {
    let nav = PageNav::new(100, 50, PageLayout::Single, false);
    let mut c: TextureCache<u32> = TextureCache::new();
    for p in [50usize, 51, 20, 90, 60] {
        c.insert_texture_with_size(p, p as u32, High, 10, 10, true, &nav, usize::MAX);
    }
    assert_eq!(c.total_texture_ram_bytes(), 2000);
    c.enforce_memory_budget(&nav, 1200);
    // 90 (distance 40) and 20 (distance 30) go; 60 stays.
    assert!(!c.contains(90));
    assert!(!c.contains(20));
    assert!(c.contains(60) && c.contains(50) && c.contains(51));
    assert_eq!(c.total_texture_ram_bytes(), 1200);
    // Required pages are never evicted, even over budget.
    c.enforce_memory_budget(&nav, 0);
    assert!(c.contains(50) && c.contains(51));
    assert!(!c.contains(60));
}

#[test]
fn retain_and_clear() {
    let nav = PageNav::new(10, 2, PageLayout::Single, false);
    let mut c: TextureCache<u32> = TextureCache::new();
    c.insert_texture_with_size(2, 1, High, 2, 2, true, &nav, usize::MAX);
    c.insert_texture_with_size(3, 1, High, 2, 2, true, &nav, usize::MAX);
    c.retain_only(2);
    assert_eq!(c.pages(), vec![2]);
    c.clear();
    assert_eq!(c.total_texture_ram_bytes(), 0);
}

#[test]
fn render_plan_skips_loading_and_fresh_pages() {
    let nav = PageNav::new(10, 0, PageLayout::Single, false);
    let mut c: TextureCache<u32> = TextureCache::new();
    c.insert_texture_with_size(1, 1, High, 1, 1, true, &nav, usize::MAX);
    c.insert_texture_with_size(2, 1, Fuzzy, 1, 1, true, &nav, usize::MAX);
    let mut loading: HashSet<usize> = HashSet::new();
    loading.insert(3);
    let requests = nav.required_pages_with_quality();
    let plan = plan_page_renders(&requests, &mut loading, &c, &vec![1, 2]);
    assert_eq!(plan, vec![(0, High), (2, Draft)]);
    assert!(loading.contains(&0) && loading.contains(&2) && loading.contains(&3));
    assert_eq!(loading.len(), 3);
}

#[test]
fn thumbnail_cache_drops_oldest_when_full() {
    let mut t: ThumbnailCache<usize> = ThumbnailCache::new();
    for p in 0..30usize {
        t.insert_thumbnail(p, p);
    }
    assert_eq!(t.len(), 30);
    t.insert_thumbnail(0, 100);
    assert_eq!(t.len(), 30);
    t.insert_thumbnail(30, 30);
    assert_eq!(t.len(), 30);
    assert!(!t.contains(1));
    assert!(t.contains(0));
    assert_eq!(t.get(0), Some(&100));
    t.clear_images();
    assert_eq!(t.len(), 0);
}

#[test]
fn thumbnail_requests_nearest_first() {
    let mut t: ThumbnailCache<usize> = ThumbnailCache::new();
    t.insert_thumbnail(10, 0);
    let mut loading: HashSet<usize> = HashSet::new();
    loading.insert(9);
    let r = thumbnail_requests(10, 100, &t, &mut loading);
    assert_eq!(r, vec![11, 8, 12, 7, 13, 6, 14]);
    assert_eq!(loading.len(), 8);
    let r2 = thumbnail_requests(10, 100, &t, &mut loading);
    assert!(r2.is_empty());
    let mut none: HashSet<usize> = HashSet::new();
    assert!(thumbnail_requests(0, 0, &t, &mut none).is_empty());
    let empty: ThumbnailCache<usize> = ThumbnailCache::new();
    let mut idle: HashSet<usize> = HashSet::new();
    assert_eq!(thumbnail_requests(10, 100, &empty, &mut idle), vec![10, 9, 11, 8, 12, 7, 13, 6]);
    assert_eq!(idle.len(), 8);
}

#[test]
fn tabs_open_select_close() {
    let mut s: TabStrip<&str> = TabStrip::new();
    let a = s.open_tab("a");
    let b = s.open_tab("b");
    let c = s.add_tab("c");
    assert_eq!((a, b, c), (1, 2, 3));
    assert_eq!(s.active_tab_id(), Some(2));
    assert_eq!(s.next_tab(), Some(3));
    assert_eq!(s.prev_tab(), Some(1));
    s.select_tab(3);
    assert_eq!(s.next_tab(), Some(1));
    let (closed, reselect) = s.close_tab(3);
    assert_eq!(closed, Some("c"));
    assert_eq!(reselect, Some(2));
    let (closed, reselect) = s.close_tab(1);
    assert_eq!(closed, Some("a"));
    assert_eq!(reselect, None);
    assert_eq!(s.close_tab(42), (None, None));
    s.select_tab(2);
    let (closed, reselect) = s.close_tab(2);
    assert_eq!(closed, Some("b"));
    assert_eq!(reselect, None);
    assert_eq!(s.active_tab_id(), None);
    assert!(s.is_empty());
}

#[test]
fn closing_active_middle_tab_selects_successor() {
    let mut s: TabStrip<u8> = TabStrip::new();
    s.open_tab(1);
    s.open_tab(2);
    s.open_tab(3);
    s.select_tab(2);
    assert_eq!(s.close_tab(2).1, Some(3));
}

#[test]
fn split_view_dropped_with_its_tab() {
    let mut s: TabStrip<u8> = TabStrip::new();
    s.open_tab(1);
    s.open_tab(2);
    s.request_split(1);
    assert_eq!(s.split_secondary_tab_id(), Some(1));
    s.close_tab(1);
    assert_eq!(s.split_secondary_tab_id(), None);
}

#[test]
fn dragging_swaps_tabs() {
    let mut s: TabStrip<char> = TabStrip::new();
    s.open_tab('a');
    s.open_tab('b');
    s.open_tab('c');
    assert!(s.start_drag(1));
    assert!(!s.drag_over(1));
    assert!(s.drag_over(3));
    let order: Vec<usize> = s.entries().iter().map(|e| e.0).collect();
    assert_eq!(order, vec![3, 2, 1]);
    s.end_drag();
    assert_eq!(s.dragged_tab_id(), None);
    assert!(!s.drag_over(2));
}

#[test]
fn restore_active_falls_back_to_first() {
    let mut s: TabStrip<u8> = TabStrip::new();
    s.add_tab(7);
    s.add_tab(8);
    s.restore_active(2);
    assert_eq!(s.active_tab_id(), Some(2));
    s.restore_active(99);
    assert_eq!(s.active_tab_id(), Some(1));
    assert_eq!(s.position(2), Some(1));
    assert_eq!(s.get(2), Some(&8));
    *s.entry_mut(0) = 9;
    assert_eq!(s.get(1), Some(&9));
}

#[test]
fn shortcut_commands() {
    let mut s: TabStrip<u8> = TabStrip::new();
    assert_eq!(action_command(Action::NextPage, &s, None), Command::Nothing);
    assert_eq!(action_command(Action::OpenFile, &s, None), Command::OpenFile);
    s.open_tab(0);
    s.open_tab(0);
    let nav = PageNav::new(10, 4, PageLayout::Double, false);
    assert_eq!(action_command(Action::NextPage, &s, Some(&nav)), Command::ChangePage(2, 6));
    assert_eq!(action_command(Action::PrevPage, &s, Some(&nav)), Command::ChangePage(2, 2));
    assert_eq!(action_command(Action::ZoomIn, &s, Some(&nav)), Command::ZoomIn(2));
    assert_eq!(action_command(Action::ZoomIn, &s, None), Command::Nothing);
    assert_eq!(action_command(Action::NextTab, &s, None), Command::SelectTab(1));
    assert_eq!(action_command(Action::CloseActiveTab, &s, None), Command::CloseTab(2));
    assert_eq!(action_command(Action::OpenSearch, &s, None), Command::ToggleSearch);
}

#[test]
fn search_keys_and_matching() {
    assert_eq!(search_key("  Hello ", false), Some("hello".to_string()));
    assert_eq!(search_key("  Hello ", true), Some("Hello".to_string()));
    assert_eq!(search_key("   ", false), None);
    assert!(text_matches("Straße", "straße", false));
    assert!(!text_matches("Hello", "hello", true));
    assert!(text_matches("Hello", "ell", true));
    let words = vec!["Alpha".to_string(), "beta".to_string(), "ALPHABET".to_string()];
    assert_eq!(page_matches(&words, "alpha", false), vec![0, 2]);
    assert_eq!(page_matches(&words, "alpha", true), Vec::<usize>::new());
}

#[test]
fn search_navigation_wraps() {
    let mut s: SearchState<u8> = SearchState::new();
    s.query = " cat ".to_string();
    let ms = vec![
        SearchMatch { page_index: 0, quad: 1 },
        SearchMatch { page_index: 2, quad: 2 },
        SearchMatch { page_index: 2, quad: 3 },
    ];
    assert!(!s.complete("dog", ms.clone()));
    assert!(s.matches.is_empty());
    assert!(s.complete("cat", ms));
    assert_eq!(s.current_idx, 0);
    s.prev_match();
    assert_eq!(s.current_idx, 2);
    s.next_match();
    assert_eq!(s.current_idx, 0);
    s.next_match();
    assert_eq!(s.current_match().map(|m| m.quad), Some(2));
    assert_eq!(s.matches_on_page(2), vec![1, 2]);
    assert_eq!(s.active_match_on_page(2), Some(1));
    assert_eq!(s.active_match_on_page(0), None);
    s.current_idx = 10;
    assert_eq!(s.current_match().map(|m| m.quad), Some(3));
}

#[test]
fn dragging_back_restores_order() {
    let mut s: TabStrip<char> = TabStrip::new();
    s.open_tab('a');
    s.open_tab('b');
    s.open_tab('c');
    s.start_drag(1);
    assert!(s.drag_over(2));
    assert!(s.drag_over(2));
    let order: Vec<char> = s.entries().iter().map(|e| e.1).collect();
    assert_eq!(order, vec!['a', 'b', 'c']);
}

#[test]
fn eviction_stops_once_within_budget() {
    let nav = PageNav::new(100, 50, PageLayout::Single, false);
    let mut c: TextureCache<u32> = TextureCache::new();
    c.insert_texture_with_size(50, 0, High, 10, 10, true, &nav, usize::MAX);
    c.insert_texture_with_size(90, 0, High, 5, 1, true, &nav, usize::MAX);
    c.insert_texture_with_size(60, 0, High, 2, 1, true, &nav, usize::MAX);
    assert_eq!(c.total_texture_ram_bytes(), 428);
    c.enforce_memory_budget(&nav, 410);
    assert!(!c.contains(90));
    assert!(c.contains(60) && c.contains(50));
    assert_eq!(c.total_texture_ram_bytes(), 408);
}

#[test]
fn repeated_requests_render_once() {
    let c: TextureCache<u32> = TextureCache::new();
    let mut loading: HashSet<usize> = HashSet::new();
    let plan = plan_page_renders(&vec![(5, High), (5, Draft), (6, Draft)], &mut loading, &c, &vec![]);
    assert_eq!(plan, vec![(5, High), (6, Draft)]);
    assert_eq!(loading.len(), 2);
}

#[test]
fn draft_pass_caps_requests() {
    let requests = vec![(0, High), (1, Draft), (2, Fuzzy)];
    assert_eq!(cap_request_quality(&requests, Draft), vec![(0, Draft), (1, Draft), (2, Fuzzy)]);
    assert_eq!(cap_request_quality(&requests, High), requests);
    assert_eq!(cap_request_quality(&requests, Fuzzy), vec![(0, Fuzzy), (1, Fuzzy), (2, Fuzzy)]);
}

#[test]
fn next_then_previous_tab_returns() {
    let mut s: TabStrip<&str> = TabStrip::new();
    s.open_tab("a");
    s.open_tab("b");
    s.open_tab("c");
    s.select_tab(2);
    let next = s.next_tab().unwrap();
    assert_eq!(next, 3);
    s.select_tab(next);
    assert_eq!(s.prev_tab(), Some(2));
    s.select_tab(3);
    let wrap = s.next_tab().unwrap();
    assert_eq!(wrap, 1);
    s.select_tab(wrap);
    assert_eq!(s.prev_tab(), Some(3));
}

#[test]
fn closing_active_split_tab_drops_split_and_reselects() {
    let mut s: TabStrip<u8> = TabStrip::new();
    s.open_tab(1);
    s.open_tab(2);
    s.open_tab(3);
    s.select_tab(2);
    s.request_split(2);
    let (closed, reselect) = s.close_tab(2);
    assert_eq!(closed, Some(2));
    assert_eq!(reselect, Some(3));
    assert_eq!(s.split_secondary_tab_id(), None);
    s.request_split(1);
    s.close_tab(3);
    assert_eq!(s.split_secondary_tab_id(), Some(1));
}
