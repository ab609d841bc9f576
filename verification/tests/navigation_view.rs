use verseapp::navigation::{Debouncer, PageNav};
use verseapp::render::{
    apply_smart_night_mode_filter, expand_to_rgba, quality_tag, thumbnail_tag, RenderQuality, TocItem,
};
use verseapp::session::{PageLayout, SidePanelTab, ThemeMode};
use verseapp::viewer::{
    badge_kind, badge_text, continuous_label, continuous_window, double_rows, layout_label, night_label, numbered_label,
    page_count_label, scroll_plan, search_counter, side_panel_label, theme_label, toolbar_next_page,
    toolbar_prev_page, tab_title_text, BadgeKind, ScrollPlan,
};

use RenderQuality::{Draft, Fuzzy, High};

#[test]
fn single_page_prefetch() {
    let nav = PageNav::new(10, 4, PageLayout::Single, false);
    assert_eq!(
        nav.required_pages_with_quality(),
        vec![(4, High), (5, High), (6, Draft), (7, Draft), (3, Draft), (2, Draft)]
    );
    let first = PageNav::new(10, 0, PageLayout::Single, false);
    assert_eq!(first.required_pages_with_quality(), vec![(0, High), (1, High), (2, Draft), (3, Draft)]);
    let last = PageNav::new(3, 2, PageLayout::Single, false);
    assert_eq!(last.required_pages_with_quality(), vec![(2, High), (1, Draft), (0, Draft)]);
    assert_eq!(nav.required_pages(), vec![4, 5, 6, 7, 3, 2]);
}

#[test]
fn double_page_prefetch() {
    let nav = PageNav::new(20, 4, PageLayout::Double, false);
    assert_eq!(
        nav.required_pages_with_quality(),
        vec![(4, High), (5, High), (6, High), (7, High), (8, Draft), (9, Draft), (2, Draft), (3, Draft)]
    );
    let short = PageNav::new(2, 0, PageLayout::Double, false);
    assert_eq!(short.required_pages_with_quality(), vec![(0, High), (1, High)]);
}

#[test]
fn continuous_prefetch_falls_with_distance() {
    let nav = PageNav::new(100, 10, PageLayout::Single, true);
    assert_eq!(
        nav.required_pages_with_quality(),
        vec![(8, Draft), (9, High), (10, High), (11, High), (12, Draft), (13, Draft), (14, Fuzzy), (15, Fuzzy)]
    );
    let start = PageNav::new(3, 0, PageLayout::Double, true);
    assert_eq!(start.required_pages_with_quality(), vec![(0, High), (1, High), (2, Draft)]);
}

#[test]
fn empty_document_needs_no_pages() {
    let nav = PageNav::new(0, 0, PageLayout::Single, false);
    assert!(nav.required_pages_with_quality().is_empty());
}

#[test]
fn page_box_shows_one_based_page() {
    let mut nav = PageNav::new(10, 0, PageLayout::Single, false);
    assert_eq!(nav.page_input_text, "1");
    nav.go_to_page(6);
    assert_eq!(nav.current_page, 6);
    assert_eq!(nav.page_input_text, "7");
}

#[test]
fn submitting_page_box_clamps() {
    let mut nav = PageNav::new(10, 2, PageLayout::Single, false);
    nav.page_input_text = " 5 ".to_string();
    assert!(nav.submit_page_input());
    assert_eq!(nav.current_page, 4);
    assert_eq!(nav.page_input_text, "5");
    nav.page_input_text = "500".to_string();
    assert!(nav.submit_page_input());
    assert_eq!(nav.current_page, 9);
    assert_eq!(nav.page_input_text, "10");
    nav.page_input_text = "0".to_string();
    assert!(nav.submit_page_input());
    assert_eq!(nav.current_page, 0);
    nav.page_input_text = "abc".to_string();
    nav.current_page = 3;
    assert!(nav.submit_page_input());
    assert_eq!(nav.current_page, 3);
    assert_eq!(nav.page_input_text, "4");
    nav.page_input_text = "+2".to_string();
    assert!(nav.submit_page_input());
    assert_eq!(nav.current_page, 1);
}

#[test]
fn submitting_in_empty_document_resets_box() {
    let mut nav = PageNav::new(0, 0, PageLayout::Single, false);
    nav.page_input_text = "7".to_string();
    assert!(!nav.submit_page_input());
    assert_eq!(nav.page_input_text, "1");
    assert_eq!(nav.current_page, 0);
}

#[test]
fn page_steps_respect_layout() {
    let nav = PageNav::new(10, 8, PageLayout::Double, false);
    assert_eq!(nav.next_page_target(), 9);
    assert_eq!(nav.prev_page_target(), 6);
    let nav = PageNav::new(10, 1, PageLayout::Double, false);
    assert_eq!(nav.prev_page_target(), 0);
    let nav = PageNav::new(10, 3, PageLayout::Single, false);
    assert_eq!(nav.next_page_target(), 4);
    assert_eq!(nav.prev_page_target(), 2);
}

#[test]
fn toggles_keep_position() {
    let mut nav = PageNav::new(10, 3, PageLayout::Single, false);
    nav.toggle_layout();
    assert_eq!(nav.layout, PageLayout::Double);
    nav.toggle_continuous();
    assert!(nav.is_continuous);
    assert_eq!(nav.current_page, 3);
}

#[test]
fn scrolling_follows_viewport() {
    let mut nav = PageNav::new(10, 3, PageLayout::Single, true);
    assert!(nav.follow_scroll(false, 5, false));
    assert_eq!(nav.current_page, 5);
    assert_eq!(nav.page_input_text, "6");
    assert!(!nav.follow_scroll(true, 0, false));
    assert!(!nav.follow_scroll(false, 8, true));
    assert!(nav.follow_scroll(false, 6, true));
    assert!(!nav.follow_scroll(false, 6, false));
    let mut paged = PageNav::new(10, 3, PageLayout::Single, false);
    assert!(!paged.follow_scroll(false, 5, false));
}

#[test]
fn debouncer_keeps_only_latest() {
    let mut d = Debouncer::new();
    let a = d.bump();
    let b = d.bump();
    assert!(!d.is_settled(a));
    assert!(d.is_settled(b));
}

#[test]
fn quality_order() {
    assert!(High.at_least(Draft));
    assert!(Draft.at_least(Draft));
    assert!(!Fuzzy.at_least(Draft));
    assert_eq!(High.rank(), 2);
}

#[test]
fn night_filter_inverts_grey_and_dims_colour() {
    let mut px = vec![250u8, 250, 250, 255, 200, 40, 40, 128, 9];
    apply_smart_night_mode_filter(&mut px);
    assert_eq!(px, vec![5u8, 5, 5, 255, 180, 36, 36, 128, 9]);
}

#[test]
fn rgba_expansion() {
    assert_eq!(expand_to_rgba(&vec![1, 2, 3, 4, 5, 6], 3, 2, 1), vec![1, 2, 3, 255, 4, 5, 6, 255]);
    assert_eq!(expand_to_rgba(&vec![7, 8], 1, 2, 1), vec![7, 7, 7, 255, 8, 8, 8, 255]);
    assert_eq!(expand_to_rgba(&vec![1, 2, 3, 4], 4, 1, 1), vec![1, 2, 3, 4]);
}

#[test]
fn cache_tags() {
    assert_eq!(quality_tag(High, false, false), "high");
    assert_eq!(quality_tag(Draft, true, false), "night_draft");
    assert_eq!(quality_tag(Fuzzy, true, true), "fuzzy");
    assert_eq!(thumbnail_tag(true, false), "night_thumb");
    assert_eq!(thumbnail_tag(true, true), "thumb");
    assert_eq!(thumbnail_tag(false, false), "thumb");
}

#[test]
fn outline_entry_without_destination_opens_first_page() {
    let leaf = TocItem::entry("Intro".to_string(), Some(4), Vec::new());
    let root = TocItem::entry("Book".to_string(), None, vec![leaf]);
    assert_eq!(root.page_index, 0);
    assert_eq!(root.children[0].page_index, 4);
    assert_eq!(root.children[0].title, "Intro");
}

#[test]
fn continuous_windows() {
    assert_eq!(continuous_window(10, 100), (6, 19));
    assert_eq!(continuous_window(2, 5), (0, 5));
    assert_eq!(double_rows(10, 21), (11, 1, 11));
    assert_eq!(double_rows(0, 3), (2, 0, 2));
    assert_eq!(double_rows(0, 100), (50, 0, 9));
    assert_eq!(double_rows(40, 100), (50, 16, 29));
    let (s, e) = continuous_window(50, 51);
    assert!(s <= 50 && 50 < e);
}

#[test]
fn scroll_plans() {
    assert_eq!(
        scroll_plan(true, true, SidePanelTab::Thumbnails),
        ScrollPlan { viewer: true, side_panel: true, thumbnails: true }
    );
    assert_eq!(
        scroll_plan(false, false, SidePanelTab::Thumbnails),
        ScrollPlan { viewer: false, side_panel: false, thumbnails: false }
    );
    assert_eq!(
        scroll_plan(false, true, SidePanelTab::TableOfContents),
        ScrollPlan { viewer: false, side_panel: true, thumbnails: false }
    );
}

#[test]
fn labels() {
    assert_eq!(search_counter(2, 10, "x"), "3 / 10");
    assert_eq!(search_counter(0, 0, " cat "), "0 matches");
    assert_eq!(search_counter(0, 0, "   "), "");
    assert_eq!(numbered_label("Loading Page ", 4, "..."), "Loading Page 5...");
    assert_eq!(numbered_label("p. ", 0, ""), "p. 1");
    assert_eq!(page_count_label(0), " / 1");
    assert_eq!(page_count_label(12), " / 12");
    assert_eq!(toolbar_next_page(3, 10), 4);
    assert_eq!(toolbar_next_page(9, 10), 9);
    assert_eq!(toolbar_next_page(0, 0), 0);
    assert_eq!(toolbar_prev_page(0), 0);
    assert_eq!(toolbar_prev_page(5), 4);
    assert_eq!(layout_label(PageLayout::Double), "Double");
    assert_eq!(continuous_label(false), "Paginated");
    assert_eq!(side_panel_label(true), "Panel [x]");
    assert_eq!(theme_label(ThemeMode::Dark), "🌓 Dark");
    assert_eq!(night_label(true), "🌙 Night: ON");
}

#[test]
fn badges() {
    assert_eq!(badge_kind("PDF"), BadgeKind::Pdf);
    assert_eq!(badge_kind("MOBI"), BadgeKind::Ebook);
    assert_eq!(badge_kind("DOCX"), BadgeKind::Word);
    assert_eq!(badge_kind("DJVU"), BadgeKind::DjVu);
    assert_eq!(badge_kind("CBR"), BadgeKind::Comic);
    assert_eq!(badge_kind("pdf"), BadgeKind::Other);
    assert_eq!(badge_kind("TXT"), BadgeKind::Other);
}

#[test]
fn badge_and_title_texts() {
    assert_eq!(badge_text("EPUB"), "EPUB");
    assert_eq!(badge_text("DOC"), "DOC");
    assert_eq!(badge_text("MARKDOWN"), "MARK");
    assert_eq!(tab_title_text("report.pdf"), "report.pdf");
    assert_eq!(tab_title_text("abcdefghijklmnopqrstuv"), "abcdefghijklmnopqrstuv");
    assert_eq!(tab_title_text("abcdefghijklmnopqrstuvw"), "abcdefghijklmnopqrst\u{2026}");
    let accented = "\u{e9}".repeat(12);
    assert_eq!(tab_title_text(&accented), format!("{}\u{2026}", "\u{e9}".repeat(10)));
}
