use vstd::prelude::*;
use crate::navigation::sat_sub;
use crate::session::{PageLayout, SidePanelTab, ThemeMode};
use vstd::string::StringSliceAdditionalSpecFns;
use vstd::utf8::is_char_boundary;
use vstd::utf8::encode_utf8;
use crate::text::{chars_of, decimal, extend_chars, string_of, trim, trimmed, usize_to_string};

verus! {

/// The pages of a single-column continuous view that get textures: four
/// before the current page to eight after it; the others are drawn as
/// blank boxes of the right size.
pub open spec fn continuous_window_spec(current: usize, page_count: usize) -> (int, int) {
    (sat_sub(current as int, 4), if current + 9 <= page_count { current + 9 } else { page_count as int })
}

/// The rows of facing pages in a double continuous view, and the rows that
/// get textures: four before the current row to eight after it.
pub open spec fn double_rows_spec(current: usize, page_count: usize) -> (int, int, int) {
    let total_rows: int = (page_count + 1) / 2;
    let active_row: int = (current / 2) as int;
    (total_rows, sat_sub(active_row, 4), if active_row + 9 <= total_rows { active_row + 9 } else { total_rows })
}

/// Which scroll positions to restore and whether to load thumbnails when a
/// tab comes to the front or its side panel changes.
#[derive(Clone, Copy, PartialEq, Eq, Structural, Debug)]
pub struct ScrollPlan {
    /// Scroll the continuous view to the current page.
    pub viewer: bool,
    /// Scroll the side panel to the current page's thumbnail.
    pub side_panel: bool,
    /// Start the missing thumbnail renders.
    pub thumbnails: bool,
}

/// The counter the search bar shows: the match position out of the total,
/// `0 matches` for a query that found nothing, and nothing before a query.
pub open spec fn search_counter_spec(current_idx: usize, total: usize, query: Seq<char>) -> Seq<char> {
    if total > 0 {
        decimal((current_idx + 1) as nat) + " / "@ + decimal(total as nat)
    } else if trimmed(query).len() > 0 {
        "0 matches"@
    } else {
        Seq::empty()
    }
}

/// The first (inclusive) and last (exclusive) page of the continuous view
/// that are drawn with their textures.
pub fn continuous_window(current: usize, page_count: usize) -> (r: (usize, usize))
    requires
        current + 9 <= usize::MAX,
    ensures
        (r.0 as int, r.1 as int) == continuous_window_spec(current, page_count),
{
    let end = if current + 9 <= page_count { current + 9 } else { page_count };
    (current.saturating_sub(4), end)
}

/// The number of rows of a double continuous view, and the first
/// (inclusive) and last (exclusive) row drawn with textures.
pub fn double_rows(current: usize, page_count: usize) -> (r: (usize, usize, usize))
    requires
        page_count + 1 <= usize::MAX,
        current / 2 + 9 <= usize::MAX,
    ensures
        (r.0 as int, r.1 as int, r.2 as int) == double_rows_spec(current, page_count),
{
    let total_rows = (page_count + 1) / 2;
    let active_row = current / 2;
    let end = if active_row + 9 <= total_rows { active_row + 9 } else { total_rows };
    (total_rows, active_row.saturating_sub(4), end)
}

/// The page on screen is always drawn with its texture, in either
/// continuous view.
pub proof fn current_page_is_drawn(current: usize, page_count: usize)
    requires
        current < page_count,
    ensures
        continuous_window_spec(current, page_count).0 <= current < continuous_window_spec(current, page_count).1,
        double_rows_spec(current, page_count).1 <= current / 2 < double_rows_spec(current, page_count).2,
{
}

/// What to scroll and load for a tab with these settings.
pub fn scroll_plan(is_continuous: bool, side_panel_open: bool, side_tab: SidePanelTab) -> (r: ScrollPlan)
    ensures
        r.viewer == is_continuous,
        r.side_panel == side_panel_open,
        r.thumbnails == (side_panel_open && side_tab == SidePanelTab::Thumbnails),
{
    ScrollPlan {
        viewer: is_continuous,
        side_panel: side_panel_open,
        thumbnails: side_panel_open && side_tab == SidePanelTab::Thumbnails,
    }
}

/// The search bar's counter.
pub fn search_counter(current_idx: usize, total: usize, query: &str) -> (r: String)
    requires
        total > 0 ==> current_idx + 1 <= usize::MAX,
    ensures
        r@ == search_counter_spec(current_idx, total, query@),
{
    if total > 0 {
        let mut v = chars_of(usize_to_string(current_idx + 1).as_str());
        extend_chars(&mut v, &chars_of(" / "));
        extend_chars(&mut v, &chars_of(usize_to_string(total).as_str()));
        string_of(&v)
    } else if !trim(query).as_str().is_empty() {
        "0 matches".to_string()
    } else {
        String::new()
    }
}

/// A page counted from 1 between two pieces of text, as in `Page 3` or
/// `Loading Page 3...`.
pub fn numbered_label(prefix: &str, page_index: usize, suffix: &str) -> (r: String)
    requires
        page_index + 1 <= usize::MAX,
    ensures
        r@ == prefix@ + decimal((page_index + 1) as nat) + suffix@,
{
    let mut v = chars_of(prefix);
    extend_chars(&mut v, &chars_of(usize_to_string(page_index + 1).as_str()));
    extend_chars(&mut v, &chars_of(suffix));
    string_of(&v)
}

/// The page count beside the page box: ` / ` and the count, at least 1.
pub fn page_count_label(page_count: usize) -> (r: String)
    ensures
        r@ == " / "@ + decimal((if page_count >= 1 { page_count } else { 1 }) as nat),
{
    let shown = if page_count >= 1 { page_count } else { 1 };
    let mut v = chars_of(" / ");
    extend_chars(&mut v, &chars_of(usize_to_string(shown).as_str()));
    string_of(&v)
}

/// The page the toolbar's forward button goes to: the next page, not past
/// the last.
pub fn toolbar_next_page(current: usize, page_count: usize) -> (r: usize)
    requires
        current + 1 <= usize::MAX,
    ensures
        r == (if current + 1 <= sat_sub(page_count as int, 1) { current + 1 } else { sat_sub(page_count as int, 1) }),
{
    let last = page_count.saturating_sub(1);
    if current + 1 <= last {
        current + 1
    } else {
        last
    }
}

/// The page the toolbar's back button goes to: the previous page, not
/// before the first.
pub fn toolbar_prev_page(current: usize) -> (r: usize)
    ensures
        r == sat_sub(current as int, 1),
{
    current.saturating_sub(1)
}

/// The toolbar's labels for the page layout, the scrolling mode, the side
/// panel, the theme and the night filter.
pub fn layout_label(layout: PageLayout) -> (r: &'static str)
    ensures
        r@ == (match layout {
            PageLayout::Single => "Single"@,
            PageLayout::Double => "Double"@,
        }),
{
    match layout {
        PageLayout::Single => "Single",
        PageLayout::Double => "Double",
    }
}

/// The label of the scrolling-mode button.
pub fn continuous_label(is_continuous: bool) -> (r: &'static str)
    ensures
        r@ == (if is_continuous { "Continuous"@ } else { "Paginated"@ }),
{
    if is_continuous {
        "Continuous"
    } else {
        "Paginated"
    }
}

/// The label of the side-panel button.
pub fn side_panel_label(is_open: bool) -> (r: &'static str)
    ensures
        r@ == (if is_open { "Panel [x]"@ } else { "Panel [|]"@ }),
{
    if is_open {
        "Panel [x]"
    } else {
        "Panel [|]"
    }
}

/// The label of the theme button.
pub fn theme_label(theme: ThemeMode) -> (r: &'static str)
    ensures
        r@ == (match theme {
            ThemeMode::Light => "☀️ Light"@,
            ThemeMode::Dark => "🌓 Dark"@,
        }),
{
    match theme {
        ThemeMode::Light => "☀️ Light",
        ThemeMode::Dark => "🌓 Dark",
    }
}

/// The label of the night-filter button.
pub fn night_label(is_night_mode: bool) -> (r: &'static str)
    ensures
        r@ == (if is_night_mode { "🌙 Night: ON"@ } else { "☀️ Night: OFF"@ }),
{
    if is_night_mode {
        "🌙 Night: ON"
    } else {
        "☀️ Night: OFF"
    }
}

/// The colour family of a tab's file-type badge.
#[derive(Clone, Copy, PartialEq, Eq, Structural, Debug)]
pub enum BadgeKind {
    Pdf,
    Ebook,
    Word,
    DjVu,
    Comic,
    Other,
}

/// The badge family of an upper-cased file extension.
pub open spec fn badge_kind_spec(ext: Seq<char>) -> BadgeKind {
    if ext == "PDF"@ {
        BadgeKind::Pdf
    } else if ext == "EPUB"@ || ext == "MOBI"@ || ext == "FB2"@ {
        BadgeKind::Ebook
    } else if ext == "DOCX"@ {
        BadgeKind::Word
    } else if ext == "DJVU"@ {
        BadgeKind::DjVu
    } else if ext == "CBZ"@ || ext == "CBR"@ {
        BadgeKind::Comic
    } else {
        BadgeKind::Other
    }
}

/// Picks the badge family of an upper-cased file extension.
pub fn badge_kind(ext: &str) -> (r: BadgeKind)
    ensures
        r == badge_kind_spec(ext@),
{
    if crate::text::str_eq(ext, "PDF") {
        BadgeKind::Pdf
    } else if crate::text::str_eq(ext, "EPUB") || crate::text::str_eq(ext, "MOBI") || crate::text::str_eq(ext, "FB2") {
        BadgeKind::Ebook
    } else if crate::text::str_eq(ext, "DOCX") {
        BadgeKind::Word
    } else if crate::text::str_eq(ext, "DJVU") {
        BadgeKind::DjVu
    } else if crate::text::str_eq(ext, "CBZ") || crate::text::str_eq(ext, "CBR") {
        BadgeKind::Comic
    } else {
        BadgeKind::Other
    }
}

/// The text of an extension badge: the extension, cut to its first four
/// bytes when it is longer.
pub fn badge_text(ext: &str) -> (r: &str)
    requires
        ext.spec_bytes().len() <= usize::MAX,
        ext.spec_bytes().len() > 4 ==> is_char_boundary(ext.spec_bytes(), 4),
    ensures
        ext.spec_bytes().len() <= 4 ==> r@ == ext@,
        ext.spec_bytes().len() > 4 ==> r.spec_bytes() == ext.spec_bytes().subrange(0, 4),
{
    if ext.len() > 4 {
        ext.split_at(4).0
    } else {
        ext
    }
}

/// The title a tab shows: titles longer than 22 bytes keep their first 20
/// bytes and end in an ellipsis.
pub fn tab_title_text(title: &str) -> (r: String)
    requires
        title.spec_bytes().len() <= usize::MAX,
        title.spec_bytes().len() > 22 ==> is_char_boundary(title.spec_bytes(), 20),
    ensures
        title.spec_bytes().len() <= 22 ==> r@ == title@,
        title.spec_bytes().len() > 22 ==> r@.len() > 0 && r@.last() == '…'
            && encode_utf8(r@.drop_last()) == title.spec_bytes().subrange(0, 20),
{
    if title.len() > 22 {
        let head = title.split_at(20).0;
        let mut r = head.to_string();
        r.append("…");
        proof {
            reveal_strlit("…");
            assert(r@.drop_last() =~= head@);
        }
        r
    } else {
        title.to_string()
    }
}

} // verus!
