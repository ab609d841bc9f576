use vstd::prelude::*;
use crate::render::RenderQuality;
use crate::session::PageLayout;
use crate::text::{decimal, parse_usize, parse_usize_spec, trim, trimmed, usize_to_string,
    is_digit, lemma_decimal_parses, lemma_trim_digits};

verus! {

/// The quality a page this far from the current one is prefetched at in
/// continuous scrolling.
pub open spec fn quality_for_distance(d: int) -> RenderQuality {
    if d <= 1 {
        RenderQuality::High
    } else if d <= 3 {
        RenderQuality::Draft
    } else {
        RenderQuality::Fuzzy
    }
}

/// The distance between two integers.
pub open spec fn abs_diff(a: int, b: int) -> int {
    if a >= b { a - b } else { b - a }
}

/// First page of the continuous-scrolling window: two pages back, or 0.
pub open spec fn window_start(current: usize) -> int {
    if current >= 2 { current - 2 } else { 0 }
}

/// End (exclusive) of the continuous-scrolling window: six pages ahead,
/// but not past the document.
pub open spec fn window_end(current: usize, total: usize) -> int {
    if current + 6 <= total { current + 6 } else { total as int }
}

/// Continuous scrolling: the pages from two behind to five ahead of the
/// current one, in order, each at the quality its distance calls for.
pub open spec fn continuous_requests(current: usize, total: usize) -> Seq<(usize, RenderQuality)> {
    let start = window_start(current);
    let end = window_end(current, total);
    Seq::new(
        if end > start { (end - start) as nat } else { 0 },
        |i: int| ((start + i) as usize, quality_for_distance(abs_diff(start + i, current as int))),
    )
}

/// The request for page `p` at quality `q` when `c` holds, else none.
pub open spec fn one_if(c: bool, p: int, q: RenderQuality) -> Seq<(usize, RenderQuality)> {
    if c { seq![(p as usize, q)] } else { Seq::empty() }
}

/// Facing pages: the current page and the next three at full quality, the
/// two after at draft, and the two before at draft when there are two.
pub open spec fn double_requests(current: usize, total: usize) -> Seq<(usize, RenderQuality)> {
    seq![(current, RenderQuality::High)]
        + one_if(current + 1 < total, current + 1, RenderQuality::High)
        + one_if(current + 2 < total, current + 2, RenderQuality::High)
        + one_if(current + 3 < total, current + 3, RenderQuality::High)
        + one_if(current + 4 < total, current + 4, RenderQuality::Draft)
        + one_if(current + 5 < total, current + 5, RenderQuality::Draft)
        + (if current >= 2 {
            seq![((current - 2) as usize, RenderQuality::Draft), ((current - 1) as usize, RenderQuality::Draft)]
        } else {
            Seq::empty()
        })
}

/// Single page: the current page and the next at full quality, the two
/// after at draft, then the previous and the one before it at draft.
pub open spec fn single_requests(current: usize, total: usize) -> Seq<(usize, RenderQuality)> {
    seq![(current, RenderQuality::High)]
        + one_if(current + 1 < total, current + 1, RenderQuality::High)
        + one_if(current + 2 < total, current + 2, RenderQuality::Draft)
        + one_if(current + 3 < total, current + 3, RenderQuality::Draft)
        + one_if(current > 0, current - 1, RenderQuality::Draft)
        + one_if(current > 1, current - 2, RenderQuality::Draft)
}

/// The pages to have rendered, with their qualities, in request order.
pub open spec fn prefetch_requests(current: usize, total: usize, layout: PageLayout, continuous: bool) -> Seq<(usize, RenderQuality)> {
    if total == 0 {
        Seq::empty()
    } else if continuous {
        continuous_requests(current, total)
    } else if layout == PageLayout::Double {
        double_requests(current, total)
    } else {
        single_requests(current, total)
    }
}

/// The largest offset ahead of the current page that the prefetch looks at.
pub open spec fn lookahead(layout: PageLayout, continuous: bool) -> int {
    if continuous { 6 } else if layout == PageLayout::Double { 5 } else { 3 }
}

/// The position of a tab in its document, the text of its page box, and
/// how pages are laid out.
#[derive(Debug)]
pub struct PageNav {
    pub page_count: usize,
    pub current_page: usize,
    pub page_input_text: String,
    pub layout: PageLayout,
    pub is_continuous: bool,
}

/// `a - b`, or 0 when `b` is larger.
pub open spec fn sat_sub(a: int, b: int) -> int {
    if a >= b { a - b } else { 0 }
}

/// The page a submitted page box leads to: the typed page number, counted
/// from 1, clamped into the document; the current page when the text is not
/// a number.
pub open spec fn submitted_page(text: Seq<char>, current: usize, count: usize) -> usize {
    match parse_usize_spec(trimmed(text)) {
        Some(n) => {
            let t = sat_sub(n as int, 1);
            if t < count - 1 { t as usize } else { (count - 1) as usize }
        },
        None => current,
    }
}

/// The page one step forward: two pages in the facing view, one otherwise,
/// but not past the last page.
pub open spec fn next_page_spec(current: usize, count: usize, layout: PageLayout) -> usize {
    let t = current + layout.spec_step();
    let last = sat_sub(count as int, 1);
    if t < last { t as usize } else { last as usize }
}

/// The page one step back, not before the first page.
pub open spec fn prev_page_spec(current: usize, layout: PageLayout) -> usize {
    sat_sub(current as int, layout.spec_step() as int) as usize
}

impl PageNav {
    pub open spec fn spec_required_pages_with_quality(&self) -> Seq<(usize, RenderQuality)> {
        prefetch_requests(self.current_page, self.page_count, self.layout, self.is_continuous)
    }

    /// The prefetch list: pages around the current one, each with the
    /// quality it should be rendered at.
    pub fn required_pages_with_quality(&self) -> (r: Vec<(usize, RenderQuality)>)
        requires
            self.current_page + lookahead(self.layout, self.is_continuous) <= usize::MAX,
        ensures
            r@ == self.spec_required_pages_with_quality(),
    {
        let total = self.page_count;
        let cur = self.current_page;
        let mut requests: Vec<(usize, RenderQuality)> = Vec::new();
        if total == 0 {
            assert(requests@ =~= self.spec_required_pages_with_quality());
            return requests;
        }
        if self.is_continuous {
            let start = if cur >= 2 { cur - 2 } else { 0 };
            let end = if cur + 6 <= total { cur + 6 } else { total };
            let mut p = start;
            while p < end
                invariant
                    start == window_start(cur),
                    end == window_end(cur, total),
                    start <= p,
                    p <= end || p == start,
                    requests@ =~= continuous_requests(cur, total).take(p - start),
                decreases end - p,
            {
                let dist = if p >= cur { p - cur } else { cur - p };
                let quality = if dist <= 1 {
                    RenderQuality::High
                } else if dist <= 3 {
                    RenderQuality::Draft
                } else {
                    RenderQuality::Fuzzy
                };
                requests.push((p, quality));
                p = p + 1;
            }
            proof {
                let full = continuous_requests(cur, total);
                if end > start {
                    assert(p == end);
                    assert(full.len() == end - start);
                    assert(full.take(p - start) =~= full);
                    assert(requests@ =~= full);
                } else {
                    assert(full.len() == 0);
                    assert(requests@ =~= full);
                }
            }
            assert(requests@ =~= continuous_requests(cur, total));
        } else if self.layout == PageLayout::Double {
            requests.push((cur, RenderQuality::High));
            if cur + 1 < total {
                requests.push((cur + 1, RenderQuality::High));
            }
            if cur + 2 < total {
                requests.push((cur + 2, RenderQuality::High));
            }
            if cur + 3 < total {
                requests.push((cur + 3, RenderQuality::High));
            }
            if cur + 4 < total {
                requests.push((cur + 4, RenderQuality::Draft));
            }
            if cur + 5 < total {
                requests.push((cur + 5, RenderQuality::Draft));
            }
            if cur >= 2 {
                requests.push((cur - 2, RenderQuality::Draft));
                requests.push((cur - 1, RenderQuality::Draft));
            }
            assert(requests@ =~= double_requests(cur, total));
        } else {
            requests.push((cur, RenderQuality::High));
            if cur + 1 < total {
                requests.push((cur + 1, RenderQuality::High));
            }
            if cur + 2 < total {
                requests.push((cur + 2, RenderQuality::Draft));
            }
            if cur + 3 < total {
                requests.push((cur + 3, RenderQuality::Draft));
            }
            if cur > 0 {
                requests.push((cur - 1, RenderQuality::Draft));
            }
            if cur > 1 {
                requests.push((cur - 2, RenderQuality::Draft));
            }
            assert(requests@ =~= single_requests(cur, total));
        }
        requests
    }

    /// The prefetch list without the qualities.
    pub fn required_pages(&self) -> (r: Vec<usize>)
        requires
            self.current_page + lookahead(self.layout, self.is_continuous) <= usize::MAX,
        ensures
            r@ == self.spec_required_pages_with_quality().map_values(|e: (usize, RenderQuality)| e.0),
    {
        let reqs = self.required_pages_with_quality();
        let mut pages: Vec<usize> = Vec::new();
        let mut i: usize = 0;
        while i < reqs.len()
            invariant
                i <= reqs@.len(),
                pages@ =~= reqs@.take(i as int).map_values(|e: (usize, RenderQuality)| e.0),
            decreases reqs@.len() - i,
        {
            pages.push(reqs[i].0);
            i = i + 1;
        }
        assert(reqs@.take(reqs@.len() as int) =~= reqs@);
        pages
    }
}


/// No page is requested twice in one prefetch list.
pub proof fn prefetch_pages_distinct(current: usize, total: usize, layout: PageLayout, continuous: bool)
    requires
        current + lookahead(layout, continuous) <= usize::MAX,
    ensures
        forall|i: int, j: int|
            0 <= i < j < prefetch_requests(current, total, layout, continuous).len()
                ==> #[trigger] prefetch_requests(current, total, layout, continuous)[i].0
                != #[trigger] prefetch_requests(current, total, layout, continuous)[j].0,
{
    let r = prefetch_requests(current, total, layout, continuous);
    if total == 0 {
    } else if continuous {
    } else if layout == PageLayout::Double {
        assert forall|i: int, j: int| 0 <= i < j < r.len() implies #[trigger] r[i].0 != #[trigger] r[j].0 by {
        }
    } else {
        assert forall|i: int, j: int| 0 <= i < j < r.len() implies #[trigger] r[i].0 != #[trigger] r[j].0 by {
        }
    }
}

/// When the current page lies in the document, every requested page does.
pub proof fn prefetch_pages_in_document(current: usize, total: usize, layout: PageLayout, continuous: bool)
    requires
        current < total,
        current + lookahead(layout, continuous) <= usize::MAX,
    ensures
        forall|i: int| 0 <= i < prefetch_requests(current, total, layout, continuous).len()
            ==> #[trigger] prefetch_requests(current, total, layout, continuous)[i].0 < total,
{
}

/// The current page is always requested at full quality.
pub proof fn prefetch_current_page_high(current: usize, total: usize, layout: PageLayout, continuous: bool)
    requires
        current < total,
        current + lookahead(layout, continuous) <= usize::MAX,
    ensures
        prefetch_requests(current, total, layout, continuous).contains((current, RenderQuality::High)),
{
    let r = prefetch_requests(current, total, layout, continuous);
    if continuous {
        let k = current - window_start(current);
        assert(r[k] == (current, RenderQuality::High));
    } else {
        assert(r[0] == (current, RenderQuality::High));
    }
}

/// In the facing-pages view both pages on screen are requested at full
/// quality.
pub proof fn double_view_facing_pages_high(current: usize, total: usize)
    requires
        current + 1 < total,
        current + 5 <= usize::MAX,
    ensures
        prefetch_requests(current, total, PageLayout::Double, false).contains((current, RenderQuality::High)),
        prefetch_requests(current, total, PageLayout::Double, false).contains(((current + 1) as usize, RenderQuality::High)),
{
    let r = prefetch_requests(current, total, PageLayout::Double, false);
    assert(r[0] == (current, RenderQuality::High));
    assert(r[1] == ((current + 1) as usize, RenderQuality::High));
}

/// In continuous scrolling a page nearer the current one is never requested
/// at a coarser quality than a page farther away.
pub proof fn continuous_quality_falls_with_distance(current: usize, total: usize, i: int, j: int)
    requires
        current + 6 <= usize::MAX,
        total > 0,
        0 <= i < prefetch_requests(current, total, PageLayout::Single, true).len(),
        0 <= j < prefetch_requests(current, total, PageLayout::Single, true).len(),
        abs_diff(prefetch_requests(current, total, PageLayout::Single, true)[i].0 as int, current as int)
            <= abs_diff(prefetch_requests(current, total, PageLayout::Single, true)[j].0 as int, current as int),
    ensures
        prefetch_requests(current, total, PageLayout::Single, true)[i].1.spec_rank()
            >= prefetch_requests(current, total, PageLayout::Single, true)[j].1.spec_rank(),
{
}


impl PageNav {
    /// A tab opened at `current_page`; its page box shows the page number
    /// counted from 1.
    pub fn new(page_count: usize, current_page: usize, layout: PageLayout, is_continuous: bool) -> (r: PageNav)
        requires
            current_page < usize::MAX,
        ensures
            r.page_count == page_count,
            r.current_page == current_page,
            r.page_input_text@ == decimal(current_page as nat + 1),
            r.layout == layout,
            r.is_continuous == is_continuous,
    {
        PageNav {
            page_count,
            current_page,
            page_input_text: usize_to_string(current_page + 1),
            layout,
            is_continuous,
        }
    }

    /// Moves to `page` and shows its number, counted from 1, in the page box.
    pub fn go_to_page(&mut self, page: usize)
        requires
            page < usize::MAX,
        ensures
            final(self).current_page == page,
            final(self).page_input_text@ == decimal(page as nat + 1),
            final(self).page_count == old(self).page_count,
            final(self).layout == old(self).layout,
            final(self).is_continuous == old(self).is_continuous,
    {
        self.current_page = page;
        self.page_input_text = usize_to_string(page + 1);
    }

    /// Handles Enter in the page box. With an empty document the box is
    /// reset to "1" and nothing moves (returns false); otherwise the tab
    /// moves to `submitted_page` (returns true).
    pub fn submit_page_input(&mut self) -> (moved: bool)
        requires
            old(self).current_page < usize::MAX,
        ensures
            moved == (old(self).page_count > 0),
            final(self).page_count == old(self).page_count,
            final(self).layout == old(self).layout,
            final(self).is_continuous == old(self).is_continuous,
            !moved ==> final(self).current_page == old(self).current_page
                && final(self).page_input_text@ == "1"@,
            moved ==> {
                let t = submitted_page(old(self).page_input_text@, old(self).current_page, old(self).page_count);
                &&& final(self).current_page == t
                &&& final(self).page_input_text@ == decimal(t as nat + 1)
            },
    {
        let count = self.page_count;
        if count == 0 {
            self.page_input_text = "1".to_string();
            return false;
        }
        let text = trim(self.page_input_text.as_str());
        let target = match parse_usize(text.as_str()) {
            Some(n) => {
                let t = if n >= 1 { n - 1 } else { 0 };
                if t < count - 1 { t } else { count - 1 }
            },
            None => self.current_page,
        };
        self.go_to_page(target);
        true
    }

    /// Where one step forward goes.
    pub fn next_page_target(&self) -> (r: usize)
        requires
            self.current_page + 2 <= usize::MAX,
        ensures
            r == next_page_spec(self.current_page, self.page_count, self.layout),
    {
        let step = self.layout.step();
        let last = if self.page_count >= 1 { self.page_count - 1 } else { 0 };
        let t = self.current_page + step;
        if t < last { t } else { last }
    }

    /// Where one step back goes.
    pub fn prev_page_target(&self) -> (r: usize)
        ensures
            r == prev_page_spec(self.current_page, self.layout),
    {
        let step = self.layout.step();
        if self.current_page >= step { self.current_page - step } else { 0 }
    }

    /// Switches between single and facing pages.
    pub fn toggle_layout(&mut self)
        ensures
            final(self).layout == old(self).layout.spec_toggled(),
            final(self).current_page == old(self).current_page,
            final(self).page_count == old(self).page_count,
            final(self).is_continuous == old(self).is_continuous,
            final(self).page_input_text == old(self).page_input_text,
    {
        self.layout = self.layout.toggled();
    }

    /// Switches continuous scrolling on or off.
    pub fn toggle_continuous(&mut self)
        ensures
            final(self).is_continuous == !old(self).is_continuous,
            final(self).layout == old(self).layout,
            final(self).current_page == old(self).current_page,
            final(self).page_count == old(self).page_count,
            final(self).page_input_text == old(self).page_input_text,
    {
        self.is_continuous = !self.is_continuous;
    }

    /// Follows the viewport in continuous scrolling: the page under the
    /// viewport becomes current, except at the very top while past the first
    /// page, or for a jump of more than one page while zooming. Returns
    /// whether the current page changed.
    pub fn follow_scroll(&mut self, at_top: bool, scrolled_page: usize, is_zooming: bool) -> (changed: bool)
        requires
            scrolled_page < usize::MAX,
        ensures
            changed == (!(at_top && old(self).current_page > 0) && old(self).is_continuous
                && !(is_zooming && abs_diff(scrolled_page as int, old(self).current_page as int) > 1)
                && old(self).current_page != scrolled_page),
            changed ==> final(self).current_page == scrolled_page
                && final(self).page_input_text@ == decimal(scrolled_page as nat + 1),
            !changed ==> final(self).current_page == old(self).current_page
                && final(self).page_input_text == old(self).page_input_text,
            final(self).page_count == old(self).page_count,
            final(self).layout == old(self).layout,
            final(self).is_continuous == old(self).is_continuous,
    {
        if at_top && self.current_page > 0 {
            return false;
        }
        if !self.is_continuous {
            return false;
        }
        let diff = if scrolled_page >= self.current_page {
            scrolled_page - self.current_page
        } else {
            self.current_page - scrolled_page
        };
        if is_zooming && diff > 1 {
            return false;
        }
        if self.current_page != scrolled_page {
            self.go_to_page(scrolled_page);
            true
        } else {
            false
        }
    }
}

/// A submitted page number, once parsed, always lands inside the document.
pub proof fn submitted_page_in_document(text: Seq<char>, current: usize, count: usize)
    requires
        count > 0,
        parse_usize_spec(trimmed(text)) is Some || current < count,
    ensures
        submitted_page(text, current, count) < count,
{
}

/// Submitting the page box unchanged, as it shows page `p` counted from 1,
/// stays on page `p`.
pub proof fn submit_shown_page_stays(p: usize, current: usize, count: usize)
    requires
        p < count,
    ensures
        submitted_page(decimal(p as nat + 1), current, count) == p,
{
    let s = decimal(p as nat + 1);
    lemma_decimal_parses(p as nat + 1);
    lemma_trim_digits(s);
    assert(s[0] != '+') by {
        assert(is_digit(s[0]));
    }
    assert(crate::text::unsigned_body(s) == s);
}

/// How long scrolling or zooming must rest, in milliseconds, before the
/// draft renders are upgraded to full quality.
pub const SETTLE_DELAY_MS: u64 = 180;

/// A counter that lets only the last of a burst of events through: each
/// event takes a ticket, and a settle signal counts only with the newest.
#[derive(Debug)]
pub struct Debouncer {
    pub sequence: usize,
}

impl Debouncer {
    pub fn new() -> (r: Debouncer)
        ensures
            r.sequence == 0,
    {
        Debouncer { sequence: 0 }
    }

    /// A new event: returns its ticket.
    pub fn bump(&mut self) -> (ticket: usize)
        requires
            old(self).sequence < usize::MAX,
        ensures
            ticket == old(self).sequence + 1,
            final(self).sequence == ticket,
    {
        self.sequence = self.sequence + 1;
        self.sequence
    }

    /// Whether the settle signal for `ticket` is the newest one.
    pub fn is_settled(&self, ticket: usize) -> (r: bool)
        ensures
            r == (ticket == self.sequence),
    {
        self.sequence == ticket
    }
}

} // verus!
