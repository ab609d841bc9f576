use vstd::prelude::*;
use crate::navigation::{PageNav, next_page_spec, prev_page_spec};
use crate::session::Action;
use crate::tabs::TabStrip;

verus! {

/// What a shortcut asks the reader to do next.
#[derive(Clone, Copy, Debug, PartialEq, Eq, Structural)]
pub enum Command {
    Nothing,
    OpenFile,
    ToggleFullscreen,
    ToggleTabBar,
    ToggleSidePanel(usize),
    SelectTab(usize),
    ZoomIn(usize),
    ZoomOut(usize),
    ChangePage(usize, usize),
    TogglePageLayout(usize),
    ToggleContinuous(usize),
    ToggleTheme,
    ToggleNightMode,
    CopySelectedText,
    ToggleSearch,
    OpenSettings,
    CloseTab(usize),
}

/// The command for an action. `active_nav` is the page position of the
/// active tab when that tab is open. Tab commands need an active tab; zoom
/// and page commands need it open as well.
pub open spec fn action_command_spec(
    action: Action,
    active: Option<usize>,
    next_tab: Option<usize>,
    prev_tab: Option<usize>,
    active_nav: Option<(usize, usize, crate::session::PageLayout)>,
) -> Command {
    match action {
        Action::OpenFile => Command::OpenFile,
        Action::ToggleFullscreen => Command::ToggleFullscreen,
        Action::ToggleTabBar => Command::ToggleTabBar,
        Action::ToggleTheme => Command::ToggleTheme,
        Action::ToggleNightMode => Command::ToggleNightMode,
        Action::CopySelectedText => Command::CopySelectedText,
        Action::OpenSearch => Command::ToggleSearch,
        Action::OpenSettings => Command::OpenSettings,
        Action::NextTab => match next_tab {
            Some(id) => Command::SelectTab(id),
            None => Command::Nothing,
        },
        Action::PrevTab => match prev_tab {
            Some(id) => Command::SelectTab(id),
            None => Command::Nothing,
        },
        Action::ToggleSidePanel => match active {
            Some(id) => Command::ToggleSidePanel(id),
            None => Command::Nothing,
        },
        Action::TogglePageLayout => match active {
            Some(id) => Command::TogglePageLayout(id),
            None => Command::Nothing,
        },
        Action::ToggleContinuous => match active {
            Some(id) => Command::ToggleContinuous(id),
            None => Command::Nothing,
        },
        Action::CloseActiveTab => match active {
            Some(id) => Command::CloseTab(id),
            None => Command::Nothing,
        },
        Action::ZoomIn => match (active, active_nav) {
            (Some(id), Some(_)) => Command::ZoomIn(id),
            _ => Command::Nothing,
        },
        Action::ZoomOut => match (active, active_nav) {
            (Some(id), Some(_)) => Command::ZoomOut(id),
            _ => Command::Nothing,
        },
        Action::NextPage => match (active, active_nav) {
            (Some(id), Some(n)) => Command::ChangePage(id, next_page_spec(n.1, n.0, n.2)),
            _ => Command::Nothing,
        },
        Action::PrevPage => match (active, active_nav) {
            (Some(id), Some(n)) => Command::ChangePage(id, prev_page_spec(n.1, n.2)),
            _ => Command::Nothing,
        },
    }
}

/// With tab `pos` of the strip active, the next-tab command selects the tab
/// after it and the previous-tab command the tab before it, both wrapping
/// round; so moving to the next tab and back lands on the tab one left.
pub proof fn tab_commands_follow_strip_order<T>(
    strip: &TabStrip<T>,
    pos: int,
    nav: Option<(usize, usize, crate::session::PageLayout)>,
)
    requires
        strip.wf(),
        0 <= pos < strip.ids().len(),
        strip.active() == Some(strip.ids()[pos]),
    ensures
        action_command_spec(Action::NextTab, strip.active(), strip.spec_next_tab(), strip.spec_prev_tab(), nav)
            == Command::SelectTab(strip.ids()[(pos + 1) % (strip.ids().len() as int)]),
        action_command_spec(Action::PrevTab, strip.active(), strip.spec_next_tab(), strip.spec_prev_tab(), nav)
            == Command::SelectTab(strip.ids()[(pos + strip.ids().len() - 1) % (strip.ids().len() as int)]),
{
    strip.lemma_ids_distinct();
    let ids = strip.ids();
    let a = ids[pos];
    assert(ids.contains(a));
    let k = ids.index_of(a);
    assert(0 <= k < ids.len() && ids[k] == a);
    assert(k == pos);
}

/// The page count, current page and layout of a position.
pub open spec fn nav_summary(nav: Option<&PageNav>) -> Option<(usize, usize, crate::session::PageLayout)> {
    match nav {
        Some(n) => Some((n.page_count, n.current_page, n.layout)),
        None => None,
    }
}

/// The command a triggered action leads to.
pub fn action_command<T>(action: Action, strip: &TabStrip<T>, active_nav: Option<&PageNav>) -> (r: Command)
    requires
        strip.wf(),
        active_nav matches Some(n) ==> n.current_page + 2 <= usize::MAX,
    ensures
        r == action_command_spec(action, strip.active(), strip.spec_next_tab(), strip.spec_prev_tab(), nav_summary(active_nav)),
        forall|pos: int| 0 <= pos < strip.ids().len() && strip.active() == Some(#[trigger] strip.ids()[pos]) ==> {
            &&& action == Action::NextTab ==> r == Command::SelectTab(strip.ids()[(pos + 1) % (strip.ids().len() as int)])
            &&& action == Action::PrevTab ==> r == Command::SelectTab(
                strip.ids()[(pos + strip.ids().len() - 1) % (strip.ids().len() as int)])
        },
{
    proof {
        assert forall|pos: int| 0 <= pos < strip.ids().len() && strip.active() == Some(#[trigger] strip.ids()[pos]) implies
            action_command_spec(Action::NextTab, strip.active(), strip.spec_next_tab(), strip.spec_prev_tab(), nav_summary(active_nav))
                == Command::SelectTab(strip.ids()[(pos + 1) % (strip.ids().len() as int)])
            && action_command_spec(Action::PrevTab, strip.active(), strip.spec_next_tab(), strip.spec_prev_tab(), nav_summary(active_nav))
                == Command::SelectTab(strip.ids()[(pos + strip.ids().len() - 1) % (strip.ids().len() as int)]) by {
            tab_commands_follow_strip_order(strip, pos, nav_summary(active_nav));
        }
    }
    let active = strip.active_tab_id();
    match action {
        Action::OpenFile => Command::OpenFile,
        Action::ToggleFullscreen => Command::ToggleFullscreen,
        Action::ToggleTabBar => Command::ToggleTabBar,
        Action::ToggleTheme => Command::ToggleTheme,
        Action::ToggleNightMode => Command::ToggleNightMode,
        Action::CopySelectedText => Command::CopySelectedText,
        Action::OpenSearch => Command::ToggleSearch,
        Action::OpenSettings => Command::OpenSettings,
        Action::NextTab => match strip.next_tab() {
            Some(id) => Command::SelectTab(id),
            None => Command::Nothing,
        },
        Action::PrevTab => match strip.prev_tab() {
            Some(id) => Command::SelectTab(id),
            None => Command::Nothing,
        },
        Action::ToggleSidePanel => match active {
            Some(id) => Command::ToggleSidePanel(id),
            None => Command::Nothing,
        },
        Action::TogglePageLayout => match active {
            Some(id) => Command::TogglePageLayout(id),
            None => Command::Nothing,
        },
        Action::ToggleContinuous => match active {
            Some(id) => Command::ToggleContinuous(id),
            None => Command::Nothing,
        },
        Action::CloseActiveTab => match active {
            Some(id) => Command::CloseTab(id),
            None => Command::Nothing,
        },
        Action::ZoomIn => match (active, active_nav) {
            (Some(id), Some(_)) => Command::ZoomIn(id),
            _ => Command::Nothing,
        },
        Action::ZoomOut => match (active, active_nav) {
            (Some(id), Some(_)) => Command::ZoomOut(id),
            _ => Command::Nothing,
        },
        Action::NextPage => match (active, active_nav) {
            (Some(id), Some(n)) => Command::ChangePage(id, n.next_page_target()),
            _ => Command::Nothing,
        },
        Action::PrevPage => match (active, active_nav) {
            (Some(id), Some(n)) => Command::ChangePage(id, n.prev_page_target()),
            _ => Command::Nothing,
        },
    }
}

} // verus!
