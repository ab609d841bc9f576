use vstd::prelude::*;
use crate::text::{chars_of, eq_ignore_ascii_case, eq_ignore_ascii_case_spec};
use std::collections::HashMap;
use vstd::std_specs::hash::spec_keys_iter;
use vstd::std_specs::iter::IteratorSpec;

verus! {

broadcast use {vstd::string::group_string_axioms, vstd::std_specs::hash::group_hash_axioms};

/// The two pages of the navigation side panel.
#[derive(Clone, Copy, PartialEq, Eq, Structural, Debug, Hash)]
pub enum SidePanelTab {
    TableOfContents,
    Thumbnails,
}

/// Every command a keyboard shortcut can trigger.
#[derive(Clone, Copy, PartialEq, Eq, Structural, Debug, Hash)]
pub enum Action {
    ZoomIn,
    ZoomOut,
    NextPage,
    PrevPage,
    ToggleTheme,
    ToggleNightMode,
    CopySelectedText,
    OpenSearch,
    OpenSettings,
    CloseActiveTab,
    TogglePageLayout,
    ToggleContinuous,
    OpenFile,
    NextTab,
    PrevTab,
    ToggleFullscreen,
    ToggleTabBar,
    ToggleSidePanel,
}

impl Action {
    /// The label shown for the action in the settings panel.
    pub open spec fn spec_display_name(self) -> Seq<char> {
        match self {
            Action::ZoomIn => "Zoom In"@,
            Action::ZoomOut => "Zoom Out"@,
            Action::NextPage => "Next Page"@,
            Action::PrevPage => "Previous Page"@,
            Action::ToggleTheme => "Toggle UI Theme (Light / Dark)"@,
            Action::ToggleNightMode => "Toggle Page Night Mode (ON / OFF)"@,
            Action::CopySelectedText => "Copy Selected Text (Ctrl+C)"@,
            Action::OpenSearch => "Search Document (Ctrl+F)"@,
            Action::OpenSettings => "Open Settings"@,
            Action::CloseActiveTab => "Close Active Tab"@,
            Action::TogglePageLayout => "Toggle Single/Double View"@,
            Action::ToggleContinuous => "Toggle Continuous Scrolling (Ctrl+Shift+C)"@,
            Action::OpenFile => "Open File"@,
            Action::NextTab => "Next Tab (Ctrl+Tab)"@,
            Action::PrevTab => "Previous Tab (Ctrl+Shift+Tab)"@,
            Action::ToggleFullscreen => "Toggle Full Screen (F11)"@,
            Action::ToggleTabBar => "Toggle Tab Bar (Ctrl+B)"@,
            Action::ToggleSidePanel => "Toggle Navigation Panel (Ctrl+N)"@,
        }
    }

    pub fn display_name(&self) -> (r: &'static str)
        ensures
            r@ == self.spec_display_name(),
    {
        match self {
            Action::ZoomIn => "Zoom In",
            Action::ZoomOut => "Zoom Out",
            Action::NextPage => "Next Page",
            Action::PrevPage => "Previous Page",
            Action::ToggleTheme => "Toggle UI Theme (Light / Dark)",
            Action::ToggleNightMode => "Toggle Page Night Mode (ON / OFF)",
            Action::CopySelectedText => "Copy Selected Text (Ctrl+C)",
            Action::OpenSearch => "Search Document (Ctrl+F)",
            Action::OpenSettings => "Open Settings",
            Action::CloseActiveTab => "Close Active Tab",
            Action::TogglePageLayout => "Toggle Single/Double View",
            Action::ToggleContinuous => "Toggle Continuous Scrolling (Ctrl+Shift+C)",
            Action::OpenFile => "Open File",
            Action::NextTab => "Next Tab (Ctrl+Tab)",
            Action::PrevTab => "Previous Tab (Ctrl+Shift+Tab)",
            Action::ToggleFullscreen => "Toggle Full Screen (F11)",
            Action::ToggleTabBar => "Toggle Tab Bar (Ctrl+B)",
            Action::ToggleSidePanel => "Toggle Navigation Panel (Ctrl+N)",
        }
    }
}

/// Every action has a label of its own in the settings panel, and no label
/// is empty.
pub proof fn action_labels_distinct(a: Action, b: Action)
    ensures
        a.spec_display_name().len() > 0,
        a != b ==> a.spec_display_name() != b.spec_display_name(),
{
    reveal_strlit("Zoom In");
    reveal_strlit("Zoom Out");
    reveal_strlit("Next Page");
    reveal_strlit("Previous Page");
    reveal_strlit("Toggle UI Theme (Light / Dark)");
    reveal_strlit("Toggle Page Night Mode (ON / OFF)");
    reveal_strlit("Copy Selected Text (Ctrl+C)");
    reveal_strlit("Search Document (Ctrl+F)");
    reveal_strlit("Open Settings");
    reveal_strlit("Close Active Tab");
    reveal_strlit("Toggle Single/Double View");
    reveal_strlit("Toggle Continuous Scrolling (Ctrl+Shift+C)");
    reveal_strlit("Open File");
    reveal_strlit("Next Tab (Ctrl+Tab)");
    reveal_strlit("Previous Tab (Ctrl+Shift+Tab)");
    reveal_strlit("Toggle Full Screen (F11)");
    reveal_strlit("Toggle Tab Bar (Ctrl+B)");
    reveal_strlit("Toggle Navigation Panel (Ctrl+N)");
    if a != b && a.spec_display_name() == b.spec_display_name() {
        assert(a.spec_display_name().len() == b.spec_display_name().len());
        assert(a.spec_display_name()[0] == b.spec_display_name()[0]);
    }
}

/// A keyboard shortcut: a key name and the modifiers held with it.
#[derive(Clone, Debug, PartialEq, Eq)]
pub struct KeyBinding {
    pub key: String,
    pub ctrl: bool,
    pub shift: bool,
    pub alt: bool,
}

/// A binding as plain values: key characters, ctrl, shift, alt.
pub type BindingView = (Seq<char>, bool, bool, bool);

impl View for KeyBinding {
    type V = BindingView;

    open spec fn view(&self) -> BindingView {
        (self.key@, self.ctrl, self.shift, self.alt)
    }
}

/// "Ctrl + ", "Alt + " and "Shift + " for the modifiers held, in that order,
/// followed by the key.
pub open spec fn binding_display(b: BindingView) -> Seq<char> {
    (if b.1 { "Ctrl + "@ } else { Seq::empty() })
        + (if b.3 { "Alt + "@ } else { Seq::empty() })
        + (if b.2 { "Shift + "@ } else { Seq::empty() })
        + b.0
}

/// What a shortcut's button shows while it waits for the new key: the
/// modifiers held so far, as in `Ctrl + Shift + ...`, or a prompt while
/// none is held.
pub open spec fn remap_prompt_spec(ctrl: bool, shift: bool, alt: bool) -> Seq<char> {
    if ctrl || shift || alt {
        binding_display(("..."@, ctrl, shift, alt))
    } else {
        "Press new key..."@
    }
}

/// The text of a shortcut's button while it is being remapped.
pub fn remap_prompt(ctrl: bool, shift: bool, alt: bool) -> (r: String)
    ensures
        r@ == remap_prompt_spec(ctrl, shift, alt),
{
    if ctrl || shift || alt {
        KeyBinding::new("...", ctrl, shift, alt).to_display_string()
    } else {
        "Press new key...".to_string()
    }
}

impl KeyBinding {
    pub fn new(key: &str, ctrl: bool, shift: bool, alt: bool) -> (r: Self)
        ensures
            r@ == (key@, ctrl, shift, alt),
    {
        KeyBinding { key: key.to_string(), ctrl, shift, alt }
    }

    pub fn to_display_string(&self) -> (r: String)
        ensures
            r@ == binding_display(self@),
    {
        let mut s = String::new();
        if self.ctrl {
            s.append("Ctrl + ");
        }
        if self.alt {
            s.append("Alt + ");
        }
        if self.shift {
            s.append("Shift + ");
        }
        s.append(self.key.as_str());
        proof {
            reveal_strlit("Ctrl + ");
            reveal_strlit("Alt + ");
            reveal_strlit("Shift + ");
        }
        assert(s@ =~= binding_display(self@));
        s
    }
}


/// Single page or two facing pages side by side.
#[derive(Clone, Copy, PartialEq, Eq, Structural, Debug, Hash)]
pub enum PageLayout {
    Single,
    Double,
}

impl PageLayout {
    /// The other layout, as the layout toggle switches to.
    pub open spec fn spec_toggled(self) -> PageLayout {
        match self {
            PageLayout::Single => PageLayout::Double,
            PageLayout::Double => PageLayout::Single,
        }
    }

    pub fn toggled(self) -> (r: PageLayout)
        ensures
            r == self.spec_toggled(),
    {
        match self {
            PageLayout::Single => PageLayout::Double,
            PageLayout::Double => PageLayout::Single,
        }
    }

    /// How many pages one step forward or back moves: two in the facing view.
    pub open spec fn spec_step(self) -> usize {
        match self {
            PageLayout::Single => 1,
            PageLayout::Double => 2,
        }
    }

    pub fn step(self) -> (r: usize)
        ensures
            r == self.spec_step(),
    {
        match self {
            PageLayout::Single => 1,
            PageLayout::Double => 2,
        }
    }
}

/// The user interface theme.
#[derive(Clone, Copy, PartialEq, Eq, Structural, Debug, Hash)]
pub enum ThemeMode {
    Light,
    Dark,
}

impl ThemeMode {
    pub open spec fn spec_toggled(self) -> ThemeMode {
        match self {
            ThemeMode::Light => ThemeMode::Dark,
            ThemeMode::Dark => ThemeMode::Light,
        }
    }

    pub fn toggled(self) -> (r: ThemeMode)
        ensures
            r == self.spec_toggled(),
    {
        match self {
            ThemeMode::Light => ThemeMode::Dark,
            ThemeMode::Dark => ThemeMode::Light,
        }
    }
}

/// Toggling the layout twice gives back the layout one started with.
pub proof fn layout_toggle_involutive(l: PageLayout)
    ensures
        l.spec_toggled().spec_toggled() == l,
{
}

/// Toggling the theme twice gives back the theme one started with.
pub proof fn theme_toggle_involutive(t: ThemeMode)
    ensures
        t.spec_toggled().spec_toggled() == t,
{
}

/// The shortcut each action has out of the box.
pub open spec fn default_binding(a: Action) -> BindingView {
    match a {
        Action::OpenFile => ("O"@, true, false, false),
        Action::OpenSearch => ("F"@, true, false, false),
        Action::NextTab => ("Tab"@, true, false, false),
        Action::PrevTab => ("Tab"@, true, true, false),
        Action::CloseActiveTab => ("W"@, true, false, false),
        Action::ToggleTabBar => ("B"@, true, false, false),
        Action::ToggleFullscreen => ("F11"@, false, false, false),
        Action::ToggleSidePanel => ("N"@, true, false, false),
        Action::ToggleNightMode => ("N"@, true, true, false),
        Action::CopySelectedText => ("C"@, true, false, false),
        Action::ZoomIn => ("Equal"@, true, false, false),
        Action::ZoomOut => ("Minus"@, true, false, false),
        Action::NextPage => ("Down"@, false, false, false),
        Action::PrevPage => ("Up"@, false, false, false),
        Action::TogglePageLayout => ("D"@, true, false, false),
        Action::ToggleContinuous => ("C"@, true, true, false),
        Action::ToggleTheme => ("T"@, true, false, false),
        Action::OpenSettings => ("Comma"@, true, false, false),
    }
}

/// A binding fires for a pressed key when the key names agree up to ASCII
/// case and the three modifiers agree exactly.
pub open spec fn binding_matches(b: BindingView, key: Seq<char>, ctrl: bool, shift: bool, alt: bool) -> bool {
    &&& eq_ignore_ascii_case_spec(b.0, key)
    &&& b.1 == ctrl
    &&& b.2 == shift
    &&& b.3 == alt
}

/// The number of each action, in declaration order; a `KeyMap` keys its
/// bindings by it.
impl Action {
    pub open spec fn spec_code(self) -> u8 {
        match self {
            Action::ZoomIn => 0,
            Action::ZoomOut => 1,
            Action::NextPage => 2,
            Action::PrevPage => 3,
            Action::ToggleTheme => 4,
            Action::ToggleNightMode => 5,
            Action::CopySelectedText => 6,
            Action::OpenSearch => 7,
            Action::OpenSettings => 8,
            Action::CloseActiveTab => 9,
            Action::TogglePageLayout => 10,
            Action::ToggleContinuous => 11,
            Action::OpenFile => 12,
            Action::NextTab => 13,
            Action::PrevTab => 14,
            Action::ToggleFullscreen => 15,
            Action::ToggleTabBar => 16,
            Action::ToggleSidePanel => 17,
        }
    }

    pub fn code(self) -> (r: u8)
        ensures
            r == self.spec_code(),
    {
        match self {
            Action::ZoomIn => 0,
            Action::ZoomOut => 1,
            Action::NextPage => 2,
            Action::PrevPage => 3,
            Action::ToggleTheme => 4,
            Action::ToggleNightMode => 5,
            Action::CopySelectedText => 6,
            Action::OpenSearch => 7,
            Action::OpenSettings => 8,
            Action::CloseActiveTab => 9,
            Action::TogglePageLayout => 10,
            Action::ToggleContinuous => 11,
            Action::OpenFile => 12,
            Action::NextTab => 13,
            Action::PrevTab => 14,
            Action::ToggleFullscreen => 15,
            Action::ToggleTabBar => 16,
            Action::ToggleSidePanel => 17,
        }
    }

    /// The action with number `c`, if there is one.
    pub open spec fn spec_from_code(c: u8) -> Option<Action> {
        match c {
            0 => Some(Action::ZoomIn),
            1 => Some(Action::ZoomOut),
            2 => Some(Action::NextPage),
            3 => Some(Action::PrevPage),
            4 => Some(Action::ToggleTheme),
            5 => Some(Action::ToggleNightMode),
            6 => Some(Action::CopySelectedText),
            7 => Some(Action::OpenSearch),
            8 => Some(Action::OpenSettings),
            9 => Some(Action::CloseActiveTab),
            10 => Some(Action::TogglePageLayout),
            11 => Some(Action::ToggleContinuous),
            12 => Some(Action::OpenFile),
            13 => Some(Action::NextTab),
            14 => Some(Action::PrevTab),
            15 => Some(Action::ToggleFullscreen),
            16 => Some(Action::ToggleTabBar),
            17 => Some(Action::ToggleSidePanel),
            _ => None,
        }
    }

    pub fn from_code(c: u8) -> (r: Option<Action>)
        ensures
            r == Action::spec_from_code(c),
    {
        match c {
            0 => Some(Action::ZoomIn),
            1 => Some(Action::ZoomOut),
            2 => Some(Action::NextPage),
            3 => Some(Action::PrevPage),
            4 => Some(Action::ToggleTheme),
            5 => Some(Action::ToggleNightMode),
            6 => Some(Action::CopySelectedText),
            7 => Some(Action::OpenSearch),
            8 => Some(Action::OpenSettings),
            9 => Some(Action::CloseActiveTab),
            10 => Some(Action::TogglePageLayout),
            11 => Some(Action::ToggleContinuous),
            12 => Some(Action::OpenFile),
            13 => Some(Action::NextTab),
            14 => Some(Action::PrevTab),
            15 => Some(Action::ToggleFullscreen),
            16 => Some(Action::ToggleTabBar),
            17 => Some(Action::ToggleSidePanel),
            _ => None,
        }
    }
}

/// Every action is found again from its number, and only numbers of
/// actions name one.
pub proof fn action_code_round_trip(a: Action, c: u8)
    ensures
        Action::spec_from_code(a.spec_code()) == Some(a),
        Action::spec_from_code(c) matches Some(b) ==> b.spec_code() == c,
{
}

/// The action a valid number stands for.
pub open spec fn action_of(c: u8) -> Action {
    Action::spec_from_code(c)->0
}

/// The shortcut table: at most one binding per action, keyed by the
/// action's number.
#[derive(Clone, Debug)]
pub struct KeyMap {
    table: HashMap<u8, KeyBinding>,
}

impl View for KeyMap {
    type V = Map<Action, BindingView>;

    closed spec fn view(&self) -> Map<Action, BindingView> {
        Map::new(
            |a: Action| self.table@.contains_key(a.spec_code()),
            |a: Action| self.table@[a.spec_code()]@,
        )
    }
}

/// The numbers of the actions bound in `table`, each once.
fn codes_of(table: &HashMap<u8, KeyBinding>) -> (r: Vec<u8>)
    ensures
        r@.no_duplicates(),
        r@.to_set() == table@.dom(),
{
    let ghost ks = spec_keys_iter(table).remaining();
    let mut r: Vec<u8> = Vec::new();
    for k in it: table.keys()
        invariant
            it.seq() == ks,
            r@.len() == it.index(),
            forall|i: int| 0 <= i < it.index() ==> r@[i] == *ks[i],
    {
        r.push(*k);
    }
    proof {
        assert(r@ =~= ks.unref());
    }
    r
}

impl KeyMap {
    /// Every key of the table is the number of an action.
    pub closed spec fn wf(&self) -> bool {
        forall|c: u8| #[trigger] self.table@.contains_key(c) ==> Action::spec_from_code(c) is Some
    }

    proof fn lemma_code_key(&self, c: u8)
        requires
            self.wf(),
            self.table@.contains_key(c),
        ensures
            self@.contains_key(action_of(c)),
            action_of(c).spec_code() == c,
            self@[action_of(c)] == self.table@[c]@,
    {
        action_code_round_trip(action_of(c), c);
    }

    pub fn new() -> (r: KeyMap)
        ensures
            r.wf(),
            r@ == Map::<Action, BindingView>::empty(),
    {
        let r = KeyMap { table: HashMap::new() };
        assert(r@ =~= Map::<Action, BindingView>::empty());
        r
    }

    /// The number of bound actions.
    pub fn len(&self) -> (r: usize)
        requires
            self.wf(),
        ensures
            r == self@.len(),
    {
        proof {
            let x = self.table@.dom();
            assert(self@.dom() =~= x.map(|c: u8| action_of(c))) by {
                assert forall|a: Action| self@.dom().contains(a) implies x.map(|c: u8| action_of(c)).contains(a) by {
                    action_code_round_trip(a, a.spec_code());
                    assert(x.contains(a.spec_code()));
                }
                assert forall|a: Action| x.map(|c: u8| action_of(c)).contains(a) implies self@.dom().contains(a) by {
                    let c = choose|c: u8| x.contains(c) && action_of(c) == a;
                    self.lemma_code_key(c);
                }
            }
            assert forall|c1: u8, c2: u8| x.contains(c1) && x.contains(c2) && action_of(c1) == action_of(c2) implies c1 == c2 by {
                self.lemma_code_key(c1);
                self.lemma_code_key(c2);
            }
            assert(vstd::relations::injective_on(|c: u8| action_of(c), x));
            vstd::set_lib::lemma_map_size(x, self@.dom(), |c: u8| action_of(c));
        }
        self.table.len()
    }

    /// The binding of an action, if it has one.
    pub fn get(&self, action: Action) -> (r: Option<&KeyBinding>)
        requires
            self.wf(),
        ensures
            match r {
                Some(b) => self@.contains_key(action) && self@[action] == b@,
                None => !self@.contains_key(action),
            },
    {
        self.table.get(&action.code())
    }

    /// Binds `action` to `binding`, replacing any binding it had.
    pub fn insert(&mut self, action: Action, binding: KeyBinding)
        requires
            old(self).wf(),
        ensures
            final(self).wf(),
            final(self)@ == old(self)@.insert(action, binding@),
    {
        let ghost bv = binding@;
        self.table.insert(action.code(), binding);
        proof {
            action_code_round_trip(action, action.spec_code());
            assert forall|a: Action| #[trigger] self@.contains_key(a) == old(self)@.insert(action, bv).contains_key(a) by {
                action_code_round_trip(a, a.spec_code());
            }
            assert forall|a: Action| self@.contains_key(a) implies #[trigger] self@[a] == old(self)@.insert(action, bv)[a] by {
                action_code_round_trip(a, a.spec_code());
            }
            assert(self@ =~= old(self)@.insert(action, bv));
        }
    }
}

impl KeyBinding {
    /// A copy of the binding with the same key and modifiers.
    pub fn duplicate(&self) -> (r: KeyBinding)
        ensures
            r@ == self@,
    {
        KeyBinding { key: self.key.clone(), ctrl: self.ctrl, shift: self.shift, alt: self.alt }
    }

    /// Whether this binding fires for the pressed key and modifiers.
    pub fn matches(&self, key: &str, ctrl: bool, shift: bool, alt: bool) -> (r: bool)
        ensures
            r == binding_matches(self@, key@, ctrl, shift, alt),
    {
        eq_ignore_ascii_case(self.key.as_str(), key) && self.ctrl == ctrl && self.shift == shift
            && self.alt == alt
    }
}

/// The number of `a` is one of the first `i` of `codes`.
pub open spec fn in_prefix(codes: Seq<u8>, i: int, a: Action) -> bool {
    exists|j: int| 0 <= j < i && codes[j] == a.spec_code()
}

/// The out-of-the-box table: every action bound to its default shortcut.
pub open spec fn default_keymap() -> Map<Action, BindingView> {
    Map::new(|a: Action| true, |a: Action| default_binding(a))
}

impl KeyMap {
    /// The shortcut table a fresh installation starts with.
    pub fn default_bindings() -> (r: KeyMap)
        ensures
            r.wf(),
            r@ == default_keymap(),
    {
        let mut m = KeyMap::new();
        m.insert(Action::OpenFile, KeyBinding::new("O", true, false, false));
        m.insert(Action::OpenSearch, KeyBinding::new("F", true, false, false));
        m.insert(Action::NextTab, KeyBinding::new("Tab", true, false, false));
        m.insert(Action::PrevTab, KeyBinding::new("Tab", true, true, false));
        m.insert(Action::CloseActiveTab, KeyBinding::new("W", true, false, false));
        m.insert(Action::ToggleTabBar, KeyBinding::new("B", true, false, false));
        m.insert(Action::ToggleFullscreen, KeyBinding::new("F11", false, false, false));
        m.insert(Action::ToggleSidePanel, KeyBinding::new("N", true, false, false));
        m.insert(Action::ToggleNightMode, KeyBinding::new("N", true, true, false));
        m.insert(Action::CopySelectedText, KeyBinding::new("C", true, false, false));
        m.insert(Action::ZoomIn, KeyBinding::new("Equal", true, false, false));
        m.insert(Action::ZoomOut, KeyBinding::new("Minus", true, false, false));
        m.insert(Action::NextPage, KeyBinding::new("Down", false, false, false));
        m.insert(Action::PrevPage, KeyBinding::new("Up", false, false, false));
        m.insert(Action::TogglePageLayout, KeyBinding::new("D", true, false, false));
        m.insert(Action::ToggleContinuous, KeyBinding::new("C", true, true, false));
        m.insert(Action::ToggleTheme, KeyBinding::new("T", true, false, false));
        m.insert(Action::OpenSettings, KeyBinding::new("Comma", true, false, false));
        assert(m@ =~= default_keymap());
        m
    }

    /// Adds the bindings of `defaults` for every action that has none yet;
    /// bindings already present are kept.
    pub fn merge_missing(&mut self, defaults: &KeyMap)
        requires
            old(self).wf(),
            defaults.wf(),
        ensures
            final(self).wf(),
            final(self)@ == defaults@.union_prefer_right(old(self)@),
    {
        let codes = codes_of(&defaults.table);
        let mut i: usize = 0;
        while i < codes.len()
            invariant
                self.wf(),
                defaults.wf(),
                codes@.to_set() == defaults.table@.dom(),
                i <= codes@.len(),
                self@ == Map::new(
                    |a: Action| in_prefix(codes@, i as int, a),
                    |a: Action| defaults@[a],
                ).union_prefer_right(old(self)@),
            decreases codes@.len() - i,
        {
            let c = codes[i];
            let ghost before = self@;
            proof {
                assert(codes@.to_set().contains(c));
                defaults.lemma_code_key(c);
            }
            let action = match Action::from_code(c) {
                Some(a) => a,
                None => {
                    proof {
                        assert(false);
                    }
                    return;
                },
            };
            if !self.table.contains_key(&c) {
                let b = match defaults.table.get(&c) {
                    Some(b) => b.duplicate(),
                    None => {
                        proof {
                            assert(false);
                        }
                        return;
                    },
                };
                proof {
                    action_code_round_trip(action, c);
                    assert(b@ == defaults@[action]);
                    assert(!before.contains_key(action));
                }
                self.insert(action, b);
            } else {
                proof {
                    action_code_round_trip(action, c);
                    self.lemma_code_key(c);
                    assert(before.contains_key(action));
                }
            }
            assert(self@ =~= Map::new(
                |a: Action| in_prefix(codes@, i + 1, a),
                |a: Action| defaults@[a],
            ).union_prefer_right(old(self)@)) by {
                assert forall|a: Action| #[trigger] in_prefix(codes@, i + 1, a)
                    <==> (in_prefix(codes@, i as int, a) || a == action) by {
                    action_code_round_trip(a, c);
                    if a == action {
                        assert(codes@[i as int] == a.spec_code());
                    }
                    if in_prefix(codes@, i + 1, a) && a != action {
                        let j = choose|j: int| 0 <= j < i + 1 && codes@[j] == a.spec_code();
                        assert(j < i);
                    }
                }
            }
            i = i + 1;
        }
        assert(self@ =~= defaults@.union_prefer_right(old(self)@)) by {
            assert forall|a: Action| #[trigger] defaults@.contains_key(a) <==> in_prefix(codes@, codes@.len() as int, a) by {
                if defaults@.contains_key(a) {
                    assert(codes@.to_set().contains(a.spec_code()));
                }
            }
        }
    }

    /// The action whose binding fires for the pressed key, if any does.
    pub fn find_action(&self, key: &str, ctrl: bool, shift: bool, alt: bool) -> (r: Option<Action>)
        requires
            self.wf(),
        ensures
            match r {
                Some(a) => self@.contains_key(a) && binding_matches(self@[a], key@, ctrl, shift, alt),
                None => forall|a: Action| #[trigger] self@.contains_key(a)
                    ==> !binding_matches(self@[a], key@, ctrl, shift, alt),
            },
    {
        let codes = codes_of(&self.table);
        let mut i: usize = 0;
        while i < codes.len()
            invariant
                self.wf(),
                codes@.to_set() == self.table@.dom(),
                i <= codes@.len(),
                forall|j: int| 0 <= j < i ==> !binding_matches(#[trigger] self.table@[codes@[j]]@, key@, ctrl, shift, alt),
            decreases codes@.len() - i,
        {
            let c = codes[i];
            proof {
                assert(codes@.to_set().contains(c));
                self.lemma_code_key(c);
            }
            match self.table.get(&c) {
                Some(b) => {
                    if b.matches(key, ctrl, shift, alt) {
                        return Action::from_code(c);
                    }
                },
                None => {},
            }
            i = i + 1;
        }
        proof {
            assert forall|a: Action| #[trigger] self@.contains_key(a) implies !binding_matches(self@[a], key@, ctrl, shift, alt) by {
                assert(codes@.to_set().contains(a.spec_code()));
                let j = choose|j: int| 0 <= j < codes@.len() && codes@[j] == a.spec_code();
                assert(!binding_matches(self.table@[codes@[j]]@, key@, ctrl, shift, alt));
            }
        }
        None
    }

    /// The bindings, one entry per bound action.
    pub fn bindings(&self) -> (r: Vec<(Action, KeyBinding)>)
        requires
            self.wf(),
        ensures
            forall|i: int| 0 <= i < r@.len() ==> #[trigger] self@.contains_key(r@[i].0) && self@[r@[i].0] == r@[i].1@,
            forall|a: Action| #[trigger] self@.contains_key(a) ==> exists|i: int| 0 <= i < r@.len() && r@[i].0 == a,
            forall|i: int, j: int| 0 <= i < r@.len() && 0 <= j < r@.len() && i != j ==> #[trigger] r@[i].0 != #[trigger] r@[j].0,
    {
        let codes = codes_of(&self.table);
        let mut r: Vec<(Action, KeyBinding)> = Vec::new();
        let mut i: usize = 0;
        while i < codes.len()
            invariant
                self.wf(),
                codes@.to_set() == self.table@.dom(),
                codes@.no_duplicates(),
                i <= codes@.len(),
                r@.len() == i,
                forall|j: int| 0 <= j < i ==> (#[trigger] r@[j]).0.spec_code() == codes@[j]
                    && self@.contains_key(r@[j].0) && self@[r@[j].0] == r@[j].1@,
            decreases codes@.len() - i,
        {
            let c = codes[i];
            proof {
                assert(codes@.to_set().contains(c));
                self.lemma_code_key(c);
            }
            match (Action::from_code(c), self.table.get(&c)) {
                (Some(a), Some(b)) => {
                    r.push((a, b.duplicate()));
                },
                _ => {
                    proof {
                        assert(false);
                    }
                },
            }
            i = i + 1;
        }
        proof {
            assert forall|a: Action| #[trigger] self@.contains_key(a) implies exists|k: int| 0 <= k < r@.len() && r@[k].0 == a by {
                assert(codes@.to_set().contains(a.spec_code()));
                let j = choose|j: int| 0 <= j < codes@.len() && codes@[j] == a.spec_code();
                action_code_round_trip(a, a.spec_code());
                action_code_round_trip(r@[j].0, codes@[j]);
                assert(r@[j].0 == a);
            }
            assert forall|p: int, q: int| 0 <= p < r@.len() && 0 <= q < r@.len() && p != q implies #[trigger] r@[p].0 != #[trigger] r@[q].0 by {
                assert(codes@[p] != codes@[q]);
            }
        }
        r
    }
}

/// Every action has a binding in the default table.
pub proof fn default_keymap_is_complete(a: Action)
    ensures
        default_keymap().contains_key(a),
{
}

/// Merging the defaults into a loaded table keeps each binding the user
/// made, and afterwards every action has a binding.
pub proof fn merge_keeps_user_bindings(user: Map<Action, BindingView>, a: Action)
    ensures
        default_keymap().union_prefer_right(user).contains_key(a),
        user.contains_key(a) ==> default_keymap().union_prefer_right(user)[a] == user[a],
        !user.contains_key(a) ==> default_keymap().union_prefer_right(user)[a] == default_binding(a),
{
}

/// A binding read back right after it was set is the one that was set.
pub proof fn rebind_then_lookup(m: Map<Action, BindingView>, a: Action, b: BindingView, other: Action)
    ensures
        m.insert(a, b)[a] == b,
        other != a ==> m.insert(a, b).contains_key(other) == m.contains_key(other),
        other != a && m.contains_key(other) ==> m.insert(a, b)[other] == m[other],
{
}

} // verus!
