use vstd::prelude::*;
use crate::session::{Action, KeyBinding, KeyMap, binding_matches, default_binding};
use crate::text::{eq_ignore_ascii_case, eq_ignore_ascii_case_spec, str_eq, to_upper, unicode_upper};

verus! {

/// The named (non-character) keys the shortcut logic tells apart; any other
/// named key is carried by the name its `Debug` form prints.
#[derive(Clone, Debug, PartialEq, Eq)]
pub enum NamedKey {
    Tab,
    ArrowRight,
    ArrowLeft,
    ArrowDown,
    ArrowUp,
    PageUp,
    PageDown,
    Enter,
    Space,
    Escape,
    Backspace,
    F11,
    Control,
    Shift,
    Alt,
    Meta,
    Super,
    Hyper,
    AltGraph,
    Other(String),
}

/// A pressed key: a named key, the characters it produces, or unknown.
#[derive(Clone, Debug, PartialEq, Eq)]
pub enum KeyInput {
    Named(NamedKey),
    Character(String),
    Unidentified,
}

/// The name a named key is stored under in a binding.
pub open spec fn named_label(n: NamedKey) -> Seq<char> {
    match n {
        NamedKey::Tab => "Tab"@,
        NamedKey::ArrowRight => "Right"@,
        NamedKey::ArrowLeft => "Left"@,
        NamedKey::ArrowDown => "Down"@,
        NamedKey::ArrowUp => "Up"@,
        NamedKey::PageUp => "PageUp"@,
        NamedKey::PageDown => "PageDown"@,
        NamedKey::Enter => "Enter"@,
        NamedKey::Space => "Space"@,
        NamedKey::Escape => "Escape"@,
        NamedKey::Backspace => "Backspace"@,
        NamedKey::F11 => "F11"@,
        NamedKey::Control => "Control"@,
        NamedKey::Shift => "Shift"@,
        NamedKey::Alt => "Alt"@,
        NamedKey::Meta => "Meta"@,
        NamedKey::Super => "Super"@,
        NamedKey::Hyper => "Hyper"@,
        NamedKey::AltGraph => "AltGraph"@,
        NamedKey::Other(s) => s@,
    }
}

/// The name a key is stored under in a binding: "=", "-" and "," become
/// "Equal", "Minus" and "Comma", other characters are upper-cased.
pub open spec fn key_label(k: KeyInput) -> Seq<char> {
    match k {
        KeyInput::Named(n) => named_label(n),
        KeyInput::Character(c) => if c@ == "="@ {
            "Equal"@
        } else if c@ == "-"@ {
            "Minus"@
        } else if c@ == ","@ {
            "Comma"@
        } else {
            unicode_upper(c@)
        },
        KeyInput::Unidentified => "Unknown"@,
    }
}

/// A key that only modifies others: the modifier named keys, or characters
/// spelling a modifier's name in any ASCII case.
pub open spec fn spec_is_modifier_key(k: KeyInput) -> bool {
    match k {
        KeyInput::Named(n) => match n {
            NamedKey::Control | NamedKey::Shift | NamedKey::Alt | NamedKey::Meta | NamedKey::Super
            | NamedKey::Hyper | NamedKey::AltGraph => true,
            _ => false,
        },
        KeyInput::Character(c) => {
            ||| eq_ignore_ascii_case_spec(c@, "control"@)
            ||| eq_ignore_ascii_case_spec(c@, "shift"@)
            ||| eq_ignore_ascii_case_spec(c@, "alt"@)
            ||| eq_ignore_ascii_case_spec(c@, "meta"@)
            ||| eq_ignore_ascii_case_spec(c@, "super"@)
        },
        KeyInput::Unidentified => false,
    }
}

/// Whether a key is a modifier on its own (Ctrl, Shift, Alt, Meta, Super,
/// Hyper, AltGr, or a character key named like one of them).
pub fn is_modifier_key(key: &KeyInput) -> (r: bool)
    ensures
        r == spec_is_modifier_key(*key),
{
    match key {
        KeyInput::Named(n) => match n {
            NamedKey::Control | NamedKey::Shift | NamedKey::Alt | NamedKey::Meta | NamedKey::Super
            | NamedKey::Hyper | NamedKey::AltGraph => true,
            _ => false,
        },
        KeyInput::Character(c) => {
            let s = c.as_str();
            eq_ignore_ascii_case(s, "control") || eq_ignore_ascii_case(s, "shift")
                || eq_ignore_ascii_case(s, "alt") || eq_ignore_ascii_case(s, "meta")
                || eq_ignore_ascii_case(s, "super")
        },
        KeyInput::Unidentified => false,
    }
}

fn named_key_to_string(n: &NamedKey) -> (r: String)
    ensures
        r@ == named_label(*n),
{
    match n {
        NamedKey::Tab => "Tab".to_string(),
        NamedKey::ArrowRight => "Right".to_string(),
        NamedKey::ArrowLeft => "Left".to_string(),
        NamedKey::ArrowDown => "Down".to_string(),
        NamedKey::ArrowUp => "Up".to_string(),
        NamedKey::PageUp => "PageUp".to_string(),
        NamedKey::PageDown => "PageDown".to_string(),
        NamedKey::Enter => "Enter".to_string(),
        NamedKey::Space => "Space".to_string(),
        NamedKey::Escape => "Escape".to_string(),
        NamedKey::Backspace => "Backspace".to_string(),
        NamedKey::F11 => "F11".to_string(),
        NamedKey::Control => "Control".to_string(),
        NamedKey::Shift => "Shift".to_string(),
        NamedKey::Alt => "Alt".to_string(),
        NamedKey::Meta => "Meta".to_string(),
        NamedKey::Super => "Super".to_string(),
        NamedKey::Hyper => "Hyper".to_string(),
        NamedKey::AltGraph => "AltGraph".to_string(),
        NamedKey::Other(s) => s.clone(),
    }
}

/// The name a key is stored under in a binding: named keys by their label,
/// `=`, `-` and `,` as `Equal`, `Minus` and `Comma`, other characters
/// upper-cased.
pub fn key_to_string(key: &KeyInput) -> (r: String)
    ensures
        r@ == key_label(*key),
        *key == KeyInput::Named(NamedKey::ArrowUp) ==> r@ == "Up"@,
        *key == KeyInput::Named(NamedKey::ArrowDown) ==> r@ == "Down"@,
        *key == KeyInput::Named(NamedKey::ArrowLeft) ==> r@ == "Left"@,
        *key == KeyInput::Named(NamedKey::ArrowRight) ==> r@ == "Right"@,
{
    broadcast use vstd::string::group_string_axioms;
    match key {
        KeyInput::Named(n) => named_key_to_string(n),
        KeyInput::Character(c) => {
            let s = c.as_str();
            if str_eq(s, "=") {
                "Equal".to_string()
            } else if str_eq(s, "-") {
                "Minus".to_string()
            } else if str_eq(s, ",") {
                "Comma".to_string()
            } else {
                to_upper(s)
            }
        },
        KeyInput::Unidentified => "Unknown".to_string(),
    }
}

/// The named key pressed for an action's default shortcut, where the
/// shortcut is on a named key: the Up and Down arrows turn pages, Tab
/// switches tabs and F11 toggles full screen.
pub open spec fn default_named_key(a: Action) -> Option<NamedKey> {
    match a {
        Action::PrevPage => Some(NamedKey::ArrowUp),
        Action::NextPage => Some(NamedKey::ArrowDown),
        Action::NextTab => Some(NamedKey::Tab),
        Action::PrevTab => Some(NamedKey::Tab),
        Action::ToggleFullscreen => Some(NamedKey::F11),
        _ => None,
    }
}

/// Every default shortcut on a named key is reached by pressing that key
/// with the shortcut's modifiers: the key is stored under the very name the
/// binding holds. The four arrows are named Up, Down, Left and Right.
pub proof fn default_named_keys_reach_their_bindings(a: Action)
    ensures
        default_named_key(a) matches Some(n) ==> binding_matches(
            default_binding(a),
            key_label(KeyInput::Named(n)),
            default_binding(a).1,
            default_binding(a).2,
            default_binding(a).3,
        ),
        key_label(KeyInput::Named(NamedKey::ArrowUp)) == "Up"@,
        key_label(KeyInput::Named(NamedKey::ArrowDown)) == "Down"@,
        key_label(KeyInput::Named(NamedKey::ArrowLeft)) == "Left"@,
        key_label(KeyInput::Named(NamedKey::ArrowRight)) == "Right"@,
{
}

/// What a key press led to.
#[derive(Clone, Copy, Debug, PartialEq, Eq, Structural)]
pub enum KeyOutcome {
    /// Escape pressed while waiting for a new shortcut: waiting stops.
    RemapCancelled,
    /// A lone modifier pressed while waiting for a new shortcut.
    Ignored,
    /// The awaited shortcut was recorded for this action.
    Rebound(Action),
    /// This action's shortcut was pressed.
    Triggered(Action),
    /// No shortcut matches the key.
    Unmatched,
}

/// Handles a key press: while an action awaits a new shortcut, Escape
/// cancels, a lone modifier is ignored (the action keeps waiting) and any
/// other key becomes the action's binding; otherwise the key runs the action it is bound to.
pub fn on_key_pressed(
    remapping: &mut Option<Action>,
    keymap: &mut KeyMap,
    key: &KeyInput,
    ctrl: bool,
    shift: bool,
    alt: bool,
) -> (r: KeyOutcome)
    requires
        old(keymap).wf(),
    ensures
        final(keymap).wf(),
        match *old(remapping) {
            Some(a) => {
                if *key == KeyInput::Named(NamedKey::Escape) {
                    r == KeyOutcome::RemapCancelled && final(keymap)@ == old(keymap)@
                        && *final(remapping) == None::<Action>
                } else if spec_is_modifier_key(*key) {
                    r == KeyOutcome::Ignored && final(keymap)@ == old(keymap)@
                        && *final(remapping) == Some(a)
                } else {
                    *final(remapping) == None::<Action>
                    && r == KeyOutcome::Rebound(a) && final(keymap)@ == old(keymap)@.insert(
                        a,
                        (key_label(*key), ctrl, shift, alt),
                    )
                }
            },
            None => {
                &&& *final(remapping) == None::<Action>
                &&& final(keymap)@ == old(keymap)@
                &&& match r {
                    KeyOutcome::Triggered(a) => old(keymap)@.contains_key(a) && binding_matches(
                        old(keymap)@[a],
                        key_label(*key),
                        ctrl,
                        shift,
                        alt,
                    ),
                    KeyOutcome::Unmatched => forall|a: Action| #[trigger] old(keymap)@.contains_key(a)
                        ==> !binding_matches(old(keymap)@[a], key_label(*key), ctrl, shift, alt),
                    _ => false,
                }
            },
        },
{
    match *remapping {
        Some(action) => {
            if let KeyInput::Named(NamedKey::Escape) = key {
                *remapping = None;
                return KeyOutcome::RemapCancelled;
            }
            if is_modifier_key(key) {
                return KeyOutcome::Ignored;
            }
            let label = key_to_string(key);
            keymap.insert(action, KeyBinding { key: label, ctrl, shift, alt });
            *remapping = None;
            KeyOutcome::Rebound(action)
        },
        None => {
            let label = key_to_string(key);
            match keymap.find_action(label.as_str(), ctrl, shift, alt) {
                Some(a) => KeyOutcome::Triggered(a),
                None => KeyOutcome::Unmatched,
            }
        },
    }
}

} // verus!
