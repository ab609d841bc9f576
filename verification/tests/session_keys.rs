use verseapp::keys::{is_modifier_key, key_to_string, on_key_pressed, KeyInput, KeyOutcome, NamedKey};
use verseapp::session::{remap_prompt, Action, KeyBinding, KeyMap, PageLayout, SidePanelTab, ThemeMode};

const ALL_ACTIONS: [Action; 18] = [
    Action::ZoomIn,
    Action::ZoomOut,
    Action::NextPage,
    Action::PrevPage,
    Action::ToggleTheme,
    Action::ToggleNightMode,
    Action::CopySelectedText,
    Action::OpenSearch,
    Action::OpenSettings,
    Action::CloseActiveTab,
    Action::TogglePageLayout,
    Action::ToggleContinuous,
    Action::OpenFile,
    Action::NextTab,
    Action::PrevTab,
    Action::ToggleFullscreen,
    Action::ToggleTabBar,
    Action::ToggleSidePanel,
];

#[test]
fn display_names_of_actions() {
    assert_eq!(Action::ZoomIn.display_name(), "Zoom In");
    assert_eq!(Action::PrevPage.display_name(), "Previous Page");
    assert_eq!(Action::ToggleTheme.display_name(), "Toggle UI Theme (Light / Dark)");
    assert_eq!(Action::ToggleContinuous.display_name(), "Toggle Continuous Scrolling (Ctrl+Shift+C)");
    assert_eq!(Action::ToggleSidePanel.display_name(), "Toggle Navigation Panel (Ctrl+N)");
}

#[test]
fn binding_display_orders_modifiers() {
    assert_eq!(KeyBinding::new("N", true, true, false).to_display_string(), "Ctrl + Shift + N");
    assert_eq!(KeyBinding::new("F11", false, false, false).to_display_string(), "F11");
    assert_eq!(KeyBinding::new("Tab", true, true, true).to_display_string(), "Ctrl + Alt + Shift + Tab");
    assert_eq!(KeyBinding::new("X", false, false, true).to_display_string(), "Alt + X");
}

#[test]
fn binding_new_keeps_fields() {
    let b = KeyBinding::new("Comma", true, false, true);
    assert_eq!(b.key, "Comma");
    assert!(b.ctrl && !b.shift && b.alt);
}

#[test]
fn toggles_undo_themselves() {
    assert_eq!(PageLayout::Single.toggled(), PageLayout::Double);
    assert_eq!(PageLayout::Single.toggled().toggled(), PageLayout::Single);
    assert_eq!(ThemeMode::Dark.toggled(), ThemeMode::Light);
    assert_eq!(ThemeMode::Light.toggled().toggled(), ThemeMode::Light);
    assert_eq!(PageLayout::Double.step(), 2);
    assert_eq!(PageLayout::Single.step(), 1);
}

#[test]
fn default_keymap_binds_every_action() {
    let m = KeyMap::default_bindings();
    assert_eq!(m.len(), 18);
    for a in ALL_ACTIONS {
        assert!(m.get(a).is_some());
    }
    assert_eq!(m.get(Action::OpenFile), Some(&KeyBinding::new("O", true, false, false)));
    assert_eq!(m.get(Action::PrevTab), Some(&KeyBinding::new("Tab", true, true, false)));
    assert_eq!(m.get(Action::OpenSettings), Some(&KeyBinding::new("Comma", true, false, false)));
}

#[test]
fn find_action_needs_exact_modifiers() {
    let m = KeyMap::default_bindings();
    assert_eq!(m.find_action("N", true, false, false), Some(Action::ToggleSidePanel));
    assert_eq!(m.find_action("N", true, true, false), Some(Action::ToggleNightMode));
    assert_eq!(m.find_action("n", true, true, false), Some(Action::ToggleNightMode));
    assert_eq!(m.find_action("N", false, false, false), None);
    assert_eq!(m.find_action("Down", false, false, false), Some(Action::NextPage));
    assert_eq!(m.find_action("Q", true, false, false), None);
}

#[test]
fn merge_keeps_user_binding_and_fills_missing() {
    let mut user = KeyMap::new();
    user.insert(Action::ZoomIn, KeyBinding::new("P", false, false, true));
    user.merge_missing(&KeyMap::default_bindings());
    assert_eq!(user.len(), 18);
    assert_eq!(user.get(Action::ZoomIn), Some(&KeyBinding::new("P", false, false, true)));
    assert_eq!(user.get(Action::ZoomOut), Some(&KeyBinding::new("Minus", true, false, false)));
}

#[test]
fn rebinding_replaces_lookup() {
    let mut m = KeyMap::default_bindings();
    m.insert(Action::NextPage, KeyBinding::new("J", false, false, false));
    assert_eq!(m.get(Action::NextPage), Some(&KeyBinding::new("J", false, false, false)));
    assert_eq!(m.get(Action::PrevPage), Some(&KeyBinding::new("Up", false, false, false)));
    assert_eq!(m.len(), 18);
    assert_eq!(m.find_action("Down", false, false, false), None);
}

#[test]
fn side_panel_tabs_compare() {
    assert_ne!(SidePanelTab::TableOfContents, SidePanelTab::Thumbnails);
}

#[test]
fn modifier_keys_are_recognised() {
    assert!(is_modifier_key(&KeyInput::Named(NamedKey::Control)));
    assert!(is_modifier_key(&KeyInput::Named(NamedKey::AltGraph)));
    assert!(is_modifier_key(&KeyInput::Character("SHIFT".to_string())));
    assert!(is_modifier_key(&KeyInput::Character("Super".to_string())));
    assert!(!is_modifier_key(&KeyInput::Character("s".to_string())));
    assert!(!is_modifier_key(&KeyInput::Named(NamedKey::Tab)));
    assert!(!is_modifier_key(&KeyInput::Unidentified));
}

#[test]
fn key_names() {
    assert_eq!(key_to_string(&KeyInput::Named(NamedKey::ArrowDown)), "Down");
    assert_eq!(key_to_string(&KeyInput::Named(NamedKey::F11)), "F11");
    assert_eq!(key_to_string(&KeyInput::Named(NamedKey::Other("F5".to_string()))), "F5");
    assert_eq!(key_to_string(&KeyInput::Character("=".to_string())), "Equal");
    assert_eq!(key_to_string(&KeyInput::Character("-".to_string())), "Minus");
    assert_eq!(key_to_string(&KeyInput::Character(",".to_string())), "Comma");
    assert_eq!(key_to_string(&KeyInput::Character("o".to_string())), "O");
    assert_eq!(key_to_string(&KeyInput::Character("ß".to_string())), "SS");
    assert_eq!(key_to_string(&KeyInput::Unidentified), "Unknown");
}

#[test]
fn pressing_a_shortcut_triggers_its_action() {
    let mut remap: Option<Action> = None;
    let mut m = KeyMap::default_bindings();
    let r = on_key_pressed(&mut remap, &mut m, &KeyInput::Character("w".to_string()), true, false, false);
    assert_eq!(r, KeyOutcome::Triggered(Action::CloseActiveTab));
    let r = on_key_pressed(&mut remap, &mut m, &KeyInput::Character("=".to_string()), true, false, false);
    assert_eq!(r, KeyOutcome::Triggered(Action::ZoomIn));
    let r = on_key_pressed(&mut remap, &mut m, &KeyInput::Character("w".to_string()), false, false, false);
    assert_eq!(r, KeyOutcome::Unmatched);
    assert_eq!(remap, None);
}

#[test]
fn remapping_records_next_key() {
    let mut remap = Some(Action::ZoomIn);
    let mut m = KeyMap::default_bindings();
    let r = on_key_pressed(&mut remap, &mut m, &KeyInput::Named(NamedKey::Control), true, false, false);
    assert_eq!(r, KeyOutcome::Ignored);
    assert_eq!(remap, Some(Action::ZoomIn));
    let r = on_key_pressed(&mut remap, &mut m, &KeyInput::Character("k".to_string()), true, false, false);
    assert_eq!(r, KeyOutcome::Rebound(Action::ZoomIn));
    assert_eq!(remap, None);
    assert_eq!(m.get(Action::ZoomIn), Some(&KeyBinding::new("K", true, false, false)));
    let r = on_key_pressed(&mut remap, &mut m, &KeyInput::Character("K".to_string()), true, false, false);
    assert_eq!(r, KeyOutcome::Triggered(Action::ZoomIn));
}

#[test]
fn escape_cancels_remapping() {
    let mut remap = Some(Action::OpenFile);
    let mut m = KeyMap::default_bindings();
    let r = on_key_pressed(&mut remap, &mut m, &KeyInput::Named(NamedKey::Escape), false, false, false);
    assert_eq!(r, KeyOutcome::RemapCancelled);
    assert_eq!(remap, None);
    assert_eq!(m.get(Action::OpenFile), Some(&KeyBinding::new("O", true, false, false)));
}

#[test]
fn every_action_has_its_own_label() {
    for (i, a) in ALL_ACTIONS.iter().enumerate() {
        assert!(!a.display_name().is_empty());
        for b in ALL_ACTIONS.iter().skip(i + 1) {
            assert_ne!(a.display_name(), b.display_name());
        }
    }
}

#[test]
fn remap_prompt_shows_held_modifiers() {
    assert_eq!(remap_prompt(false, false, false), "Press new key...");
    assert_eq!(remap_prompt(true, true, false), "Ctrl + Shift + ...");
    assert_eq!(remap_prompt(true, true, true), "Ctrl + Alt + Shift + ...");
    assert_eq!(remap_prompt(false, false, true), "Alt + ...");
}

#[test]
fn action_numbers_round_trip() {
    for (i, a) in ALL_ACTIONS.iter().enumerate() {
        assert_eq!(a.code() as usize, i);
        assert_eq!(Action::from_code(a.code()), Some(*a));
    }
    assert_eq!(Action::from_code(18), None);
    let m = KeyMap::default_bindings();
    let listed = m.bindings();
    assert_eq!(listed.len(), 18);
    for a in ALL_ACTIONS.iter() {
        assert_eq!(listed.iter().filter(|(b, _)| b == a).count(), 1);
    }
}
