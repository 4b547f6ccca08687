use con_workspace::keys::{
    palette_action, pane_scope_picker_key, workspace_shortcut, Modifiers, PaletteAction,
    ScopeKey, Shortcut,
};

const NONE: Modifiers = Modifiers { control: false, alt: false, shift: false, platform: false };

fn mods(control: bool, alt: bool, shift: bool, platform: bool) -> Modifiers {
    Modifiers { control, alt, shift, platform }
}

#[test]
fn scope_picker_keys() {
    assert_eq!(pane_scope_picker_key(true, "escape", NONE), Some(ScopeKey::Close));
    assert_eq!(pane_scope_picker_key(true, "escape", mods(true, false, false, false)), Some(ScopeKey::Close));
    assert_eq!(pane_scope_picker_key(true, "A", mods(false, false, true, false)), Some(ScopeKey::Broadcast));
    assert_eq!(pane_scope_picker_key(true, "f", NONE), Some(ScopeKey::Focused));
    assert_eq!(pane_scope_picker_key(true, "f", mods(true, false, false, false)), None);
    assert_eq!(pane_scope_picker_key(true, "1", NONE), Some(ScopeKey::TogglePane(0)));
    assert_eq!(pane_scope_picker_key(true, "9", NONE), Some(ScopeKey::TogglePane(8)));
    assert_eq!(pane_scope_picker_key(true, "0", NONE), Some(ScopeKey::TogglePane(9)));
    assert_eq!(pane_scope_picker_key(true, "3", mods(false, false, true, false)), None);
    assert_eq!(pane_scope_picker_key(true, "x", NONE), None);
    assert_eq!(pane_scope_picker_key(false, "escape", NONE), None);
}

#[test]
fn workspace_fallback_shortcuts() {
    let cmd = mods(false, false, false, true);
    let cmd_shift = mods(false, false, true, true);
    assert_eq!(workspace_shortcut(false, false, true, "`", cmd), Some(Shortcut::NextWindow));
    assert_eq!(workspace_shortcut(false, false, true, "`", cmd_shift), Some(Shortcut::PreviousWindow));
    assert_eq!(workspace_shortcut(false, false, true, "~", cmd), Some(Shortcut::PreviousWindow));
    assert_eq!(workspace_shortcut(false, false, true, ">", cmd), Some(Shortcut::NextWindow));
    assert_eq!(workspace_shortcut(false, false, false, "`", cmd), None);
    assert_eq!(workspace_shortcut(false, false, false, "[", cmd_shift), Some(Shortcut::PreviousTab));
    assert_eq!(workspace_shortcut(false, false, true, "]", cmd_shift), Some(Shortcut::NextTab));
    assert_eq!(workspace_shortcut(false, false, true, "]", cmd), None);
    assert_eq!(workspace_shortcut(false, true, true, "escape", NONE), Some(Shortcut::CancelRename));
    assert_eq!(workspace_shortcut(false, false, true, "escape", NONE), None);
    assert_eq!(workspace_shortcut(true, true, true, "escape", NONE), None);
}

#[test]
fn palette_ids_name_actions() {
    assert_eq!(palette_action("new-tab"), Some(PaletteAction::NewTab));
    assert_eq!(palette_action("split-left"), Some(PaletteAction::SplitLeft));
    assert_eq!(palette_action("previous-surface"), Some(PaletteAction::PreviousSurface));
    assert_eq!(palette_action("quit"), Some(PaletteAction::Quit));
    assert_eq!(palette_action("bogus"), None);
    assert_eq!(palette_action(""), None);
}
