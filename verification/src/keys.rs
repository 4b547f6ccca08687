//! What keys and palette entries do: the pane-scope picker's keys, the
//! workspace's fallback shortcuts, and the command palette's action ids.
use vstd::prelude::*;
use crate::text::{chars_eq, chars_of};

verus! {

/// The modifier keys held with a key.
#[derive(Debug, Clone, Copy, PartialEq, Eq)]
pub struct Modifiers {
    pub control: bool,
    pub alt: bool,
    pub shift: bool,
    /// Command on macOS, the Windows key elsewhere.
    pub platform: bool,
}

/// What a key does while the pane-scope picker is open.
#[derive(Debug, Clone, Copy, PartialEq, Eq, Structural)]
pub enum ScopeKey {
    /// Close the picker.
    Close,
    /// Send input to every pane.
    Broadcast,
    /// Send input to the focused pane only.
    Focused,
    /// Toggle the pane at this 0-based position.
    TogglePane(usize),
}

/// The key is this single letter, in either case.
pub open spec fn is_letter_key(key: Seq<char>, lower: char, upper: char) -> bool {
    key.len() == 1 && (key[0] == lower || key[0] == upper)
}

/// The picker's keys: `escape` closes it; `a` and `f` (without control, alt
/// or the platform key) pick all panes or the focused one; a key starting
/// with a digit (also without shift) toggles a pane, `1`..`9` the first to
/// ninth and `0` the tenth. Nothing while the picker is closed.
pub open spec fn scope_key(open: bool, key: Seq<char>, mods: Modifiers) -> Option<ScopeKey> {
    let local = !mods.control && !mods.alt && !mods.platform;
    if !open {
        None
    } else if key == "escape"@ {
        Some(ScopeKey::Close)
    } else if local && is_letter_key(key, 'a', 'A') {
        Some(ScopeKey::Broadcast)
    } else if local && is_letter_key(key, 'f', 'F') {
        Some(ScopeKey::Focused)
    } else if local && !mods.shift && key.len() > 0 && '0' <= key[0] && key[0] <= '9' {
        let d = (key[0] as u32) - ('0' as u32);
        Some(ScopeKey::TogglePane(if d == 0 { 9 } else { (d - 1) as usize }))
    } else {
        None
    }
}

fn is_key(key: &Vec<char>, name: &str) -> (r: bool)
    ensures
        r == (key@ == name@),
{
    let n = chars_of(name);
    chars_eq(key.as_slice(), n.as_slice())
}

/// What `key` does in the pane-scope picker (see [`scope_key`]).
pub fn pane_scope_picker_key(open: bool, key: &str, mods: Modifiers) -> (r: Option<ScopeKey>)
    ensures
        r == scope_key(open, key@, mods),
{
    if !open {
        return None;
    }
    let k = chars_of(key);
    let local = !mods.control && !mods.alt && !mods.platform;
    if is_key(&k, "escape") {
        Some(ScopeKey::Close)
    } else if local && k.len() == 1 && (k[0] == 'a' || k[0] == 'A') {
        Some(ScopeKey::Broadcast)
    } else if local && k.len() == 1 && (k[0] == 'f' || k[0] == 'F') {
        Some(ScopeKey::Focused)
    } else if local && !mods.shift && k.len() > 0 && '0' <= k[0] && k[0] <= '9' {
        let d: u32 = (k[0] as u32) - ('0' as u32);
        Some(ScopeKey::TogglePane(if d == 0 { 9 } else { (d - 1) as usize }))
    } else {
        None
    }
}

/// A workspace shortcut handled when no binding took the key.
#[derive(Debug, Clone, Copy, PartialEq, Eq, Structural)]
pub enum Shortcut {
    /// Leave the surface rename that is in progress.
    CancelRename,
    PreviousWindow,
    NextWindow,
    PreviousTab,
    NextTab,
}

/// The fallback shortcuts: none while a modal overlay is open; `escape`
/// leaves a rename in progress; on macOS, platform + `` ` ``/`~`/`>`/`<`
/// (without control or alt) cycles windows, backwards with shift or on `~`
/// and `<`; platform + shift + `[` or `]` goes to the previous or next tab.
pub open spec fn shortcut(
    modal_open: bool,
    renaming: bool,
    macos: bool,
    key: Seq<char>,
    mods: Modifiers,
) -> Option<Shortcut> {
    if modal_open {
        None
    } else if key == "escape"@ && renaming {
        Some(Shortcut::CancelRename)
    } else if macos && mods.platform && !mods.control && !mods.alt && (key == "`"@ || key == "~"@
        || key == ">"@ || key == "<"@) {
        if mods.shift || key == "~"@ || key == "<"@ {
            Some(Shortcut::PreviousWindow)
        } else {
            Some(Shortcut::NextWindow)
        }
    } else if mods.platform && mods.shift && key == "["@ {
        Some(Shortcut::PreviousTab)
    } else if mods.platform && mods.shift && key == "]"@ {
        Some(Shortcut::NextTab)
    } else {
        None
    }
}

/// The fallback shortcut for `key` (see [`shortcut`]).
pub fn workspace_shortcut(
    modal_open: bool,
    renaming: bool,
    macos: bool,
    key: &str,
    mods: Modifiers,
) -> (r: Option<Shortcut>)
    ensures
        r == shortcut(modal_open, renaming, macos, key@, mods),
{
    if modal_open {
        return None;
    }
    let k = chars_of(key);
    if is_key(&k, "escape") && renaming {
        return Some(Shortcut::CancelRename);
    }
    if macos && mods.platform && !mods.control && !mods.alt && (is_key(&k, "`") || is_key(&k, "~")
        || is_key(&k, ">") || is_key(&k, "<")) {
        if mods.shift || is_key(&k, "~") || is_key(&k, "<") {
            return Some(Shortcut::PreviousWindow);
        } else {
            return Some(Shortcut::NextWindow);
        }
    }
    if mods.platform && mods.shift && is_key(&k, "[") {
        return Some(Shortcut::PreviousTab);
    }
    if mods.platform && mods.shift && is_key(&k, "]") {
        return Some(Shortcut::NextTab);
    }
    None
}

// ── command palette ─────────────────────────────────────────────────────

/// An entry of the command palette.
#[derive(Debug, Clone, Copy, PartialEq, Eq, Structural)]
pub enum PaletteAction {
    NewWindow,
    ToggleAgent,
    Settings,
    NewTab,
    ExportWorkspaceLayout,
    AddWorkspaceLayoutTabs,
    OpenWorkspaceLayoutWindow,
    NextTab,
    PreviousTab,
    CloseTab,
    SplitRight,
    SplitDown,
    SplitLeft,
    SplitUp,
    TogglePaneZoom,
    NewSurface,
    NewSurfaceSplitRight,
    NewSurfaceSplitDown,
    NextSurface,
    PreviousSurface,
    RenameSurface,
    CloseSurface,
    ClearTerminal,
    ClearRestoredTerminalHistory,
    FocusTerminal,
    ToggleInputBar,
    ToggleVerticalTabs,
    CycleInputMode,
    CheckForUpdates,
    Quit,
}

/// The palette's action ids, in the order of [`palette_actions`].
pub open spec fn palette_ids() -> Seq<Seq<char>> {
    seq![
        "new-window"@, "toggle-agent"@, "settings"@, "new-tab"@, "export-workspace-layout"@,
        "add-workspace-layout-tabs"@, "open-workspace-layout-window"@, "next-tab"@,
        "previous-tab"@, "close-tab"@, "split-right"@, "split-down"@, "split-left"@,
        "split-up"@, "toggle-pane-zoom"@, "new-surface"@, "new-surface-split-right"@,
        "new-surface-split-down"@, "next-surface"@, "previous-surface"@, "rename-surface"@,
        "close-surface"@, "clear-terminal"@, "clear-restored-terminal-history"@,
        "focus-terminal"@, "toggle-input-bar"@, "toggle-vertical-tabs"@, "cycle-input-mode"@,
        "check-for-updates"@, "quit"@,
    ]
}

/// The actions the ids of [`palette_ids`] name.
pub open spec fn palette_actions() -> Seq<PaletteAction> {
    seq![
        PaletteAction::NewWindow, PaletteAction::ToggleAgent, PaletteAction::Settings,
        PaletteAction::NewTab, PaletteAction::ExportWorkspaceLayout,
        PaletteAction::AddWorkspaceLayoutTabs, PaletteAction::OpenWorkspaceLayoutWindow,
        PaletteAction::NextTab, PaletteAction::PreviousTab, PaletteAction::CloseTab,
        PaletteAction::SplitRight, PaletteAction::SplitDown, PaletteAction::SplitLeft,
        PaletteAction::SplitUp, PaletteAction::TogglePaneZoom, PaletteAction::NewSurface,
        PaletteAction::NewSurfaceSplitRight, PaletteAction::NewSurfaceSplitDown,
        PaletteAction::NextSurface, PaletteAction::PreviousSurface, PaletteAction::RenameSurface,
        PaletteAction::CloseSurface, PaletteAction::ClearTerminal,
        PaletteAction::ClearRestoredTerminalHistory, PaletteAction::FocusTerminal,
        PaletteAction::ToggleInputBar, PaletteAction::ToggleVerticalTabs,
        PaletteAction::CycleInputMode, PaletteAction::CheckForUpdates, PaletteAction::Quit,
    ]
}

/// The action of the first id at or after `i` that equals `id`.
pub open spec fn palette_lookup_from(id: Seq<char>, i: int) -> Option<PaletteAction>
    decreases palette_ids().len() - i,
{
    if i < 0 || i >= palette_ids().len() {
        None
    } else if palette_ids()[i] == id {
        Some(palette_actions()[i])
    } else {
        palette_lookup_from(id, i + 1)
    }
}

/// The position of each action in the palette's own order.
pub open spec fn action_rank(a: PaletteAction) -> int {
    match a {
        PaletteAction::NewWindow => 0,
        PaletteAction::ToggleAgent => 1,
        PaletteAction::Settings => 2,
        PaletteAction::NewTab => 3,
        PaletteAction::ExportWorkspaceLayout => 4,
        PaletteAction::AddWorkspaceLayoutTabs => 5,
        PaletteAction::OpenWorkspaceLayoutWindow => 6,
        PaletteAction::NextTab => 7,
        PaletteAction::PreviousTab => 8,
        PaletteAction::CloseTab => 9,
        PaletteAction::SplitRight => 10,
        PaletteAction::SplitDown => 11,
        PaletteAction::SplitLeft => 12,
        PaletteAction::SplitUp => 13,
        PaletteAction::TogglePaneZoom => 14,
        PaletteAction::NewSurface => 15,
        PaletteAction::NewSurfaceSplitRight => 16,
        PaletteAction::NewSurfaceSplitDown => 17,
        PaletteAction::NextSurface => 18,
        PaletteAction::PreviousSurface => 19,
        PaletteAction::RenameSurface => 20,
        PaletteAction::CloseSurface => 21,
        PaletteAction::ClearTerminal => 22,
        PaletteAction::ClearRestoredTerminalHistory => 23,
        PaletteAction::FocusTerminal => 24,
        PaletteAction::ToggleInputBar => 25,
        PaletteAction::ToggleVerticalTabs => 26,
        PaletteAction::CycleInputMode => 27,
        PaletteAction::CheckForUpdates => 28,
        PaletteAction::Quit => 29,
    }
}

proof fn lemma_lookup_found(id: Seq<char>, i: int)
    requires
        palette_lookup_from(id, i) is Some,
    ensures
        exists|j: int|
            i <= j < palette_ids().len() && palette_ids()[j] == id && palette_actions()[j]
                == palette_lookup_from(id, i)->0,
    decreases palette_ids().len() - i,
{
    if palette_ids()[i] != id {
        lemma_lookup_found(id, i + 1);
    }
}

/// Distinct palette entries do distinct things: two ids that both name an
/// action and name the same one are the same id. "next-tab" moves to the
/// next tab and "previous-tab" to the previous one.
pub proof fn law_palette_ids_name_distinct_actions(id1: Seq<char>, id2: Seq<char>)
    ensures
        palette_lookup_from(id1, 0) is Some && palette_lookup_from(id1, 0) == palette_lookup_from(id2, 0)
            ==> id1 == id2,
        palette_lookup_from("next-tab"@, 0) == Some(PaletteAction::NextTab),
        palette_lookup_from("previous-tab"@, 0) == Some(PaletteAction::PreviousTab),
{
    let acts = palette_actions();
    assert forall|j: int| 0 <= j < acts.len() implies action_rank(#[trigger] acts[j]) == j by {
        assert(acts[0] == PaletteAction::NewWindow);
        assert(acts[1] == PaletteAction::ToggleAgent);
        assert(acts[29] == PaletteAction::Quit);
    }
    if palette_lookup_from(id1, 0) is Some && palette_lookup_from(id1, 0) == palette_lookup_from(id2, 0) {
        lemma_lookup_found(id1, 0);
        lemma_lookup_found(id2, 0);
        let j1 = choose|j: int|
            0 <= j < palette_ids().len() && palette_ids()[j] == id1 && palette_actions()[j]
                == palette_lookup_from(id1, 0)->0;
        let j2 = choose|j: int|
            0 <= j < palette_ids().len() && palette_ids()[j] == id2 && palette_actions()[j]
                == palette_lookup_from(id2, 0)->0;
        assert(action_rank(acts[j1]) == j1);
        assert(action_rank(acts[j2]) == j2);
    }
    reveal_strlit("new-window");
    reveal_strlit("toggle-agent");
    reveal_strlit("settings");
    reveal_strlit("new-tab");
    reveal_strlit("export-workspace-layout");
    reveal_strlit("add-workspace-layout-tabs");
    reveal_strlit("open-workspace-layout-window");
    reveal_strlit("next-tab");
    reveal_strlit("previous-tab");
    let ids = palette_ids();
    assert(ids[0] == "new-window"@ && ids[1] == "toggle-agent"@ && ids[2] == "settings"@);
    assert(ids[3] == "new-tab"@ && ids[4] == "export-workspace-layout"@);
    assert(ids[5] == "add-workspace-layout-tabs"@ && ids[6] == "open-workspace-layout-window"@);
    assert("next-tab"@[2] == 'x' && "previous-tab"@[0] == 'p');
    assert(ids[0] != "next-tab"@ && ids[1] != "next-tab"@ && ids[2] != "next-tab"@);
    assert(ids[3] != "next-tab"@ && ids[4] != "next-tab"@ && ids[5] != "next-tab"@);
    assert(ids[6] != "next-tab"@);
    assert(ids[7] == "next-tab"@);
    assert(palette_lookup_from("next-tab"@, 7) == Some(PaletteAction::NextTab));
    assert(palette_lookup_from("next-tab"@, 6) == Some(PaletteAction::NextTab));
    assert(palette_lookup_from("next-tab"@, 5) == Some(PaletteAction::NextTab));
    assert(palette_lookup_from("next-tab"@, 4) == Some(PaletteAction::NextTab));
    assert(palette_lookup_from("next-tab"@, 3) == Some(PaletteAction::NextTab));
    assert(palette_lookup_from("next-tab"@, 2) == Some(PaletteAction::NextTab));
    assert(palette_lookup_from("next-tab"@, 1) == Some(PaletteAction::NextTab));
    assert(palette_lookup_from("next-tab"@, 0) == Some(PaletteAction::NextTab));
    assert(ids[0] != "previous-tab"@ && ids[1] != "previous-tab"@ && ids[2] != "previous-tab"@);
    assert(ids[3] != "previous-tab"@ && ids[4] != "previous-tab"@ && ids[5] != "previous-tab"@);
    assert(ids[6] != "previous-tab"@ && ids[7] != "previous-tab"@);
    assert(ids[8] == "previous-tab"@);
    assert(palette_lookup_from("previous-tab"@, 8) == Some(PaletteAction::PreviousTab));
    assert(palette_lookup_from("previous-tab"@, 7) == Some(PaletteAction::PreviousTab));
    assert(palette_lookup_from("previous-tab"@, 6) == Some(PaletteAction::PreviousTab));
    assert(palette_lookup_from("previous-tab"@, 5) == Some(PaletteAction::PreviousTab));
    assert(palette_lookup_from("previous-tab"@, 4) == Some(PaletteAction::PreviousTab));
    assert(palette_lookup_from("previous-tab"@, 3) == Some(PaletteAction::PreviousTab));
    assert(palette_lookup_from("previous-tab"@, 2) == Some(PaletteAction::PreviousTab));
    assert(palette_lookup_from("previous-tab"@, 1) == Some(PaletteAction::PreviousTab));
    assert(palette_lookup_from("previous-tab"@, 0) == Some(PaletteAction::PreviousTab));
}

/// The action a palette entry id names; unknown ids do nothing.
pub fn palette_action(id: &str) -> (r: Option<PaletteAction>)
    ensures
        r == palette_lookup_from(id@, 0),
{
    let ids = vec![
        "new-window", "toggle-agent", "settings", "new-tab", "export-workspace-layout",
        "add-workspace-layout-tabs", "open-workspace-layout-window", "next-tab", "previous-tab",
        "close-tab", "split-right", "split-down", "split-left", "split-up", "toggle-pane-zoom",
        "new-surface", "new-surface-split-right", "new-surface-split-down", "next-surface",
        "previous-surface", "rename-surface", "close-surface", "clear-terminal",
        "clear-restored-terminal-history", "focus-terminal", "toggle-input-bar",
        "toggle-vertical-tabs", "cycle-input-mode", "check-for-updates", "quit",
    ];
    let actions = vec![
        PaletteAction::NewWindow, PaletteAction::ToggleAgent, PaletteAction::Settings,
        PaletteAction::NewTab, PaletteAction::ExportWorkspaceLayout,
        PaletteAction::AddWorkspaceLayoutTabs, PaletteAction::OpenWorkspaceLayoutWindow,
        PaletteAction::NextTab, PaletteAction::PreviousTab, PaletteAction::CloseTab,
        PaletteAction::SplitRight, PaletteAction::SplitDown, PaletteAction::SplitLeft,
        PaletteAction::SplitUp, PaletteAction::TogglePaneZoom, PaletteAction::NewSurface,
        PaletteAction::NewSurfaceSplitRight, PaletteAction::NewSurfaceSplitDown,
        PaletteAction::NextSurface, PaletteAction::PreviousSurface, PaletteAction::RenameSurface,
        PaletteAction::CloseSurface, PaletteAction::ClearTerminal,
        PaletteAction::ClearRestoredTerminalHistory, PaletteAction::FocusTerminal,
        PaletteAction::ToggleInputBar, PaletteAction::ToggleVerticalTabs,
        PaletteAction::CycleInputMode, PaletteAction::CheckForUpdates, PaletteAction::Quit,
    ];
    assert(ids@.map_values(|s: &str| s@) =~= palette_ids());
    assert(actions@ =~= palette_actions());
    let k = chars_of(id);
    let mut i: usize = 0;
    while i < ids.len()
        invariant
            i <= ids@.len(),
            ids@.map_values(|s: &str| s@) == palette_ids(),
            actions@ == palette_actions(),
            palette_lookup_from(id@, 0) == palette_lookup_from(id@, i as int),
            k@ == id@,
        decreases ids@.len() - i,
    {
        let c = chars_of(ids[i]);
        assert(palette_ids()[i as int] == ids@[i as int]@);
        if chars_eq(c.as_slice(), k.as_slice()) {
            return Some(actions[i]);
        }
        i = i + 1;
    }
    None
}

} // verus!
