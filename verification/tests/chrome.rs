use con_workspace::chrome::{
    horizontal_tabs_visible, tab_strip_title, toggle_agent_panel, toggle_input_bar,
    vertical_tabs_active, ChromeState, FocusTarget, GuardState, SnapGuard, TabsOrientation,
};

#[test]
fn tab_strip_shows_for_two_horizontal_tabs() {
    assert!(horizontal_tabs_visible(TabsOrientation::Horizontal, 2));
    assert!(!horizontal_tabs_visible(TabsOrientation::Horizontal, 1));
    assert!(!horizontal_tabs_visible(TabsOrientation::Vertical, 3));
    assert!(vertical_tabs_active(TabsOrientation::Vertical));
    assert!(!vertical_tabs_active(TabsOrientation::Horizontal));
}

#[test]
fn long_titles_are_cut_at_a_character_boundary() {
    assert_eq!(tab_strip_title("short"), "short");
    let exact: String = "x".repeat(24);
    assert_eq!(tab_strip_title(&exact), exact);
    let long: String = "abcdefghijklmnopqrstuvwxyz".to_string();
    assert_eq!(tab_strip_title(&long), "abcdefghijklmnopqrstuv…");
    let wide: String = "é".repeat(25);
    assert_eq!(tab_strip_title(&wide), format!("{}…", "é".repeat(11)));
    let mixed = format!("{}{}", "a".repeat(21), "日本語日本");
    assert_eq!(tab_strip_title(&mixed), format!("{}…", "a".repeat(21)));
}

#[test]
fn snap_guard_extends_and_expires() {
    let mut g = SnapGuard::new();
    assert_eq!(g.check(0), GuardState { active: false, expired: false });
    g.extend(100, 50);
    assert_eq!(g.until_ms, Some(150));
    g.extend(110, 10);
    assert_eq!(g.until_ms, Some(150));
    g.extend(120, 100);
    assert_eq!(g.until_ms, Some(220));
    assert_eq!(g.check(200), GuardState { active: true, expired: false });
    assert_eq!(g.check(220), GuardState { active: false, expired: true });
    assert_eq!(g.until_ms, None);
    assert_eq!(g.check(230), GuardState { active: false, expired: false });
}

#[test]
fn toggling_panels_moves_focus_and_restores() {
    let start = ChromeState { input_bar_visible: true, agent_panel_open: false, scope_picker_open: true };
    let (hidden, focus) = toggle_input_bar(start);
    assert_eq!(hidden, ChromeState { input_bar_visible: false, agent_panel_open: false, scope_picker_open: false });
    assert_eq!(focus, FocusTarget::Terminal);
    let (shown, focus) = toggle_input_bar(hidden);
    assert!(shown.input_bar_visible);
    assert!(!shown.scope_picker_open);
    assert_eq!(focus, FocusTarget::InputBar);

    let (opened, focus) = toggle_agent_panel(hidden);
    assert!(opened.agent_panel_open);
    assert_eq!(focus, FocusTarget::AgentInline);
    let (closed, focus) = toggle_agent_panel(opened);
    assert_eq!(closed, hidden);
    assert_eq!(focus, FocusTarget::Terminal);

    let (both, focus) = toggle_agent_panel(start);
    assert_eq!(focus, FocusTarget::InputBar);
    let (bar_hidden, focus) = toggle_input_bar(both);
    assert!(!bar_hidden.input_bar_visible);
    assert!(bar_hidden.agent_panel_open);
    assert_eq!(focus, FocusTarget::AgentInline);
}
