use con_workspace::scope::{
    can_toggle_scope_picker, pane_status, scope_picker_visible, scope_tile_label,
    scope_tile_number, status_text, PaneStatus,
};
use con_workspace::suggest::InputMode;

#[test]
fn picker_needs_several_panes_and_no_agent_mode() {
    assert!(can_toggle_scope_picker(InputMode::Smart, 2));
    assert!(!can_toggle_scope_picker(InputMode::Agent, 3));
    assert!(!can_toggle_scope_picker(InputMode::Shell, 1));
    assert!(scope_picker_visible(true, true, InputMode::Shell, 2));
    assert!(!scope_picker_visible(true, false, InputMode::Shell, 2));
    assert!(!scope_picker_visible(false, true, InputMode::Shell, 2));
}

#[test]
fn tile_status_and_label() {
    assert_eq!(pane_status(false, true, true), PaneStatus::Offline);
    assert_eq!(pane_status(true, true, true), PaneStatus::Busy);
    assert_eq!(pane_status(true, false, true), PaneStatus::Remote);
    assert_eq!(pane_status(true, false, false), PaneStatus::Ready);
    assert_eq!(status_text(PaneStatus::Offline), Some("offline"));
    assert_eq!(status_text(PaneStatus::Ready), None);
    assert_eq!(scope_tile_label(&Some("prod".to_string()), "shell", 4), "prod");
    assert_eq!(scope_tile_label(&None, "shell", 4), "shell");
    assert_eq!(scope_tile_label(&None, "", 4), "Pane 4");
}

#[test]
fn tile_numbers_follow_the_pane_list() {
    let ids = vec![7, 3, 9];
    assert_eq!(scope_tile_number(&ids, 3), 2);
    assert_eq!(scope_tile_number(&ids, 9), 3);
    assert_eq!(scope_tile_number(&ids, 5), 1);
}
