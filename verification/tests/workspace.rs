use con_workspace::chrome::{new_tab_sync_policy, should_defer_top_chrome_refresh_when_tab_strip_appears};
use con_workspace::control::surface_key_bytes;

#[test]
fn surface_key_bytes_preserves_literal_character_case() {
    assert_eq!(surface_key_bytes("A").unwrap(), b"A");
    assert_eq!(surface_key_bytes("z").unwrap(), b"z");
}

#[test]
fn surface_key_bytes_matches_named_keys_case_insensitively() {
    assert_eq!(surface_key_bytes("ENTER").unwrap(), b"\n");
    assert_eq!(surface_key_bytes("Ctrl-C").unwrap(), vec![0x03]);
}

#[test]
fn new_tab_requires_immediate_ui_sync() {
    let policy = new_tab_sync_policy();
    assert!(policy.activates_new_tab);
    assert!(policy.syncs_sidebar);
    assert!(policy.notifies_ui);
    assert!(policy.syncs_native_visibility);
    assert!(policy.reuses_shared_tab_activation_flow);
}

#[test]
fn promoting_single_tab_to_tab_strip_requires_deferred_top_chrome_refresh() {
    assert!(should_defer_top_chrome_refresh_when_tab_strip_appears());
}
