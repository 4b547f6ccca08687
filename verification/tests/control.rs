use con_workspace::control::{
    agent_timeout_secs, check_deferred_tab_close, check_tab_still_open, resolve_control_tab_index,
    split_owner, surface_key_bytes, surface_wait_status, surface_wait_timeout_secs,
    validate_agent_ask, agent_cancelled_message, surface_cancelled_message, ControlError,
};

#[test]
fn named_keys_after_trimming() {
    assert_eq!(surface_key_bytes("  escape ").unwrap(), vec![0x1b]);
    assert_eq!(surface_key_bytes("Esc").unwrap(), vec![0x1b]);
    assert_eq!(surface_key_bytes("return").unwrap(), vec![0x0a]);
    assert_eq!(surface_key_bytes("\tTab").unwrap(), vec![0x09]);
    assert_eq!(surface_key_bytes("BackSpace").unwrap(), vec![0x7f]);
    assert_eq!(surface_key_bytes("control-c").unwrap(), vec![0x03]);
    assert_eq!(surface_key_bytes("C-D").unwrap(), vec![0x04]);
}

#[test]
fn literal_character_is_sent_as_utf8() {
    assert_eq!(surface_key_bytes("é").unwrap(), vec![0xc3, 0xa9]);
    assert_eq!(surface_key_bytes(" x ").unwrap(), b"x".to_vec());
}

#[test]
fn unknown_key_is_refused_with_the_trimmed_name() {
    assert_eq!(
        surface_key_bytes(" F13 "),
        Err(ControlError::UnsupportedSurfaceKey { key: "F13".to_string() })
    );
    assert_eq!(
        surface_key_bytes(""),
        Err(ControlError::UnsupportedSurfaceKey { key: String::new() })
    );
}

#[test]
fn control_tab_index_is_one_based() {
    assert_eq!(resolve_control_tab_index(Some(2), 3, 0), Ok(1));
    assert_eq!(resolve_control_tab_index(None, 3, 2), Ok(2));
    assert_eq!(
        resolve_control_tab_index(Some(0), 3, 0),
        Err(ControlError::TabIndexOutOfRange { index: 0, tab_count: 3 })
    );
    assert_eq!(
        resolve_control_tab_index(Some(4), 3, 0),
        Err(ControlError::TabIndexOutOfRange { index: 4, tab_count: 3 })
    );
}

#[test]
fn deferred_tab_close_refuses_last_tab_and_missing_tab() {
    assert_eq!(check_deferred_tab_close(0, 1), Err(ControlError::RefuseCloseLastTab));
    assert_eq!(
        check_deferred_tab_close(5, 3),
        Err(ControlError::TabIndexOutOfRange { index: 6, tab_count: 3 })
    );
    assert_eq!(check_deferred_tab_close(1, 3), Ok(()));
}

#[test]
fn agent_ask_needs_a_prompt_and_a_free_tab() {
    assert_eq!(validate_agent_ask("  \n", 0, false), Err(ControlError::EmptyAgentPrompt));
    assert_eq!(validate_agent_ask("  ", 0, true), Err(ControlError::EmptyAgentPrompt));
    assert_eq!(
        validate_agent_ask("hello", 2, true),
        Err(ControlError::AgentRequestPending { tab_index: 3 })
    );
    assert_eq!(validate_agent_ask("hello", 2, false), Ok(()));
}

#[test]
fn timeouts_are_clamped() {
    assert_eq!(agent_timeout_secs(None), None);
    assert_eq!(agent_timeout_secs(Some(1)), Some(5));
    assert_eq!(agent_timeout_secs(Some(42)), Some(42));
    assert_eq!(agent_timeout_secs(Some(1000)), Some(600));
    assert_eq!(surface_wait_timeout_secs(None), 10);
    assert_eq!(surface_wait_timeout_secs(Some(0)), 1);
    assert_eq!(surface_wait_timeout_secs(Some(60)), 60);
    assert_eq!(surface_wait_timeout_secs(Some(999)), 300);
}

#[test]
fn wait_ready_status() {
    assert_eq!(surface_wait_status(true, true, true, true), Some("ready"));
    assert_eq!(surface_wait_status(true, true, false, true), Some("timeout"));
    assert_eq!(surface_wait_status(true, false, true, false), None);
}

#[test]
fn deferred_surface_request_needs_its_tab() {
    assert_eq!(check_tab_still_open(2, 3), Ok(()));
    assert_eq!(
        check_tab_still_open(3, 3),
        Err(ControlError::TabNoLongerAvailable { tab_index: 4 })
    );
}

#[test]
fn split_owner_defaults_to_cli() {
    assert_eq!(split_owner(None), "con-cli");
    assert_eq!(split_owner(Some("agent".to_string())), "agent");
}

#[test]
fn refusals_are_answered_with_their_texts() {
    assert_eq!(
        ControlError::TabIndexOutOfRange { index: 5, tab_count: 3 }.message(),
        "Tab index 5 is out of range. Valid tabs are 1..=3."
    );
    assert_eq!(
        ControlError::RefuseCloseLastTab.message(),
        "refusing to close the last tab over the control plane"
    );
    assert_eq!(
        ControlError::UnsupportedSurfaceKey { key: "f13".to_string() }.message(),
        "Unsupported surface key `f13`. Supported keys: escape, enter, tab, backspace, ctrl-c, ctrl-d."
    );
    assert_eq!(ControlError::EmptyAgentPrompt.message(), "agent.ask requires a non-empty prompt");
    assert_eq!(
        ControlError::AgentRequestPending { tab_index: 2 }.message(),
        "Tab 2 already has a pending con-cli agent request"
    );
    assert_eq!(
        ControlError::TabNoLongerAvailable { tab_index: 10 }.message(),
        "Tab 10 is no longer available."
    );
    assert_eq!(agent_cancelled_message(0), "Tab 1 was closed while agent.ask was still pending");
    assert_eq!(
        surface_cancelled_message(3, "surfaces.split"),
        "Tab 4 was closed while surfaces.split was pending"
    );
}
