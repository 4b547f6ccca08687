use con_workspace::control::ControlError;
use con_workspace::history::{CommandEntry, PaneHistories};
use con_workspace::tabs::CloseOutcome;
use con_workspace::window::WindowRequest;
use con_workspace::routing::{AgentConfig, AgentRouting, ProviderKind, ProviderSettings};
use con_workspace::workspace::{ConWorkspace, PendingAgentAsk, WorkspaceTab};

fn entry(command: &str) -> CommandEntry {
    CommandEntry { command: command.to_string(), cwd: None }
}

fn tab(c: char) -> WorkspaceTab<char> {
    WorkspaceTab {
        data: c,
        title: String::new(),
        user_label: None,
        agent_routing: AgentRouting { provider: None, model_overrides: vec![] },
        shell_history: PaneHistories::new(),
    }
}

fn config() -> AgentConfig {
    AgentConfig {
        provider: ProviderKind::Anthropic,
        providers: vec![ProviderSettings {
            provider: ProviderKind::Ollama,
            model: Some("llama3".to_string()),
            base_url: None,
        }],
    }
}

fn ids_of<A>(asks: &[PendingAgentAsk<A>]) -> Vec<u64> {
    asks.iter().map(|a| a.request_id).collect()
}

fn restored() -> ConWorkspace<char, &'static str, u32, &'static str, u8> {
    ConWorkspace::from_session(
        vec![tab('a'), tab('b'), tab('c')],
        'z',
        &config(),
        9,
        &vec![],
        &vec![vec![entry("ls"), entry("make")]],
        &vec![entry("ls")],
        &vec!["hello".to_string()],
        &vec![],
    )
}

fn commands(h: &con_workspace::history::History) -> Vec<String> {
    h.entries().iter().map(|e| e.command.clone()).collect()
}

#[test]
fn session_restore_rebuilds_tabs_and_histories() {
    let ws = restored();
    assert_eq!(ws.tabs().len(), 3);
    assert_eq!(ws.tabs().active_index(), 2);
    assert_eq!(commands(ws.shell_history()), vec!["make", "ls"]);
    assert_eq!(commands(ws.input_history()), vec!["hello"]);
    assert!(!ws.is_quick_terminal());
}

#[test]
fn quick_terminal_mark_sticks() {
    let mut ws = restored();
    ws.mark_as_quick_terminal();
    assert!(ws.is_quick_terminal());
    assert_eq!(ws.tabs().len(), 3);
}

#[test]
fn requests_follow_their_tabs_through_a_close() {
    let mut ws = restored();
    assert_eq!(ws.queue_surface_request(Some(1), "first"), Ok(0));
    assert_eq!(ws.queue_surface_request(Some(3), "third"), Ok(2));
    assert_eq!(ws.queue_surface_request(None, "active"), Ok(2));
    assert_eq!(
        ws.queue_surface_request(Some(4), "bad"),
        Err((ControlError::TabIndexOutOfRange { index: 4, tab_count: 3 }, "bad"))
    );
    assert_eq!(ws.ask_agent(Some(2), "explain", 7), Ok(1));
    assert_eq!(ws.ask_agent(Some(3), "fix it", 8), Ok(2));
    assert_eq!(
        ws.ask_agent(Some(3), "again", 9),
        Err((ControlError::AgentRequestPending { tab_index: 3 }, 9))
    );
    assert_eq!(ws.ask_agent(Some(1), "  ", 10), Err((ControlError::EmptyAgentPrompt, 10)));

    let closed = ws.close_tab_by_index(1);
    assert!(matches!(closed.outcome, CloseOutcome::Closed { tab, was_active: false } if tab.data.data == 'b'));
    assert!(closed.surface_requests.is_empty());
    assert_eq!(closed.agent_requests.iter().map(|a| a.payload).collect::<Vec<_>>(), vec![7]);
    assert_eq!(ws.take_surface_requests(), vec![(0, "first"), (1, "third"), (1, "active")]);
    assert_eq!(ws.finish_agent_request(1).map(|a| (a.request_id, a.prompt, a.payload)), Some((2, "fix it".to_string(), 8)));
    assert!(ws.finish_agent_request(1).is_none());
}

#[test]
fn closing_the_last_tab_changes_nothing() {
    let mut ws: ConWorkspace<char, &'static str, u32, &'static str, u8> =
        ConWorkspace::from_session(vec![tab('a')], 'z', &config(), 0, &vec![], &vec![], &vec![], &vec![], &vec![]);
    ws.queue_surface_request(None, "x").unwrap();
    let closed = ws.close_tab_by_index(0);
    assert!(matches!(closed.outcome, CloseOutcome::LastTab));
    assert!(matches!(ws.close_tab_by_index(5).outcome, CloseOutcome::OutOfRange));
    assert_eq!(ws.take_surface_requests(), vec![(0, "x")]);
}

#[test]
fn requests_follow_their_tabs_through_a_reorder() {
    let mut ws = restored();
    ws.queue_surface_request(Some(1), "for a").unwrap();
    ws.ask_agent(Some(3), "for c", 3).unwrap();
    let map = ws.reorder_tab(0, 3, None).unwrap();
    assert_eq!(map, vec![2, 0, 1]);
    assert_eq!(ws.take_surface_requests(), vec![(2, "for a")]);
    assert_eq!(ws.finish_agent_request(1).map(|a| a.payload), Some(3));
}

#[test]
fn opening_a_tab_keeps_waiting_requests() {
    let mut ws = restored();
    ws.queue_surface_request(Some(2), "x").unwrap();
    assert_eq!(ws.open_tab('d', &config()), 3);
    assert_eq!(ws.tabs().active_index(), 3);
    assert_eq!(ws.take_surface_requests(), vec![(1, "x")]);
}

#[test]
fn workspace_histories_record_trimmed_commands() {
    let mut ws = restored();
    ws.record_shell_command(0, 5, "  cargo build ", Some("/w".to_string()));
    ws.record_input("  ");
    ws.record_input("status?");
    assert_eq!(commands(ws.shell_history()), vec!["make", "ls", "cargo build"]);
    assert_eq!(commands(ws.input_history()), vec!["hello", "status?"]);
}

#[test]
fn saved_histories_come_back_from_the_session() {
    let mut ws = restored();
    ws.record_shell_command(2, 1, "git status", Some("/repo".to_string()));
    ws.record_input("summarize the diff");
    let (shell, inputs) = ws.saved_histories();
    let again: ConWorkspace<char, &'static str, u32, &'static str, u8> = ConWorkspace::from_session(
        vec![tab('a')],
        'z',
        &config(),
        0,
        &shell,
        &vec![],
        &shell,
        &inputs,
        &inputs,
    );
    assert_eq!(commands(again.shell_history()), commands(ws.shell_history()));
    assert_eq!(again.shell_history().entries(), ws.shell_history().entries());
    assert_eq!(commands(again.input_history()), commands(ws.input_history()));
}

#[test]
fn closing_the_window_hands_back_every_waiting_request_once() {
    let mut ws = restored();
    assert_eq!(ws.queue_surface_request(Some(1), "split"), Ok(0));
    assert_eq!(ws.queue_surface_request(None, "create"), Ok(2));
    assert_eq!(ws.ask_agent(Some(2), "explain", 7), Ok(1));
    ws.queue_new_tab(1);
    let (surface, agent, window) = ws.prepare_close().expect("first close prepares");
    assert_eq!(window.len(), 1);
    assert!(matches!(window[0], WindowRequest::NewTab(1)));
    assert_eq!(surface, vec![(0, "split"), (2, "create")]);
    assert_eq!(agent.len(), 1);
    assert_eq!((agent[0].0, agent[0].1.request_id, agent[0].1.payload), (1, 1, 7));
    assert!(ws.prepare_close().is_none());
    assert_eq!(ws.take_surface_requests(), vec![]);
    assert_eq!(ws.tabs().len(), 3);
}

#[test]
fn an_empty_session_gets_one_fallback_tab() {
    let ws: ConWorkspace<char, &'static str, u32, &'static str, u8> =
        ConWorkspace::from_session(vec![], 'z', &config(), 4, &vec![], &vec![], &vec![], &vec![], &vec![]);
    assert_eq!(ws.tabs().len(), 1);
    assert_eq!(ws.tabs().get(0).data.data, 'z');
    assert_eq!(ws.tabs().get(0).data.title, "Terminal");
    assert_eq!(ws.tabs().get(0).data.agent_routing.provider, Some(ProviderKind::Anthropic));
    assert_eq!(ws.tabs().get(0).id, 0);
    assert_eq!(ws.tabs().active_index(), 0);
}

#[test]
fn restored_tabs_are_numbered_from_zero_and_new_ones_continue() {
    let mut ws = restored();
    let ids: Vec<u64> = (0..3).map(|i| ws.tabs().get(i).id).collect();
    assert_eq!(ids, vec![0, 1, 2]);
    assert_eq!(ws.open_tab('d', &config()), 3);
    assert_eq!(ws.tabs().get(3).id, 3);
    assert_eq!(ws.open_tab('e', &config()), 4);
    assert_eq!(ws.tabs().get(4).id, 4);
}

#[test]
fn shell_commands_are_recorded_per_pane_and_window_wide() {
    let mut ws = restored();
    ws.record_shell_command(1, 4, " make test ", Some("/w".to_string()));
    ws.record_shell_command(1, 4, "ls", None);
    ws.record_shell_command(1, 4, "make test", None);
    let panes = ws.tabs().get(1).data.shell_history.get(4).expect("pane 4 has a history");
    assert_eq!(commands(panes), vec!["ls", "make test"]);
    assert!(ws.tabs().get(0).data.shell_history.get(4).is_none());
    assert_eq!(commands(ws.shell_history()), vec!["make", "ls", "make test"]);

    ws.record_shell_command(7, 4, "never", None);
    ws.record_shell_command(1, 4, "   ", None);
    assert_eq!(commands(ws.shell_history()), vec!["make", "ls", "make test"]);
    assert_eq!(commands(ws.tabs().get(1).data.shell_history.get(4).unwrap()), vec!["ls", "make test"]);
}

#[test]
fn create_pane_and_tab_close_requests_follow_a_reorder() {
    let mut ws = restored();
    assert_eq!(ws.queue_create_pane(Some(1), "pane for a"), Ok(0));
    assert_eq!(
        ws.queue_create_pane(Some(7), "bad"),
        Err((ControlError::TabIndexOutOfRange { index: 7, tab_count: 3 }, "bad"))
    );
    ws.queue_new_tab(1);
    assert_eq!(ws.queue_tab_close(Some(2), 2), Ok(1));
    assert_eq!(ws.reorder_tab(0, 3, None), Some(vec![2, 0, 1]));
    assert_eq!(ws.take_create_pane_requests(), vec![(2, "pane for a")]);
    let window = ws.take_window_requests();
    assert!(matches!(window[0], WindowRequest::NewTab(1)));
    assert!(matches!(window[1], WindowRequest::CloseTab { tab_idx: 0, request: 2 }));
    assert!(ws.take_window_requests().is_empty());
}

#[test]
fn per_pane_histories_are_saved_and_restored() {
    let mut ws = restored();
    ws.record_shell_command(0, 2, "cargo test", Some("/w".to_string()));
    ws.record_shell_command(0, 1, "ls", None);
    let saved = ws.saved_tab_histories();
    assert_eq!(saved.len(), 3);
    assert_eq!(saved[0].len(), 2);
    assert_eq!(saved[0][0].0, Some(1));
    assert_eq!(saved[0][1].0, Some(2));
    assert_eq!(saved[0][1].1, vec![CommandEntry { command: "cargo test".to_string(), cwd: Some("/w".to_string()) }]);
    assert!(saved[1].is_empty());
    let back = PaneHistories::restore(&saved[0]);
    assert_eq!(commands(back.get(2).unwrap()), vec!["cargo test"]);
    assert_eq!(commands(back.get(1).unwrap()), vec!["ls"]);
}

#[test]
fn restored_tabs_get_titles_and_default_routing() {
    let mut titled = tab('b');
    titled.title = "build".to_string();
    titled.user_label = Some("api".to_string());
    titled.agent_routing = AgentRouting {
        provider: Some(ProviderKind::OpenAI),
        model_overrides: vec![(ProviderKind::OpenAI, "gpt-x".to_string())],
    };
    let ws: ConWorkspace<char, &'static str, u32, &'static str, u8> = ConWorkspace::from_session(
        vec![tab('a'), titled],
        'z',
        &config(),
        0,
        &vec![],
        &vec![],
        &vec![],
        &vec![],
        &vec![],
    );
    let first = &ws.tabs().get(0).data;
    assert_eq!(first.title, "Terminal 1");
    assert_eq!(first.agent_routing.provider, Some(ProviderKind::Anthropic));
    assert_eq!(first.agent_routing.model_overrides, vec![(ProviderKind::Ollama, "llama3".to_string())]);
    let second = &ws.tabs().get(1).data;
    assert_eq!(second.title, "build");
    assert_eq!(second.user_label.as_deref(), Some("api"));
    assert_eq!(second.agent_routing.provider, Some(ProviderKind::OpenAI));
}

#[test]
fn agent_requests_take_consecutive_ids() {
    let mut ws = restored();
    assert_eq!(ws.ask_agent(Some(1), "one", 10), Ok(0));
    assert_eq!(ws.ask_agent(Some(1), "again", 11), Err((ControlError::AgentRequestPending { tab_index: 1 }, 11)));
    assert_eq!(ws.ask_agent(Some(2), "two", 12), Ok(1));
    let a = ws.finish_agent_request(0).unwrap();
    let b = ws.finish_agent_request(1).unwrap();
    assert_eq!(ids_of(&[a, b]), vec![1, 2]);
    let t = ws.open_tab('n', &config());
    assert_eq!(ws.tabs().get(t).data.title, "Terminal 4");
}
