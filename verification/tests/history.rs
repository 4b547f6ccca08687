use con_workspace::history::{
    clean_commands, history_completion_for_prefix, merge_shell_histories,
    restore_global_input_history, restore_global_shell_history, CommandEntry, History,
    PaneHistories, MAX_GLOBAL_INPUT_HISTORY, MAX_GLOBAL_SHELL_HISTORY,
};

fn entry(command: &str, cwd: Option<&str>) -> CommandEntry {
    CommandEntry { command: command.to_string(), cwd: cwd.map(|c| c.to_string()) }
}

fn commands(h: &History) -> Vec<String> {
    h.entries().iter().map(|e| e.command.clone()).collect()
}

#[test]
fn recording_trims_skips_blanks_and_moves_repeats_to_the_end() {
    let mut h = History::new(10);
    h.record("  ls -la ", None);
    h.record("cd /tmp", Some("/home/u".to_string()));
    h.record("   ", None);
    h.record("ls -la", Some("/tmp".to_string()));
    assert_eq!(commands(&h), vec!["cd /tmp", "ls -la"]);
    assert_eq!(h.entries()[1].cwd.as_deref(), Some("/tmp"));
}

#[test]
fn history_keeps_only_the_newest_entries() {
    let mut h = History::new(3);
    for c in ["a", "b", "c", "d", "e"] {
        h.record(c, None);
    }
    assert_eq!(commands(&h), vec!["c", "d", "e"]);
    assert_eq!(h.len(), 3);
}

#[test]
fn recording_twice_is_recording_once() {
    let mut once = History::new(5);
    once.record("make", None);
    let mut twice = History::new(5);
    twice.record("make", None);
    twice.record("make", None);
    assert_eq!(commands(&once), commands(&twice));
}

#[test]
fn recent_is_newest_first() {
    let mut h = History::new(10);
    for c in ["one", "two", "three"] {
        h.record(c, None);
    }
    assert_eq!(h.recent(2), vec!["three", "two"]);
    assert_eq!(h.recent(10), vec!["three", "two", "one"]);
}

#[test]
fn history_completion_prefers_the_working_directory() {
    let mut shell = History::new(10);
    shell.record("git status", Some("/a".to_string()));
    shell.record("git stash", Some("/b".to_string()));
    let inputs = History::new(10);
    let kinds: Vec<bool> = vec![];
    assert_eq!(
        history_completion_for_prefix(&shell, &inputs, "git st", Some("/a"), true, &kinds),
        Some("git status".to_string())
    );
    assert_eq!(
        history_completion_for_prefix(&shell, &inputs, "git st", Some("/c"), true, &kinds),
        Some("git stash".to_string())
    );
    assert_eq!(
        history_completion_for_prefix(&shell, &inputs, "git st", None, true, &kinds),
        Some("git stash".to_string())
    );
    assert_eq!(
        history_completion_for_prefix(&shell, &inputs, "git stash", None, true, &kinds),
        None
    );
}

#[test]
fn history_completion_falls_back_to_shell_like_inputs() {
    let shell = History::new(10);
    let mut inputs = History::new(10);
    inputs.record("explain this error", None);
    inputs.record("echo hi", None);
    inputs.record("echo there", None);
    let kinds = vec![false, true, false];
    assert_eq!(
        history_completion_for_prefix(&shell, &inputs, "ec", None, false, &kinds),
        Some("echo hi".to_string())
    );
    assert_eq!(
        history_completion_for_prefix(&shell, &inputs, "ec", None, true, &kinds),
        Some("echo there".to_string())
    );
    assert_eq!(
        history_completion_for_prefix(&shell, &inputs, "ex", None, false, &kinds),
        None
    );
}

#[test]
fn cleaning_trims_and_drops_blank_commands() {
    let cleaned = clean_commands(&vec![entry(" ls ", Some("/")), entry("  ", None), entry("pwd", None)]);
    assert_eq!(cleaned, vec![entry("ls", Some("/")), entry("pwd", None)]);
}

#[test]
fn global_shell_history_prefers_the_session_list() {
    let h = restore_global_shell_history(
        &vec![entry("make", None)],
        &vec![vec![entry("ls", None)]],
    );
    assert_eq!(commands(&h), vec!["make"]);
    let h = restore_global_shell_history(
        &vec![entry("   ", None)],
        &vec![vec![entry("ls", None), entry("pwd", None)], vec![entry("ls", None)]],
    );
    assert_eq!(commands(&h), vec!["pwd", "ls"]);
    assert_eq!(MAX_GLOBAL_SHELL_HISTORY, 240);
}

#[test]
fn merging_persisted_history_records_it_in_order() {
    let mut restored = History::new(MAX_GLOBAL_SHELL_HISTORY);
    restored.record("a", None);
    restored.record("b", None);
    let merged = merge_shell_histories(restored, &vec![entry("a", None), entry("c", None)]);
    assert_eq!(commands(&merged), vec!["b", "a", "c"]);
}

#[test]
fn input_history_falls_back_to_shell_commands() {
    let mut shell = History::new(MAX_GLOBAL_SHELL_HISTORY);
    shell.record("cargo test", Some("/w".to_string()));
    let h = restore_global_input_history(&vec![], &vec![" ".to_string()], &shell);
    assert_eq!(commands(&h), vec!["cargo test"]);
    assert_eq!(h.entries()[0].cwd, None);
    let h = restore_global_input_history(
        &vec!["x".to_string(), "y".to_string()],
        &vec!["x".to_string()],
        &shell,
    );
    assert_eq!(commands(&h), vec!["y", "x"]);
    assert_eq!(MAX_GLOBAL_INPUT_HISTORY, 240);
}

#[test]
fn pane_histories_are_kept_per_pane() {
    let mut p = PaneHistories::new();
    p.record(7, "ls", None);
    p.record(3, "pwd", None);
    p.record(7, "make", None);
    assert_eq!(commands(p.get(7).unwrap()), vec!["ls", "make"]);
    assert!(p.get(5).is_none());
    assert_eq!(p.summary_commands(8), vec!["pwd", "make", "ls"]);
    assert_eq!(p.summary_commands(2), vec!["pwd", "make"]);
}

#[test]
fn pane_histories_restore_skips_unnamed_and_empty_panes() {
    let saved = vec![
        (Some(2), vec![entry("a", None)]),
        (None, vec![entry("b", None)]),
        (Some(4), vec![entry("  ", None)]),
        (Some(2), vec![entry(" c ", None)]),
    ];
    let p = PaneHistories::restore(&saved);
    assert_eq!(p.panes().len(), 1);
    assert_eq!(commands(p.get(2).unwrap()), vec!["c"]);
}
