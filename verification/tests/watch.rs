use con_workspace::watch::{
    exec_gate, join_output, normalize_output, plan_wait, prompt_step, quiet_step,
    wait_done_at_start, wait_poll, exec_refusal, ExecGate, PaneWait, PromptStep, QuietStep, WaitMode, WaitStatus,
    PROMPT_STABLE_POLLS, QUIET_THRESHOLD,
};

fn lines(v: &[&str]) -> Vec<String> {
    v.iter().map(|s| s.to_string()).collect()
}

#[test]
fn wait_plans() {
    let p = plan_wait(None, Some(String::new()), true);
    assert_eq!(p.mode, WaitMode::ShellIdle);
    assert_eq!(p.timeout_secs, 30);
    assert_eq!(p.interval_ms, 100);
    let p = plan_wait(Some(500), Some("done".to_string()), true);
    assert_eq!(p.mode, WaitMode::Pattern("done".to_string()));
    assert_eq!(p.timeout_secs, 120);
    assert_eq!(p.interval_ms, 500);
    let p = plan_wait(Some(5), None, false);
    assert_eq!(p.mode, WaitMode::Quiescence);
    assert_eq!(p.timeout_secs, 5);
    assert_eq!(p.interval_ms, 500);
}

#[test]
fn wait_may_end_before_polling() {
    assert_eq!(wait_done_at_start(&WaitMode::ShellIdle, false, ""), Some(WaitStatus::Idle));
    assert_eq!(wait_done_at_start(&WaitMode::ShellIdle, true, ""), None);
    let pat = WaitMode::Pattern("ok".to_string());
    assert_eq!(wait_done_at_start(&pat, true, "all ok\n"), Some(WaitStatus::Matched));
    assert_eq!(wait_done_at_start(&pat, false, "all o k"), None);
    assert_eq!(wait_done_at_start(&WaitMode::Quiescence, false, "x"), None);
    assert_eq!(wait_poll(&WaitMode::ShellIdle, true, ""), Some(WaitStatus::Idle));
    assert_eq!(wait_poll(&WaitMode::ShellIdle, false, ""), None);
    assert_eq!(wait_poll(&pat, false, "ok"), Some(WaitStatus::Matched));
}

#[test]
fn wait_statuses_as_the_protocol_spells_them() {
    assert_eq!(WaitStatus::Idle.as_str(), "idle");
    assert_eq!(WaitStatus::Matched.as_str(), "matched");
    assert_eq!(WaitStatus::Timeout.as_str(), "timeout");
}

fn cont(last: &str, stable: u32) -> QuietStep {
    QuietStep::Continue { last: last.to_string(), stable }
}

#[test]
fn quiescence_needs_four_unchanged_polls() {
    assert_eq!(QUIET_THRESHOLD, 4);
    assert_eq!(quiet_step("", 0, ""), cont("", 0));
    assert_eq!(quiet_step("", 0, "$ "), cont("$ ", 0));
    assert_eq!(quiet_step("$ ", 0, "$ "), cont("$ ", 1));
    assert_eq!(quiet_step("$ ", 1, ""), cont("$ ", 1));
    assert_eq!(quiet_step("$ ", 2, "$ "), cont("$ ", 3));
    assert_eq!(quiet_step("$ ", 3, "$ "), QuietStep::Quiet);
    assert_eq!(quiet_step("$ ", 3, "$ ls"), cont("$ ls", 0));
}

#[test]
fn quiescence_run_from_a_fresh_baseline() {
    let mut state = cont("", 0);
    let polls = ["", "a", "a", "b", "b", "b", "b", "b"];
    let mut quiet_at = None;
    for (i, current) in polls.iter().enumerate() {
        state = match state {
            QuietStep::Continue { last, stable } => quiet_step(&last, stable, current),
            QuietStep::Quiet => break,
        };
        if state == QuietStep::Quiet {
            quiet_at = Some(i);
            break;
        }
    }
    assert_eq!(quiet_at, Some(7));
}

#[test]
fn prompt_settles_after_two_stable_polls() {
    assert_eq!(PROMPT_STABLE_POLLS, 2);
    let c = |l: &str, n: u32| PromptStep::Continue { last: l.to_string(), stable: n };
    assert_eq!(prompt_step("", 0, "$ ", true), c("$ ", 0));
    assert_eq!(prompt_step("$ ", 0, "$ ", true), c("$ ", 1));
    assert_eq!(prompt_step("$ ", 1, "$ ", true), PromptStep::Settled);
    assert_eq!(prompt_step("$ ", 1, "$ ", false), c("$ ", 0));
    assert_eq!(prompt_step("", 1, "", true), c("", 0));
}

#[test]
fn output_normalization() {
    assert_eq!(normalize_output(&lines(&["a  ", "b\t", ""])), "a\nb\n");
    assert_eq!(join_output(&lines(&["a ", "b"])), "a \nb");
    assert_eq!(join_output(&lines(&[])), "");
}

#[test]
fn exec_gate_refuses_dead_and_non_shell_panes() {
    assert_eq!(exec_gate(false, true, true), ExecGate::DeadPty);
    assert_eq!(exec_gate(true, false, false), ExecGate::NotAShell);
    assert_eq!(exec_gate(true, false, true), ExecGate::Proceed);
    assert_eq!(exec_gate(true, true, false), ExecGate::Proceed);
}

#[test]
fn prompt_run_settles_on_the_third_matching_poll() {
    let polls = [("out", false), ("$ ", true), ("$ ", false), ("$ ", true), ("$ ", true)];
    let mut state = PromptStep::Continue { last: String::new(), stable: 0 };
    let mut settled_at = None;
    for (i, (output, prompt_like)) in polls.iter().enumerate() {
        state = match state {
            PromptStep::Continue { last, stable } => prompt_step(&last, stable, output, *prompt_like),
            PromptStep::Settled => break,
        };
        if state == PromptStep::Settled {
            settled_at = Some(i);
            break;
        }
    }
    assert_eq!(settled_at, Some(4));
}

#[test]
fn a_running_wait_answers_once() {
    let mut w = PaneWait::start(plan_wait(Some(2), Some("done".to_string()), true), 1_000, "");
    assert_eq!(w.poll(1_500, true, "building", "building"), None);
    assert_eq!(
        w.poll(2_000, true, "all done", "all done"),
        Some((WaitStatus::Matched, "all done".to_string()))
    );
    assert!(w.is_answered());
    assert_eq!(w.poll(2_500, true, "done", "done"), None);

    let mut t = PaneWait::start(plan_wait(Some(1), None, true), 0, "");
    assert_eq!(t.poll(500, false, "busy", "busy"), None);
    assert_eq!(t.poll(1_000, true, "out", "out"), Some((WaitStatus::Timeout, "out".to_string())));
    assert_eq!(t.poll(1_100, true, "out", "out"), None);

    let mut q = PaneWait::start(plan_wait(None, None, false), 0, "x");
    for k in 1..QUIET_THRESHOLD as u64 {
        assert_eq!(q.poll(500 * k, false, "x ", "x"), None);
    }
    assert_eq!(q.poll(5_000, false, "x ", "x"), Some((WaitStatus::Idle, "x".to_string())));
}

#[test]
fn refused_commands_carry_their_exit_codes() {
    assert_eq!(
        exec_refusal(Some("no pane 9"), ExecGate::Proceed, 0, ""),
        Some(("no pane 9".to_string(), 1))
    );
    assert_eq!(
        exec_refusal(None, ExecGate::DeadPty, 2, ""),
        Some(("Pane PTY process has exited — cannot execute command.".to_string(), 1))
    );
    assert_eq!(
        exec_refusal(None, ExecGate::NotAShell, 12, "mode: tmux"),
        Some((
            "Refused to execute shell command in pane 12 because the visible target is not a proven shell.\nmode: tmux"
                .to_string(),
            2
        ))
    );
    assert_eq!(exec_refusal(None, ExecGate::Proceed, 1, "x"), None);
}
