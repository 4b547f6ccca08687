//! Watching a pane until something happens: `panes.wait` (until the shell
//! is idle, a pattern shows up, or the output stops changing) and the
//! fallback that decides a visibly executed command is done once a prompt
//! has stayed unchanged. The caller polls the terminal and keeps time; these
//! functions decide.
use vstd::prelude::*;
use crate::naming::{decimal, decimal_chars, first_sub, first_sub_from};
use crate::text::{chars_eq, chars_of, concat_chars, is_whitespace, slice_chars, string_of, trim_end_seq};

verus! {

/// Polls with an unchanged, non-empty output before a pane counts as quiet.
pub const QUIET_THRESHOLD: u32 = 4;

/// Polls with an unchanged prompt before a visibly executed command counts
/// as done.
pub const PROMPT_STABLE_POLLS: u32 = 2;

/// `pat` occurs in `s` (`str::contains`).
pub open spec fn contains(s: Seq<char>, pat: Seq<char>) -> bool {
    first_sub_from(s, pat, 0) is Some
}

/// Lines joined with `\n`.
pub open spec fn join_lines(ls: Seq<Seq<char>>) -> Seq<char>
    decreases ls.len(),
{
    if ls.len() == 0 {
        Seq::empty()
    } else if ls.len() == 1 {
        ls[0]
    } else {
        join_lines(ls.drop_last()) + seq!['\n'] + ls.last()
    }
}

/// Lines with trailing whitespace removed, joined with `\n`: output that
/// does not change as the cursor moves.
pub open spec fn normalized_lines(ls: Seq<Seq<char>>) -> Seq<char> {
    join_lines(ls.map_values(|l: Seq<char>| trim_end_seq(l)))
}

fn trim_end_chars(s: &Vec<char>) -> (r: Vec<char>)
    ensures
        r@ == trim_end_seq(s@),
{
    let mut k: usize = s.len();
    assert(s@.take(s@.len() as int) =~= s@);
    while k > 0 && is_whitespace(s[k - 1])
        invariant
            k <= s@.len(),
            trim_end_seq(s@) == trim_end_seq(s@.take(k as int)),
        decreases k,
    {
        assert(s@.take(k as int).drop_last() =~= s@.take(k - 1));
        k = k - 1;
    }
    proof {
        if k > 0 {
            assert(s@.take(k as int).last() == s@[k - 1]);
        }
    }
    slice_chars(s.as_slice(), 0, k)
}

fn join_chars(lines: &Vec<String>, trim: bool) -> (r: Vec<char>)
    ensures
        r@ == join_lines(
            if trim {
                lines@.map_values(|l: String| l@).map_values(|l: Seq<char>| trim_end_seq(l))
            } else {
                lines@.map_values(|l: String| l@)
            },
        ),
{
    let ghost ls = if trim {
        lines@.map_values(|l: String| l@).map_values(|l: Seq<char>| trim_end_seq(l))
    } else {
        lines@.map_values(|l: String| l@)
    };
    let mut r: Vec<char> = Vec::new();
    let mut i: usize = 0;
    assert(ls.take(0) =~= Seq::<Seq<char>>::empty());
    while i < lines.len()
        invariant
            i <= lines@.len(),
            ls.len() == lines@.len(),
            ls == (if trim {
                lines@.map_values(|l: String| l@).map_values(|l: Seq<char>| trim_end_seq(l))
            } else {
                lines@.map_values(|l: String| l@)
            }),
            r@ == join_lines(ls.take(i as int)),
        decreases lines@.len() - i,
    {
        let raw = chars_of(lines[i].as_str());
        let line = if trim {
            trim_end_chars(&raw)
        } else {
            raw
        };
        assert(line@ == ls[i as int]);
        let mut sep: Vec<char> = Vec::new();
        if i > 0 {
            sep.push('\n');
        }
        let with_sep = concat_chars(r.as_slice(), sep.as_slice());
        r = concat_chars(with_sep.as_slice(), line.as_slice());
        proof {
            assert(ls.take(i + 1).drop_last() =~= ls.take(i as int));
            assert(ls.take(i + 1).last() == ls[i as int]);
            if i == 0 {
                assert(sep@ =~= Seq::<char>::empty());
                assert(r@ =~= ls[0]);
            } else {
                assert(sep@ =~= seq!['\n']);
            }
        }
        i = i + 1;
    }
    assert(ls.take(lines@.len() as int) =~= ls);
    r
}

/// The lines joined with `\n`.
pub fn join_output(lines: &Vec<String>) -> (r: String)
    ensures
        r@ == join_lines(lines@.map_values(|l: String| l@)),
{
    let c = join_chars(lines, false);
    string_of(c.as_slice())
}

/// The lines without trailing whitespace, joined with `\n` (see
/// [`normalized_lines`]).
pub fn normalize_output(lines: &Vec<String>) -> (r: String)
    ensures
        r@ == normalized_lines(lines@.map_values(|l: String| l@)),
{
    let c = join_chars(lines, true);
    string_of(c.as_slice())
}

// ── panes.wait ──────────────────────────────────────────────────────────

/// What `panes.wait` waits for.
#[derive(Debug, Clone, PartialEq, Eq)]
pub enum WaitMode {
    /// The shell (with shell integration) finishes its command.
    ShellIdle,
    /// The recent output contains this (non-empty) text.
    Pattern(String),
    /// The recent output stops changing (no shell integration, no pattern).
    Quiescence,
}

/// How `panes.wait` waits: for what, how long at most, how often it looks.
#[derive(Debug, Clone, PartialEq, Eq)]
pub struct WaitPlan {
    pub mode: WaitMode,
    pub timeout_secs: u64,
    pub interval_ms: u64,
}

/// How a wait ended.
#[derive(Debug, Clone, Copy, PartialEq, Eq, Structural)]
pub enum WaitStatus {
    Idle,
    Matched,
    Timeout,
}

/// The status as the control protocol spells it.
pub open spec fn wait_status_text(s: WaitStatus) -> Seq<char> {
    match s {
        WaitStatus::Idle => "idle"@,
        WaitStatus::Matched => "matched"@,
        WaitStatus::Timeout => "timeout"@,
    }
}

impl WaitStatus {
    /// The status as the control protocol spells it (see
    /// [`wait_status_text`]).
    pub fn as_str(&self) -> (r: &'static str)
        ensures
            r@ == wait_status_text(*self),
    {
        match self {
            WaitStatus::Idle => "idle",
            WaitStatus::Matched => "matched",
            WaitStatus::Timeout => "timeout",
        }
    }
}

/// The plan for a wait: an empty pattern counts as none (it would match at
/// once); the timeout defaults to 30 s and is capped at 120 s; the shell is
/// polled every 100 ms when waiting for it to go idle, the output every
/// 500 ms otherwise.
pub fn plan_wait(timeout_secs: Option<u64>, pattern: Option<String>, has_shell_integration: bool) -> (r:
    WaitPlan)
    ensures
        r.timeout_secs == (match timeout_secs {
            Some(t) => if t < 120 {
                t
            } else {
                120
            },
            None => 30,
        }),
        match pattern {
            Some(p) if p@.len() > 0 => r.mode == WaitMode::Pattern(p) && r.interval_ms == 500,
            _ => if has_shell_integration {
                r.mode == WaitMode::ShellIdle && r.interval_ms == 100
            } else {
                r.mode == WaitMode::Quiescence && r.interval_ms == 500
            },
        },
{
    let timeout = match timeout_secs {
        Some(t) => if t < 120 {
            t
        } else {
            120
        },
        None => 30,
    };
    let pattern = match pattern {
        Some(p) => if p.as_str().unicode_len() > 0 {
            Some(p)
        } else {
            None
        },
        None => None,
    };
    match pattern {
        Some(p) => WaitPlan { mode: WaitMode::Pattern(p), timeout_secs: timeout, interval_ms: 500 },
        None => if has_shell_integration {
            WaitPlan { mode: WaitMode::ShellIdle, timeout_secs: timeout, interval_ms: 100 }
        } else {
            WaitPlan { mode: WaitMode::Quiescence, timeout_secs: timeout, interval_ms: 500 }
        },
    }
}

/// Whether the wait is over before it starts: the shell is already idle, or
/// the pattern is already in `content` (the recent output). Quiescence needs
/// at least a few polls.
pub fn wait_done_at_start(mode: &WaitMode, busy: bool, content: &str) -> (r: Option<WaitStatus>)
    ensures
        r == (match mode {
            WaitMode::ShellIdle => if !busy {
                Some(WaitStatus::Idle)
            } else {
                None
            },
            WaitMode::Pattern(p) => if contains(content@, p@) {
                Some(WaitStatus::Matched)
            } else {
                None
            },
            WaitMode::Quiescence => None,
        }),
{
    match mode {
        WaitMode::ShellIdle => if !busy {
            Some(WaitStatus::Idle)
        } else {
            None
        },
        WaitMode::Pattern(p) => {
            let cc = chars_of(content);
            let pc = chars_of(p.as_str());
            if first_sub(&cc, &pc).is_some() {
                Some(WaitStatus::Matched)
            } else {
                None
            }
        },
        WaitMode::Quiescence => None,
    }
}

/// What one poll of a quiescence wait decides.
#[derive(Debug, Clone, PartialEq, Eq)]
pub enum QuietStep {
    /// Keep polling with this baseline and count of unchanged polls.
    Continue { last: String, stable: u32 },
    /// The output stayed the same long enough: the pane is idle.
    Quiet,
}

/// One poll of a quiescence wait, with `current` the normalized output:
/// empty output does not count; the first non-empty output sets the
/// baseline; the same output again counts one more unchanged poll (quiet at
/// [`QUIET_THRESHOLD`]); different output becomes the new baseline.
pub open spec fn quiet_step_spec(last: Seq<char>, stable: nat, current: Seq<char>) -> (Option<(Seq<char>, nat)>) {
    if current.len() == 0 {
        Some((last, stable))
    } else if last.len() == 0 {
        Some((current, 0))
    } else if current == last {
        if stable + 1 >= QUIET_THRESHOLD {
            None
        } else {
            Some((last, stable + 1))
        }
    } else {
        Some((current, 0))
    }
}

/// The poll at which a quiescence wait goes quiet, starting from `last` and
/// `stable`, if it does.
pub open spec fn quiet_run(last: Seq<char>, stable: nat, polls: Seq<Seq<char>>) -> Option<nat>
    decreases polls.len(),
{
    if polls.len() == 0 {
        None
    } else {
        match quiet_step_spec(last, stable, polls[0]) {
            None => Some(0),
            Some((l, n)) => match quiet_run(l, n, polls.drop_first()) {
                Some(k) => Some(k + 1),
                None => None,
            },
        }
    }
}

/// The non-empty outputs among `polls`, in order.
pub open spec fn nonempty_outputs(polls: Seq<Seq<char>>) -> Seq<Seq<char>>
    decreases polls.len(),
{
    if polls.len() == 0 {
        Seq::empty()
    } else if polls[0].len() > 0 {
        seq![polls[0]] + nonempty_outputs(polls.drop_first())
    } else {
        nonempty_outputs(polls.drop_first())
    }
}

/// The last `n` outputs are all the same.
pub open spec fn ends_with_repeats(x: Seq<Seq<char>>, n: nat) -> bool {
    x.len() >= n && forall|i: int| x.len() - n <= i < x.len() ==> x[i] == x.last()
}

/// `n` copies of `s`.
pub open spec fn copies(s: Seq<char>, n: nat) -> Seq<Seq<char>> {
    Seq::new(n, |i: int| s)
}

proof fn lemma_quiet_run(last: Seq<char>, stable: nat, polls: Seq<Seq<char>>)
    requires
        stable < QUIET_THRESHOLD,
        last.len() == 0 ==> stable == 0,
        quiet_run(last, stable, polls) is Some,
    ensures
        ({
            let k = quiet_run(last, stable, polls)->0;
            let seen = (if last.len() > 0 { copies(last, stable + 1) } else { Seq::empty() })
                + nonempty_outputs(polls.take(k + 1int));
            &&& k < polls.len()
            &&& polls[k as int].len() > 0
            &&& ends_with_repeats(seen, (QUIET_THRESHOLD + 1) as nat)
            &&& seen.last() == polls[k as int]
        }),
    decreases polls.len(),
{
    let k = quiet_run(last, stable, polls)->0;
    let pre = if last.len() > 0 { copies(last, stable + 1) } else { Seq::<Seq<char>>::empty() };
    assert(polls.len() > 0);
    let p0 = polls[0];
    let t = polls.take(k + 1int);
    match quiet_step_spec(last, stable, p0) {
        None => {
            assert(k == 0);
            assert(t[0] == p0);
            assert(t =~= seq![p0]);
            assert(nonempty_outputs(t.drop_first()) =~= Seq::<Seq<char>>::empty());
            assert(nonempty_outputs(t) =~= seq![p0]);
            let seen = pre + nonempty_outputs(t);
            assert(seen =~= copies(last, stable + 2));
        },
        Some((l, n)) => {
            let rest = polls.drop_first();
            lemma_quiet_run(l, n, rest);
            let k1 = quiet_run(l, n, rest)->0;
            assert(k == k1 + 1);
            assert(t[0] == p0);
            assert(t.drop_first() =~= rest.take(k1 + 1int));
            let pre1 = if l.len() > 0 { copies(l, n + 1) } else { Seq::<Seq<char>>::empty() };
            let tail = nonempty_outputs(rest.take(k1 + 1int));
            let seen1 = pre1 + tail;
            let seen = pre + nonempty_outputs(t);
            assert(rest[k1 as int] == polls[k as int]);
            if p0.len() == 0 {
                assert(nonempty_outputs(t) == nonempty_outputs(t.drop_first()));
                assert(seen =~= seen1);
            } else {
                assert(nonempty_outputs(t) == seq![p0] + nonempty_outputs(t.drop_first()));
                if last.len() == 0 || p0 != last {
                    assert(pre1 =~= seq![p0]);
                    // seen1 is a suffix of seen
                    assert(seen =~= pre + seen1);
                    assert forall|i: int| seen.len() - (QUIET_THRESHOLD + 1) <= i < seen.len() implies seen[i]
                        == seen.last() by {
                        assert(seen[i] == seen1[i - pre.len()]);
                    }
                } else {
                    assert(pre + seq![p0] =~= pre1);
                    assert(seen =~= seen1);
                }
            }
        },
    }
}

/// A quiescence wait that starts with no baseline goes quiet only once the
/// last five non-empty outputs it saw (the baseline and four more polls)
/// were all the same as the output it ends with; empty outputs do not count.
pub proof fn law_quiet_needs_repeated_output(polls: Seq<Seq<char>>)
    requires
        quiet_run(Seq::empty(), 0, polls) is Some,
    ensures
        ({
            let k = quiet_run(Seq::empty(), 0, polls)->0;
            let seen = nonempty_outputs(polls.take(k + 1int));
            &&& k < polls.len()
            &&& ends_with_repeats(seen, (QUIET_THRESHOLD + 1) as nat)
            &&& seen.last() == polls[k as int]
            &&& polls[k as int].len() > 0
        }),
{
    lemma_quiet_run(Seq::empty(), 0, polls);
    let k = quiet_run(Seq::empty(), 0, polls)->0;
    assert(Seq::<Seq<char>>::empty() + nonempty_outputs(polls.take(k + 1int)) =~= nonempty_outputs(
        polls.take(k + 1int),
    ));
}

/// One poll of a quiescence wait (see [`quiet_step_spec`]; `None` there is
/// [`QuietStep::Quiet`]).
pub fn quiet_step(last: &str, stable: u32, current: &str) -> (r: QuietStep)
    requires
        stable < QUIET_THRESHOLD,
    ensures
        match quiet_step_spec(last@, stable as nat, current@) {
            Some((l, n)) => r matches QuietStep::Continue { last: l2, stable: n2 } && l2@ == l
                && n2 == n && n2 < QUIET_THRESHOLD,
            None => r == QuietStep::Quiet,
        },
{
    let cc = chars_of(current);
    let lc = chars_of(last);
    if cc.len() == 0 {
        QuietStep::Continue { last: string_of(lc.as_slice()), stable }
    } else if lc.len() == 0 {
        QuietStep::Continue { last: string_of(cc.as_slice()), stable: 0 }
    } else if chars_eq(cc.as_slice(), lc.as_slice()) {
        if stable + 1 >= QUIET_THRESHOLD {
            QuietStep::Quiet
        } else {
            QuietStep::Continue { last: string_of(lc.as_slice()), stable: stable + 1 }
        }
    } else {
        QuietStep::Continue { last: string_of(cc.as_slice()), stable: 0 }
    }
}

/// One poll of a shell-idle or pattern wait: done when the shell reported a
/// finished command or is not busy, or when `content` holds the pattern.
pub fn wait_poll(mode: &WaitMode, finished_or_not_busy: bool, content: &str) -> (r: Option<
    WaitStatus,
>)
    ensures
        r == (match mode {
            WaitMode::ShellIdle => if finished_or_not_busy {
                Some(WaitStatus::Idle)
            } else {
                None
            },
            WaitMode::Pattern(p) => if contains(content@, p@) {
                Some(WaitStatus::Matched)
            } else {
                None
            },
            WaitMode::Quiescence => None,
        }),
{
    wait_done_at_start(mode, !finished_or_not_busy, content)
}

// ── visible exec fallback ───────────────────────────────────────────────

/// One poll of the fallback that watches a visibly executed command: a
/// prompt-like screen whose non-empty output equals the last one counts one
/// more stable poll (settled at [`PROMPT_STABLE_POLLS`]); any other screen
/// becomes the new baseline.
pub open spec fn prompt_step_spec(last: Seq<char>, stable: nat, output: Seq<char>, prompt_like: bool) -> Option<
    (Seq<char>, nat),
> {
    if prompt_like && output.len() > 0 && output == last {
        if stable + 1 >= PROMPT_STABLE_POLLS {
            None
        } else {
            Some((last, stable + 1))
        }
    } else {
        Some((output, 0))
    }
}

/// The poll at which the visible-exec fallback settles, starting from
/// `last` and `stable`, each poll giving the screen's output and whether it
/// looks like a prompt.
pub open spec fn prompt_run(last: Seq<char>, stable: nat, polls: Seq<(Seq<char>, bool)>) -> Option<nat>
    decreases polls.len(),
{
    if polls.len() == 0 {
        None
    } else {
        match prompt_step_spec(last, stable, polls[0].0, polls[0].1) {
            None => Some(0),
            Some((l, n)) => match prompt_run(l, n, polls.drop_first()) {
                Some(k) => Some(k + 1),
                None => None,
            },
        }
    }
}

proof fn lemma_prompt_run(last: Seq<char>, stable: nat, polls: Seq<(Seq<char>, bool)>)
    requires
        stable < PROMPT_STABLE_POLLS,
        prompt_run(last, stable, polls) is Some,
    ensures
        ({
            let k = prompt_run(last, stable, polls)->0 as int;
            &&& k < polls.len()
            &&& k == 0 ==> stable == 1 && polls[0].1 && polls[0].0 == last && last.len() > 0
            &&& k == 1 ==> stable == 0 && polls[0].1 && polls[0].0 == last && last.len() > 0
                && polls[1].1 && polls[1].0 == last
            &&& k >= 2 ==> polls[k - 1].1 && polls[k].1 && polls[k - 2].0 == polls[k].0
                && polls[k - 1].0 == polls[k].0 && polls[k].0.len() > 0
        }),
    decreases polls.len(),
{
    assert(polls.len() > 0);
    match prompt_step_spec(last, stable, polls[0].0, polls[0].1) {
        None => {},
        Some((l, n)) => {
            let rest = polls.drop_first();
            lemma_prompt_run(l, n, rest);
            let k1 = prompt_run(l, n, rest)->0 as int;
            assert(rest[0] == polls[1]);
            if k1 >= 1 {
                assert(rest[k1 - 1] == polls[k1]);
                assert(rest[k1] == polls[k1 + 1]);
            }
            if k1 >= 2 {
                assert(rest[k1 - 2] == polls[k1 - 1]);
            }
        },
    }
}

/// The visible-exec fallback settles only on a prompt that the last three
/// polls showed unchanged (and not empty), the last two of them looking
/// like a prompt.
pub proof fn law_prompt_settles_on_stable_prompt(polls: Seq<(Seq<char>, bool)>)
    requires
        prompt_run(Seq::empty(), 0, polls) is Some,
    ensures
        ({
            let k = prompt_run(Seq::empty(), 0, polls)->0 as int;
            &&& 2 <= k < polls.len()
            &&& polls[k - 1].1 && polls[k].1
            &&& polls[k - 2].0 == polls[k].0 && polls[k - 1].0 == polls[k].0
            &&& polls[k].0.len() > 0
        }),
{
    lemma_prompt_run(Seq::empty(), 0, polls);
}

/// What one poll of the visible-exec fallback decides.
#[derive(Debug, Clone, PartialEq, Eq)]
pub enum PromptStep {
    /// Keep polling with this baseline and count of stable polls.
    Continue { last: String, stable: u32 },
    /// The prompt settled: the command is over.
    Settled,
}

/// One poll of the visible-exec fallback (see [`prompt_step_spec`]; `None`
/// there is [`PromptStep::Settled`]).
pub fn prompt_step(last: &str, stable: u32, output: &str, prompt_like: bool) -> (r: PromptStep)
    requires
        stable < PROMPT_STABLE_POLLS,
    ensures
        match prompt_step_spec(last@, stable as nat, output@, prompt_like) {
            Some((l, n)) => r matches PromptStep::Continue { last: l2, stable: n2 } && l2@ == l
                && n2 == n && n2 < PROMPT_STABLE_POLLS,
            None => r == PromptStep::Settled,
        },
{
    let oc = chars_of(output);
    let lc = chars_of(last);
    if prompt_like && oc.len() > 0 && chars_eq(oc.as_slice(), lc.as_slice()) {
        if stable + 1 >= PROMPT_STABLE_POLLS {
            PromptStep::Settled
        } else {
            PromptStep::Continue { last: string_of(lc.as_slice()), stable: stable + 1 }
        }
    } else {
        PromptStep::Continue { last: string_of(oc.as_slice()), stable: 0 }
    }
}

/// Whether a command may be typed into a pane for the agent.
#[derive(Debug, Clone, Copy, PartialEq, Eq, Structural)]
pub enum ExecGate {
    /// The pane's process has exited (answered with exit code 1).
    DeadPty,
    /// What the pane shows is not a proven shell (answered with exit code 2).
    NotAShell,
    /// Type it.
    Proceed,
}

/// Whether a command may be typed into a pane: never into a dead pane, and
/// into one that does not show a shell only when it anchors a managed remote
/// workspace.
pub fn exec_gate(alive: bool, allows_visible_shell_exec: bool, remote_workspace_anchor: bool) -> (r:
    ExecGate)
    ensures
        r == (if !alive {
            ExecGate::DeadPty
        } else if !allows_visible_shell_exec && !remote_workspace_anchor {
            ExecGate::NotAShell
        } else {
            ExecGate::Proceed
        }),
{
    if !alive {
        ExecGate::DeadPty
    } else if !allows_visible_shell_exec && !remote_workspace_anchor {
        ExecGate::NotAShell
    } else {
        ExecGate::Proceed
    }
}

/// How a command for a pane is refused, as (output, exit code), or none
/// when it may run: a pane target that did not resolve answers its error
/// with code 1; a dead pane answers code 1; a pane that does not show a
/// proven shell answers code 2 with a message naming the pane (1-based
/// `pane_index`) followed by `details` (its runtime and control state).
pub open spec fn exec_refusal_spec(
    resolve_error: Option<Seq<char>>,
    gate: ExecGate,
    pane_index: nat,
    details: Seq<char>,
) -> Option<(Seq<char>, i32)> {
    match resolve_error {
        Some(e) => Some((e, 1)),
        None => match gate {
            ExecGate::DeadPty => Some(("Pane PTY process has exited — cannot execute command."@, 1)),
            ExecGate::NotAShell => Some((
                "Refused to execute shell command in pane "@ + decimal(pane_index)
                    + " because the visible target is not a proven shell.\n"@ + details,
                2,
            )),
            ExecGate::Proceed => None,
        },
    }
}

/// The answer to a command refused for a pane (see [`exec_refusal_spec`]).
pub fn exec_refusal(resolve_error: Option<&str>, gate: ExecGate, pane_index: usize, details: &str)
    -> (r: Option<(String, i32)>)
    ensures
        exec_refusal_spec(
            match resolve_error {
                Some(e) => Some(e@),
                None => None,
            },
            gate,
            pane_index as nat,
            details@,
        ) == match r {
            Some((out, code)) => Some((out@, code)),
            None => None,
        },
{
    match resolve_error {
        Some(e) => Some((String::from_str(e), 1)),
        None => match gate {
            ExecGate::DeadPty => Some(
                (String::from_str("Pane PTY process has exited — cannot execute command."), 1),
            ),
            ExecGate::NotAShell => {
                let head = chars_of("Refused to execute shell command in pane ");
                let idx = decimal_chars(pane_index);
                let tail = chars_of(" because the visible target is not a proven shell.\n");
                let d = chars_of(details);
                let a = concat_chars(head.as_slice(), idx.as_slice());
                let b = concat_chars(a.as_slice(), tail.as_slice());
                let c = concat_chars(b.as_slice(), d.as_slice());
                Some((string_of(c.as_slice()), 2))
            },
            ExecGate::Proceed => None,
        },
    }
}

// ── a running wait ──────────────────────────────────────────────────────

/// A `panes.wait` in progress: its plan, the time (ms) at which it times
/// out, the quiescence baseline and count, and whether its one answer has
/// been given.
pub struct PaneWait {
    plan: WaitPlan,
    deadline_ms: u128,
    last: String,
    stable: u32,
    done: bool,
}

/// The time a wait started at `start_ms` times out.
pub open spec fn wait_deadline(start_ms: u64, timeout_secs: u64) -> int {
    start_ms + timeout_secs * 1000
}

/// What one poll of a running wait answers, given whether the shell
/// reported a finished command or is idle, the recent output `content` and
/// its normalized form: at or after the deadline, `timeout` with the
/// output; otherwise what the wait's mode decides (see [`wait_poll`] and
/// [`quiet_step_spec`]; a quiet pane answers `idle` with the normalized
/// output).
pub open spec fn poll_answer(
    mode: WaitMode,
    deadline: int,
    last: Seq<char>,
    stable: nat,
    now_ms: u64,
    finished_or_not_busy: bool,
    content: Seq<char>,
    normalized: Seq<char>,
) -> Option<(WaitStatus, Seq<char>)> {
    if now_ms >= deadline {
        Some((WaitStatus::Timeout, content))
    } else {
        match mode {
            WaitMode::ShellIdle => if finished_or_not_busy {
                Some((WaitStatus::Idle, content))
            } else {
                None
            },
            WaitMode::Pattern(p) => if contains(content, p@) {
                Some((WaitStatus::Matched, content))
            } else {
                None
            },
            WaitMode::Quiescence => if quiet_step_spec(last, stable, normalized) is None {
                Some((WaitStatus::Idle, normalized))
            } else {
                None
            },
        }
    }
}

impl PaneWait {
    pub closed spec fn plan(&self) -> WaitPlan {
        self.plan
    }

    /// When the wait times out (ms).
    pub closed spec fn deadline(&self) -> int {
        self.deadline_ms as int
    }

    /// The quiescence baseline.
    pub closed spec fn baseline(&self) -> Seq<char> {
        self.last@
    }

    /// Unchanged polls counted against the baseline.
    pub closed spec fn stable_polls(&self) -> nat {
        self.stable as nat
    }

    /// Whether the wait has answered.
    pub closed spec fn answered(&self) -> bool {
        self.done
    }

    pub closed spec fn wf(&self) -> bool {
        self.stable < QUIET_THRESHOLD
    }

    /// Starts a wait at `now_ms` with `plan`; `baseline` is the normalized
    /// output at the start, the quiescence baseline when not empty.
    pub fn start(plan: WaitPlan, now_ms: u64, baseline: &str) -> (r: PaneWait)
        ensures
            r.wf(),
            r.plan() == plan,
            r.deadline() == wait_deadline(now_ms, plan.timeout_secs),
            r.baseline() == (if plan.mode == WaitMode::Quiescence {
                baseline@
            } else {
                Seq::<char>::empty()
            }),
            r.stable_polls() == 0,
            !r.answered(),
    {
        let deadline_ms = now_ms as u128 + plan.timeout_secs as u128 * 1000;
        let last = match plan.mode {
            WaitMode::Quiescence => String::from_str(baseline),
            _ => String::new(),
        };
        PaneWait { plan, deadline_ms, last, stable: 0, done: false }
    }

    /// Whether the wait has answered.
    pub fn is_answered(&self) -> (r: bool)
        ensures
            r == self.answered(),
    {
        self.done
    }

    /// One poll at `now_ms`. A wait answers exactly once: a poll after the
    /// answer gives nothing and changes nothing; otherwise the answer is
    /// [`poll_answer`], so a poll at or after the deadline always answers.
    /// A quiescence poll that does not answer moves the baseline and count
    /// as [`quiet_step_spec`] says.
    pub fn poll(&mut self, now_ms: u64, finished_or_not_busy: bool, content: &str, normalized: &str)
        -> (r: Option<(WaitStatus, String)>)
        requires
            old(self).wf(),
        ensures
            final(self).wf(),
            final(self).plan() == old(self).plan(),
            final(self).deadline() == old(self).deadline(),
            old(self).answered() ==> r is None && final(self).baseline() == old(self).baseline()
                && final(self).stable_polls() == old(self).stable_polls() && final(self).answered(),
            !old(self).answered() ==> match poll_answer(
                old(self).plan().mode,
                old(self).deadline(),
                old(self).baseline(),
                old(self).stable_polls(),
                now_ms,
                finished_or_not_busy,
                content@,
                normalized@,
            ) {
                Some((st, out)) => r matches Some((st2, out2)) && st2 == st && out2@ == out
                    && final(self).answered(),
                None => r is None && !final(self).answered(),
            },
            !old(self).answered() && r is None && old(self).plan().mode == WaitMode::Quiescence
                ==> quiet_step_spec(old(self).baseline(), old(self).stable_polls(), normalized@)
                == Some((final(self).baseline(), final(self).stable_polls())),
            !(old(self).plan().mode == WaitMode::Quiescence) ==> final(self).baseline()
                == old(self).baseline() && final(self).stable_polls() == old(self).stable_polls(),
    {
        if self.done {
            return None;
        }
        if now_ms as u128 >= self.deadline_ms {
            self.done = true;
            return Some((WaitStatus::Timeout, String::from_str(content)));
        }
        let answer = match &self.plan.mode {
            WaitMode::Quiescence => {
                match quiet_step(self.last.as_str(), self.stable, normalized) {
                    QuietStep::Quiet => Some((WaitStatus::Idle, String::from_str(normalized))),
                    QuietStep::Continue { last, stable } => {
                        self.last = last;
                        self.stable = stable;
                        None
                    },
                }
            },
            mode => match wait_poll(mode, finished_or_not_busy, content) {
                Some(st) => Some((st, String::from_str(content))),
                None => None,
            },
        };
        if answer.is_some() {
            self.done = true;
        }
        answer
    }
}

} // verus!
