//! What the input bar suggests while the user types: whether to suggest at
//! all, which source wins (a local path, history, or the AI model), and
//! whether an AI suggestion that arrives later still fits the input.
use vstd::prelude::*;
use crate::completion::LocalPathCompletion;
use crate::text::{
    chars_contain, chars_eq, chars_of, chars_start_with, concat_chars, has_char, starts_with,
    string_of, trim_chars, trim_seq,
};

verus! {

/// How the input bar reads what is typed.
#[derive(Debug, Clone, Copy, PartialEq, Eq, Structural)]
pub enum InputMode {
    /// Classified per input: shell command or agent prompt.
    Smart,
    /// Everything is a shell command.
    Shell,
    /// Everything is an agent prompt.
    Agent,
}

/// Input that gets no suggestion: blank, spanning lines, a slash command, or
/// not addressed to exactly one pane.
pub open spec fn suggestion_blocked(text: Seq<char>, target_count: nat) -> bool {
    let t = trim_seq(text);
    ||| t.len() == 0
    ||| has_char(text, '\n')
    ||| t[0] == '/'
    ||| target_count != 1
}

fn trimmed_starts_with_slash(text: &Vec<char>) -> (r: bool)
    ensures
        r == (trim_seq(text@).len() > 0 && trim_seq(text@)[0] == '/'),
{
    let t = trim_chars(text);
    t.len() > 0 && t[0] == '/'
}

/// Whether typing `text`, addressed to `target_count` panes, may get a
/// suggestion (see [`suggestion_blocked`]); never without an active tab.
pub fn suggestion_allowed(has_active_tab: bool, text: &str, target_count: usize) -> (r: bool)
    ensures
        r == (has_active_tab && !suggestion_blocked(text@, target_count as nat)),
{
    if !has_active_tab {
        return false;
    }
    let tc = chars_of(text);
    let t = trim_chars(&tc);
    if t.len() == 0 {
        return false;
    }
    !(chars_contain(tc.as_slice(), '\n') || t[0] == '/' || target_count != 1)
}

/// What the input bar does after a keystroke that may get a suggestion.
#[derive(Debug, Clone, PartialEq, Eq)]
pub enum SuggestionAction {
    /// Show a completed path (or the path candidates).
    Path(LocalPathCompletion),
    /// Show a command from history inline.
    History(String),
    /// Clear the suggestion UI; the input does not read as a shell command.
    SkipNotShell,
    /// Clear the suggestion UI; AI suggestions are turned off.
    SkipDisabled,
    /// Clear the suggestion UI and ask the AI model for a completion.
    RequestAi,
}

/// The input reads as a shell command for AI completion: always in shell
/// mode, never in agent mode; in smart mode when it has at least two
/// characters after trimming and the classifier calls it a shell command.
pub open spec fn shell_input(mode: InputMode, text: Seq<char>, classified_shell: bool) -> bool {
    match mode {
        InputMode::Shell => true,
        InputMode::Smart => trim_seq(text).len() >= 2 && classified_shell,
        InputMode::Agent => false,
    }
}

/// Which suggestion wins: a path completion, else a history completion, else
/// (for shell input with AI suggestions on) a request to the model.
pub fn choose_suggestion(
    path: Option<LocalPathCompletion>,
    history: Option<String>,
    mode: InputMode,
    text: &str,
    classified_shell: bool,
    ai_enabled: bool,
) -> (r: SuggestionAction)
    ensures
        path matches Some(p) ==> r == SuggestionAction::Path(p),
        path is None ==> (history matches Some(h) ==> r == SuggestionAction::History(h)),
        path is None && history is None ==> r == (if !shell_input(mode, text@, classified_shell) {
            SuggestionAction::SkipNotShell
        } else if !ai_enabled {
            SuggestionAction::SkipDisabled
        } else {
            SuggestionAction::RequestAi
        }),
{
    if let Some(p) = path {
        return SuggestionAction::Path(p);
    }
    if let Some(h) = history {
        return SuggestionAction::History(h);
    }
    let is_shell = match mode {
        InputMode::Shell => true,
        InputMode::Smart => {
            let tc = chars_of(text);
            let t = trim_chars(&tc);
            t.len() >= 2 && classified_shell
        },
        InputMode::Agent => false,
    };
    if !is_shell {
        SuggestionAction::SkipNotShell
    } else if !ai_enabled {
        SuggestionAction::SkipDisabled
    } else {
        SuggestionAction::RequestAi
    }
}

/// The AI suggestion made for `prefix`, as shown once the input reads
/// `text`: nothing when it came for another tab, when the input is now an
/// agent prompt, addressed elsewhere, a slash command or multi-line, or when
/// history can complete it. If the input is unchanged the completion is
/// shown as it came; otherwise the full suggestion (the completion, put
/// behind the prefix unless it already starts with it) is shown when it
/// still extends the new input.
pub open spec fn ai_suggestion(
    result_tab: usize,
    active_tab: usize,
    mode: InputMode,
    targets: Seq<usize>,
    result_pane: usize,
    text: Seq<char>,
    prefix: Seq<char>,
    completion: Seq<char>,
    history_available: bool,
) -> Option<(Seq<char>, Seq<char>)> {
    let t = trim_seq(text);
    if result_tab != active_tab {
        None
    } else if mode == InputMode::Agent || targets != seq![result_pane] || (t.len() > 0 && t[0]
        == '/') || has_char(text, '\n') {
        None
    } else if history_available {
        None
    } else if text != prefix {
        let full = if starts_with(completion, prefix) {
            completion
        } else {
            prefix + completion
        };
        if !starts_with(full, text) || full == text {
            None
        } else {
            Some((text, full))
        }
    } else {
        Some((prefix, completion))
    }
}

/// The (input, suggestion) pair to show for an AI suggestion that arrived
/// (see [`ai_suggestion`]).
pub fn ai_suggestion_to_show(
    result_tab: usize,
    active_tab: usize,
    mode: InputMode,
    targets: &Vec<usize>,
    result_pane: usize,
    text: &str,
    prefix: &str,
    completion: &str,
    history_available: bool,
) -> (r: Option<(String, String)>)
    ensures
        match ai_suggestion(
            result_tab,
            active_tab,
            mode,
            targets@,
            result_pane,
            text@,
            prefix@,
            completion@,
            history_available,
        ) {
            Some((a, b)) => r matches Some(x) && x.0@ == a && x.1@ == b,
            None => r is None,
        },
{
    if result_tab != active_tab {
        return None;
    }
    let tc = chars_of(text);
    let single_target = targets.len() == 1 && targets[0] == result_pane;
    assert(single_target <==> targets@ == seq![result_pane]) by {
        if targets@.len() == 1 && targets@[0] == result_pane {
            assert(targets@ =~= seq![result_pane]);
        }
    }
    if mode == InputMode::Agent || !single_target || trimmed_starts_with_slash(&tc) || chars_contain(
        tc.as_slice(),
        '\n',
    ) {
        return None;
    }
    if history_available {
        return None;
    }
    let pc = chars_of(prefix);
    let cc = chars_of(completion);
    if !chars_eq(tc.as_slice(), pc.as_slice()) {
        let full = if chars_start_with(cc.as_slice(), pc.as_slice()) {
            cc
        } else {
            concat_chars(pc.as_slice(), cc.as_slice())
        };
        if !chars_start_with(full.as_slice(), tc.as_slice()) || chars_eq(
            full.as_slice(),
            tc.as_slice(),
        ) {
            return None;
        }
        return Some((string_of(tc.as_slice()), string_of(full.as_slice())));
    }
    Some((string_of(pc.as_slice()), string_of(cc.as_slice())))
}

/// When the input changed since the model was asked, the suggestion shown
/// for it starts with the whole input and adds to it; an unchanged input is
/// shown with the completion as it came.
pub proof fn law_ai_suggestion_extends_input(
    result_tab: usize,
    active_tab: usize,
    mode: InputMode,
    targets: Seq<usize>,
    result_pane: usize,
    text: Seq<char>,
    prefix: Seq<char>,
    completion: Seq<char>,
    history_available: bool,
)
    requires
        ai_suggestion(
            result_tab,
            active_tab,
            mode,
            targets,
            result_pane,
            text,
            prefix,
            completion,
            history_available,
        ) is Some,
    ensures
        ({
            let (shown_for, suggestion) = ai_suggestion(
                result_tab,
                active_tab,
                mode,
                targets,
                result_pane,
                text,
                prefix,
                completion,
                history_available,
            )->0;
            &&& text != prefix ==> shown_for == text && starts_with(suggestion, text)
                && suggestion.len() > text.len()
            &&& text == prefix ==> shown_for == prefix && suggestion == completion
        }),
{
    if text != prefix {
        let full = if starts_with(completion, prefix) {
            completion
        } else {
            prefix + completion
        };
        if full.len() == text.len() {
            assert(full.subrange(0, text.len() as int) =~= full);
        }
    }
}

} // verus!
