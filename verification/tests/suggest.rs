use con_workspace::completion::LocalPathCompletion;
use con_workspace::suggest::{ai_suggestion_to_show, choose_suggestion, suggestion_allowed, InputMode, SuggestionAction};

#[test]
fn suggestions_need_one_target_and_single_line_input() {
    assert!(suggestion_allowed(true, "ls", 1));
    assert!(!suggestion_allowed(false, "ls", 1));
    assert!(!suggestion_allowed(true, "   ", 1));
    assert!(!suggestion_allowed(true, "echo a\necho b", 1));
    assert!(!suggestion_allowed(true, "  /help", 1));
    assert!(!suggestion_allowed(true, "ls", 2));
    assert!(!suggestion_allowed(true, "ls", 0));
}

#[test]
fn path_then_history_then_model() {
    let path = LocalPathCompletion::Inline("ls src/".to_string());
    assert_eq!(
        choose_suggestion(Some(path.clone()), Some("ls -la".to_string()), InputMode::Shell, "ls s", true, true),
        SuggestionAction::Path(path)
    );
    assert_eq!(
        choose_suggestion(None, Some("ls -la".to_string()), InputMode::Agent, "ls", false, false),
        SuggestionAction::History("ls -la".to_string())
    );
    assert_eq!(choose_suggestion(None, None, InputMode::Shell, "l", false, true), SuggestionAction::RequestAi);
    assert_eq!(choose_suggestion(None, None, InputMode::Shell, "ls", false, false), SuggestionAction::SkipDisabled);
    assert_eq!(choose_suggestion(None, None, InputMode::Agent, "ls", true, true), SuggestionAction::SkipNotShell);
    assert_eq!(choose_suggestion(None, None, InputMode::Smart, " l ", true, true), SuggestionAction::SkipNotShell);
    assert_eq!(choose_suggestion(None, None, InputMode::Smart, "ls", false, true), SuggestionAction::SkipNotShell);
    assert_eq!(choose_suggestion(None, None, InputMode::Smart, "ls", true, true), SuggestionAction::RequestAi);
}

fn show(text: &str, prefix: &str, completion: &str) -> Option<(String, String)> {
    ai_suggestion_to_show(0, 0, InputMode::Shell, &vec![7], 7, text, prefix, completion, false)
}

#[test]
fn ai_suggestion_for_unchanged_input() {
    assert_eq!(show("git st", "git st", "atus"), Some(("git st".to_string(), "atus".to_string())));
}

#[test]
fn ai_suggestion_follows_typing_that_still_fits() {
    assert_eq!(show("git sta", "git st", "atus"), Some(("git sta".to_string(), "git status".to_string())));
    assert_eq!(show("git sta", "git st", "git status"), Some(("git sta".to_string(), "git status".to_string())));
    assert_eq!(show("git x", "git st", "atus"), None);
    assert_eq!(show("git status", "git st", "atus"), None);
}

#[test]
fn stale_ai_suggestions_are_dropped() {
    let targets = vec![7];
    assert_eq!(ai_suggestion_to_show(1, 0, InputMode::Shell, &targets, 7, "a", "a", "b", false), None);
    assert_eq!(ai_suggestion_to_show(0, 0, InputMode::Agent, &targets, 7, "a", "a", "b", false), None);
    assert_eq!(ai_suggestion_to_show(0, 0, InputMode::Shell, &vec![7, 8], 7, "a", "a", "b", false), None);
    assert_eq!(ai_suggestion_to_show(0, 0, InputMode::Shell, &vec![8], 7, "a", "a", "b", false), None);
    assert_eq!(ai_suggestion_to_show(0, 0, InputMode::Shell, &targets, 7, " /x", " /x", "b", false), None);
    assert_eq!(ai_suggestion_to_show(0, 0, InputMode::Shell, &targets, 7, "a\nb", "a\nb", "c", false), None);
    assert_eq!(ai_suggestion_to_show(0, 0, InputMode::Shell, &targets, 7, "a", "a", "b", true), None);
    assert_eq!(
        ai_suggestion_to_show(0, 0, InputMode::Smart, &targets, 7, "a", "a", "b", false),
        Some(("a".to_string(), "b".to_string()))
    );
}
