use con_workspace::naming::{
    new_tab_title, renamed_title, restored_tab_title, surface_title, tab_summary_update,
};
use con_workspace::naming::{
    cwd_subtitle, directory_label, display_cwd, numbered_name, pane_display_name,
    parse_focused_process, shorten_path, smart_tab_presentation, TabPresentation,
};

fn shorten(s: &str) -> String {
    shorten_path(&s.chars().collect()).into_iter().collect()
}

#[test]
fn focused_process_takes_the_command_before_the_cwd_suffix() {
    assert_eq!(
        parse_focused_process("vim README.md — ~/proj"),
        Some(("vim README.md".to_string(), "phosphor/code.svg".to_string()))
    );
    assert_eq!(
        parse_focused_process("vim README.md - ~/proj"),
        Some(("vim README.md".to_string(), "phosphor/code.svg".to_string()))
    );
    assert_eq!(
        parse_focused_process("less a - b — ~/x"),
        Some(("less a - b".to_string(), "phosphor/book-open.svg".to_string()))
    );
    assert_eq!(
        parse_focused_process("  /usr/bin/htop  "),
        Some(("/usr/bin/htop".to_string(), "phosphor/pulse.svg".to_string()))
    );
    assert_eq!(
        parse_focused_process("ssh:prod"),
        Some(("ssh:prod".to_string(), "phosphor/globe.svg".to_string()))
    );
    assert_eq!(
        parse_focused_process("LESS file.txt"),
        Some(("LESS file.txt".to_string(), "phosphor/book-open.svg".to_string()))
    );
    assert_eq!(
        parse_focused_process("lazygit"),
        Some(("lazygit".to_string(), "phosphor/file-code.svg".to_string()))
    );
    assert_eq!(
        parse_focused_process("cargo build"),
        Some(("cargo build".to_string(), "phosphor/terminal.svg".to_string()))
    );
}

#[test]
fn bare_shells_and_blank_titles_are_no_process() {
    assert_eq!(parse_focused_process("zsh"), None);
    assert_eq!(parse_focused_process("/bin/bash"), None);
    assert_eq!(parse_focused_process("tmux — ~/x"), None);
    assert_eq!(parse_focused_process("   "), None);
    assert_eq!(parse_focused_process(" — vim"), None);
}

#[test]
fn long_paths_keep_their_last_two_components() {
    assert_eq!(shorten("/Users/alice/projects/deeply/nested/repo/src"), "/…/repo/src");
    assert_eq!(shorten("~/projects/some/very/long/path/to/repo"), "…/to/repo");
    assert_eq!(shorten("/short/path"), "/short/path");
    assert_eq!(shorten("/a-very-long-directory-name-here/and-another-one"), "/a-very-long-directory-name-here/and-another-one");
}

#[test]
fn subtitle_abbreviates_the_home_directory() {
    assert_eq!(cwd_subtitle(Some("/home/u"), Some("/home/u")), Some("~".to_string()));
    assert_eq!(cwd_subtitle(Some("/home/u/proj"), Some("/home/u")), Some("~/proj".to_string()));
    assert_eq!(cwd_subtitle(Some("/home/user2"), Some("/home/u")), Some("/home/user2".to_string()));
    assert_eq!(cwd_subtitle(Some("/etc"), None), Some("/etc".to_string()));
    assert_eq!(cwd_subtitle(None, Some("/home/u")), None);
}

#[test]
fn input_bar_cwd_replaces_the_home_prefix() {
    assert_eq!(display_cwd(Some("/home/u/x"), Some("/home/u")), "~/x");
    assert_eq!(display_cwd(Some("/home/user2"), Some("/home/u")), "~ser2");
    assert_eq!(display_cwd(Some("/srv"), Some("/home/u")), "/srv");
    assert_eq!(display_cwd(Some("/srv"), None), "/srv");
    assert_eq!(display_cwd(None, Some("/home/u")), "~");
}

#[test]
fn directory_label_skips_bare_home_directories() {
    assert_eq!(directory_label("/home/alice"), None);
    assert_eq!(directory_label("/Users/alice"), None);
    assert_eq!(directory_label("/home/alice/proj"), Some("proj".to_string()));
    assert_eq!(directory_label("/srv/home/alice"), Some("alice".to_string()));
    assert_eq!(directory_label("/"), None);
}

#[test]
fn numbered_names() {
    assert_eq!(numbered_name("Tab", 3), "Tab 3");
    assert_eq!(numbered_name("Terminal", 10), "Terminal 10");
    assert_eq!(numbered_name("Pane", 0), "Pane 0");
}

#[test]
fn pane_names_prefer_host_then_directory_then_title() {
    let s = |x: &str| Some(x.to_string());
    assert_eq!(pane_display_name(&s("prod"), &s("vim"), &s("/srv/app"), 0), "prod");
    assert_eq!(pane_display_name(&None, &s("vim"), &s("/srv/app"), 0), "app");
    assert_eq!(pane_display_name(&None, &s("  vim  "), &s("/home/bob"), 0), "vim");
    assert_eq!(pane_display_name(&None, &s("   "), &None, 4), "Pane 5");
    assert_eq!(pane_display_name(&None, &None, &None, 0), "Pane 1");
}

fn row(name: &str, subtitle: Option<&str>, icon: &str, is_ssh: bool) -> TabPresentation {
    TabPresentation {
        name: name.to_string(),
        subtitle: subtitle.map(|s| s.to_string()),
        icon: icon.to_string(),
        is_ssh,
    }
}

#[test]
fn tab_rows_follow_the_naming_priority() {
    let home = Some("/home/u");
    assert_eq!(
        smart_tab_presentation(Some(" build "), Some("ai"), None, None, Some("vim a"), Some("/home/u/p"), 0, home),
        row("build", None, "phosphor/terminal.svg", false)
    );
    assert_eq!(
        smart_tab_presentation(None, Some("Deploy"), Some("phosphor/rocket.svg"), None, None, None, 0, home),
        row("Deploy", None, "phosphor/rocket.svg", false)
    );
    assert_eq!(
        smart_tab_presentation(Some("x"), None, Some("phosphor/rocket.svg"), Some("prod"), None, None, 0, home),
        row("x", None, "phosphor/terminal.svg", true)
    );
    assert_eq!(
        smart_tab_presentation(None, None, None, Some(" prod "), Some("vim"), Some("/srv"), 0, home),
        row("prod", Some("/srv"), "phosphor/globe.svg", true)
    );
    assert_eq!(
        smart_tab_presentation(None, None, None, None, Some("htop"), Some("/srv/app"), 0, home),
        row("htop", Some("app"), "phosphor/pulse.svg", false)
    );
    assert_eq!(
        smart_tab_presentation(None, None, None, None, Some("zsh"), Some("/srv/app"), 0, home),
        row("app", None, "phosphor/terminal.svg", false)
    );
    assert_eq!(
        smart_tab_presentation(None, None, None, None, Some(" zsh "), Some("/home/u"), 0, home),
        row("zsh", None, "phosphor/terminal.svg", false)
    );
    assert_eq!(
        smart_tab_presentation(Some("api"), None, None, None, None, Some("/srv/app"), 0, home),
        row("api", None, "phosphor/terminal.svg", false)
    );
    assert_eq!(
        smart_tab_presentation(None, Some("Deploy"), None, None, Some("vim a"), Some("/home/u/p"), 0, home),
        row("Deploy", Some("~/p"), "phosphor/code.svg", false)
    );
    assert_eq!(
        smart_tab_presentation(None, None, None, None, None, None, 2, home),
        row("Tab 3", None, "phosphor/terminal.svg", false)
    );
}

#[test]
fn surface_titles_fall_back_to_a_number() {
    assert_eq!(surface_title(Some("logs"), Some("vim"), 0), "logs");
    assert_eq!(surface_title(None, Some("vim"), 0), "vim");
    assert_eq!(surface_title(None, None, 2), "Surface 3");
    assert_eq!(renamed_title("  build  "), Some("build".to_string()));
    assert_eq!(renamed_title("   "), None);
}

#[test]
fn tab_summary_applies_only_when_current_and_changed() {
    let shown = Some((Some("build"), Some(3u32)));
    assert_eq!(tab_summary_update(2, 2, true, true, shown, "  deploy ", 3), Some(("deploy".to_string(), 3)));
    assert_eq!(tab_summary_update(2, 2, true, true, shown, " build ", 3), None);
    assert_eq!(tab_summary_update(2, 2, true, true, shown, "build", 4), Some(("build".to_string(), 4)));
    assert_eq!(tab_summary_update(1, 2, true, true, shown, "deploy", 3), None);
    assert_eq!(tab_summary_update(2, 2, false, true, shown, "deploy", 3), None);
    assert_eq!(tab_summary_update(2, 2, true, false, shown, "deploy", 3), None);
    assert_eq!(tab_summary_update(2, 2, true, true, None, "deploy", 3), None);
    assert_eq!(tab_summary_update(0, 0, true, true, Some((None, None)), "x", 0), Some(("x".to_string(), 0)));
}

#[test]
fn restored_and_new_tabs_are_titled_by_number() {
    assert_eq!(restored_tab_title("", 0), "Terminal 1");
    assert_eq!(restored_tab_title("build", 4), "build");
    assert_eq!(new_tab_title(2), "Terminal 3");
}
