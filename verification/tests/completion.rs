use con_workspace::completion::{
    finish_path_completion, longest_common_prefix, plan_path_completion, sort_by_name,
    LocalPathCompletion, PathCompletionPlan, SearchDir,
};

fn strings(v: &[&str]) -> Vec<String> {
    v.iter().map(|s| s.to_string()).collect()
}

fn entries(v: &[(&str, bool)]) -> Vec<(String, bool)> {
    v.iter().map(|(n, d)| (n.to_string(), *d)).collect()
}

#[test]
fn longest_common_prefix_of_names() {
    assert_eq!(longest_common_prefix(&strings(&["foobar", "foobaz", "foo"])), "foo");
    assert_eq!(longest_common_prefix(&strings(&["config.toml", "config.rs"])), "config.");
    assert_eq!(longest_common_prefix(&strings(&["alpha"])), "alpha");
    assert_eq!(longest_common_prefix(&strings(&["abc", "xyz"])), "");
    assert_eq!(longest_common_prefix(&strings(&[])), "");
}

#[test]
fn entries_sort_by_name_stably() {
    let sorted = sort_by_name(&entries(&[("b", false), ("a", true), ("B", false), ("a", false), ("é", false)]));
    assert_eq!(sorted, entries(&[("B", false), ("a", true), ("a", false), ("b", false), ("é", false)]));
}

#[test]
fn plan_for_a_token_under_home() {
    let plan = plan_path_completion("cd ~/pro", Some("/home/u")).unwrap();
    assert_eq!(plan.token_start, 3);
    assert_eq!(plan.search_dir, SearchDir::Path("/home/u".to_string()));
    assert_eq!(plan.dir_prefix, "~/");
    assert_eq!(plan.search_prefix, "pro");
    assert!(plan.directories_only);
    assert!(!plan.bare_tilde);

    let plan = plan_path_completion("ls ~/src/li", Some("/home/u")).unwrap();
    assert_eq!(plan.search_dir, SearchDir::Path("/home/u/src".to_string()));
    assert_eq!(plan.dir_prefix, "~/src/");
    assert_eq!(plan.search_prefix, "li");
    assert!(!plan.directories_only);

    let plan = plan_path_completion("ls ~", Some("/home/u")).unwrap();
    assert_eq!(plan.search_dir, SearchDir::Path("/home/u".to_string()));
    assert_eq!(plan.dir_prefix, "");
    assert_eq!(plan.search_prefix, "~");
    assert!(plan.bare_tilde);

    assert_eq!(plan_path_completion("ls ~/x", None), None);
    assert_eq!(plan_path_completion("ls ~", None), None);
}

#[test]
fn plan_for_relative_and_absolute_tokens() {
    let plan = plan_path_completion("ls src/ma", None).unwrap();
    assert_eq!(plan.token_start, 3);
    assert_eq!(plan.search_dir, SearchDir::CwdJoin("src".to_string()));
    assert_eq!(plan.dir_prefix, "src/");
    assert_eq!(plan.search_prefix, "ma");

    let plan = plan_path_completion("cat /etc/ho", None).unwrap();
    assert_eq!(plan.search_dir, SearchDir::Path("/etc".to_string()));
    assert_eq!(plan.dir_prefix, "/etc/");
    assert_eq!(plan.search_prefix, "ho");

    let plan = plan_path_completion("ls /", None).unwrap();
    assert_eq!(plan.search_dir, SearchDir::Path("/".to_string()));
    assert_eq!(plan.dir_prefix, "/");
    assert_eq!(plan.search_prefix, "");

    let plan = plan_path_completion("cd  do", None).unwrap();
    assert_eq!(plan.token_start, 4);
    assert_eq!(plan.search_dir, SearchDir::Cwd);
    assert_eq!(plan.search_prefix, "do");
    assert!(plan.directories_only);

    let plan = plan_path_completion("./scr", None).unwrap();
    assert_eq!(plan.token_start, 0);
    assert_eq!(plan.search_dir, SearchDir::CwdJoin(".".to_string()));
    assert_eq!(plan.dir_prefix, "./");
    assert_eq!(plan.search_prefix, "scr");

    let plan = plan_path_completion("vim .bash", None).unwrap();
    assert_eq!(plan.search_dir, SearchDir::Cwd);
    assert_eq!(plan.dir_prefix, "");
    assert_eq!(plan.search_prefix, ".bash");
}

#[test]
fn no_plan_for_words_that_are_not_paths() {
    assert_eq!(plan_path_completion("echo hi", None), None);
    assert_eq!(plan_path_completion("ls ", None), None);
    assert_eq!(plan_path_completion("", None), None);
    assert_eq!(plan_path_completion("cdx foo", None), None);
}

fn plan(token_start: usize, dir_prefix: &str, search_prefix: &str, directories_only: bool, bare_tilde: bool) -> PathCompletionPlan {
    PathCompletionPlan {
        token_start,
        search_dir: SearchDir::Cwd,
        dir_prefix: dir_prefix.to_string(),
        search_prefix: search_prefix.to_string(),
        directories_only,
        bare_tilde,
    }
}

#[test]
fn several_matches_with_no_longer_prefix_are_candidates() {
    let r = finish_path_completion(
        "ls src/m",
        &plan(3, "src/", "m", false, false),
        &entries(&[("mod.rs", false), ("lib.rs", false), ("main.rs", false), ("macros", true)]),
    );
    assert_eq!(
        r,
        Some(LocalPathCompletion::Candidates(strings(&[
            "ls src/macros/",
            "ls src/main.rs",
            "ls src/mod.rs"
        ])))
    );
}

#[test]
fn one_match_completes_inline_with_a_slash_for_directories() {
    let r = finish_path_completion("ls ta", &plan(3, "", "ta", false, false), &entries(&[("target", true), ("src", true)]));
    assert_eq!(r, Some(LocalPathCompletion::Inline("ls target/".to_string())));
    let r = finish_path_completion("cd s", &plan(3, "", "s", true, false), &entries(&[("src", true), ("setup.py", false)]));
    assert_eq!(r, Some(LocalPathCompletion::Inline("cd src/".to_string())));
}

#[test]
fn a_longer_common_prefix_completes_inline() {
    let r = finish_path_completion(
        "vim c",
        &plan(4, "", "c", false, false),
        &entries(&[("config.toml", false), ("config.rs", false)]),
    );
    assert_eq!(r, Some(LocalPathCompletion::Inline("vim config.".to_string())));
}

#[test]
fn bare_tilde_names_replace_the_token() {
    let r = finish_path_completion("ls ~", &plan(3, "", "~", false, true), &entries(&[("~backup", true), ("x", false)]));
    assert_eq!(r, Some(LocalPathCompletion::Inline("ls ~backup/".to_string())));
}

#[test]
fn nothing_matches_nothing_is_offered() {
    let r = finish_path_completion("ls zz", &plan(3, "", "zz", false, false), &entries(&[("a", false)]));
    assert_eq!(r, None);
    let r = finish_path_completion("cd f", &plan(3, "", "f", true, false), &entries(&[("file", false)]));
    assert_eq!(r, None);
}

#[test]
fn completions_always_extend_the_input() {
    let dir = entries(&[("src", true), ("scripts", true), ("setup.py", false), ("target", true)]);
    for input in ["cd s", "vim ./s", "ls ./sc", "cat ./se", "ls ~/t", "cd ~"] {
        let plan = plan_path_completion(input, Some("/home/u")).unwrap();
        let texts = match finish_path_completion(input, &plan, &dir) {
            Some(LocalPathCompletion::Inline(t)) => vec![t],
            Some(LocalPathCompletion::Candidates(v)) => v,
            None => vec![],
        };
        for t in texts {
            assert!(t.starts_with(input), "{t:?} does not extend {input:?}");
        }
    }
}
