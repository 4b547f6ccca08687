//! How tabs, panes and surfaces are named and labelled: numbered fallback
//! names, the focused-process heuristic, cwd subtitles and path shortening,
//! and the vertical-tabs presentation.
use vstd::prelude::*;
use vstd::string::StringExecFns;
use crate::history::opt_view;
use crate::text::{
    ascii_lower_seq, chars_eq, chars_of, chars_start_with, concat_chars, is_whitespace, is_ws,
    lower_chars, slice_chars, starts_with, string_of, trim_chars, trim_seq, trim_str,
};

verus! {

/// The decimal digit for `d < 10`.
pub open spec fn digit_char(d: nat) -> char {
    ((('0' as u32) as nat + d) as u32) as char
}

/// The decimal representation of `n`.
pub open spec fn decimal(n: nat) -> Seq<char>
    decreases n,
{
    if n < 10 {
        seq![digit_char(n)]
    } else {
        decimal(n / 10).push(digit_char(n % 10))
    }
}

fn digit(d: usize) -> (c: char)
    requires
        d < 10,
    ensures
        c == digit_char(d as nat),
{
    let code: u8 = 48u8 + (d as u8);
    code as char
}

/// The decimal representation of `n`.
pub fn decimal_chars(n: usize) -> (r: Vec<char>)
    ensures
        r@ == decimal(n as nat),
    decreases n,
{
    if n < 10 {
        let mut v: Vec<char> = Vec::new();
        v.push(digit(n));
        assert(v@ =~= seq![digit_char(n as nat)]);
        v
    } else {
        let mut v = decimal_chars(n / 10);
        v.push(digit(n % 10));
        v
    }
}

/// `word` followed by a space and the decimal `n` (as in "Pane 3").
pub open spec fn numbered(word: Seq<char>, n: nat) -> Seq<char> {
    word + seq![' '] + decimal(n)
}

/// `word`, a space and the decimal `n` (as in "Pane 3").
pub fn numbered_name(word: &str, n: usize) -> (r: String)
    ensures
        r@ == numbered(word@, n as nat),
{
    let w = chars_of(word);
    let mut sp: Vec<char> = Vec::new();
    sp.push(' ');
    let a = concat_chars(w.as_slice(), sp.as_slice());
    let d = decimal_chars(n);
    let all = concat_chars(a.as_slice(), d.as_slice());
    assert(sp@ =~= seq![' ']);
    string_of(all.as_slice())
}

/// The last component of a path, as `Path::file_name` gives it under the
/// path rules of the platform the crate is built for.
pub uninterp spec fn path_file_name(p: Seq<char>) -> Option<Seq<char>>;

/// The path without its last component, as `Path::parent` gives it under
/// the path rules of the platform the crate is built for.
pub uninterp spec fn path_parent(p: Seq<char>) -> Option<Seq<char>>;

/// Calls `Path::file_name`. Claimed: the result (converted to a `String`,
/// which loses nothing for a name taken from a UTF-8 path) is
/// [`path_file_name`] of the argument, so it depends on the path alone.
#[verifier::external_body]
fn file_name(p: &str) -> (r: Option<String>)
    ensures
        opt_view(r) == path_file_name(p@),
{
    std::path::Path::new(p).file_name().map(|n| n.to_string_lossy().into_owned())
}

/// Calls `Path::parent`. Claimed: the result (as a `String`, lossless for a
/// UTF-8 path) is [`path_parent`] of the argument, so it depends on the
/// path alone.
#[verifier::external_body]
fn parent(p: &str) -> (r: Option<String>)
    ensures
        opt_view(r) == path_parent(p@),
{
    std::path::Path::new(p).parent().map(|q| q.to_string_lossy().into_owned())
}

/// A bare home directory such as `/Users/name` or `/home/name`: its parent
/// is named `home` or `Users` and sits directly under the root.
pub open spec fn is_bare_home(dir: Seq<char>) -> bool {
    &&& path_parent(dir) matches Some(p) && (path_file_name(p) == Some("home"@) || path_file_name(p)
        == Some("Users"@))
    &&& path_parent(dir) matches Some(p) && path_parent(p) matches Some(pp) && path_parent(
        pp,
    ) is None
}

/// The directory name shown for `dir`: its last component, unless `dir` is a
/// bare home directory.
pub open spec fn dir_label(dir: Seq<char>) -> Option<Seq<char>> {
    if is_bare_home(dir) {
        None
    } else {
        path_file_name(dir)
    }
}

fn opt_lit_eq(o: &Option<String>, lit: &str) -> (r: bool)
    ensures
        r == (opt_view(*o) == Some(lit@)),
{
    match o {
        Some(x) => {
            let a = chars_of(x.as_str());
            let b = chars_of(lit);
            chars_eq(a.as_slice(), b.as_slice())
        },
        None => false,
    }
}

/// The directory name shown for `dir` (see [`dir_label`]).
pub fn directory_label(dir: &str) -> (r: Option<String>)
    ensures
        opt_view(r) == dir_label(dir@),
{
    let p = parent(dir);
    let named_home = match &p {
        Some(pv) => {
            let n = file_name(pv.as_str());
            opt_lit_eq(&n, "home") || opt_lit_eq(&n, "Users")
        },
        None => false,
    };
    let under_root = match &p {
        Some(pv) => match parent(pv.as_str()) {
            Some(pp) => parent(pp.as_str()).is_none(),
            None => false,
        },
        None => false,
    };
    if named_home && under_root {
        None
    } else {
        file_name(dir)
    }
}

/// The name of a pane: its proven remote host; else its directory name;
/// else its trimmed title when not blank; else "Pane N" (N = id + 1).
pub open spec fn pane_name(host: Option<Seq<char>>, title: Option<Seq<char>>, cwd: Option<Seq<char>>, pane_id: nat) -> Seq<char> {
    match host {
        Some(h) => h,
        None => match (match cwd {
            Some(d) => dir_label(d),
            None => None,
        }) {
            Some(b) => b,
            None => match title {
                Some(t) => if trim_seq(t).len() > 0 {
                    trim_seq(t)
                } else {
                    numbered("Pane"@, pane_id + 1)
                },
                None => numbered("Pane"@, pane_id + 1),
            },
        },
    }
}

fn clone_str(s: &String) -> (r: String)
    ensures
        r@ == s@,
{
    s.clone()
}

/// The name of a pane (see [`pane_name`]).
pub fn pane_display_name(
    hostname: &Option<String>,
    title: &Option<String>,
    current_dir: &Option<String>,
    pane_id: usize,
) -> (r: String)
    requires
        pane_id < usize::MAX,
    ensures
        r@ == pane_name(opt_view(*hostname), opt_view(*title), opt_view(*current_dir), pane_id as nat),
{
    if let Some(host) = hostname {
        return clone_str(host);
    }
    if let Some(dir) = current_dir {
        if let Some(base) = directory_label(dir.as_str()) {
            return base;
        }
    }
    if let Some(t) = title {
        let tc = chars_of(t.as_str());
        let tt = trim_chars(&tc);
        if tt.len() > 0 {
            return string_of(tt.as_slice());
        }
    }
    numbered_name("Pane", pane_id + 1)
}

// ── path shortening ─────────────────────────────────────────────────────

/// Splitting on `/`: the finished non-empty components and the component
/// being read.
pub open spec fn split_slash(s: Seq<char>) -> (Seq<Seq<char>>, Seq<char>)
    decreases s.len(),
{
    if s.len() == 0 {
        (Seq::empty(), Seq::empty())
    } else {
        let (parts, cur) = split_slash(s.drop_last());
        if s.last() == '/' {
            if cur.len() > 0 {
                (parts.push(cur), Seq::empty())
            } else {
                (parts, Seq::empty())
            }
        } else {
            (parts, cur.push(s.last()))
        }
    }
}

/// The non-empty `/`-separated components of `s`.
pub open spec fn path_segments(s: Seq<char>) -> Seq<Seq<char>> {
    let (parts, cur) = split_slash(s);
    if cur.len() > 0 {
        parts.push(cur)
    } else {
        parts
    }
}

/// Longest path shown in full in a subtitle.
pub const MAX_SUBTITLE_CHARS: usize = 32;

/// A path of more than 32 characters with more than two components shows as
/// `…/parent/last` (keeping a leading `/`); others show in full.
pub open spec fn shortened(path: Seq<char>) -> Seq<char> {
    let parts = path_segments(path);
    if path.len() <= MAX_SUBTITLE_CHARS || parts.len() <= 2 {
        path
    } else {
        let prefix = if path.len() > 0 && path[0] == '/' {
            seq!['/']
        } else {
            Seq::<char>::empty()
        };
        prefix + seq!['…', '/'] + parts[parts.len() - 2] + seq!['/'] + parts[parts.len() - 1]
    }
}

fn segments_of(s: &Vec<char>) -> (r: Vec<Vec<char>>)
    ensures
        r@.map_values(|v: Vec<char>| v@) == path_segments(s@),
{
    let mut parts: Vec<Vec<char>> = Vec::new();
    let mut cur: Vec<char> = Vec::new();
    let mut i: usize = 0;
    assert(s@.subrange(0, 0) =~= Seq::<char>::empty());
    while i < s.len()
        invariant
            i <= s@.len(),
            (parts@.map_values(|v: Vec<char>| v@), cur@) == split_slash(s@.subrange(0, i as int)),
        decreases s@.len() - i,
    {
        proof {
            let pre = s@.subrange(0, i + 1);
            assert(pre.drop_last() =~= s@.subrange(0, i as int));
            assert(pre.last() == s@[i as int]);
        }
        let ghost pv = parts@.map_values(|v: Vec<char>| v@);
        if s[i] == '/' {
            if cur.len() > 0 {
                let done = cur;
                cur = Vec::new();
                let ghost dv = done@;
                parts.push(done);
                assert(parts@.map_values(|v: Vec<char>| v@) =~= pv.push(dv));
                assert(cur@ =~= Seq::<char>::empty());
            } else {
                cur = Vec::new();
                assert(cur@ =~= Seq::<char>::empty());
            }
        } else {
            cur.push(s[i]);
        }
        i = i + 1;
    }
    assert(s@.subrange(0, s@.len() as int) =~= s@);
    if cur.len() > 0 {
        let ghost pv = parts@.map_values(|v: Vec<char>| v@);
        let ghost cv = cur@;
        parts.push(cur);
        assert(parts@.map_values(|v: Vec<char>| v@) =~= pv.push(cv));
    }
    parts
}

/// The path as shown in a subtitle (see [`shortened`]).
pub fn shorten_path(path: &Vec<char>) -> (r: Vec<char>)
    ensures
        r@ == shortened(path@),
{
    if path.len() <= MAX_SUBTITLE_CHARS {
        return slice_chars(path.as_slice(), 0, path.len());
    }
    let parts = segments_of(path);
    if parts.len() <= 2 {
        return slice_chars(path.as_slice(), 0, path.len());
    }
    let mut out: Vec<char> = Vec::new();
    if path[0] == '/' {
        out.push('/');
    }
    out.push('…');
    out.push('/');
    let a = concat_chars(out.as_slice(), parts[parts.len() - 2].as_slice());
    let mut b = a;
    b.push('/');
    let c = concat_chars(b.as_slice(), parts[parts.len() - 1].as_slice());
    proof {
        let pv = parts@.map_values(|v: Vec<char>| v@);
        assert(pv[pv.len() - 2] == parts@[parts@.len() - 2]@);
        assert(pv[pv.len() - 1] == parts@[parts@.len() - 1]@);
        let prefix = if path@[0] == '/' {
            seq!['/']
        } else {
            Seq::<char>::empty()
        };
        assert(out@ =~= prefix + seq!['…', '/']);
        assert(c@ =~= shortened(path@));
    }
    c
}

/// The subtitle for a directory: `~` for the home directory itself, the
/// home-relative form for paths under it, the path otherwise; shortened.
pub open spec fn cwd_subtitle_spec(dir: Seq<char>, home: Option<Seq<char>>) -> Seq<char> {
    match home {
        Some(h) => if dir == h {
            seq!['~']
        } else if starts_with(dir, h) && dir.len() > h.len() && dir[h.len() as int] == '/' {
            shortened(seq!['~'] + dir.subrange(h.len() as int, dir.len() as int))
        } else {
            shortened(dir)
        },
        None => shortened(dir),
    }
}

/// The subtitle for an optional directory, given the user's `HOME`.
pub fn cwd_subtitle(current_dir: Option<&str>, home: Option<&str>) -> (r: Option<String>)
    ensures
        match current_dir {
            Some(d) => opt_view(r) == Some(
                cwd_subtitle_spec(
                    d@,
                    match home {
                        Some(h) => Some(h@),
                        None => None,
                    },
                ),
            ),
            None => r is None,
        },
{
    let dir = match current_dir {
        Some(d) => d,
        None => return None,
    };
    let dc = chars_of(dir);
    if let Some(h) = home {
        let hc = chars_of(h);
        if chars_eq(dc.as_slice(), hc.as_slice()) {
            let mut t: Vec<char> = Vec::new();
            t.push('~');
            assert(t@ =~= seq!['~']);
            return Some(string_of(t.as_slice()));
        }
        if chars_start_with(dc.as_slice(), hc.as_slice()) && dc.len() > hc.len() && dc[hc.len()] == '/' {
            let mut t: Vec<char> = Vec::new();
            t.push('~');
            let rest = slice_chars(dc.as_slice(), hc.len(), dc.len());
            let tr = concat_chars(t.as_slice(), rest.as_slice());
            assert(t@ =~= seq!['~']);
            let s = shorten_path(&tr);
            return Some(string_of(s.as_slice()));
        }
    }
    let s = shorten_path(&dc);
    Some(string_of(s.as_slice()))
}

/// The working directory shown in the input bar: home-relative (`~` + the
/// rest) when it starts with the home directory, as it is otherwise, and `~`
/// when unknown.
pub open spec fn display_cwd_spec(cwd: Option<Seq<char>>, home: Option<Seq<char>>) -> Seq<char> {
    match cwd {
        Some(c) => match home {
            Some(h) => if starts_with(c, h) {
                seq!['~'] + c.subrange(h.len() as int, c.len() as int)
            } else {
                c
            },
            None => c,
        },
        None => seq!['~'],
    }
}

/// The working directory shown in the input bar (see [`display_cwd_spec`]).
pub fn display_cwd(cwd: Option<&str>, home: Option<&str>) -> (r: String)
    ensures
        r@ == display_cwd_spec(
            match cwd {
                Some(c) => Some(c@),
                None => None,
            },
            match home {
                Some(h) => Some(h@),
                None => None,
            },
        ),
{
    let mut tilde: Vec<char> = Vec::new();
    tilde.push('~');
    assert(tilde@ =~= seq!['~']);
    match cwd {
        Some(c) => {
            let cc = chars_of(c);
            match home {
                Some(h) => {
                    let hc = chars_of(h);
                    if chars_start_with(cc.as_slice(), hc.as_slice()) {
                        let rest = slice_chars(cc.as_slice(), hc.len(), cc.len());
                        let t = concat_chars(tilde.as_slice(), rest.as_slice());
                        string_of(t.as_slice())
                    } else {
                        string_of(cc.as_slice())
                    }
                },
                None => string_of(cc.as_slice()),
            }
        },
        None => string_of(tilde.as_slice()),
    }
}


/// The working directory shown in the input bar, with the home directory
/// that the environment gives (see [`display_cwd_spec`]).
pub fn display_cwd_from_env(cwd: Option<&str>) -> (r: String)
    ensures
        exists|h: Option<Seq<char>>| r@ == #[trigger] display_cwd_spec(sv(cwd), h),
{
    let home = crate::completion::home_dir();
    match &home {
        Some(h) => display_cwd(cwd, Some(h.as_str())),
        None => display_cwd(cwd, None),
    }
}

// ── focused process heuristic ───────────────────────────────────────────

/// `pat` occurs in `s` at `i`.
pub open spec fn sub_at(s: Seq<char>, pat: Seq<char>, i: int) -> bool {
    0 <= i && i + pat.len() <= s.len() && s.subrange(i, i + pat.len()) == pat
}

/// The first occurrence of `pat` in `s` at or after `i`.
pub open spec fn first_sub_from(s: Seq<char>, pat: Seq<char>, i: int) -> Option<int>
    decreases s.len() + 1 - i,
{
    if i < 0 || i + pat.len() > s.len() {
        None
    } else if sub_at(s, pat, i) {
        Some(i)
    } else {
        first_sub_from(s, pat, i + 1)
    }
}

/// `s` up to the first occurrence of `pat` (all of it when `pat` does not
/// occur): the first piece of `str::split`.
pub open spec fn before_first(s: Seq<char>, pat: Seq<char>) -> Seq<char> {
    match first_sub_from(s, pat, 0) {
        Some(i) => s.take(i),
        None => s,
    }
}

/// A character that ends the first word of a title.
pub open spec fn is_word_break(c: char) -> bool {
    is_ws(c) || c == ':'
}

/// Index of the first word break at or after `i` (or `s.len()`).
pub open spec fn first_break_from(s: Seq<char>, i: int) -> int
    decreases s.len() - i,
{
    if i < 0 || i >= s.len() {
        s.len() as int
    } else if is_word_break(s[i]) {
        i
    } else {
        first_break_from(s, i + 1)
    }
}

/// `s` without its leading `/` characters.
pub open spec fn strip_leading_slashes(s: Seq<char>) -> Seq<char>
    decreases s.len(),
{
    if s.len() > 0 && s[0] == '/' {
        strip_leading_slashes(s.drop_first())
    } else {
        s
    }
}

/// The part of `s` after its last `/` (all of `s` without one).
pub open spec fn after_last_slash(s: Seq<char>) -> Seq<char>
    decreases s.len(),
{
    if s.len() == 0 {
        s
    } else if s.last() == '/' {
        Seq::empty()
    } else {
        after_last_slash(s.drop_last()).push(s.last())
    }
}

/// Shells: a title naming one is not an interesting process.
pub open spec fn shell_names() -> Seq<Seq<char>> {
    seq![
        "bash"@, "sh"@, "zsh"@, "fish"@, "dash"@, "ksh"@, "ion"@, "nu"@, "pwsh"@,
        "powershell"@, "cmd"@, "tmux"@, "screen"@,
    ]
}

pub open spec fn editor_names() -> Seq<Seq<char>> {
    seq![
        "vim"@, "nvim"@, "vi"@, "neovim"@, "nano"@, "emacs"@, "ed"@, "helix"@, "hx"@,
        "kakoune"@, "kak"@, "micro"@, "code"@, "codium"@, "subl"@,
    ]
}

pub open spec fn monitor_names() -> Seq<Seq<char>> {
    seq![
        "htop"@, "top"@, "btop"@, "btm"@, "atop"@, "iotop"@, "glances"@, "nvtop"@,
        "bashtop"@, "ctop"@, "k9s"@,
    ]
}

pub open spec fn pager_names() -> Seq<Seq<char>> {
    seq!["less"@, "more"@, "most"@, "bat"@, "cat"@, "tail"@, "head"@, "view"@, "man"@]
}

pub open spec fn remote_names() -> Seq<Seq<char>> {
    seq!["ssh"@, "mosh"@]
}

pub open spec fn vcs_names() -> Seq<Seq<char>> {
    seq!["git"@, "lazygit"@, "tig"@, "gh"@]
}

/// The icon for a (lowercased) process name.
pub open spec fn process_icon(name: Seq<char>) -> Seq<char> {
    if editor_names().contains(name) {
        "phosphor/code.svg"@
    } else if monitor_names().contains(name) {
        "phosphor/pulse.svg"@
    } else if pager_names().contains(name) {
        "phosphor/book-open.svg"@
    } else if remote_names().contains(name) {
        "phosphor/globe.svg"@
    } else if vcs_names().contains(name) {
        "phosphor/file-code.svg"@
    } else {
        "phosphor/terminal.svg"@
    }
}

/// The part of a terminal title that names the command: the title up to
/// the first " — " when it has one, else up to the first " - " (both set
/// off the working directory, as in `vim README.md - ~/proj`).
pub open spec fn command_part(title: Seq<char>) -> Seq<char> {
    if first_sub_from(title, " — "@, 0) is Some {
        before_first(title, " — "@)
    } else {
        before_first(title, " - "@)
    }
}

/// The command a terminal title shows and its icon: the command part of the
/// title (see [`command_part`]), trimmed; its first word (up to whitespace or `:`), without leading
/// slashes, names the process by its last path component, compared in ASCII
/// lowercase. A bare shell, or a blank title, gives nothing.
pub open spec fn focused_process(title: Seq<char>) -> Option<(Seq<char>, Seq<char>)> {
    let t = trim_seq(command_part(title));
    if t.len() == 0 {
        None
    } else {
        let word = strip_leading_slashes(t.take(first_break_from(t, 0)));
        let name = ascii_lower_seq(after_last_slash(word));
        if shell_names().contains(name) {
            None
        } else {
            Some((t, process_icon(name)))
        }
    }
}

/// The name a title's command word gives: the first word of the trimmed
/// command part, without leading slashes, its last path component, in ASCII
/// lowercase.
pub open spec fn command_name(title: Seq<char>) -> Seq<char> {
    let t = trim_seq(command_part(title));
    ascii_lower_seq(after_last_slash(strip_leading_slashes(t.take(first_break_from(t, 0)))))
}

/// A bare shell or multiplexer is no focused process: a title whose command
/// word names bash, sh, zsh, fish, dash, ksh, ion, nu, pwsh, powershell,
/// cmd, tmux or screen (in any ASCII case, by path or not) gives nothing, so
/// the tab is named by its directory instead. Any other non-blank command
/// is one, named by the command part of the title.
pub proof fn law_bare_shells_are_no_process(title: Seq<char>)
    ensures
        ({
            let n = command_name(title);
            (n == "bash"@ || n == "sh"@ || n == "zsh"@ || n == "fish"@ || n == "dash"@ || n == "ksh"@
                || n == "ion"@ || n == "nu"@ || n == "pwsh"@ || n == "powershell"@ || n == "cmd"@
                || n == "tmux"@ || n == "screen"@) ==> focused_process(title) is None
        }),
        focused_process(title) matches Some(p) ==> p.0 == trim_seq(command_part(title)) && p.0.len()
            > 0,
{
    let n = command_name(title);
    let names = shell_names();
    assert(names[0] == "bash"@);
    assert(names[1] == "sh"@);
    assert(names[2] == "zsh"@);
    assert(names[3] == "fish"@);
    assert(names[4] == "dash"@);
    assert(names[5] == "ksh"@);
    assert(names[6] == "ion"@);
    assert(names[7] == "nu"@);
    assert(names[8] == "pwsh"@);
    assert(names[9] == "powershell"@);
    assert(names[10] == "cmd"@);
    assert(names[11] == "tmux"@);
    assert(names[12] == "screen"@);
}

fn list_contains(list: &Vec<&str>, v: &Vec<char>) -> (r: bool)
    ensures
        r == list@.map_values(|s: &str| s@).contains(v@),
{
    let ghost lv = list@.map_values(|s: &str| s@);
    let mut i: usize = 0;
    while i < list.len()
        invariant
            i <= list@.len(),
            lv == list@.map_values(|s: &str| s@),
            forall|j: int| 0 <= j < i ==> lv[j] != v@,
        decreases list@.len() - i,
    {
        let c = chars_of(list[i]);
        if chars_eq(c.as_slice(), v.as_slice()) {
            assert(lv[i as int] == v@);
            return true;
        }
        i = i + 1;
    }
    false
}

fn names_contain(list: Vec<&str>, spec_list: Ghost<Seq<Seq<char>>>, v: &Vec<char>) -> (r: bool)
    requires
        list@.map_values(|s: &str| s@) == spec_list@,
    ensures
        r == spec_list@.contains(v@),
{
    list_contains(&list, v)
}

fn is_shell_name(v: &Vec<char>) -> (r: bool)
    ensures
        r == shell_names().contains(v@),
{
    let list = vec![
        "bash", "sh", "zsh", "fish", "dash", "ksh", "ion", "nu", "pwsh", "powershell", "cmd",
        "tmux", "screen",
    ];
    assert(list@.map_values(|s: &str| s@) =~= shell_names());
    names_contain(list, Ghost(shell_names()), v)
}

fn icon_for(v: &Vec<char>) -> (r: String)
    ensures
        r@ == process_icon(v@),
{
    let editors = vec![
        "vim", "nvim", "vi", "neovim", "nano", "emacs", "ed", "helix", "hx", "kakoune", "kak",
        "micro", "code", "codium", "subl",
    ];
    assert(editors@.map_values(|s: &str| s@) =~= editor_names());
    if names_contain(editors, Ghost(editor_names()), v) {
        return String::from_str("phosphor/code.svg");
    }
    let monitors = vec![
        "htop", "top", "btop", "btm", "atop", "iotop", "glances", "nvtop", "bashtop", "ctop",
        "k9s",
    ];
    assert(monitors@.map_values(|s: &str| s@) =~= monitor_names());
    if names_contain(monitors, Ghost(monitor_names()), v) {
        return String::from_str("phosphor/pulse.svg");
    }
    let pagers = vec!["less", "more", "most", "bat", "cat", "tail", "head", "view", "man"];
    assert(pagers@.map_values(|s: &str| s@) =~= pager_names());
    if names_contain(pagers, Ghost(pager_names()), v) {
        return String::from_str("phosphor/book-open.svg");
    }
    let remotes = vec!["ssh", "mosh"];
    assert(remotes@.map_values(|s: &str| s@) =~= remote_names());
    if names_contain(remotes, Ghost(remote_names()), v) {
        return String::from_str("phosphor/globe.svg");
    }
    let vcs = vec!["git", "lazygit", "tig", "gh"];
    assert(vcs@.map_values(|s: &str| s@) =~= vcs_names());
    if names_contain(vcs, Ghost(vcs_names()), v) {
        return String::from_str("phosphor/file-code.svg");
    }
    String::from_str("phosphor/terminal.svg")
}

proof fn lemma_first_sub_bounds(s: Seq<char>, pat: Seq<char>, i: int)
    ensures
        first_sub_from(s, pat, i) matches Some(j) ==> i <= j && j + pat.len() <= s.len()
            && sub_at(s, pat, j),
    decreases s.len() + 1 - i,
{
    if i < 0 || i + pat.len() > s.len() {
    } else if sub_at(s, pat, i) {
    } else {
        lemma_first_sub_bounds(s, pat, i + 1);
    }
}

pub(crate) fn first_sub(s: &Vec<char>, pat: &Vec<char>) -> (r: Option<usize>)
    ensures
        r matches Some(i) ==> first_sub_from(s@, pat@, 0) == Some(i as int)
            && i + pat@.len() <= s@.len(),
        r is None <==> first_sub_from(s@, pat@, 0) is None,
{
    proof {
        lemma_first_sub_bounds(s@, pat@, 0);
    }
    if pat.len() > s.len() {
        return None;
    }
    let last: usize = s.len() - pat.len();
    let mut i: usize = 0;
    loop
        invariant
            last == s@.len() - pat@.len(),
            pat@.len() <= s@.len(),
            i <= last,
            first_sub_from(s@, pat@, 0) == first_sub_from(s@, pat@, i as int),
        decreases last - i,
    {
        let plen: usize = pat.len();
        let slen: usize = s.len();
        assert(i + plen <= slen);
        let window = slice_chars(s.as_slice(), i, i + plen);
        if chars_eq(window.as_slice(), pat.as_slice()) {
            return Some(i);
        }
        if i == last {
            assert(first_sub_from(s@, pat@, i as int + 1) is None);
            return None;
        }
        i = i + 1;
    }
}

fn first_break(s: &Vec<char>) -> (k: usize)
    ensures
        k == first_break_from(s@, 0),
        k <= s@.len(),
{
    let mut i: usize = 0;
    while i < s.len() && !(is_whitespace(s[i]) || s[i] == ':')
        invariant
            i <= s@.len(),
            first_break_from(s@, 0) == first_break_from(s@, i as int),
        decreases s@.len() - i,
    {
        i = i + 1;
    }
    i
}

fn strip_slashes(s: &Vec<char>) -> (r: Vec<char>)
    ensures
        r@ == strip_leading_slashes(s@),
{
    let mut i: usize = 0;
    assert(s@.subrange(0, s@.len() as int) =~= s@);
    while i < s.len() && s[i] == '/'
        invariant
            i <= s@.len(),
            strip_leading_slashes(s@) == strip_leading_slashes(s@.subrange(i as int, s@.len() as int)),
        decreases s@.len() - i,
    {
        let ghost rest = s@.subrange(i as int, s@.len() as int);
        assert(rest.drop_first() =~= s@.subrange(i + 1, s@.len() as int));
        i = i + 1;
    }
    slice_chars(s.as_slice(), i, s.len())
}

proof fn lemma_after_last_slash(s: Seq<char>, k: int)
    requires
        0 <= k <= s.len(),
        forall|j: int| k <= j < s.len() ==> s[j] != '/',
        k == 0 || s[k - 1] == '/',
    ensures
        after_last_slash(s) == s.subrange(k, s.len() as int),
    decreases s.len(),
{
    if s.len() == k {
        if k > 0 {
            assert(after_last_slash(s) =~= Seq::<char>::empty());
        } else {
            assert(s.subrange(0, 0) =~= s);
        }
    } else {
        lemma_after_last_slash(s.drop_last(), k);
        assert(s.subrange(k, s.len() as int) =~= s.drop_last().subrange(k, s.len() - 1).push(s.last()));
    }
}

fn basename_of(s: &Vec<char>) -> (r: Vec<char>)
    ensures
        r@ == after_last_slash(s@),
{
    let mut k: usize = s.len();
    while k > 0 && s[k - 1] != '/'
        invariant
            k <= s@.len(),
            forall|j: int| k <= j < s@.len() ==> s@[j] != '/',
        decreases k,
    {
        k = k - 1;
    }
    proof {
        lemma_after_last_slash(s@, k as int);
    }
    slice_chars(s.as_slice(), k, s.len())
}

/// The command a terminal title shows and its icon (see [`focused_process`]).
pub fn parse_focused_process(title: &str) -> (r: Option<(String, String)>)
    ensures
        match focused_process(title@) {
            Some((cmd, icon)) => r matches Some(p) && p.0@ == cmd && p.1@ == icon,
            None => r is None,
        },
{
    let tc = chars_of(title);
    let sep = chars_of(" — ");
    let hyphen = chars_of(" - ");
    let head = match first_sub(&tc, &sep) {
        Some(i) => {
            let h = slice_chars(tc.as_slice(), 0, i);
            assert(h@ =~= command_part(title@));
            h
        },
        None => match first_sub(&tc, &hyphen) {
            Some(i) => {
                let h = slice_chars(tc.as_slice(), 0, i);
                assert(h@ =~= command_part(title@));
                h
            },
            None => {
                let h = slice_chars(tc.as_slice(), 0, tc.len());
                assert(h@ =~= command_part(title@));
                h
            },
        },
    };
    let t = trim_chars(&head);
    if t.len() == 0 {
        return None;
    }
    let k = first_break(&t);
    let w = slice_chars(t.as_slice(), 0, k);
    let stripped = strip_slashes(&w);
    let base = basename_of(&stripped);
    let lower = lower_chars(&base);
    if is_shell_name(&lower) {
        return None;
    }
    let icon = icon_for(&lower);
    Some((string_of(t.as_slice()), icon))
}

// ── vertical-tabs presentation ──────────────────────────────────────────

/// The view of an optional string slice.
pub open spec fn sv(o: Option<&str>) -> Option<Seq<char>> {
    match o {
        Some(s) => Some(s@),
        None => None,
    }
}

/// The trimmed text when it is not blank.
pub open spec fn nonblank(o: Option<Seq<char>>) -> Option<Seq<char>> {
    match o {
        Some(s) => if trim_seq(s).len() > 0 {
            Some(trim_seq(s))
        } else {
            None
        },
        None => None,
    }
}

/// The icon picked from the title alone.
pub open spec fn heuristic_icon(title: Option<Seq<char>>) -> Seq<char> {
    match nonblank(title) {
        Some(raw) => match focused_process(raw) {
            Some(p) => p.1,
            None => "phosphor/terminal.svg"@,
        },
        None => "phosphor/terminal.svg"@,
    }
}

/// One vertical-tabs row.
#[derive(Debug, Clone, PartialEq, Eq)]
pub struct TabPresentation {
    pub name: String,
    pub subtitle: Option<String>,
    pub icon: String,
    pub is_ssh: bool,
}

/// A row as (name, subtitle, icon, is_ssh).
pub type PresentationV = (Seq<char>, Option<Seq<char>>, Seq<char>, bool);

/// The vertical-tabs row of a tab. The name is the first of: the user's
/// label; the AI label; the SSH host; the focused process from the title;
/// the directory name; the title; "Tab N". A user-labelled row shows the
/// terminal icon and no subtitle. An AI-labelled row takes the AI icon (the
/// globe for SSH sessions, else the title heuristic when there is none);
/// AI-labelled and SSH rows carry the cwd subtitle, a process row the name
/// of the working directory.
pub open spec fn presentation(
    user_label: Option<Seq<char>>,
    ai_label: Option<Seq<char>>,
    ai_icon: Option<Seq<char>>,
    hostname: Option<Seq<char>>,
    title: Option<Seq<char>>,
    current_dir: Option<Seq<char>>,
    tab_index: nat,
    home: Option<Seq<char>>,
) -> PresentationV {
    let is_ssh = hostname matches Some(h) && trim_seq(h).len() > 0;
    let subtitle = match current_dir {
        Some(d) => Some(cwd_subtitle_spec(d, home)),
        None => None,
    };
    let labelled_icon = if is_ssh {
        "phosphor/globe.svg"@
    } else {
        match ai_icon {
            Some(i) => i,
            None => heuristic_icon(title),
        }
    };
    let terminal = "phosphor/terminal.svg"@;
    match nonblank(user_label) {
        Some(label) => (label, None, terminal, is_ssh),
        None => match nonblank(ai_label) {
            Some(label) => (label, subtitle, labelled_icon, is_ssh),
            None => match nonblank(hostname) {
                Some(host) => (host, subtitle, "phosphor/globe.svg"@, true),
                None => {
                    let process = match nonblank(title) {
                        Some(raw) => focused_process(raw),
                        None => None,
                    };
                    match process {
                        Some(p) => (p.0, match current_dir {
                            Some(d) => path_file_name(d),
                            None => None,
                        }, p.1, false),
                        None => match (match current_dir {
                            Some(d) => dir_label(d),
                            None => None,
                        }) {
                            Some(b) => (b, None, terminal, false),
                            None => match nonblank(title) {
                                Some(raw) => (raw, None, terminal, false),
                                None => (numbered("Tab"@, tab_index + 1), None, terminal, false),
                            },
                        },
                    }
                },
            },
        },
    }
}

impl TabPresentation {
    pub open spec fn view_tuple(&self) -> PresentationV {
        (self.name@, opt_view(self.subtitle), self.icon@, self.is_ssh)
    }
}

fn nonblank_of(o: Option<&str>) -> (r: Option<Vec<char>>)
    ensures
        match nonblank(sv(o)) {
            Some(t) => r matches Some(v) && v@ == t,
            None => r is None,
        },
{
    match o {
        Some(s) => {
            let c = chars_of(s);
            let t = trim_chars(&c);
            if t.len() > 0 {
                Some(t)
            } else {
                None
            }
        },
        None => None,
    }
}

fn string_of_str(s: &str) -> (r: String)
    ensures
        r@ == s@,
{
    String::from_str(s)
}

/// The vertical-tabs row of a tab (see [`presentation`]); `home` is the
/// user's home directory, used for the subtitle.
pub fn smart_tab_presentation(
    user_label: Option<&str>,
    ai_label: Option<&str>,
    ai_icon: Option<&str>,
    hostname: Option<&str>,
    title: Option<&str>,
    current_dir: Option<&str>,
    tab_index: usize,
    home: Option<&str>,
) -> (r: TabPresentation)
    requires
        tab_index < usize::MAX,
    ensures
        r.view_tuple() == presentation(
            sv(user_label),
            sv(ai_label),
            sv(ai_icon),
            sv(hostname),
            sv(title),
            sv(current_dir),
            tab_index as nat,
            sv(home),
        ),
{
    let is_ssh = match hostname {
        Some(h) => {
            let hc = chars_of(h);
            trim_chars(&hc).len() > 0
        },
        None => false,
    };
    let title_nb = nonblank_of(title);
    let labelled_icon = if is_ssh {
        String::from_str("phosphor/globe.svg")
    } else {
        match ai_icon {
            Some(i) => string_of_str(i),
            None => match &title_nb {
                Some(raw) => {
                    let raw_s = string_of(raw.as_slice());
                    match parse_focused_process(raw_s.as_str()) {
                        Some(p) => p.1,
                        None => String::from_str("phosphor/terminal.svg"),
                    }
                },
                None => String::from_str("phosphor/terminal.svg"),
            },
        }
    };
    if let Some(label) = nonblank_of(user_label) {
        return TabPresentation {
            name: string_of(label.as_slice()),
            subtitle: None,
            icon: String::from_str("phosphor/terminal.svg"),
            is_ssh,
        };
    }
    if let Some(label) = nonblank_of(ai_label) {
        return TabPresentation {
            name: string_of(label.as_slice()),
            subtitle: cwd_subtitle(current_dir, home),
            icon: labelled_icon,
            is_ssh,
        };
    }
    if let Some(host) = nonblank_of(hostname) {
        return TabPresentation {
            name: string_of(host.as_slice()),
            subtitle: cwd_subtitle(current_dir, home),
            icon: String::from_str("phosphor/globe.svg"),
            is_ssh: true,
        };
    }
    if let Some(raw) = &title_nb {
        let raw_s = string_of(raw.as_slice());
        if let Some((command, icon)) = parse_focused_process(raw_s.as_str()) {
            let subtitle = match current_dir {
                Some(dir) => file_name(dir),
                None => None,
            };
            return TabPresentation { name: command, subtitle, icon, is_ssh: false };
        }
    }
    if let Some(dir) = current_dir {
        if let Some(base) = directory_label(dir) {
            return TabPresentation {
                name: base,
                subtitle: None,
                icon: String::from_str("phosphor/terminal.svg"),
                is_ssh: false,
            };
        }
    }
    if let Some(raw) = &title_nb {
        return TabPresentation {
            name: string_of(raw.as_slice()),
            subtitle: None,
            icon: String::from_str("phosphor/terminal.svg"),
            is_ssh: false,
        };
    }
    TabPresentation {
        name: numbered_name("Tab", tab_index + 1),
        subtitle: None,
        icon: String::from_str("phosphor/terminal.svg"),
        is_ssh: false,
    }
}

/// A vertical-tabs row always has a name, unless the working directory's
/// name is what names it and that name is empty.
pub proof fn law_tab_name_not_empty(
    user_label: Option<Seq<char>>,
    ai_label: Option<Seq<char>>,
    ai_icon: Option<Seq<char>>,
    hostname: Option<Seq<char>>,
    title: Option<Seq<char>>,
    current_dir: Option<Seq<char>>,
    tab_index: nat,
    home: Option<Seq<char>>,
)
    ensures
        presentation(user_label, ai_label, ai_icon, hostname, title, current_dir, tab_index, home).0.len() > 0
            || (current_dir matches Some(d) && dir_label(d) == Some(Seq::<char>::empty())),
{
    let r = presentation(user_label, ai_label, ai_icon, hostname, title, current_dir, tab_index, home);
    assert(numbered("Tab"@, tab_index + 1).len() >= 1);
    if r.0.len() == 0 {
        if let Some(d) = current_dir {
            if let Some(b) = dir_label(d) {
                if b.len() == 0 {
                    assert(b =~= Seq::<char>::empty());
                }
            }
        }
    }
}

// ── surface titles ──────────────────────────────────────────────────────

/// The title of a surface: the one the user gave it; else its terminal's
/// title; else "Surface N" (N = its index + 1).
pub open spec fn surface_title_spec(custom: Option<Seq<char>>, terminal_title: Option<Seq<char>>, surface_index: nat) -> Seq<char> {
    match custom {
        Some(t) => t,
        None => match terminal_title {
            Some(t) => t,
            None => numbered("Surface"@, surface_index + 1),
        },
    }
}

/// The title of a surface (see [`surface_title_spec`]).
pub fn surface_title(custom: Option<&str>, terminal_title: Option<&str>, surface_index: usize) -> (r:
    String)
    requires
        surface_index < usize::MAX,
    ensures
        r@ == surface_title_spec(sv(custom), sv(terminal_title), surface_index as nat),
{
    match custom {
        Some(t) => String::from_str(t),
        None => match terminal_title {
            Some(t) => String::from_str(t),
            None => numbered_name("Surface", surface_index + 1),
        },
    }
}

/// A title typed for a surface: trimmed, and none (back to the default
/// title) when blank.
pub fn renamed_title(value: &str) -> (r: Option<String>)
    ensures
        nonblank(Some(value@)) matches Some(t) ==> r matches Some(x) && x@ == t,
        nonblank(Some(value@)) is None ==> r is None,
{
    let t = trim_str(value);
    if t.len() == 0 {
        None
    } else {
        Some(string_of(t.as_slice()))
    }
}

/// What a finished tab summary changes. It is dropped when a newer round
/// of summaries was asked for since (`generation` is not `current`), when
/// vertical tabs are off or summaries are disabled, and when its tab has
/// closed (`shown` is `None`); otherwise it gives the trimmed label and the
/// icon, unless the tab already shows exactly those (`shown` holds the
/// tab's label and icon code).
pub open spec fn summary_update_spec(
    generation: u64,
    current: u64,
    vertical_tabs: bool,
    enabled: bool,
    shown: Option<(Option<Seq<char>>, Option<u32>)>,
    label: Seq<char>,
    icon: u32,
) -> Option<(Seq<char>, u32)> {
    if generation != current || !vertical_tabs || !enabled {
        None
    } else {
        match shown {
            None => None,
            Some((l, i)) => if l == Some(trim_seq(label)) && i == Some(icon) {
                None
            } else {
                Some((trim_seq(label), icon))
            },
        }
    }
}

/// The label and icon a finished tab summary sets (see
/// [`summary_update_spec`]).
pub fn tab_summary_update(
    generation: u64,
    current: u64,
    vertical_tabs: bool,
    enabled: bool,
    shown: Option<(Option<&str>, Option<u32>)>,
    label: &str,
    icon: u32,
) -> (r: Option<(String, u32)>)
    ensures
        summary_update_spec(
            generation,
            current,
            vertical_tabs,
            enabled,
            match shown {
                Some((l, i)) => Some((sv(l), i)),
                None => None,
            },
            label@,
            icon,
        ) == match r {
            Some((t, i)) => Some((t@, i)),
            None => None,
        },
{
    if generation != current || !vertical_tabs || !enabled {
        return None;
    }
    match shown {
        None => None,
        Some((l, i)) => {
            let t = trim_str(label);
            let same_label = match l {
                Some(old) => {
                    let oc = chars_of(old);
                    chars_eq(oc.as_slice(), t.as_slice())
                },
                None => false,
            };
            let same_icon = match i {
                Some(old) => old == icon,
                None => false,
            };
            if same_label && same_icon {
                None
            } else {
                Some((string_of(t.as_slice()), icon))
            }
        },
    }
}

/// The title a restored tab gets: its saved title, or "Terminal N" (N = its
/// index + 1) when none was saved.
pub open spec fn restored_title(saved: Seq<char>, index: nat) -> Seq<char> {
    if saved.len() == 0 {
        numbered("Terminal"@, index + 1)
    } else {
        saved
    }
}

/// The title a restored tab gets (see [`restored_title`]).
pub fn restored_tab_title(saved: &str, index: usize) -> (r: String)
    requires
        index < usize::MAX,
    ensures
        r@ == restored_title(saved@, index as nat),
{
    if saved.unicode_len() == 0 {
        numbered_name("Terminal", index + 1)
    } else {
        String::from_str(saved)
    }
}

/// The title of a new tab opened when `tab_count` tabs are open:
/// "Terminal N" with N = `tab_count + 1`.
pub fn new_tab_title(tab_count: usize) -> (r: String)
    requires
        tab_count < usize::MAX,
    ensures
        r@ == numbered("Terminal"@, tab_count as nat + 1),
{
    numbered_name("Terminal", tab_count + 1)
}

} // verus!
