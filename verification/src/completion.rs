//! Completion of local paths in the input bar.
//!
//! The token under the cursor (after the last whitespace) is completed when
//! it looks like a path, or follows `cd`: the plan says which directory to
//! list and which names qualify; the directory's entries then give either an
//! inline completion (one match, or a longer common prefix) or the list of
//! candidates.
use vstd::prelude::*;
use vstd::string::StringExecFns;
use crate::text::{
    chars_contain, chars_eq, chars_of, chars_start_with, concat_chars, has_char, is_whitespace,
    is_ws, slice_chars, starts_with, string_of, trim_end_seq, trim_start_seq,
};

verus! {

// ── longest common prefix ───────────────────────────────────────────────

/// Where `a` and `b` first differ at or after `i` (or where one ends).
pub open spec fn common_len_from(a: Seq<char>, b: Seq<char>, i: int) -> int
    decreases a.len() - i,
{
    if 0 <= i && i < a.len() && i < b.len() && a[i] == b[i] {
        common_len_from(a, b, i + 1)
    } else {
        i
    }
}

/// The longest prefix shared by all of `s` (empty for no strings), folding
/// from the first string on.
pub open spec fn common_prefix(s: Seq<Seq<char>>) -> Seq<char>
    decreases s.len(),
{
    if s.len() == 0 {
        Seq::empty()
    } else if s.len() == 1 {
        s[0]
    } else {
        let p = common_prefix(s.drop_last());
        p.take(common_len_from(p, s.last(), 0))
    }
}

proof fn lemma_common_len(a: Seq<char>, b: Seq<char>, i: int)
    requires
        0 <= i <= a.len(),
        i <= b.len(),
    ensures
        i <= common_len_from(a, b, i) <= a.len(),
        common_len_from(a, b, i) <= b.len(),
        forall|j: int| i <= j < common_len_from(a, b, i) ==> a[j] == b[j],
        common_len_from(a, b, i) < a.len() && common_len_from(a, b, i) < b.len() ==> a[common_len_from(a, b, i)] != b[common_len_from(a, b, i)],
    decreases a.len() - i,
{
    if i < a.len() && i < b.len() && a[i] == b[i] {
        lemma_common_len(a, b, i + 1);
    }
}

proof fn lemma_common_len_at_least(a: Seq<char>, b: Seq<char>, i: int, n: int)
    requires
        0 <= i <= n,
        n <= a.len(),
        n <= b.len(),
        forall|j: int| i <= j < n ==> a[j] == b[j],
    ensures
        n <= common_len_from(a, b, i),
    decreases n - i,
{
    if i < n {
        lemma_common_len_at_least(a, b, i + 1, n);
    } else {
        lemma_common_len(a, b, i);
    }
}

/// The common prefix of `s` is a prefix of each of its strings, and every
/// prefix they all share is a prefix of it.
pub proof fn law_common_prefix_longest(s: Seq<Seq<char>>, c: Seq<char>)
    ensures
        forall|k: int| 0 <= k < s.len() ==> starts_with(s[k], common_prefix(s)),
        s.len() > 0 && (forall|k: int| 0 <= k < s.len() ==> starts_with(s[k], c)) ==> starts_with(
            common_prefix(s),
            c,
        ),
    decreases s.len(),
{
    if s.len() == 0 {
    } else if s.len() == 1 {
        assert(s[0].subrange(0, s[0].len() as int) =~= s[0]);
    } else {
        let t = s.drop_last();
        law_common_prefix_longest(t, c);
        let p = common_prefix(t);
        let b = s.last();
        lemma_common_len(p, b, 0);
        let n = common_len_from(p, b, 0);
        let q = p.take(n);
        assert forall|k: int| 0 <= k < s.len() implies starts_with(s[k], common_prefix(s)) by {
            if k < s.len() - 1 {
                assert(t[k] == s[k]);
                assert(starts_with(t[k], p));
                assert forall|j: int| 0 <= j < n implies s[k][j] == q[j] by {
                    assert(s[k].subrange(0, p.len() as int)[j] == p[j]);
                }
                assert(s[k].subrange(0, n) =~= q);
            } else {
                assert forall|j: int| 0 <= j < n implies b[j] == q[j] by {}
                assert(b.subrange(0, n) =~= q);
            }
        }
        if forall|k: int| 0 <= k < s.len() ==> starts_with(s[k], c) {
            assert forall|k: int| 0 <= k < t.len() implies starts_with(t[k], c) by {
                assert(t[k] == s[k]);
            }
            assert(starts_with(p, c));
            assert(starts_with(b, c)) by {
                assert(b == s[s.len() - 1]);
            }
            assert forall|j: int| 0 <= j < c.len() implies p[j] == b[j] by {
                assert(p.subrange(0, c.len() as int)[j] == c[j]);
                assert(b.subrange(0, c.len() as int)[j] == c[j]);
            }
            lemma_common_len_at_least(p, b, 0, c.len() as int);
            assert forall|j: int| 0 <= j < c.len() implies q[j] == c[j] by {
                assert(p.subrange(0, c.len() as int)[j] == c[j]);
            }
            assert(q.subrange(0, c.len() as int) =~= c);
        }
    }
}

/// The views of a list of strings.
pub open spec fn strings_view(v: Seq<String>) -> Seq<Seq<char>> {
    v.map_values(|s: String| s@)
}

fn common_len(a: &Vec<char>, b: &Vec<char>) -> (n: usize)
    ensures
        n == common_len_from(a@, b@, 0),
{
    let mut i: usize = 0;
    while i < a.len() && i < b.len() && a[i] == b[i]
        invariant
            i <= a@.len(),
            i <= b@.len(),
            common_len_from(a@, b@, 0) == common_len_from(a@, b@, i as int),
        decreases a@.len() - i,
    {
        i = i + 1;
    }
    i
}

/// The longest prefix shared by all `values` (see [`common_prefix`]).
pub fn longest_common_prefix(values: &Vec<String>) -> (r: String)
    ensures
        r@ == common_prefix(strings_view(values@)),
{
    let ghost vs = strings_view(values@);
    if values.len() == 0 {
        return String::new();
    }
    let mut prefix = chars_of(values[0].as_str());
    assert(vs.take(1) =~= seq![vs[0]]);
    let mut i: usize = 1;
    while i < values.len()
        invariant
            1 <= i <= values@.len(),
            vs == strings_view(values@),
            prefix@ == common_prefix(vs.take(i as int)),
        decreases values@.len() - i,
    {
        let v = chars_of(values[i].as_str());
        let shared = common_len(&prefix, &v);
        proof {
            lemma_common_len(prefix@, v@, 0);
            assert(vs.take(i + 1).drop_last() =~= vs.take(i as int));
            assert(vs.take(i + 1).last() == vs[i as int]);
        }
        prefix = slice_chars(prefix.as_slice(), 0, shared);
        i = i + 1;
    }
    assert(vs.take(values@.len() as int) =~= vs);
    string_of(prefix.as_slice())
}

// ── sorting directory entries by name ───────────────────────────────────

/// A directory entry: its name and whether it is a directory.
pub type DirEntryV = (Seq<char>, bool);

/// The views of directory entries.
pub open spec fn entries_view(v: Seq<(String, bool)>) -> Seq<DirEntryV> {
    v.map_values(|e: (String, bool)| (e.0@, e.1))
}

/// `a` orders before `b`: lexicographic by code point, as `str` compares
/// (UTF-8 byte order is code-point order).
pub open spec fn name_lt(a: Seq<char>, b: Seq<char>) -> bool
    decreases a.len(),
{
    if a.len() == 0 {
        b.len() > 0
    } else if b.len() == 0 {
        false
    } else if a[0] != b[0] {
        (a[0] as int) < (b[0] as int)
    } else {
        name_lt(a.drop_first(), b.drop_first())
    }
}

/// Where `e` goes in sorted `s`, scanning from `i`: before the first entry
/// that does not order before it.
pub open spec fn insert_pos_from(s: Seq<DirEntryV>, e: DirEntryV, i: int) -> int
    decreases s.len() - i,
{
    if i < 0 || i >= s.len() {
        s.len() as int
    } else if !name_lt(s[i].0, e.0) {
        i
    } else {
        insert_pos_from(s, e, i + 1)
    }
}

/// Entries sorted by name, stably (equal names keep their order): each entry
/// goes in front of the sorted rest, before the first name not below it.
pub open spec fn sort_entries(s: Seq<DirEntryV>) -> Seq<DirEntryV>
    decreases s.len(),
{
    if s.len() == 0 {
        s
    } else {
        let t = sort_entries(s.drop_first());
        t.insert(insert_pos_from(t, s[0], 0), s[0])
    }
}

/// Entries in non-decreasing name order.
pub open spec fn sorted_by_name(s: Seq<DirEntryV>) -> bool {
    forall|i: int, j: int| 0 <= i < j < s.len() ==> !name_lt(s[j].0, s[i].0)
}

proof fn lemma_name_lt_asym(a: Seq<char>, b: Seq<char>)
    ensures
        !(name_lt(a, b) && name_lt(b, a)),
    decreases a.len(),
{
    if a.len() > 0 && b.len() > 0 && a[0] == b[0] {
        lemma_name_lt_asym(a.drop_first(), b.drop_first());
    }
}

proof fn lemma_name_lt_total(a: Seq<char>, b: Seq<char>)
    ensures
        a == b || name_lt(a, b) || name_lt(b, a),
    decreases a.len(),
{
    if a.len() > 0 && b.len() > 0 {
        if a[0] == b[0] {
            lemma_name_lt_total(a.drop_first(), b.drop_first());
            if a.drop_first() == b.drop_first() {
                assert(a =~= seq![a[0]] + a.drop_first());
                assert(b =~= seq![b[0]] + b.drop_first());
            }
        } else {
            assert((a[0] as int) != (b[0] as int));
        }
    } else if a.len() == 0 && b.len() == 0 {
        assert(a =~= b);
    }
}

proof fn lemma_name_lt_trans(a: Seq<char>, b: Seq<char>, c: Seq<char>)
    requires
        name_lt(a, b),
        name_lt(b, c),
    ensures
        name_lt(a, c),
    decreases a.len(),
{
    if a.len() > 0 && b.len() > 0 && c.len() > 0 && a[0] == b[0] && b[0] == c[0] {
        lemma_name_lt_trans(a.drop_first(), b.drop_first(), c.drop_first());
    }
}

/// `a` does not order after `b`: `!name_lt(b, a)` is transitive.
proof fn lemma_not_after_trans(a: Seq<char>, b: Seq<char>, c: Seq<char>)
    requires
        !name_lt(b, a),
        !name_lt(c, b),
    ensures
        !name_lt(c, a),
{
    lemma_name_lt_total(a, b);
    lemma_name_lt_total(b, c);
    if name_lt(c, a) {
        if a == b {
        } else if b == c {
        } else {
            lemma_name_lt_trans(a, b, c);
            lemma_name_lt_asym(a, c);
        }
    }
}

proof fn lemma_insert_pos(t: Seq<DirEntryV>, e: DirEntryV, i: int)
    requires
        0 <= i <= t.len(),
        forall|k: int| 0 <= k < i ==> name_lt(t[k].0, e.0),
    ensures
        i <= insert_pos_from(t, e, i) <= t.len(),
        forall|k: int| 0 <= k < insert_pos_from(t, e, i) ==> name_lt(t[k].0, e.0),
        insert_pos_from(t, e, i) < t.len() ==> !name_lt(t[insert_pos_from(t, e, i)].0, e.0),
    decreases t.len() - i,
{
    if i < t.len() && name_lt(t[i].0, e.0) {
        lemma_insert_pos(t, e, i + 1);
    }
}

/// Sorting by name gives the same entries, in non-decreasing name order.
pub proof fn law_sort_entries_sorted_permutation(s: Seq<DirEntryV>)
    ensures
        sorted_by_name(sort_entries(s)),
        sort_entries(s).to_multiset() == s.to_multiset(),
    decreases s.len(),
{
    if s.len() > 0 {
        let rest = s.drop_first();
        law_sort_entries_sorted_permutation(rest);
        let t = sort_entries(rest);
        let e = s[0];
        lemma_insert_pos(t, e, 0);
        let p = insert_pos_from(t, e, 0);
        let r = t.insert(p, e);
        assert(sort_entries(s) == r);
        vstd::seq_lib::to_multiset_insert(t, p, e);
        vstd::seq_lib::to_multiset_insert(rest, 0, e);
        assert(rest.insert(0, e) =~= s);
        assert forall|i: int, j: int| 0 <= i < j < r.len() implies !name_lt(r[j].0, r[i].0) by {
            if j < p {
                assert(r[i] == t[i] && r[j] == t[j]);
            } else if j == p {
                assert(r[j] == e && r[i] == t[i]);
                lemma_name_lt_asym(t[i].0, e.0);
            } else if i < p {
                assert(r[i] == t[i] && r[j] == t[j - 1]);
                // t[i] < e <= t[p] <= t[j - 1]
                lemma_name_lt_asym(t[i].0, e.0);
                lemma_not_after_trans(t[i].0, e.0, t[p].0);
                if p < j - 1 {
                    lemma_not_after_trans(t[i].0, t[p].0, t[j - 1].0);
                }
            } else if i == p {
                assert(r[i] == e && r[j] == t[j - 1]);
                if p < j - 1 {
                    lemma_not_after_trans(e.0, t[p].0, t[j - 1].0);
                }
            } else {
                assert(r[i] == t[i - 1] && r[j] == t[j - 1]);
            }
        }
    }
}

fn chars_lt(a: &Vec<char>, b: &Vec<char>) -> (r: bool)
    ensures
        r == name_lt(a@, b@),
{
    let mut i: usize = 0;
    assert(a@.skip(0) =~= a@);
    assert(b@.skip(0) =~= b@);
    while i < a.len() && i < b.len() && a[i] == b[i]
        invariant
            i <= a@.len(),
            i <= b@.len(),
            name_lt(a@, b@) == name_lt(a@.skip(i as int), b@.skip(i as int)),
        decreases a@.len() - i,
    {
        proof {
            assert(a@.skip(i as int).drop_first() =~= a@.skip(i + 1));
            assert(b@.skip(i as int).drop_first() =~= b@.skip(i + 1));
        }
        i = i + 1;
    }
    if i == a.len() {
        i < b.len()
    } else if i == b.len() {
        false
    } else {
        assert(a@.skip(i as int)[0] == a@[i as int]);
        assert(b@.skip(i as int)[0] == b@[i as int]);
        a[i] < b[i]
    }
}

fn clone_entry(e: &(String, bool)) -> (r: (String, bool))
    ensures
        r.0@ == e.0@,
        r.1 == e.1,
{
    (e.0.clone(), e.1)
}

fn entry_before(e: &(String, bool), name: &Vec<char>) -> (r: bool)
    ensures
        r == name_lt(e.0@, name@),
{
    let other = chars_of(e.0.as_str());
    chars_lt(&other, name)
}

/// The entries sorted by name (see [`sort_entries`]).
pub fn sort_by_name(entries: &Vec<(String, bool)>) -> (r: Vec<(String, bool)>)
    ensures
        entries_view(r@) == sort_entries(entries_view(entries@)),
{
    let ghost ev = entries_view(entries@);
    let mut r: Vec<(String, bool)> = Vec::new();
    let mut k: usize = entries.len();
    assert(ev.skip(ev.len() as int) =~= Seq::<DirEntryV>::empty());
    while k > 0
        invariant
            k <= entries@.len(),
            ev == entries_view(entries@),
            entries_view(r@) == sort_entries(ev.skip(k as int)),
        decreases k,
    {
        k = k - 1;
        let e = clone_entry(&entries[k]);
        let name = chars_of(e.0.as_str());
        let ghost t = entries_view(r@);
        let mut pos: usize = 0;
        while pos < r.len() && entry_before(&r[pos], &name)
            invariant
                pos <= r@.len(),
                t == entries_view(r@),
                insert_pos_from(t, (name@, e.1), 0) == insert_pos_from(t, (name@, e.1), pos as int),
            decreases r@.len() - pos,
        {
            pos = pos + 1;
        }
        proof {
            assert(ev.skip(k as int).drop_first() =~= ev.skip(k + 1));
            assert(ev.skip(k as int)[0] == ev[k as int]);
        }
        r.insert(pos, e);
        proof {
            assert(entries_view(r@) =~= t.insert(pos as int, (name@, e.1)));
        }
    }
    assert(ev.skip(0) =~= ev);
    r
}

// ── planning: which directory to list, which names qualify ──────────────

/// Where the token under the cursor starts: just after the last whitespace
/// character (0 when there is none).
pub open spec fn token_start_of(s: Seq<char>) -> int
    decreases s.len(),
{
    if s.len() == 0 {
        0
    } else if is_ws(s.last()) {
        s.len() as int
    } else {
        token_start_of(s.drop_last())
    }
}

/// The first whitespace character at or after `i` (or the length).
pub open spec fn first_ws_from(s: Seq<char>, i: int) -> int
    decreases s.len() - i,
{
    if i < 0 || i >= s.len() {
        s.len() as int
    } else if is_ws(s[i]) {
        i
    } else {
        first_ws_from(s, i + 1)
    }
}

/// The first whitespace-separated word (`split_whitespace().next()`).
pub open spec fn first_word(s: Seq<char>) -> Seq<char> {
    let t = trim_start_seq(s);
    t.take(first_ws_from(t, 0))
}

/// The position of the last `/` (`rsplit_once('/')`).
pub open spec fn last_slash(s: Seq<char>) -> Option<int>
    decreases s.len(),
{
    if s.len() == 0 {
        None
    } else if s.last() == '/' {
        Some(s.len() - 1)
    } else {
        last_slash(s.drop_last())
    }
}

/// Whether a path is absolute, as `Path::is_absolute` decides under the path
/// rules of the platform the crate is built for.
pub uninterp spec fn path_is_absolute(p: Seq<char>) -> bool;

/// Two paths joined, as `Path::join` joins them under the path rules of the
/// platform the crate is built for.
pub uninterp spec fn path_join(base: Seq<char>, part: Seq<char>) -> Seq<char>;

/// Calls `Path::is_absolute`. Claimed: the answer is [`path_is_absolute`]
/// of the argument, so it depends on the path alone.
#[verifier::external_body]
fn is_absolute_path(p: &str) -> (r: bool)
    ensures
        r == path_is_absolute(p@),
{
    std::path::Path::new(p).is_absolute()
}

/// Calls `Path::join` and turns the result back into a string (the join of
/// two UTF-8 paths is UTF-8, so nothing is lost). Claimed: the result is
/// [`path_join`] of the arguments, so it depends on them alone.
#[verifier::external_body]
fn join_path(base: &str, part: &str) -> (r: String)
    ensures
        r@ == path_join(base@, part@),
{
    std::path::Path::new(base).join(part).to_string_lossy().into_owned()
}

/// Calls `dirs::home_dir` for the user's home directory (as a string; a
/// non-UTF-8 home is converted lossily). It depends on the environment, so
/// nothing is claimed of the result.
#[verifier::external_body]
pub(crate) fn home_dir() -> (r: Option<String>) {
    dirs::home_dir().map(|p| p.to_string_lossy().into_owned())
}

/// The directory whose entries are listed.
#[derive(Debug, Clone, PartialEq, Eq)]
pub enum SearchDir {
    /// The pane's working directory.
    Cwd,
    /// A relative path under the pane's working directory.
    CwdJoin(String),
    /// A path that does not depend on the working directory.
    Path(String),
}

/// A search directory as (kind, path): 0 for the working directory, 1 for a
/// path under it, 2 for a path of its own.
pub open spec fn search_dir_view(d: SearchDir) -> (u8, Seq<char>) {
    match d {
        SearchDir::Cwd => (0, Seq::empty()),
        SearchDir::CwdJoin(s) => (1, s@),
        SearchDir::Path(s) => (2, s@),
    }
}

/// How to complete the token under the cursor.
#[derive(Debug, Clone, PartialEq, Eq)]
pub struct PathCompletionPlan {
    /// Where the token starts (a character index into the input).
    pub token_start: usize,
    /// Where to look.
    pub search_dir: SearchDir,
    /// What goes in front of a matched name in the completed token.
    pub dir_prefix: String,
    /// What a name must start with.
    pub search_prefix: String,
    /// Only directories qualify (after `cd`).
    pub directories_only: bool,
    /// The token is a bare `~`: names replace it as they are.
    pub bare_tilde: bool,
}

/// A plan as (token start, search directory, dir prefix, search prefix,
/// directories only, bare `~`).
pub type PlanV = (int, (u8, Seq<char>), Seq<char>, Seq<char>, bool, bool);

impl PathCompletionPlan {
    pub open spec fn view_tuple(&self) -> PlanV {
        (
            self.token_start as int,
            search_dir_view(self.search_dir),
            self.dir_prefix@,
            self.search_prefix@,
            self.directories_only,
            self.bare_tilde,
        )
    }
}

/// The plan for `input`, given the home directory when it is known. The
/// token must be non-empty and look like a path: after `cd` (which lists
/// directories only), or starting with `~` or `.`, or holding a `/`.
/// `~/dir/pre` looks for `pre` in `home/dir`; a bare `~` lists the home
/// directory for names starting with `~`; `dir/pre` looks in `dir` (the
/// root when `dir` is empty, else as given when absolute, else under the
/// working directory); a token without `/` looks in the working directory.
pub open spec fn path_plan(input: Seq<char>, home: Option<Seq<char>>) -> Option<PlanV> {
    let ts = token_start_of(input);
    let token = input.skip(ts);
    let dirs_only = first_word(trim_end_seq(input.take(ts))) == "cd"@;
    if token.len() == 0 {
        None
    } else if !(dirs_only || token[0] == '~' || token[0] == '.' || has_char(token, '/')) {
        None
    } else if token.len() >= 2 && token[0] == '~' && token[1] == '/' {
        match home {
            None => None,
            Some(h) => {
                let stripped = token.skip(2);
                match last_slash(stripped) {
                    Some(j) => Some(
                        (
                            ts,
                            (2u8, path_join(h, stripped.take(j))),
                            seq!['~', '/'] + stripped.take(j) + seq!['/'],
                            stripped.skip(j + 1),
                            dirs_only,
                            false,
                        ),
                    ),
                    None => Some((ts, (2u8, h), seq!['~', '/'], stripped, dirs_only, false)),
                }
            },
        }
    } else if token == seq!['~'] {
        match home {
            None => None,
            Some(h) => Some((ts, (2u8, h), Seq::empty(), seq!['~'], dirs_only, true)),
        }
    } else {
        match last_slash(token) {
            Some(j) => {
                let dir = token.take(j);
                let place = if dir.len() == 0 {
                    (2u8, seq!['/'])
                } else if path_is_absolute(dir) {
                    (2u8, dir)
                } else {
                    (1u8, dir)
                };
                Some((ts, place, dir + seq!['/'], token.skip(j + 1), dirs_only, false))
            },
            None => Some((ts, (0u8, Seq::empty()), Seq::empty(), token, dirs_only, false)),
        }
    }
}

fn token_start(s: &Vec<char>) -> (k: usize)
    ensures
        k == token_start_of(s@),
        k <= s@.len(),
{
    let mut k: usize = s.len();
    assert(s@.take(s@.len() as int) =~= s@);
    while k > 0 && !is_whitespace(s[k - 1])
        invariant
            k <= s@.len(),
            token_start_of(s@) == token_start_of(s@.take(k as int)),
        decreases k,
    {
        assert(s@.take(k as int).drop_last() =~= s@.take(k - 1));
        k = k - 1;
    }
    proof {
        if k > 0 {
            assert(s@.take(k as int).last() == s@[k - 1]);
        }
    }
    k
}

fn last_slash_of(s: &Vec<char>) -> (r: Option<usize>)
    ensures
        match last_slash(s@) {
            Some(j) => r == Some(j as usize) && 0 <= j < s@.len(),
            None => r is None,
        },
{
    let mut k: usize = s.len();
    assert(s@.take(s@.len() as int) =~= s@);
    while k > 0 && s[k - 1] != '/'
        invariant
            k <= s@.len(),
            last_slash(s@) == last_slash(s@.take(k as int)),
        decreases k,
    {
        assert(s@.take(k as int).drop_last() =~= s@.take(k - 1));
        k = k - 1;
    }
    if k == 0 {
        None
    } else {
        assert(s@.take(k as int).last() == s@[k - 1]);
        Some(k - 1)
    }
}

fn first_word_of(s: &Vec<char>) -> (r: Vec<char>)
    ensures
        r@ == first_word(s@),
{
    let mut i: usize = 0;
    assert(s@.skip(0) =~= s@);
    while i < s.len() && is_whitespace(s[i])
        invariant
            i <= s@.len(),
            trim_start_seq(s@) == trim_start_seq(s@.skip(i as int)),
        decreases s@.len() - i,
    {
        assert(s@.skip(i as int).drop_first() =~= s@.skip(i + 1));
        i = i + 1;
    }
    let t = slice_chars(s.as_slice(), i, s.len());
    assert(t@ =~= s@.skip(i as int));
    let mut j: usize = 0;
    while j < t.len() && !is_whitespace(t[j])
        invariant
            j <= t@.len(),
            first_ws_from(t@, 0) == first_ws_from(t@, j as int),
        decreases t@.len() - j,
    {
        j = j + 1;
    }
    slice_chars(t.as_slice(), 0, j)
}

fn trim_end_vec(s: &Vec<char>) -> (r: Vec<char>)
    ensures
        r@ == trim_end_seq(s@),
{
    let mut k: usize = s.len();
    assert(s@.take(s@.len() as int) =~= s@);
    while k > 0 && is_whitespace(s[k - 1])
        invariant
            k <= s@.len(),
            trim_end_seq(s@) == trim_end_seq(s@.take(k as int)),
        decreases k,
    {
        assert(s@.take(k as int).drop_last() =~= s@.take(k - 1));
        k = k - 1;
    }
    proof {
        if k > 0 {
            assert(s@.take(k as int).last() == s@[k - 1]);
        }
    }
    slice_chars(s.as_slice(), 0, k)
}

/// The plan for completing the token under the cursor of `input` (see
/// [`path_plan`]); `home` is the home directory, when known.
pub fn plan_path_completion(input: &str, home: Option<&str>) -> (r: Option<PathCompletionPlan>)
    ensures
        match path_plan(
            input@,
            match home {
                Some(h) => Some(h@),
                None => None,
            },
        ) {
            Some(p) => r matches Some(q) && q.view_tuple() == p,
            None => r is None,
        },
{
    let ic = chars_of(input);
    let ts = token_start(&ic);
    let token = slice_chars(ic.as_slice(), ts, ic.len());
    assert(token@ =~= input@.skip(ts as int));
    let head = slice_chars(ic.as_slice(), 0, ts);
    let fw = first_word_of(&trim_end_vec(&head));
    let cd = chars_of("cd");
    let dirs_only = chars_eq(fw.as_slice(), cd.as_slice());
    if token.len() == 0 {
        return None;
    }
    let looks_like_path = dirs_only || token[0] == '~' || token[0] == '.' || chars_contain(
        token.as_slice(),
        '/',
    );
    if !looks_like_path {
        return None;
    }
    let mut tilde_slash: Vec<char> = Vec::new();
    tilde_slash.push('~');
    tilde_slash.push('/');
    let mut slash: Vec<char> = Vec::new();
    slash.push('/');
    if token.len() >= 2 && token[0] == '~' && token[1] == '/' {
        let h = match home {
            None => {
                return None;
            },
            Some(h) => h,
        };
        let stripped = slice_chars(token.as_slice(), 2, token.len());
        assert(stripped@ =~= token@.skip(2));
        match last_slash_of(&stripped) {
            Some(j) => {
                let dir = slice_chars(stripped.as_slice(), 0, j);
                let sub = string_of(dir.as_slice());
                let place = join_path(h, sub.as_str());
                let dp = concat_chars(concat_chars(tilde_slash.as_slice(), dir.as_slice()).as_slice(), slash.as_slice());
                let sp = slice_chars(stripped.as_slice(), j + 1, stripped.len());
                proof {
                    assert(tilde_slash@ =~= seq!['~', '/']);
                    assert(slash@ =~= seq!['/']);
                    assert(sp@ =~= stripped@.skip(j + 1));
                }
                Some(
                    PathCompletionPlan {
                        token_start: ts,
                        search_dir: SearchDir::Path(place),
                        dir_prefix: string_of(dp.as_slice()),
                        search_prefix: string_of(sp.as_slice()),
                        directories_only: dirs_only,
                        bare_tilde: false,
                    },
                )
            },
            None => {
                assert(tilde_slash@ =~= seq!['~', '/']);
                Some(
                    PathCompletionPlan {
                        token_start: ts,
                        search_dir: SearchDir::Path(String::from_str(h)),
                        dir_prefix: string_of(tilde_slash.as_slice()),
                        search_prefix: string_of(stripped.as_slice()),
                        directories_only: dirs_only,
                        bare_tilde: false,
                    },
                )
            },
        }
    } else if token.len() == 1 && token[0] == '~' {
        assert(token@ =~= seq!['~']);
        let h = match home {
            None => {
                return None;
            },
            Some(h) => h,
        };
        Some(
            PathCompletionPlan {
                token_start: ts,
                search_dir: SearchDir::Path(String::from_str(h)),
                dir_prefix: String::new(),
                search_prefix: string_of(token.as_slice()),
                directories_only: dirs_only,
                bare_tilde: true,
            },
        )
    } else {
        assert(token@ != seq!['~']);
        match last_slash_of(&token) {
            Some(j) => {
                let dir = slice_chars(token.as_slice(), 0, j);
                let dir_s = string_of(dir.as_slice());
                let search_dir = if j == 0 {
                    SearchDir::Path(string_of(slash.as_slice()))
                } else if is_absolute_path(dir_s.as_str()) {
                    SearchDir::Path(string_of(dir.as_slice()))
                } else {
                    SearchDir::CwdJoin(dir_s)
                };
                let dp = concat_chars(dir.as_slice(), slash.as_slice());
                let sp = slice_chars(token.as_slice(), j + 1, token.len());
                proof {
                    assert(slash@ =~= seq!['/']);
                    assert(sp@ =~= token@.skip(j + 1));
                }
                Some(
                    PathCompletionPlan {
                        token_start: ts,
                        search_dir,
                        dir_prefix: string_of(dp.as_slice()),
                        search_prefix: string_of(sp.as_slice()),
                        directories_only: dirs_only,
                        bare_tilde: false,
                    },
                )
            },
            None => Some(
                PathCompletionPlan {
                    token_start: ts,
                    search_dir: SearchDir::Cwd,
                    dir_prefix: String::new(),
                    search_prefix: string_of(token.as_slice()),
                    directories_only: dirs_only,
                    bare_tilde: false,
                },
            ),
        }
    }
}

/// The plan for a pane's input, as the input bar asks for it: nothing for a
/// remote pane or one whose working directory is unknown; otherwise the
/// plan for whatever home directory the environment gives.
pub fn plan_local_path_completion(input: &str, has_cwd: bool, is_remote: bool) -> (r: Option<
    PathCompletionPlan,
>)
    ensures
        is_remote || !has_cwd ==> r is None,
        r matches Some(q) ==> exists|h: Option<Seq<char>>| path_plan(input@, h) == Some(q.view_tuple()),
        (!is_remote && has_cwd && r is None) ==> exists|h: Option<Seq<char>>| path_plan(input@, h) is None,
{
    if is_remote || !has_cwd {
        return None;
    }
    let home = home_dir();
    let r = match &home {
        Some(h) => plan_path_completion(input, Some(h.as_str())),
        None => plan_path_completion(input, None),
    };
    r
}

// ── finishing: from the directory's entries to a completion ────────────

/// An entry qualifies: it starts with the search prefix, and is a directory
/// when only directories are wanted.
pub open spec fn keep_entry(e: DirEntryV, search_prefix: Seq<char>, dirs_only: bool) -> bool {
    (!dirs_only || e.1) && starts_with(e.0, search_prefix)
}

/// The qualifying entries, in their order.
pub open spec fn kept_entries(es: Seq<DirEntryV>, search_prefix: Seq<char>, dirs_only: bool) -> Seq<
    DirEntryV,
>
    decreases es.len(),
{
    if es.len() == 0 {
        es
    } else {
        let k = kept_entries(es.drop_last(), search_prefix, dirs_only);
        if keep_entry(es.last(), search_prefix, dirs_only) {
            k.push(es.last())
        } else {
            k
        }
    }
}

/// A name, with a trailing `/` for a directory.
pub open spec fn with_slash(name: Seq<char>, is_dir: bool) -> Seq<char> {
    if is_dir {
        name.push('/')
    } else {
        name
    }
}

/// The completed token for a matched name: the name itself after a bare `~`,
/// else behind the directory prefix.
pub open spec fn complete_token(dir_prefix: Seq<char>, bare_tilde: bool, matched: Seq<char>) -> Seq<
    char,
> {
    if bare_tilde {
        matched
    } else {
        dir_prefix + matched
    }
}

/// The names of entries.
pub open spec fn names_of(m: Seq<DirEntryV>) -> Seq<Seq<char>> {
    m.map_values(|e: DirEntryV| e.0)
}

/// The full input offered for each entry, as a candidate.
pub open spec fn candidate_texts(
    head: Seq<char>,
    dir_prefix: Seq<char>,
    bare_tilde: bool,
    m: Seq<DirEntryV>,
) -> Seq<Seq<char>> {
    m.map_values(|e: DirEntryV| head + with_slash(complete_token(dir_prefix, bare_tilde, e.0), e.1))
}

/// A completion as (inline, texts): an inline completion is one text, the
/// whole input it proposes; candidates are the whole inputs, one per entry.
pub type CompletionV = (bool, Seq<Seq<char>>);

/// The completion offered for `input` under `plan` by a directory with
/// `entries`: the qualifying entries sorted by name; none gives nothing;
/// one is completed inline (a directory with its `/`); several are completed
/// inline to their common prefix when it is longer than the search prefix,
/// and are offered as candidates otherwise.
pub open spec fn path_completion(input: Seq<char>, plan: PlanV, entries: Seq<DirEntryV>) -> Option<
    CompletionV,
> {
    let m = sort_entries(kept_entries(entries, plan.3, plan.4));
    let head = input.take(plan.0);
    if m.len() == 0 {
        None
    } else if m.len() == 1 {
        Some((true, seq![head + complete_token(plan.2, plan.5, with_slash(m[0].0, m[0].1))]))
    } else {
        let p = common_prefix(names_of(m));
        if p.len() <= plan.3.len() {
            Some((false, candidate_texts(head, plan.2, plan.5, m)))
        } else {
            Some((true, seq![head + complete_token(plan.2, plan.5, p)]))
        }
    }
}

/// A completion of the token under the cursor.
#[derive(Debug, Clone, PartialEq, Eq)]
pub enum LocalPathCompletion {
    /// The whole input with the token completed.
    Inline(String),
    /// The whole input for each candidate.
    Candidates(Vec<String>),
}

/// A completion as [`CompletionV`].
pub open spec fn completion_view(c: LocalPathCompletion) -> CompletionV {
    match c {
        LocalPathCompletion::Inline(t) => (true, seq![t@]),
        LocalPathCompletion::Candidates(v) => (false, strings_view(v@)),
    }
}

fn with_slash_vec(name: &Vec<char>, is_dir: bool) -> (r: Vec<char>)
    ensures
        r@ == with_slash(name@, is_dir),
{
    let mut r = slice_chars(name.as_slice(), 0, name.len());
    assert(r@ =~= name@);
    if is_dir {
        r.push('/');
    }
    r
}

fn complete_token_vec(dir_prefix: &Vec<char>, bare_tilde: bool, matched: &Vec<char>) -> (r: Vec<
    char,
>)
    ensures
        r@ == complete_token(dir_prefix@, bare_tilde, matched@),
{
    if bare_tilde {
        let r = slice_chars(matched.as_slice(), 0, matched.len());
        assert(r@ =~= matched@);
        r
    } else {
        concat_chars(dir_prefix.as_slice(), matched.as_slice())
    }
}

fn kept(entries: &Vec<(String, bool)>, search_prefix: &Vec<char>, dirs_only: bool) -> (r: Vec<
    (String, bool),
>)
    ensures
        entries_view(r@) == kept_entries(entries_view(entries@), search_prefix@, dirs_only),
{
    let ghost ev = entries_view(entries@);
    let mut r: Vec<(String, bool)> = Vec::new();
    let mut i: usize = 0;
    assert(ev.take(0) =~= Seq::<DirEntryV>::empty());
    while i < entries.len()
        invariant
            i <= entries@.len(),
            ev == entries_view(entries@),
            entries_view(r@) == kept_entries(ev.take(i as int), search_prefix@, dirs_only),
        decreases entries@.len() - i,
    {
        let name = chars_of(entries[i].0.as_str());
        let is_dir = entries[i].1;
        proof {
            assert(ev.take(i + 1).drop_last() =~= ev.take(i as int));
            assert(ev.take(i + 1).last() == ev[i as int]);
        }
        if (!dirs_only || is_dir) && chars_start_with(name.as_slice(), search_prefix.as_slice()) {
            let e = clone_entry(&entries[i]);
            r.push(e);
            assert(entries_view(r@) =~= kept_entries(ev.take(i as int), search_prefix@, dirs_only).push(ev[i as int]));
        }
        i = i + 1;
    }
    assert(ev.take(entries@.len() as int) =~= ev);
    r
}

/// The completion that a directory with `entries` gives for `input` under
/// `plan` (see [`path_completion`]).
pub fn finish_path_completion(
    input: &str,
    plan: &PathCompletionPlan,
    entries: &Vec<(String, bool)>,
) -> (r: Option<LocalPathCompletion>)
    requires
        plan.token_start <= input@.len(),
    ensures
        match path_completion(input@, plan.view_tuple(), entries_view(entries@)) {
            Some(c) => r matches Some(x) && completion_view(x) == c,
            None => r is None,
        },
{
    let ic = chars_of(input);
    let head = slice_chars(ic.as_slice(), 0, plan.token_start);
    let sp = chars_of(plan.search_prefix.as_str());
    let dp = chars_of(plan.dir_prefix.as_str());
    let k = kept(entries, &sp, plan.directories_only);
    let m = sort_by_name(&k);
    let ghost mv = entries_view(m@);
    if m.len() == 0 {
        return None;
    }
    if m.len() == 1 {
        let name = chars_of(m[0].0.as_str());
        let single = with_slash_vec(&name, m[0].1);
        let token = complete_token_vec(&dp, plan.bare_tilde, &single);
        let full = concat_chars(head.as_slice(), token.as_slice());
        let r = LocalPathCompletion::Inline(string_of(full.as_slice()));
        assert(completion_view(r).1 =~= seq![full@]);
        return Some(r);
    }
    let mut names: Vec<String> = Vec::new();
    let mut i: usize = 0;
    while i < m.len()
        invariant
            i <= m@.len(),
            mv == entries_view(m@),
            strings_view(names@) =~= names_of(mv).take(i as int),
        decreases m@.len() - i,
    {
        let ghost before = names@;
        let nm = m[i].0.clone();
        names.push(nm);
        proof {
            assert(names@ =~= before.push(nm));
            assert(strings_view(names@) =~= strings_view(before).push(nm@));
            assert(mv[i as int].0 == m@[i as int].0@);
            assert(names_of(mv).take(i + 1) =~= names_of(mv).take(i as int).push(mv[i as int].0));
        }
        i = i + 1;
    }
    assert(names_of(mv).take(m@.len() as int) =~= names_of(mv));
    let p = longest_common_prefix(&names);
    let pc = chars_of(p.as_str());
    if pc.len() <= sp.len() {
        let mut out: Vec<String> = Vec::new();
        let mut j: usize = 0;
        while j < m.len()
            invariant
                j <= m@.len(),
                mv == entries_view(m@),
                strings_view(out@) =~= candidate_texts(head@, dp@, plan.bare_tilde, mv).take(j as int),
            decreases m@.len() - j,
        {
            let name = chars_of(m[j].0.as_str());
            let token = complete_token_vec(&dp, plan.bare_tilde, &name);
            let cand = with_slash_vec(&token, m[j].1);
            let full = concat_chars(head.as_slice(), cand.as_slice());
            let ghost before = out@;
            let text = string_of(full.as_slice());
            out.push(text);
            proof {
                let ct = candidate_texts(head@, dp@, plan.bare_tilde, mv);
                assert(out@ =~= before.push(text));
                assert(strings_view(out@) =~= strings_view(before).push(text@));
                assert(mv[j as int] == (m@[j as int].0@, m@[j as int].1));
                assert(ct.take(j + 1) =~= ct.take(j as int).push(ct[j as int]));
            }
            j = j + 1;
        }
        assert(candidate_texts(head@, dp@, plan.bare_tilde, mv).take(m@.len() as int) =~= candidate_texts(head@, dp@, plan.bare_tilde, mv));
        return Some(LocalPathCompletion::Candidates(out));
    }
    let token = complete_token_vec(&dp, plan.bare_tilde, &pc);
    let full = concat_chars(head.as_slice(), token.as_slice());
    let r = LocalPathCompletion::Inline(string_of(full.as_slice()));
    assert(completion_view(r).1 =~= seq![full@]);
    Some(r)
}

// ── completion never changes what was typed ─────────────────────────────

proof fn lemma_token_start_bound(s: Seq<char>)
    ensures
        0 <= token_start_of(s) <= s.len(),
    decreases s.len(),
{
    if s.len() > 0 && !is_ws(s.last()) {
        lemma_token_start_bound(s.drop_last());
    }
}

proof fn lemma_last_slash(s: Seq<char>)
    ensures
        last_slash(s) matches Some(j) ==> 0 <= j < s.len() && s[j] == '/',
    decreases s.len(),
{
    if s.len() > 0 && s.last() != '/' {
        lemma_last_slash(s.drop_last());
    }
}

/// The token under the cursor is the plan's directory prefix followed by
/// its search prefix.
proof fn lemma_plan_splits_token(input: Seq<char>, home: Option<Seq<char>>)
    requires
        path_plan(input, home) is Some,
    ensures
        ({
            let p = path_plan(input, home)->0;
            &&& 0 <= p.0 <= input.len()
            &&& input.skip(p.0) == p.2 + p.3
            &&& p.5 ==> p.2 == Seq::<char>::empty()
        }),
{
    lemma_token_start_bound(input);
    let ts = token_start_of(input);
    let token = input.skip(ts);
    let p = path_plan(input, home)->0;
    if token.len() >= 2 && token[0] == '~' && token[1] == '/' {
        let stripped = token.skip(2);
        lemma_last_slash(stripped);
        match last_slash(stripped) {
            Some(j) => {
                assert(token =~= seq!['~', '/'] + stripped.take(j) + seq!['/'] + stripped.skip(j + 1));
            },
            None => {
                assert(token =~= seq!['~', '/'] + stripped);
            },
        }
    } else if token == seq!['~'] {
        assert(token =~= Seq::<char>::empty() + seq!['~']);
    } else {
        lemma_last_slash(token);
        match last_slash(token) {
            Some(j) => {
                assert(token =~= token.take(j) + seq!['/'] + token.skip(j + 1));
            },
            None => {
                assert(token =~= Seq::<char>::empty() + token);
            },
        }
    }
}

proof fn lemma_kept_qualify(es: Seq<DirEntryV>, sp: Seq<char>, dirs_only: bool)
    ensures
        forall|k: int|
            0 <= k < kept_entries(es, sp, dirs_only).len() ==> keep_entry(
                #[trigger] kept_entries(es, sp, dirs_only)[k],
                sp,
                dirs_only,
            ),
    decreases es.len(),
{
    if es.len() > 0 {
        let prev = kept_entries(es.drop_last(), sp, dirs_only);
        lemma_kept_qualify(es.drop_last(), sp, dirs_only);
        let cur = kept_entries(es, sp, dirs_only);
        assert forall|k: int| 0 <= k < cur.len() implies keep_entry(#[trigger] cur[k], sp, dirs_only) by {
            if k < prev.len() {
                assert(cur[k] == prev[k]);
            }
        }
    }
}

proof fn lemma_sorted_qualify(es: Seq<DirEntryV>, sp: Seq<char>, dirs_only: bool)
    ensures
        forall|k: int|
            0 <= k < sort_entries(kept_entries(es, sp, dirs_only)).len() ==> starts_with(
                (#[trigger] sort_entries(kept_entries(es, sp, dirs_only))[k]).0,
                sp,
            ),
{
    let kept = kept_entries(es, sp, dirs_only);
    let m = sort_entries(kept);
    lemma_kept_qualify(es, sp, dirs_only);
    law_sort_entries_sorted_permutation(kept);
    assert forall|k: int| 0 <= k < m.len() implies starts_with((#[trigger] m[k]).0, sp) by {
        vstd::seq_lib::to_multiset_contains(m, m[k]);
        vstd::seq_lib::to_multiset_contains(kept, m[k]);
        assert(m.contains(m[k]));
        assert(kept.contains(m[k]));
        let i = choose|i: int| 0 <= i < kept.len() && kept[i] == m[k];
        assert(keep_entry(kept[i], sp, dirs_only));
    }
}

proof fn lemma_extends(head: Seq<char>, dp: Seq<char>, sp: Seq<char>, rest: Seq<char>)
    requires
        starts_with(rest, sp),
    ensures
        starts_with(head + dp + rest, head + dp + sp),
{
    let x = head + dp + rest;
    let y = head + dp + sp;
    assert forall|i: int| 0 <= i < y.len() implies x[i] == y[i] by {
        if i >= head.len() + dp.len() {
            assert(rest.subrange(0, sp.len() as int)[i - head.len() - dp.len()] == sp[i - head.len()
                - dp.len()]);
        }
    }
    assert(x.subrange(0, y.len() as int) =~= y);
}

proof fn lemma_with_slash_extends(name: Seq<char>, is_dir: bool, sp: Seq<char>)
    requires
        starts_with(name, sp),
    ensures
        starts_with(with_slash(name, is_dir), sp),
{
    if is_dir {
        assert(name.push('/').subrange(0, sp.len() as int) =~= name.subrange(0, sp.len() as int));
    }
}

proof fn lemma_completion_extends(input: Seq<char>, p: PlanV, entries: Seq<DirEntryV>)
    requires
        0 <= p.0 <= input.len(),
        input.skip(p.0) == p.2 + p.3,
        p.5 ==> p.2 == Seq::<char>::empty(),
    ensures
        path_completion(input, p, entries) matches Some(c) ==> forall|k: int|
            0 <= k < c.1.len() ==> starts_with(#[trigger] c.1[k], input),
{
    lemma_sorted_qualify(entries, p.3, p.4);
    let head = input.take(p.0);
    assert(input =~= head + input.skip(p.0));
    assert(input =~= head + p.2 + p.3);
    let m = sort_entries(kept_entries(entries, p.3, p.4));
    if m.len() == 1 {
        lemma_with_slash_extends(m[0].0, m[0].1, p.3);
        lemma_extends(head, p.2, p.3, with_slash(m[0].0, m[0].1));
        assert(head + complete_token(p.2, p.5, with_slash(m[0].0, m[0].1)) =~= head + p.2
            + with_slash(m[0].0, m[0].1));
    } else if m.len() > 1 {
        let names = names_of(m);
        let q = common_prefix(names);
        law_common_prefix_longest(names, p.3);
        assert forall|k: int| 0 <= k < names.len() implies starts_with(names[k], p.3) by {
            assert(names[k] == m[k].0);
        }
        if q.len() <= p.3.len() {
            let ct = candidate_texts(head, p.2, p.5, m);
            assert forall|k: int| 0 <= k < ct.len() implies starts_with(#[trigger] ct[k], input) by {
                lemma_with_slash_extends(m[k].0, m[k].1, p.3);
                assert(with_slash(complete_token(p.2, p.5, m[k].0), m[k].1) =~= p.2 + with_slash(
                    m[k].0,
                    m[k].1,
                ));
                lemma_extends(head, p.2, p.3, with_slash(m[k].0, m[k].1));
                assert(ct[k] =~= head + p.2 + with_slash(m[k].0, m[k].1));
            }
        } else {
            lemma_extends(head, p.2, p.3, q);
            assert(head + complete_token(p.2, p.5, q) =~= head + p.2 + q);
        }
    }
}

/// A path completion never changes what was typed: every text it offers,
/// inline or as a candidate, starts with the whole input.
pub proof fn law_completion_extends_input(
    input: Seq<char>,
    home: Option<Seq<char>>,
    entries: Seq<DirEntryV>,
)
    requires
        path_plan(input, home) is Some,
    ensures
        path_completion(input, path_plan(input, home)->0, entries) matches Some(c) ==> forall|k: int|
            0 <= k < c.1.len() ==> starts_with(#[trigger] c.1[k], input),
{
    lemma_plan_splits_token(input, home);
    lemma_completion_extends(input, path_plan(input, home)->0, entries);
}

} // verus!
