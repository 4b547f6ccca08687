//! Recent-command histories: the per-pane and window-wide shell histories
//! and the submitted-input history. Each keeps the most recent use of a
//! command last, holds a command once, and forgets its oldest entries beyond
//! a capacity.
use vstd::prelude::*;
use std::collections::VecDeque;
use crate::text::{chars_eq, chars_start_with, chars_of, string_of, trim_seq, trim_str, starts_with};

verus! {

/// Commands remembered per pane.
pub const MAX_SHELL_HISTORY_PER_PANE: usize = 80;

/// Commands remembered across the window.
pub const MAX_GLOBAL_SHELL_HISTORY: usize = 240;

/// Submitted inputs remembered across the window.
pub const MAX_GLOBAL_INPUT_HISTORY: usize = 240;

/// One remembered command and the directory it ran in, when known.
#[derive(Debug, Clone, PartialEq, Eq)]
pub struct CommandEntry {
    pub command: String,
    pub cwd: Option<String>,
}

/// The view of an optional string.
pub open spec fn opt_view(o: Option<String>) -> Option<Seq<char>> {
    match o {
        Some(s) => Some(s@),
        None => None,
    }
}

/// An entry as (command, cwd) character sequences.
pub type EntryV = (Seq<char>, Option<Seq<char>>);

impl View for CommandEntry {
    type V = EntryV;

    open spec fn view(&self) -> EntryV {
        (self.command@, opt_view(self.cwd))
    }
}

/// The views of a sequence of entries.
pub open spec fn entries_view(s: Seq<CommandEntry>) -> Seq<EntryV> {
    s.map_values(|e: CommandEntry| e@)
}

/// Position of the first entry whose command is `k`.
pub open spec fn index_of_command(l: Seq<EntryV>, k: Seq<char>) -> Option<int>
    decreases l.len(),
{
    if l.len() == 0 {
        None
    } else if l[0].0 == k {
        Some(0)
    } else {
        match index_of_command(l.drop_first(), k) {
            Some(i) => Some(i + 1),
            None => None,
        }
    }
}

/// `l` without the first entry whose command is `k`.
pub open spec fn remove_command(l: Seq<EntryV>, k: Seq<char>) -> Seq<EntryV> {
    match index_of_command(l, k) {
        Some(i) => l.remove(i),
        None => l,
    }
}

/// The last `cap` elements of `s` (all of them when there are fewer).
pub open spec fn keep_last<T>(s: Seq<T>, cap: nat) -> Seq<T> {
    if s.len() > cap {
        s.subrange(s.len() - cap, s.len() as int)
    } else {
        s
    }
}

/// Remembering `e`: an earlier use of its command is dropped, `e` becomes the
/// most recent entry, and the oldest entries beyond `cap` are forgotten.
pub open spec fn push_recent(l: Seq<EntryV>, e: EntryV, cap: nat) -> Seq<EntryV> {
    keep_last(remove_command(l, e.0).push(e), cap)
}

/// Recording a typed command: it is trimmed, and a blank one is ignored.
pub open spec fn record_command(l: Seq<EntryV>, command: Seq<char>, cwd: Option<Seq<char>>, cap: nat) -> Seq<EntryV> {
    let t = trim_seq(command);
    if t.len() == 0 {
        l
    } else {
        push_recent(l, (t, cwd), cap)
    }
}

/// Recording each of `es` in turn.
pub open spec fn record_all(l: Seq<EntryV>, es: Seq<EntryV>, cap: nat) -> Seq<EntryV>
    decreases es.len(),
{
    if es.len() == 0 {
        l
    } else {
        record_command(record_all(l, es.drop_last(), cap), es.last().0, es.last().1, cap)
    }
}

/// Pushing each of `es` in turn, as they are.
pub open spec fn push_all(l: Seq<EntryV>, es: Seq<EntryV>, cap: nat) -> Seq<EntryV>
    decreases es.len(),
{
    if es.len() == 0 {
        l
    } else {
        push_recent(push_all(l, es.drop_last(), cap), es.last(), cap)
    }
}

/// No command occurs twice.
pub open spec fn unique_commands(l: Seq<EntryV>) -> bool {
    forall|i: int, j: int| 0 <= i < j < l.len() ==> l[i].0 != l[j].0
}

/// The `limit` most recent commands, newest first.
pub open spec fn recent_view(l: Seq<EntryV>, limit: nat) -> Seq<Seq<char>> {
    let n = if limit < l.len() { limit } else { l.len() };
    Seq::new(n, |i: int| l[l.len() - 1 - i].0)
}

proof fn lemma_index_of_found(l: Seq<EntryV>, k: Seq<char>, i: int)
    requires
        0 <= i < l.len(),
        l[i].0 == k,
        forall|j: int| 0 <= j < i ==> l[j].0 != k,
    ensures
        index_of_command(l, k) == Some(i),
    decreases i,
{
    if i > 0 {
        lemma_index_of_found(l.drop_first(), k, i - 1);
    }
}

proof fn lemma_index_of_absent(l: Seq<EntryV>, k: Seq<char>)
    requires
        forall|j: int| 0 <= j < l.len() ==> l[j].0 != k,
    ensures
        index_of_command(l, k) is None,
    decreases l.len(),
{
    if l.len() > 0 {
        lemma_index_of_absent(l.drop_first(), k);
    }
}

proof fn lemma_index_of_some(l: Seq<EntryV>, k: Seq<char>)
    ensures
        index_of_command(l, k) matches Some(i) ==> 0 <= i < l.len() && l[i].0 == k && forall|j: int|
            0 <= j < i ==> l[j].0 != k,
        index_of_command(l, k) is None ==> forall|j: int| 0 <= j < l.len() ==> l[j].0 != k,
    decreases l.len(),
{
    if l.len() > 0 {
        lemma_index_of_some(l.drop_first(), k);
        if l[0].0 != k {
            assert forall|j: int| 1 <= j < l.len() implies l[j] == l.drop_first()[j - 1] by {}
        }
    }
}

proof fn lemma_remove_unique(l: Seq<EntryV>, k: Seq<char>)
    requires
        unique_commands(l),
    ensures
        unique_commands(remove_command(l, k)),
        forall|j: int| 0 <= j < remove_command(l, k).len() ==> remove_command(l, k)[j].0 != k,
        remove_command(l, k).len() <= l.len(),
{
    lemma_index_of_some(l, k);
    match index_of_command(l, k) {
        Some(i) => {
            let r = l.remove(i);
            assert forall|j: int| 0 <= j < r.len() implies r[j].0 != k by {
                if j < i {
                } else {
                    assert(r[j] == l[j + 1]);
                }
            }
            assert forall|a: int, b: int| 0 <= a < b < r.len() implies r[a].0 != r[b].0 by {
                let a2 = if a < i { a } else { a + 1 };
                let b2 = if b < i { b } else { b + 1 };
                assert(r[a] == l[a2]);
                assert(r[b] == l[b2]);
            }
        },
        None => {},
    }
}

/// Law: after remembering `e` (with a capacity of at least one), `e` is the
/// most recent entry, the history holds at most `cap` entries, and a history
/// without repeated commands stays without them, holding `e`'s command once.
pub proof fn law_push_recent_newest_unique_bounded(l: Seq<EntryV>, e: EntryV, cap: nat)
    requires
        cap > 0,
    ensures
        push_recent(l, e, cap).len() > 0,
        push_recent(l, e, cap).last() == e,
        push_recent(l, e, cap).len() <= cap,
        recent_view(push_recent(l, e, cap), 1) == seq![e.0],
        unique_commands(l) ==> unique_commands(push_recent(l, e, cap)),
        unique_commands(l) ==> forall|j: int|
            0 <= j < push_recent(l, e, cap).len() - 1 ==> push_recent(l, e, cap)[j].0 != e.0,
{
    let s = remove_command(l, e.0).push(e);
    let r = push_recent(l, e, cap);
    assert(r.last() == e);
    assert(recent_view(r, 1) =~= seq![e.0]);
    if unique_commands(l) {
        lemma_remove_unique(l, e.0);
        assert(unique_commands(s)) by {
            assert forall|a: int, b: int| 0 <= a < b < s.len() implies s[a].0 != s[b].0 by {
                if b == s.len() - 1 {
                } else {
                }
            }
        }
        let off = s.len() - r.len();
        assert forall|a: int, b: int| 0 <= a < b < r.len() implies r[a].0 != r[b].0 by {
            assert(r[a] == s[a + off]);
            assert(r[b] == s[b + off]);
        }
        assert forall|j: int| 0 <= j < r.len() - 1 implies r[j].0 != e.0 by {
            assert(r[j] == s[j + off]);
        }
    }
}

/// Law: remembering the same entry twice in a row is the same as remembering
/// it once (for a history without repeated commands).
pub proof fn law_push_recent_idempotent(l: Seq<EntryV>, e: EntryV, cap: nat)
    requires
        cap > 0,
        unique_commands(l),
    ensures
        push_recent(push_recent(l, e, cap), e, cap) == push_recent(l, e, cap),
{
    let r = push_recent(l, e, cap);
    law_push_recent_newest_unique_bounded(l, e, cap);
    lemma_index_of_found(r, e.0, r.len() - 1);
    assert(remove_command(r, e.0) =~= r.drop_last());
    assert(r.drop_last().push(e) =~= r);
}

/// A bounded, most-recent-last history of commands.
pub struct History {
    entries: VecDeque<CommandEntry>,
    cap: usize,
}

impl View for History {
    type V = Seq<EntryV>;

    closed spec fn view(&self) -> Seq<EntryV> {
        entries_view(self.entries@)
    }
}

pub(crate) fn clone_opt_string(o: &Option<String>) -> (r: Option<String>)
    ensures
        r == *o,
{
    match o {
        Some(s) => Some(s.clone()),
        None => None,
    }
}

impl CommandEntry {
    /// An identical copy.
    pub fn duplicate(&self) -> (r: CommandEntry)
        ensures
            r == *self,
    {
        CommandEntry { command: self.command.clone(), cwd: clone_opt_string(&self.cwd) }
    }
}

impl History {
    pub closed spec fn capacity(&self) -> nat {
        self.cap as nat
    }

    /// A usable history remembers at least one entry.
    pub closed spec fn wf(&self) -> bool {
        self.cap > 0
    }

    /// An empty history that remembers up to `cap` entries.
    pub fn new(cap: usize) -> (h: History)
        requires
            cap > 0,
        ensures
            h.wf(),
            h@ == Seq::<EntryV>::empty(),
            h.capacity() == cap,
    {
        let h = History { entries: VecDeque::new(), cap };
        assert(h@ =~= Seq::<EntryV>::empty());
        h
    }

    /// A history holding `entries` as they are (restored state is taken
    /// as saved: neither deduplicated nor cut to `cap`).
    pub fn from_entries(entries: Vec<CommandEntry>, cap: usize) -> (h: History)
        requires
            cap > 0,
        ensures
            h.wf(),
            h@ == entries_view(entries@),
            h.capacity() == cap,
    {
        let mut entries = entries;
        let ghost orig = entries@;
        let mut d: VecDeque<CommandEntry> = VecDeque::new();
        while entries.len() > 0
            invariant
                entries@ == orig.take(entries@.len() as int),
                d@ == orig.subrange(entries@.len() as int, orig.len() as int),
                entries@.len() <= orig.len(),
            decreases entries@.len(),
        {
            let ghost k = entries@.len() as int;
            let x = entries.pop().unwrap();
            d.push_front(x);
            proof {
                assert(entries@ =~= orig.take(k - 1));
                assert(d@ =~= orig.subrange(k - 1, orig.len() as int));
            }
        }
        assert(d@ =~= orig);
        History { entries: d, cap }
    }

    /// Number of entries.
    pub fn len(&self) -> (n: usize)
        ensures
            n == self@.len(),
    {
        self.entries.len()
    }

    /// The entries, oldest first.
    pub fn entries(&self) -> (r: Vec<CommandEntry>)
        ensures
            entries_view(r@) == self@,
    {
        let mut r: Vec<CommandEntry> = Vec::new();
        let mut i: usize = 0;
        while i < self.entries.len()
            invariant
                i <= self.entries@.len(),
                r@ == self.entries@.take(i as int),
            decreases self.entries@.len() - i,
        {
            r.push(self.entries[i].duplicate());
            assert(self.entries@.take(i + 1) =~= self.entries@.take(i as int).push(self.entries@[i as int]));
            i = i + 1;
        }
        assert(self.entries@.take(self.entries@.len() as int) =~= self.entries@);
        r
    }

    fn find_command(&self, k: &String) -> (r: Option<usize>)
        ensures
            r matches Some(i) ==> index_of_command(self@, k@) == Some(i as int),
            r is None ==> index_of_command(self@, k@) is None,
    {
        let mut i: usize = 0;
        while i < self.entries.len()
            invariant
                i <= self@.len(),
                self@.len() == self.entries@.len(),
                forall|j: int| 0 <= j < i ==> self@[j].0 != k@,
            decreases self@.len() - i,
        {
            if self.entries[i].command == *k {
                proof {
                    lemma_index_of_found(self@, k@, i as int);
                }
                return Some(i);
            }
            i = i + 1;
        }
        proof {
            lemma_index_of_absent(self@, k@);
        }
        None
    }

    /// Remembers `entry` as it is (see [`push_recent`]).
    pub fn push_entry(&mut self, entry: CommandEntry)
        requires
            old(self).wf(),
        ensures
            final(self).wf(),
            final(self).capacity() == old(self).capacity(),
            final(self)@ == push_recent(old(self)@, entry@, old(self).capacity()),
    {
        let ghost l = self@;
        match self.find_command(&entry.command) {
            Some(i) => {
                proof {
                    lemma_index_of_some(l, entry.command@);
                }
                let _gone = self.entries.remove(i);
                assert(self@ =~= l.remove(i as int));
            },
            None => {},
        }
        assert(self@ == remove_command(l, entry@.0));
        let ghost removed = self@;
        self.entries.push_back(entry);
        let ghost s = removed.push(entry@);
        assert(self@ =~= s);
        let ghost mut dropped: int = 0;
        let ghost cap0 = self.cap;
        while self.entries.len() > self.cap
            invariant
                self.cap == cap0,
                self.cap > 0,
                0 <= dropped,
                s.len() <= self.cap ==> dropped == 0,
                s.len() > self.cap ==> dropped <= s.len() - self.cap,
                self@ == s.subrange(dropped, s.len() as int),
                self@.len() == self.entries@.len(),
            decreases self.entries@.len(),
        {
            let ghost prev = self.entries@;
            let _oldest = self.entries.pop_front();
            proof {
                assert(self.entries@ =~= prev.drop_first());
                assert(entries_view(self.entries@) =~= entries_view(prev).drop_first());
                assert(self@ =~= s.subrange(dropped + 1, s.len() as int));
                dropped = dropped + 1;
            }
        }
        assert(self@ =~= keep_last(s, self.cap as nat));
    }

    /// Records a typed command (see [`record_command`]).
    pub fn record(&mut self, command: &str, cwd: Option<String>)
        requires
            old(self).wf(),
        ensures
            final(self).wf(),
            final(self).capacity() == old(self).capacity(),
            final(self)@ == record_command(old(self)@, command@, opt_view(cwd), old(self).capacity()),
    {
        let k = trim_str(command);
        if k.len() == 0 {
            return;
        }
        let entry = CommandEntry { command: string_of(k.as_slice()), cwd };
        self.push_entry(entry);
    }

    /// Records each of `entries` in turn, trimming and skipping blank ones.
    pub fn record_each(&mut self, entries: &Vec<CommandEntry>)
        requires
            old(self).wf(),
        ensures
            final(self).wf(),
            final(self).capacity() == old(self).capacity(),
            final(self)@ == record_all(old(self)@, entries_view(entries@), old(self).capacity()),
    {
        let ghost start = self@;
        let ghost es = entries_view(entries@);
        let mut i: usize = 0;
        assert(es.subrange(0, 0) =~= Seq::<EntryV>::empty());
        while i < entries.len()
            invariant
                self.wf(),
                self.capacity() == old(self).capacity(),
                i <= entries@.len(),
                es == entries_view(entries@),
                self@ == record_all(start, es.subrange(0, i as int), self.capacity()),
            decreases entries@.len() - i,
        {
            let cwd = clone_opt_string(&entries[i].cwd);
            self.record(entries[i].command.as_str(), cwd);
            proof {
                let pre = es.subrange(0, i + 1);
                assert(pre.drop_last() =~= es.subrange(0, i as int));
                assert(pre.last() == es[i as int]);
            }
            i = i + 1;
        }
        assert(es.subrange(0, entries@.len() as int) =~= es);
    }

    /// Pushes each of `entries` in turn, as they are.
    pub fn push_each(&mut self, entries: &Vec<CommandEntry>)
        requires
            old(self).wf(),
        ensures
            final(self).wf(),
            final(self).capacity() == old(self).capacity(),
            final(self)@ == push_all(old(self)@, entries_view(entries@), old(self).capacity()),
    {
        let ghost start = self@;
        let ghost es = entries_view(entries@);
        let mut i: usize = 0;
        assert(es.subrange(0, 0) =~= Seq::<EntryV>::empty());
        while i < entries.len()
            invariant
                self.wf(),
                self.capacity() == old(self).capacity(),
                i <= entries@.len(),
                es == entries_view(entries@),
                self@ == push_all(start, es.subrange(0, i as int), self.capacity()),
            decreases entries@.len() - i,
        {
            let e = entries[i].duplicate();
            self.push_entry(e);
            proof {
                let pre = es.subrange(0, i + 1);
                assert(pre.drop_last() =~= es.subrange(0, i as int));
                assert(pre.last() == es[i as int]);
            }
            i = i + 1;
        }
        assert(es.subrange(0, entries@.len() as int) =~= es);
    }

    /// The `limit` most recent commands, newest first.
    pub fn recent(&self, limit: usize) -> (r: Vec<String>)
        ensures
            r@.map_values(|s: String| s@) == recent_view(self@, limit as nat),
    {
        let n = self.entries.len();
        let mut r: Vec<String> = Vec::new();
        let mut i: usize = 0;
        while i < n && i < limit
            invariant
                n == self@.len(),
                n == self.entries@.len(),
                i <= n,
                i <= limit,
                r@.len() == i,
                forall|j: int| 0 <= j < i ==> r@[j]@ == self@[n - 1 - j].0,
            decreases n - i,
        {
            r.push(self.entries[n - 1 - i].command.clone());
            i = i + 1;
        }
        assert(r@.map_values(|s: String| s@) =~= recent_view(self@, limit as nat));
        r
    }
}


/// Entries with blank commands dropped and the others trimmed (the cleaning
/// applied to histories read back from a saved session).
pub open spec fn clean_entries(es: Seq<EntryV>) -> Seq<EntryV>
    decreases es.len(),
{
    if es.len() == 0 {
        es
    } else {
        let p = clean_entries(es.drop_last());
        let t = trim_seq(es.last().0);
        if t.len() > 0 {
            p.push((t, es.last().1))
        } else {
            p
        }
    }
}

/// Pushing, as they are, the entries of each of `ps` in turn.
pub open spec fn push_all_panes(l: Seq<EntryV>, ps: Seq<Seq<EntryV>>, cap: nat) -> Seq<EntryV>
    decreases ps.len(),
{
    if ps.len() == 0 {
        l
    } else {
        push_all(push_all_panes(l, ps.drop_last(), cap), ps.last(), cap)
    }
}

/// The window-wide shell history restored at startup: the session's own
/// (cleaned) list when it has one, else the per-pane histories pushed one
/// after another.
pub open spec fn restored_global_shell(session: Seq<EntryV>, panes: Seq<Seq<EntryV>>) -> Seq<EntryV> {
    if clean_entries(session).len() > 0 {
        clean_entries(session)
    } else {
        push_all_panes(Seq::empty(), panes, MAX_GLOBAL_SHELL_HISTORY as nat)
    }
}

/// Plain inputs as history entries without a directory.
pub open spec fn inputs_view(s: Seq<String>) -> Seq<EntryV> {
    s.map_values(|x: String| (x@, None::<Seq<char>>))
}

/// Entries with their directories dropped.
pub open spec fn commands_only(s: Seq<EntryV>) -> Seq<EntryV> {
    s.map_values(|e: EntryV| (e.0, None::<Seq<char>>))
}

/// The submitted-input history restored at startup: the session's inputs
/// followed by the persisted ones, recorded in turn; when that leaves nothing,
/// the (cleaned) commands of the shell history.
pub open spec fn restored_input_history(session: Seq<EntryV>, persisted: Seq<EntryV>, shell: Seq<EntryV>) -> Seq<EntryV> {
    let r = record_all(Seq::empty(), session + persisted, MAX_GLOBAL_INPUT_HISTORY as nat);
    if r.len() > 0 {
        r
    } else {
        commands_only(clean_entries(shell))
    }
}

/// A history command that extends `prefix` (and is not `prefix` itself).
pub open spec fn extends_prefix(c: Seq<char>, prefix: Seq<char>) -> bool {
    c != prefix && starts_with(c, prefix)
}

/// Whether entry `i` may complete `prefix`; `dir` narrows to entries that ran
/// there, `kinds` (when given) to entries marked as shell commands.
pub open spec fn is_hit(l: Seq<EntryV>, prefix: Seq<char>, dir: Option<Seq<char>>, kinds: Option<Seq<bool>>, i: int) -> bool {
    &&& extends_prefix(l[i].0, prefix)
    &&& (dir matches Some(d) ==> l[i].1 == Some(d))
    &&& (kinds matches Some(k) ==> k[i])
}

/// The newest hit below `n` (see [`is_hit`]).
pub open spec fn last_hit(l: Seq<EntryV>, prefix: Seq<char>, dir: Option<Seq<char>>, kinds: Option<Seq<bool>>, n: int) -> Option<int>
    decreases n,
{
    if n <= 0 {
        None
    } else if is_hit(l, prefix, dir, kinds, n - 1) {
        Some(n - 1)
    } else {
        last_hit(l, prefix, dir, kinds, n - 1)
    }
}

/// The inline completion offered from history for `prefix`: the newest shell
/// command that extends it and ran in `cwd`; else the newest shell command
/// that extends it; else the newest submitted input that extends it and is a
/// shell command (every input counts in shell mode).
pub open spec fn history_completion(
    shell: Seq<EntryV>,
    inputs: Seq<EntryV>,
    prefix: Seq<char>,
    cwd: Option<Seq<char>>,
    shell_mode: bool,
    input_is_shell: Seq<bool>,
) -> Option<Seq<char>> {
    let in_cwd = match cwd {
        Some(d) => last_hit(shell, prefix, Some(d), None, shell.len() as int),
        None => None,
    };
    let any = last_hit(shell, prefix, None, None, shell.len() as int);
    let kinds = if shell_mode { None } else { Some(input_is_shell) };
    let input = last_hit(inputs, prefix, None, kinds, inputs.len() as int);
    match in_cwd {
        Some(i) => Some(shell[i].0),
        None => match any {
            Some(i) => Some(shell[i].0),
            None => match input {
                Some(i) => Some(inputs[i].0),
                None => None,
            },
        },
    }
}

/// `last_hit` finds the newest hit below `n`: it is a hit, and nothing after
/// it is.
proof fn lemma_last_hit_newest(l: Seq<EntryV>, prefix: Seq<char>, dir: Option<Seq<char>>, kinds: Option<Seq<bool>>, n: int, i: int)
    requires
        0 <= i < n,
        is_hit(l, prefix, dir, kinds, i),
        forall|j: int| i < j < n ==> !is_hit(l, prefix, dir, kinds, j),
    ensures
        last_hit(l, prefix, dir, kinds, n) == Some(i),
    decreases n,
{
    if n - 1 != i {
        lemma_last_hit_newest(l, prefix, dir, kinds, n - 1, i);
    }
}

proof fn lemma_last_hit_none(l: Seq<EntryV>, prefix: Seq<char>, dir: Option<Seq<char>>, kinds: Option<Seq<bool>>, n: int)
    requires
        forall|j: int| 0 <= j < n ==> !is_hit(l, prefix, dir, kinds, j),
    ensures
        last_hit(l, prefix, dir, kinds, n) is None,
    decreases n,
{
    if n > 0 {
        lemma_last_hit_none(l, prefix, dir, kinds, n - 1);
    }
}

/// Shell history that ran in the current directory wins: when shell entry
/// `i` ran in `cwd` and strictly extends the prefix, and no later shell entry
/// in `cwd` does, the completion is entry `i`'s command, whatever the rest
/// of the histories hold.
pub proof fn law_completion_prefers_cwd(
    shell: Seq<EntryV>,
    inputs: Seq<EntryV>,
    prefix: Seq<char>,
    cwd: Seq<char>,
    shell_mode: bool,
    input_is_shell: Seq<bool>,
    i: int,
)
    requires
        0 <= i < shell.len(),
        shell[i].1 == Some(cwd),
        shell[i].0 != prefix && starts_with(shell[i].0, prefix),
        forall|j: int|
            i < j < shell.len() && shell[j].1 == Some(cwd) ==> !(shell[j].0 != prefix && starts_with(
                shell[j].0,
                prefix,
            )),
    ensures
        history_completion(shell, inputs, prefix, Some(cwd), shell_mode, input_is_shell) == Some(
            shell[i].0,
        ),
{
    lemma_last_hit_newest(shell, prefix, Some(cwd), None, shell.len() as int, i);
}

/// Shell history comes before submitted inputs: when no shell entry from the
/// current directory (if one is known) extends the prefix but shell entry
/// `i` does, and no later shell entry does, the completion is entry `i`'s
/// command, whatever the input history holds.
pub proof fn law_completion_prefers_shell_history(
    shell: Seq<EntryV>,
    inputs: Seq<EntryV>,
    prefix: Seq<char>,
    cwd: Option<Seq<char>>,
    shell_mode: bool,
    input_is_shell: Seq<bool>,
    i: int,
)
    requires
        0 <= i < shell.len(),
        shell[i].0 != prefix && starts_with(shell[i].0, prefix),
        forall|j: int|
            i < j < shell.len() ==> !(shell[j].0 != prefix && starts_with(shell[j].0, prefix)),
        cwd matches Some(d) ==> forall|j: int|
            0 <= j < shell.len() && shell[j].1 == Some(d) ==> !(shell[j].0 != prefix && starts_with(
                shell[j].0,
                prefix,
            )),
    ensures
        history_completion(shell, inputs, prefix, cwd, shell_mode, input_is_shell) == Some(
            shell[i].0,
        ),
{
    if let Some(d) = cwd {
        lemma_last_hit_none(shell, prefix, Some(d), None, shell.len() as int);
    }
    lemma_last_hit_newest(shell, prefix, None, None, shell.len() as int, i);
}

/// Input `j` may complete `prefix`: it strictly extends it and, outside
/// shell mode, reads as a shell command.
pub open spec fn input_completes(
    inputs: Seq<EntryV>,
    prefix: Seq<char>,
    shell_mode: bool,
    input_is_shell: Seq<bool>,
    j: int,
) -> bool {
    &&& inputs[j].0 != prefix
    &&& starts_with(inputs[j].0, prefix)
    &&& (!shell_mode ==> input_is_shell[j])
}

/// Submitted inputs are the fallback: when no shell entry extends the
/// prefix, the completion is the newest input that may complete it (see
/// [`input_completes`]), or nothing when none may.
pub proof fn law_completion_falls_back_to_inputs(
    shell: Seq<EntryV>,
    inputs: Seq<EntryV>,
    prefix: Seq<char>,
    cwd: Option<Seq<char>>,
    shell_mode: bool,
    input_is_shell: Seq<bool>,
)
    requires
        forall|j: int| 0 <= j < shell.len() ==> !(shell[j].0 != prefix && starts_with(shell[j].0, prefix)),
    ensures
        forall|i: int|
            0 <= i < inputs.len() && #[trigger] input_completes(inputs, prefix, shell_mode, input_is_shell, i)
                && (forall|j: int|
                i < j < inputs.len() ==> !input_completes(inputs, prefix, shell_mode, input_is_shell, j))
                ==> history_completion(shell, inputs, prefix, cwd, shell_mode, input_is_shell) == Some(
                inputs[i].0,
            ),
        (forall|i: int|
            0 <= i < inputs.len() ==> !input_completes(inputs, prefix, shell_mode, input_is_shell, i))
            ==> history_completion(shell, inputs, prefix, cwd, shell_mode, input_is_shell) is None,
{
    if let Some(d) = cwd {
        lemma_last_hit_none(shell, prefix, Some(d), None, shell.len() as int);
    }
    lemma_last_hit_none(shell, prefix, None, None, shell.len() as int);
    let kinds = if shell_mode { None } else { Some(input_is_shell) };
    assert forall|j: int| 0 <= j < inputs.len() implies is_hit(inputs, prefix, None, kinds, j)
        == input_completes(inputs, prefix, shell_mode, input_is_shell, j) by {}
    assert forall|i: int|
        0 <= i < inputs.len() && #[trigger] input_completes(inputs, prefix, shell_mode, input_is_shell, i)
            && (forall|j: int|
            i < j < inputs.len() ==> !input_completes(inputs, prefix, shell_mode, input_is_shell, j))
            implies history_completion(shell, inputs, prefix, cwd, shell_mode, input_is_shell) == Some(
        inputs[i].0,
    ) by {
        lemma_last_hit_newest(inputs, prefix, None, kinds, inputs.len() as int, i);
    }
    if forall|i: int|
        0 <= i < inputs.len() ==> !input_completes(inputs, prefix, shell_mode, input_is_shell, i) {
        lemma_last_hit_none(inputs, prefix, None, kinds, inputs.len() as int);
    }
}

/// The cleaned copy of `entries` (see [`clean_entries`]).
pub fn clean_commands(entries: &Vec<CommandEntry>) -> (r: Vec<CommandEntry>)
    ensures
        entries_view(r@) == clean_entries(entries_view(entries@)),
{
    let ghost es = entries_view(entries@);
    let mut r: Vec<CommandEntry> = Vec::new();
    let mut i: usize = 0;
    assert(es.subrange(0, 0) =~= Seq::<EntryV>::empty());
    while i < entries.len()
        invariant
            i <= entries@.len(),
            es == entries_view(entries@),
            entries_view(r@) == clean_entries(es.subrange(0, i as int)),
        decreases entries@.len() - i,
    {
        let t = trim_str(entries[i].command.as_str());
        proof {
            let pre = es.subrange(0, i + 1);
            assert(pre.drop_last() =~= es.subrange(0, i as int));
            assert(pre.last() == es[i as int]);
        }
        if t.len() > 0 {
            let ghost before = r@;
            r.push(CommandEntry { command: string_of(t.as_slice()), cwd: clone_opt_string(&entries[i].cwd) });
            assert(entries_view(r@) =~= entries_view(before).push(entries_view(r@).last()));
        }
        i = i + 1;
    }
    assert(es.subrange(0, entries@.len() as int) =~= es);
    r
}

/// The window-wide shell history at startup (see [`restored_global_shell`]).
pub fn restore_global_shell_history(session: &Vec<CommandEntry>, panes: &Vec<Vec<CommandEntry>>) -> (h: History)
    ensures
        h.wf(),
        h.capacity() == MAX_GLOBAL_SHELL_HISTORY,
        h@ == restored_global_shell(
            entries_view(session@),
            panes@.map_values(|p: Vec<CommandEntry>| entries_view(p@)),
        ),
{
    let from_session = clean_commands(session);
    if from_session.len() > 0 {
        return History::from_entries(from_session, MAX_GLOBAL_SHELL_HISTORY);
    }
    let ghost ps = panes@.map_values(|p: Vec<CommandEntry>| entries_view(p@));
    let mut h = History::new(MAX_GLOBAL_SHELL_HISTORY);
    let mut i: usize = 0;
    assert(ps.subrange(0, 0) =~= Seq::<Seq<EntryV>>::empty());
    while i < panes.len()
        invariant
            h.wf(),
            h.capacity() == MAX_GLOBAL_SHELL_HISTORY,
            i <= panes@.len(),
            ps == panes@.map_values(|p: Vec<CommandEntry>| entries_view(p@)),
            h@ == push_all_panes(Seq::empty(), ps.subrange(0, i as int), MAX_GLOBAL_SHELL_HISTORY as nat),
        decreases panes@.len() - i,
    {
        h.push_each(&panes[i]);
        proof {
            let pre = ps.subrange(0, i + 1);
            assert(pre.drop_last() =~= ps.subrange(0, i as int));
            assert(pre.last() == ps[i as int]);
        }
        i = i + 1;
    }
    assert(ps.subrange(0, panes@.len() as int) =~= ps);
    h
}

/// Merges the persisted shell history into the restored one: each persisted
/// command is recorded in turn (trimmed; blank ones skipped).
pub fn merge_shell_histories(restored: History, persisted: &Vec<CommandEntry>) -> (h: History)
    requires
        restored.wf(),
    ensures
        h.wf(),
        h.capacity() == restored.capacity(),
        h@ == record_all(restored@, entries_view(persisted@), restored.capacity()),
{
    let mut h = restored;
    h.record_each(persisted);
    h
}

fn inputs_as_entries(inputs: &Vec<String>) -> (r: Vec<CommandEntry>)
    ensures
        entries_view(r@) == inputs_view(inputs@),
{
    let mut r: Vec<CommandEntry> = Vec::new();
    let mut i: usize = 0;
    while i < inputs.len()
        invariant
            i <= inputs@.len(),
            entries_view(r@) == inputs_view(inputs@.subrange(0, i as int)),
        decreases inputs@.len() - i,
    {
        let ghost before = r@;
        r.push(CommandEntry { command: inputs[i].clone(), cwd: None });
        proof {
            assert(r@ == before.push(r@.last()));
            assert(entries_view(r@) =~= entries_view(before).push(r@.last()@));
            assert(inputs@.subrange(0, i + 1) =~= inputs@.subrange(0, i as int).push(inputs@[i as int]));
            assert(inputs_view(inputs@.subrange(0, i + 1)) =~= inputs_view(inputs@.subrange(0, i as int)).push((inputs@[i as int]@, None::<Seq<char>>)));
        }
        i = i + 1;
    }
    assert(inputs@.subrange(0, inputs@.len() as int) =~= inputs@);
    r
}

/// The submitted-input history at startup (see [`restored_input_history`]).
pub fn restore_global_input_history(session: &Vec<String>, persisted: &Vec<String>, shell: &History) -> (h: History)
    ensures
        h.wf(),
        h.capacity() == MAX_GLOBAL_INPUT_HISTORY,
        h@ == restored_input_history(inputs_view(session@), inputs_view(persisted@), shell@),
{
    let mut h = History::new(MAX_GLOBAL_INPUT_HISTORY);
    let a = inputs_as_entries(session);
    let b = inputs_as_entries(persisted);
    h.record_each(&a);
    proof {
        lemma_record_all_concat(Seq::empty(), entries_view(a@), entries_view(b@), MAX_GLOBAL_INPUT_HISTORY as nat);
    }
    h.record_each(&b);
    if h.len() > 0 {
        return h;
    }
    let cleaned = clean_commands(&shell.entries());
    let mut only: Vec<CommandEntry> = Vec::new();
    let mut i: usize = 0;
    while i < cleaned.len()
        invariant
            i <= cleaned@.len(),
            entries_view(only@) == commands_only(entries_view(cleaned@).subrange(0, i as int)),
        decreases cleaned@.len() - i,
    {
        let ghost before = only@;
        only.push(CommandEntry { command: cleaned[i].command.clone(), cwd: None });
        proof {
            let cv = entries_view(cleaned@);
            assert(entries_view(only@) =~= entries_view(before).push(only@.last()@));
            assert(cv.subrange(0, i + 1) =~= cv.subrange(0, i as int).push(cv[i as int]));
            assert(commands_only(cv.subrange(0, i + 1)) =~= commands_only(cv.subrange(0, i as int)).push((cv[i as int].0, None::<Seq<char>>)));
        }
        i = i + 1;
    }
    assert(entries_view(cleaned@).subrange(0, cleaned@.len() as int) =~= entries_view(cleaned@));
    History::from_entries(only, MAX_GLOBAL_INPUT_HISTORY)
}

proof fn lemma_record_all_concat(l: Seq<EntryV>, a: Seq<EntryV>, b: Seq<EntryV>, cap: nat)
    ensures
        record_all(record_all(l, a, cap), b, cap) == record_all(l, a + b, cap),
    decreases b.len(),
{
    if b.len() == 0 {
        assert(a + b =~= a);
    } else {
        lemma_record_all_concat(l, a, b.drop_last(), cap);
        assert((a + b).drop_last() =~= a + b.drop_last());
        assert((a + b).last() == b.last());
    }
}

fn opt_chars_eq(o: &Option<String>, d: &Vec<char>) -> (r: bool)
    ensures
        r == (opt_view(*o) == Some(d@)),
{
    match o {
        Some(x) => {
            let xc = chars_of(x.as_str());
            chars_eq(xc.as_slice(), d.as_slice())
        },
        None => false,
    }
}

fn find_last_hit(
    es: &Vec<CommandEntry>,
    prefix: &Vec<char>,
    dir: &Option<Vec<char>>,
    kinds: &Option<&Vec<bool>>,
) -> (r: Option<usize>)
    requires
        kinds matches Some(k) ==> k@.len() == es@.len(),
    ensures
        ({
            let dv = match dir {
                Some(d) => Some(d@),
                None => None,
            };
            let kv = match kinds {
                Some(k) => Some(k@),
                None => None,
            };
            &&& r matches Some(i) ==> i < es@.len() && last_hit(
                entries_view(es@),
                prefix@,
                dv,
                kv,
                es@.len() as int,
            ) == Some(i as int)
            &&& r is None ==> last_hit(entries_view(es@), prefix@, dv, kv, es@.len() as int) is None
        }),
{
    let ghost l = entries_view(es@);
    let ghost dv = match dir {
        Some(d) => Some(d@),
        None => None,
    };
    let ghost kv = match kinds {
        Some(k) => Some(k@),
        None => None,
    };
    let mut i: usize = es.len();
    while i > 0
        invariant
            i <= es@.len(),
            l == entries_view(es@),
            kinds matches Some(k) ==> k@.len() == es@.len(),
            dv == (match dir {
                Some(d) => Some(d@),
                None => None::<Seq<char>>,
            }),
            kv == (match kinds {
                Some(k) => Some(k@),
                None => None::<Seq<bool>>,
            }),
            last_hit(l, prefix@, dv, kv, es@.len() as int) == last_hit(l, prefix@, dv, kv, i as int),
        decreases i,
    {
        let c = chars_of(es[i - 1].command.as_str());
        let dir_ok = match dir {
            Some(d) => opt_chars_eq(&es[i - 1].cwd, d),
            None => true,
        };
        let kind_ok = match kinds {
            Some(k) => k[i - 1],
            None => true,
        };
        if !chars_eq(c.as_slice(), prefix.as_slice()) && chars_start_with(c.as_slice(), prefix.as_slice())
            && dir_ok && kind_ok {
            assert(is_hit(l, prefix@, dv, kv, (i - 1) as int));
            return Some(i - 1);
        }
        assert(!is_hit(l, prefix@, dv, kv, (i - 1) as int));
        i = i - 1;
    }
    None
}

/// The inline completion offered from history for `prefix` (see
/// [`history_completion`]). `input_is_shell[i]` tells whether submitted input
/// `i` reads as a shell command; it only matters outside shell mode.
pub fn history_completion_for_prefix(
    shell: &History,
    inputs: &History,
    prefix: &str,
    cwd: Option<&str>,
    shell_mode: bool,
    input_is_shell: &Vec<bool>,
) -> (r: Option<String>)
    requires
        input_is_shell@.len() == inputs@.len(),
    ensures
        opt_view(r) == history_completion(
            shell@,
            inputs@,
            prefix@,
            match cwd {
                Some(d) => Some(d@),
                None => None,
            },
            shell_mode,
            input_is_shell@,
        ),
{
    let p = chars_of(prefix);
    let se = shell.entries();
    let ie = inputs.entries();
    let no_kinds: Option<&Vec<bool>> = None;
    if let Some(d) = cwd {
        let dc = Some(chars_of(d));
        if let Some(i) = find_last_hit(&se, &p, &dc, &no_kinds) {
            return Some(se[i].command.clone());
        }
    }
    let no_dir: Option<Vec<char>> = None;
    if let Some(i) = find_last_hit(&se, &p, &no_dir, &no_kinds) {
        return Some(se[i].command.clone());
    }
    let kinds: Option<&Vec<bool>> = if shell_mode { None } else { Some(input_is_shell) };
    match find_last_hit(&ie, &p, &no_dir, &kinds) {
        Some(i) => Some(ie[i].command.clone()),
        None => None,
    }
}


/// A tab's per-pane histories as (pane id, entries), in ascending pane id.
pub type PanesV = Seq<(usize, Seq<EntryV>)>;

/// The per-pane histories as a map from pane id.
pub open spec fn panes_map(s: PanesV) -> Map<usize, Seq<EntryV>>
    decreases s.len(),
{
    if s.len() == 0 {
        Map::empty()
    } else {
        panes_map(s.drop_last()).insert(s.last().0, s.last().1)
    }
}

/// Pane ids strictly ascending.
pub open spec fn ids_ascending(s: PanesV) -> bool {
    forall|i: int, j: int| 0 <= i < j < s.len() ==> s[i].0 < s[j].0
}

/// The per-pane histories read back from a saved tab: panes without an id are
/// skipped, entries are cleaned, empty histories are dropped, and a later
/// history for the same pane replaces an earlier one.
pub open spec fn restored_panes(saved: Seq<(Option<usize>, Seq<EntryV>)>) -> Map<usize, Seq<EntryV>>
    decreases saved.len(),
{
    if saved.len() == 0 {
        Map::empty()
    } else {
        let m = restored_panes(saved.drop_last());
        match saved.last().0 {
            Some(id) => if clean_entries(saved.last().1).len() > 0 {
                m.insert(id, clean_entries(saved.last().1))
            } else {
                m
            },
            None => m,
        }
    }
}

/// Commands of `h`, newest first.
pub open spec fn newest_first(h: Seq<EntryV>) -> Seq<Seq<char>> {
    recent_view(h, h.len())
}

/// Each pane's commands newest first, panes in ascending id.
pub open spec fn panes_newest_first(s: PanesV) -> Seq<Seq<char>>
    decreases s.len(),
{
    if s.len() == 0 {
        Seq::empty()
    } else {
        panes_newest_first(s.drop_last()) + newest_first(s.last().1)
    }
}

proof fn lemma_panes_map_dom(s: PanesV)
    ensures
        forall|id: usize| #![trigger panes_map(s).dom().contains(id)]
            panes_map(s).dom().contains(id) <==> exists|i: int| 0 <= i < s.len() && s[i].0 == id,
    decreases s.len(),
{
    if s.len() > 0 {
        let dl = s.drop_last();
        lemma_panes_map_dom(dl);
        assert forall|id: usize| #![trigger panes_map(s).dom().contains(id)]
            panes_map(s).dom().contains(id) <==> exists|i: int| 0 <= i < s.len() && s[i].0 == id by {
            if panes_map(s).dom().contains(id) {
                if id == s.last().0 {
                    assert(s[s.len() - 1].0 == id);
                } else {
                    assert(panes_map(dl).dom().contains(id));
                    let i = choose|i: int| 0 <= i < dl.len() && dl[i].0 == id;
                    assert(s[i] == dl[i]);
                }
            }
            if exists|i: int| 0 <= i < s.len() && s[i].0 == id {
                let i = choose|i: int| 0 <= i < s.len() && s[i].0 == id;
                if i < s.len() - 1 {
                    assert(dl[i] == s[i]);
                    assert(panes_map(dl).dom().contains(id));
                }
            }
        }
    }
}

proof fn lemma_panes_map_at(s: PanesV, i: int)
    requires
        ids_ascending(s),
        0 <= i < s.len(),
    ensures
        panes_map(s).dom().contains(s[i].0),
        panes_map(s)[s[i].0] == s[i].1,
    decreases s.len(),
{
    lemma_panes_map_dom(s);
    if i < s.len() - 1 {
        lemma_panes_map_at(s.drop_last(), i);
        assert(s.drop_last()[i] == s[i]);
    }
}

proof fn lemma_panes_map_update(s: PanesV, i: int, h: Seq<EntryV>)
    requires
        ids_ascending(s),
        0 <= i < s.len(),
    ensures
        ids_ascending(s.update(i, (s[i].0, h))),
        panes_map(s.update(i, (s[i].0, h))) == panes_map(s).insert(s[i].0, h),
    decreases s.len(),
{
    let t = s.update(i, (s[i].0, h));
    if i == s.len() - 1 {
        assert(t.drop_last() =~= s.drop_last());
        lemma_panes_map_dom(s.drop_last());
        assert(panes_map(t) =~= panes_map(s).insert(s[i].0, h));
    } else {
        lemma_panes_map_update(s.drop_last(), i, h);
        assert(t.drop_last() =~= s.drop_last().update(i, (s[i].0, h)));
        assert(s.last().0 != s[i].0);
        assert(panes_map(t) =~= panes_map(s).insert(s[i].0, h));
    }
}

proof fn lemma_panes_map_insert(s: PanesV, k: int, id: usize, h: Seq<EntryV>)
    requires
        ids_ascending(s),
        0 <= k <= s.len(),
        forall|j: int| 0 <= j < k ==> s[j].0 < id,
        forall|j: int| k <= j < s.len() ==> s[j].0 > id,
    ensures
        ids_ascending(s.insert(k, (id, h))),
        panes_map(s.insert(k, (id, h))) == panes_map(s).insert(id, h),
    decreases s.len(),
{
    let t = s.insert(k, (id, h));
    assert forall|a: int, b: int| 0 <= a < b < t.len() implies t[a].0 < t[b].0 by {
        if b < k {
        } else if b == k {
        } else if a < k {
        } else if a == k {
        } else {
        }
    }
    if k == s.len() {
        assert(t.drop_last() =~= s);
    } else {
        lemma_panes_map_insert(s.drop_last(), k, id, h);
        assert(t.drop_last() =~= s.drop_last().insert(k, (id, h)));
        assert(t.last() == s.last());
        assert(s.last().0 != id);
        assert(panes_map(t) =~= panes_map(s).insert(id, h));
    }
}

/// A tab's shell histories, one per pane, kept in ascending pane id.
pub struct PaneHistories {
    panes: Vec<(usize, History)>,
}

impl View for PaneHistories {
    type V = PanesV;

    closed spec fn view(&self) -> PanesV {
        self.panes@.map_values(|p: (usize, History)| (p.0, p.1@))
    }
}

impl PaneHistories {
    /// Ids ascending; every history keeps the per-pane capacity.
    pub closed spec fn wf(&self) -> bool {
        &&& ids_ascending(self@)
        &&& forall|i: int|
            0 <= i < self.panes@.len() ==> (#[trigger] self.panes@[i]).1.wf()
                && self.panes@[i].1.capacity() == MAX_SHELL_HISTORY_PER_PANE
    }

    /// No histories yet.
    pub fn new() -> (r: PaneHistories)
        ensures
            r.wf(),
            r@ == PanesV::empty(),
    {
        let r = PaneHistories { panes: Vec::new() };
        assert(r@ =~= PanesV::empty());
        r
    }

    /// Where pane `id` is, or where it would go.
    fn position(&self, id: usize) -> (r: (usize, bool))
        requires
            self.wf(),
        ensures
            r.0 <= self@.len(),
            r.1 ==> r.0 < self@.len() && self@[r.0 as int].0 == id,
            !r.1 ==> (forall|j: int| 0 <= j < r.0 ==> self@[j].0 < id) && (forall|j: int|
                r.0 <= j < self@.len() ==> self@[j].0 > id),
    {
        let mut i: usize = 0;
        while i < self.panes.len()
            invariant
                self.wf(),
                i <= self@.len(),
                self@.len() == self.panes@.len(),
                forall|j: int| 0 <= j < i ==> self@[j].0 < id,
            decreases self@.len() - i,
        {
            let pid = self.panes[i].0;
            if pid == id {
                return (i, true);
            }
            if pid > id {
                proof {
                    assert forall|j: int| i <= j < self@.len() implies self@[j].0 > id by {
                        if j > i {
                            assert(self@[i as int].0 < self@[j].0);
                        }
                    }
                }
                return (i, false);
            }
            i = i + 1;
        }
        (i, false)
    }

    /// Sets pane `id`'s history.
    fn set(&mut self, id: usize, h: History)
        requires
            old(self).wf(),
            h.wf(),
            h.capacity() == MAX_SHELL_HISTORY_PER_PANE,
        ensures
            final(self).wf(),
            panes_map(final(self)@) == panes_map(old(self)@).insert(id, h@),
    {
        let (k, found) = self.position(id);
        let ghost s = self@;
        let ghost hv = h@;
        if found {
            self.panes.remove(k);
            self.panes.insert(k, (id, h));
            proof {
                assert(self@ =~= s.update(k as int, (id, hv)));
                lemma_panes_map_update(s, k as int, hv);
            }
        } else {
            self.panes.insert(k, (id, h));
            proof {
                assert(self@ =~= s.insert(k as int, (id, hv)));
                lemma_panes_map_insert(s, k as int, id, hv);
            }
        }
    }

    /// Records a command run in pane `pane_id` (see [`record_command`]); a
    /// blank command changes nothing.
    pub fn record(&mut self, pane_id: usize, command: &str, cwd: Option<String>)
        requires
            old(self).wf(),
        ensures
            final(self).wf(),
            trim_seq(command@).len() == 0 ==> final(self)@ == old(self)@,
            trim_seq(command@).len() > 0 ==> panes_map(final(self)@) == panes_map(old(self)@).insert(
                pane_id,
                record_command(
                    if panes_map(old(self)@).dom().contains(pane_id) {
                        panes_map(old(self)@)[pane_id]
                    } else {
                        Seq::empty()
                    },
                    command@,
                    opt_view(cwd),
                    MAX_SHELL_HISTORY_PER_PANE as nat,
                ),
            ),
    {
        let t = trim_str(command);
        if t.len() == 0 {
            return;
        }
        let ghost s = self@;
        proof {
            lemma_panes_map_dom(s);
        }
        let (k, found) = self.position(pane_id);
        let mut h = if found {
            let (_, h) = self.panes.remove(k);
            proof {
                lemma_panes_map_at(s, k as int);
            }
            h
        } else {
            History::new(MAX_SHELL_HISTORY_PER_PANE)
        };
        let ghost hv = h@;
        h.record(command, cwd);
        if found {
            self.panes.insert(k, (pane_id, h));
            proof {
                assert(self@ =~= s.update(k as int, (pane_id, h@)));
                lemma_panes_map_update(s, k as int, h@);
            }
        } else {
            self.panes.insert(k, (pane_id, h));
            proof {
                assert(self@ =~= s.insert(k as int, (pane_id, h@)));
                lemma_panes_map_insert(s, k as int, pane_id, h@);
            }
        }
    }

    /// The per-pane histories read back from a saved tab (see
    /// [`restored_panes`]).
    pub fn restore(saved: &Vec<(Option<usize>, Vec<CommandEntry>)>) -> (r: PaneHistories)
        ensures
            r.wf(),
            panes_map(r@) == restored_panes(
                saved@.map_values(|p: (Option<usize>, Vec<CommandEntry>)| (p.0, entries_view(p.1@))),
            ),
    {
        let ghost sv = saved@.map_values(
            |p: (Option<usize>, Vec<CommandEntry>)| (p.0, entries_view(p.1@)),
        );
        let mut r = PaneHistories::new();
        let mut i: usize = 0;
        assert(sv.subrange(0, 0) =~= Seq::<(Option<usize>, Seq<EntryV>)>::empty());
        assert(panes_map(r@) =~= Map::empty());
        while i < saved.len()
            invariant
                r.wf(),
                i <= saved@.len(),
                sv == saved@.map_values(
                    |p: (Option<usize>, Vec<CommandEntry>)| (p.0, entries_view(p.1@)),
                ),
                panes_map(r@) == restored_panes(sv.subrange(0, i as int)),
            decreases saved@.len() - i,
        {
            proof {
                let pre = sv.subrange(0, i + 1);
                assert(pre.drop_last() =~= sv.subrange(0, i as int));
                assert(pre.last() == sv[i as int]);
            }
            match saved[i].0 {
                Some(id) => {
                    let cleaned = clean_commands(&saved[i].1);
                    if cleaned.len() > 0 {
                        let h = History::from_entries(cleaned, MAX_SHELL_HISTORY_PER_PANE);
                        r.set(id, h);
                    }
                },
                None => {},
            }
            i = i + 1;
        }
        assert(sv.subrange(0, saved@.len() as int) =~= sv);
        r
    }

    /// The history of pane `id`, if it has one.
    pub fn get(&self, id: usize) -> (r: Option<&History>)
        requires
            self.wf(),
        ensures
            r matches Some(h) ==> panes_map(self@).dom().contains(id) && panes_map(self@)[id] == h@,
            r is None ==> !panes_map(self@).dom().contains(id),
    {
        proof {
            lemma_panes_map_dom(self@);
        }
        let (k, found) = self.position(id);
        if found {
            proof {
                lemma_panes_map_at(self@, k as int);
            }
            Some(&self.panes[k].1)
        } else {
            None
        }
    }

    /// The histories as a session saves them: (Some(pane id), entries) per
    /// pane, in ascending pane id (see [`saved_panes`]).
    pub fn saved(&self) -> (r: Vec<(Option<usize>, Vec<CommandEntry>)>)
        ensures
            r@.map_values(|p: (Option<usize>, Vec<CommandEntry>)| (p.0, entries_view(p.1@)))
                == saved_panes(self@),
    {
        let mut r: Vec<(Option<usize>, Vec<CommandEntry>)> = Vec::new();
        let mut i: usize = 0;
        while i < self.panes.len()
            invariant
                i <= self@.len(),
                self@.len() == self.panes@.len(),
                r@.map_values(|p: (Option<usize>, Vec<CommandEntry>)| (p.0, entries_view(p.1@)))
                    == saved_panes(self@).take(i as int),
            decreases self@.len() - i,
        {
            let ghost before = r@;
            let id = self.panes[i].0;
            let entries = self.panes[i].1.entries();
            r.push((Some(id), entries));
            proof {
                assert(self@[i as int] == (self.panes@[i as int].0, self.panes@[i as int].1@));
                assert(r@ == before.push((Some(id), entries)));
                assert(r@.map_values(|p: (Option<usize>, Vec<CommandEntry>)| (p.0, entries_view(p.1@)))
                    =~= before.map_values(
                    |p: (Option<usize>, Vec<CommandEntry>)| (p.0, entries_view(p.1@)),
                ).push((Some(id), entries_view(entries@))));
                assert(saved_panes(self@).take(i + 1) =~= saved_panes(self@).take(i as int).push(
                    saved_panes(self@)[i as int],
                ));
                assert(r@.map_values(|p: (Option<usize>, Vec<CommandEntry>)| (p.0, entries_view(p.1@)))
                    =~= saved_panes(self@).take(i + 1));
            }
            i = i + 1;
        }
        assert(saved_panes(self@).take(self@.len() as int) =~= saved_panes(self@));
        r
    }

    /// The (pane id, history) pairs in ascending pane id.
    pub fn panes(&self) -> (r: &Vec<(usize, History)>)
        ensures
            r@.map_values(|p: (usize, History)| (p.0, p.1@)) == self@,
    {
        &self.panes
    }

    /// The `limit` commands a tab summary looks at: each pane's commands
    /// newest first, panes in ascending id, cut after `limit`.
    pub fn summary_commands(&self, limit: usize) -> (r: Vec<String>)
        requires
            self.wf(),
        ensures
            r@.map_values(|s: String| s@) == panes_newest_first(self@).take(
                if limit < panes_newest_first(self@).len() {
                    limit as int
                } else {
                    panes_newest_first(self@).len() as int
                },
            ),
    {
        let mut all: Vec<String> = Vec::new();
        let mut i: usize = 0;
        assert(self@.subrange(0, 0) =~= PanesV::empty());
        while i < self.panes.len()
            invariant
                i <= self@.len(),
                self@.len() == self.panes@.len(),
                all@.map_values(|s: String| s@) == panes_newest_first(self@.subrange(0, i as int)),
            decreases self@.len() - i,
        {
            let h = &self.panes[i].1;
            let mut part = h.recent(h.len());
            let ghost before = all@;
            let ghost pv = part@;
            all.append(&mut part);
            proof {
                let pre = self@.subrange(0, i + 1);
                assert(pre.drop_last() =~= self@.subrange(0, i as int));
                assert(pre.last() == self@[i as int]);
                assert(all@ == before + pv);
                assert(all@.map_values(|s: String| s@) =~= before.map_values(|s: String| s@) + pv.map_values(|s: String| s@));
            }
            i = i + 1;
        }
        assert(self@.subrange(0, self@.len() as int) =~= self@);
        let ghost full = all@;
        if all.len() > limit {
            all.truncate(limit);
        }
        assert(all@.map_values(|s: String| s@) =~= full.map_values(|s: String| s@).take(all@.len() as int));
        all
    }
}

// ── saving and restoring ────────────────────────────────────────────────

/// A history as recording keeps it: at most `cap` entries, each command
/// trimmed, non-blank, and recorded once.
pub open spec fn canonical(l: Seq<EntryV>, cap: nat) -> bool {
    &&& l.len() <= cap
    &&& unique_commands(l)
    &&& forall|i: int| 0 <= i < l.len() ==> trim_seq(#[trigger] l[i].0) == l[i].0 && l[i].0.len() > 0
}

proof fn lemma_clean_canonical(l: Seq<EntryV>)
    requires
        forall|i: int| 0 <= i < l.len() ==> trim_seq(#[trigger] l[i].0) == l[i].0 && l[i].0.len() > 0,
    ensures
        clean_entries(l) == l,
    decreases l.len(),
{
    if l.len() > 0 {
        let t = l.drop_last();
        assert forall|i: int| 0 <= i < t.len() implies trim_seq(#[trigger] t[i].0) == t[i].0
            && t[i].0.len() > 0 by {
            assert(t[i] == l[i]);
        }
        lemma_clean_canonical(t);
        assert(l.last() == l[l.len() - 1]);
        assert(t.push((l.last().0, l.last().1)) =~= l);
    }
}

/// Recording the first `k` entries of a canonical history onto an empty one
/// gives those entries.
proof fn lemma_record_onto_empty(l: Seq<EntryV>, cap: nat, k: int)
    requires
        canonical(l, cap),
        0 <= k <= l.len(),
    ensures
        record_all(Seq::empty(), l.take(k), cap) == l.take(k),
    decreases k,
{
    if k > 0 {
        lemma_record_onto_empty(l, cap, k - 1);
        let p = l.take(k - 1);
        assert(l.take(k).drop_last() =~= p);
        assert(l.take(k).last() == l[k - 1]);
        assert forall|j: int| 0 <= j < p.len() implies p[j].0 != l[k - 1].0 by {
            assert(p[j] == l[j]);
        }
        lemma_index_of_absent(p, l[k - 1].0);
        assert(trim_seq(l[k - 1].0) == l[k - 1].0);
        assert(p.push((l[k - 1].0, l[k - 1].1)) =~= l.take(k));
    } else {
        assert(l.take(0) =~= Seq::<EntryV>::empty());
    }
}

/// Recording, in order, the first `k` entries of a canonical history onto
/// itself moves them to its end.
proof fn lemma_record_onto_itself(l: Seq<EntryV>, cap: nat, k: int)
    requires
        canonical(l, cap),
        0 <= k <= l.len(),
    ensures
        record_all(l, l.take(k), cap) == l.skip(k) + l.take(k),
    decreases k,
{
    if k == 0 {
        assert(l.take(0) =~= Seq::<EntryV>::empty());
        assert(l.skip(0) + l.take(0) =~= l);
    } else {
        lemma_record_onto_itself(l, cap, k - 1);
        let r = l.skip(k - 1) + l.take(k - 1);
        assert(l.take(k).drop_last() =~= l.take(k - 1));
        assert(l.take(k).last() == l[k - 1]);
        let e = l[k - 1];
        assert(trim_seq(e.0) == e.0);
        assert(r[0] == e);
        lemma_index_of_found(r, e.0, 0);
        assert(r.remove(0) =~= l.skip(k) + l.take(k - 1));
        assert((l.skip(k) + l.take(k - 1)).push(e) =~= l.skip(k) + l.take(k));
        assert((e.0, e.1) == e);
    }
}

/// Saving a history and restoring it, as a session does (the saved list,
/// cleaned, then the same list recorded again as the persisted history),
/// gives the same history back, when it is as recording keeps it.
pub proof fn law_history_round_trip(l: Seq<EntryV>, cap: nat)
    requires
        canonical(l, cap),
    ensures
        clean_entries(l) == l,
        record_all(clean_entries(l), l, cap) == l,
        record_all(Seq::empty(), l, cap) == l,
{
    lemma_clean_canonical(l);
    lemma_record_onto_itself(l, cap, l.len() as int);
    assert(l.take(l.len() as int) =~= l);
    assert(l.skip(l.len() as int) + l =~= l);
    lemma_record_onto_empty(l, cap, l.len() as int);
}

/// A workspace's histories come back from the session they are saved in:
/// a non-empty shell history is restored from the session's list and the
/// persisted copy; a non-empty input history (commands without directories)
/// from the session's inputs and the persisted ones.
pub proof fn law_session_restores_histories(
    shell: Seq<EntryV>,
    inputs: Seq<EntryV>,
    panes: Seq<Seq<EntryV>>,
)
    requires
        canonical(shell, MAX_GLOBAL_SHELL_HISTORY as nat),
        canonical(inputs, MAX_GLOBAL_INPUT_HISTORY as nat),
        shell.len() > 0,
        inputs.len() > 0,
        forall|i: int| 0 <= i < inputs.len() ==> (#[trigger] inputs[i]).1 is None,
    ensures
        record_all(restored_global_shell(shell, panes), shell, MAX_GLOBAL_SHELL_HISTORY as nat)
            == shell,
        restored_input_history(inputs, inputs, shell) == inputs,
{
    law_history_round_trip(shell, MAX_GLOBAL_SHELL_HISTORY as nat);
    law_history_round_trip(inputs, MAX_GLOBAL_INPUT_HISTORY as nat);
    lemma_record_all_concat(Seq::empty(), inputs, inputs, MAX_GLOBAL_INPUT_HISTORY as nat);
    lemma_record_onto_itself(inputs, MAX_GLOBAL_INPUT_HISTORY as nat, inputs.len() as int);
    assert(inputs.take(inputs.len() as int) =~= inputs);
    assert(inputs.skip(inputs.len() as int) + inputs =~= inputs);
}

/// Per-pane histories as a session saves them: each pane id with its
/// entries.
pub open spec fn saved_panes(p: PanesV) -> Seq<(Option<usize>, Seq<EntryV>)> {
    p.map_values(|x: (usize, Seq<EntryV>)| (Some(x.0), x.1))
}

/// A tab's per-pane histories come back from the session they are saved in,
/// when each is as recording keeps it: not empty, of trimmed, non-blank
/// commands.
pub proof fn law_pane_histories_round_trip(p: PanesV)
    requires
        forall|i: int| 0 <= i < p.len() ==> (#[trigger] p[i]).1.len() > 0,
        forall|i: int, k: int|
            0 <= i < p.len() && 0 <= k < p[i].1.len() ==> trim_seq(#[trigger] p[i].1[k].0) == p[i].1[k].0
                && p[i].1[k].0.len() > 0,
    ensures
        restored_panes(saved_panes(p)) == panes_map(p),
    decreases p.len(),
{
    if p.len() > 0 {
        let t = p.drop_last();
        assert forall|i: int, k: int|
            0 <= i < t.len() && 0 <= k < t[i].1.len() implies trim_seq(#[trigger] t[i].1[k].0)
            == t[i].1[k].0 && t[i].1[k].0.len() > 0 by {
            assert(t[i] == p[i]);
        }
        assert forall|i: int| 0 <= i < t.len() implies (#[trigger] t[i]).1.len() > 0 by {
            assert(t[i] == p[i]);
        }
        law_pane_histories_round_trip(t);
        assert(saved_panes(p).drop_last() =~= saved_panes(t));
        let last = p.last();
        assert(last == p[p.len() - 1]);
        assert forall|k: int| 0 <= k < last.1.len() implies trim_seq(#[trigger] last.1[k].0)
            == last.1[k].0 && last.1[k].0.len() > 0 by {
            assert(p[p.len() - 1].1[k] == last.1[k]);
        }
        lemma_clean_canonical(last.1);
        assert(saved_panes(p).last() == (Some(last.0), last.1));
    }
}

} // verus!
