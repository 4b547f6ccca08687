//! The window's workspace state: its tabs, the window-wide histories, and
//! the control requests that wait for a later frame. Every waiting request
//! addresses a tab that exists, whatever opens, closes or moves tabs.
use vstd::prelude::*;
use crate::control::{resolve_control_tab_index, validate_agent_ask, ControlError};
use crate::text::{trim_seq, trim_str};
use crate::naming::{new_tab_title, numbered, restored_tab_title, restored_title};
use crate::routing::{default_agent_routing, default_routing, AgentConfig, AgentRouting, ConfigV};
use vstd::string::StringExecFns;
use crate::deferred::{
    all_below, dropped, law_remap_stays_below, law_shift_stays_below, remapped, shifted, tabs_of,
    PendingByTab, PendingRequests,
};
use crate::window::{remapped_window, PendingWindowRequests, WindowRequest};
use crate::history::{
    entries_view, inputs_view, merge_shell_histories, record_all, record_command,
    restore_global_input_history, restore_global_shell_history, restored_global_shell,
    restored_input_history, CommandEntry, EntryV, History, MAX_GLOBAL_INPUT_HISTORY,
    MAX_GLOBAL_SHELL_HISTORY,
};
use crate::history::{clone_opt_string, opt_view, panes_map, saved_panes, PaneHistories, MAX_SHELL_HISTORY_PER_PANE};
use crate::tabs::{
    active_after_close, landing_index, lemma_position_of, move_seq, moved_index, position_of, reorder_seq,
    reorder_target, ids_of, CloseOutcome, Tab, TabList,
};

verus! {

/// A tab as the workspace keeps it: what the window holds for it, its
/// title, the label the user gave it, its agent routing, and the shell
/// histories of its panes.
pub struct WorkspaceTab<T> {
    pub data: T,
    pub title: String,
    pub user_label: Option<String>,
    pub agent_routing: AgentRouting,
    pub shell_history: PaneHistories,
}

/// Tab `t` is saved tab `saved`, restored at index `i` under `config`: the
/// same data, label and histories; an empty title becomes "Terminal N"; a
/// tab without routing gets the default routing of `config`.
pub open spec fn restored_from<T>(t: WorkspaceTab<T>, saved: WorkspaceTab<T>, i: nat, config: ConfigV) -> bool {
    &&& t.data == saved.data
    &&& t.user_label == saved.user_label
    &&& t.shell_history == saved.shell_history
    &&& t.title@ == restored_title(saved.title@, i)
    &&& t.agent_routing.view_tuple() == if saved.agent_routing.spec_is_empty() {
        default_routing(config)
    } else {
        saved.agent_routing.view_tuple()
    }
}

/// Gives each restored tab its title and routing (see [`restored_from`]).
fn restore_titles_and_routing<T>(
    list: &mut TabList<WorkspaceTab<T>>,
    config: &AgentConfig,
    saved: Ghost<Seq<WorkspaceTab<T>>>,
)
    requires
        old(list).wf(),
        old(list).tabs().len() == saved@.len(),
        saved@.len() < usize::MAX,
        forall|i: int|
            0 <= i < saved@.len() ==> (#[trigger] old(list).tabs()[i]).data == saved@[i],
    ensures
        final(list).wf(),
        final(list).tabs().len() == old(list).tabs().len(),
        final(list).active() == old(list).active(),
        final(list).next_id() == old(list).next_id(),
        forall|i: int|
            0 <= i < saved@.len() ==> (#[trigger] final(list).tabs()[i]).id == old(list).tabs()[i].id
                && final(list).tabs()[i].needs_attention == old(list).tabs()[i].needs_attention
                && restored_from(final(list).tabs()[i].data, saved@[i], i as nat, config.view_tuple()),
{
    let n = list.len();
    let ghost orig = list.tabs();
    let mut i: usize = 0;
    while i < n
        invariant
            n == saved@.len(),
            n < usize::MAX,
            i <= n,
            list.wf(),
            list.tabs().len() == n,
            list.active() == old(list).active(),
            list.next_id() == old(list).next_id(),
            orig == old(list).tabs(),
            forall|k: int|
                0 <= k < n ==> (#[trigger] list.tabs()[k]).id == orig[k].id
                    && list.tabs()[k].needs_attention == orig[k].needs_attention,
            forall|k: int|
                0 <= k < i ==> restored_from(
                    (#[trigger] list.tabs()[k]).data,
                    saved@[k],
                    k as nat,
                    config.view_tuple(),
                ),
            forall|k: int| i <= k < n ==> (#[trigger] list.tabs()[k]).data == saved@[k],
        decreases n - i,
    {
        let ghost before = list.tabs();
        {
            let t = list.data_mut(i);
            let title = restored_tab_title(t.title.as_str(), i);
            t.title = title;
            if t.agent_routing.is_empty() {
                t.agent_routing = default_agent_routing(config);
            }
        }
        proof {
            assert(list.ids() =~= ids_of(before));
            assert forall|k: int| 0 <= k < n && k != i implies (#[trigger] list.tabs()[k]) == before[k] by {}
        }
        i = i + 1;
    }
}

/// An `agent.ask` in flight: its request id, its prompt, and what the
/// caller keeps with it (where the answer goes).
pub struct PendingAgentAsk<A> {
    pub request_id: u64,
    pub prompt: String,
    pub payload: A,
}

/// The id after `id`, wrapping at the top of `u64`.
pub open spec fn next_request_id(id: u64) -> u64 {
    if id == u64::MAX {
        0
    } else {
        (id + 1) as u64
    }
}

/// The workspace of a window: tabs carrying `T`, deferred surface requests
/// `S`, and agent prompts `A` (at most one per tab).
pub struct ConWorkspace<T, S, A, C, W> {
    tabs: TabList<WorkspaceTab<T>>,
    shell_history: History,
    input_history: History,
    pending_surface: PendingRequests<S>,
    pending_agent: PendingByTab<PendingAgentAsk<A>>,
    next_agent_request_id: u64,
    pending_create: PendingRequests<C>,
    pending_window: PendingWindowRequests<W>,
    is_quick_terminal: bool,
    close_prepared: bool,
}

impl<T, S, A, C, W> ConWorkspace<T, S, A, C, W> {
    /// The tabs.
    pub closed spec fn tab_list(&self) -> TabList<WorkspaceTab<T>> {
        self.tabs
    }

    /// The window-wide shell history.
    pub closed spec fn shell(&self) -> Seq<EntryV> {
        self.shell_history@
    }

    /// The window-wide submitted-input history.
    pub closed spec fn inputs(&self) -> Seq<EntryV> {
        self.input_history@
    }

    /// The deferred surface requests, with their tab indices.
    pub closed spec fn surface_requests(&self) -> Seq<(usize, S)> {
        self.pending_surface@
    }

    /// The agent prompts in flight, with their tab indices.
    pub closed spec fn agent_requests(&self) -> Seq<(usize, PendingAgentAsk<A>)> {
        self.pending_agent@
    }

    /// The id the next accepted `agent.ask` gets.
    pub closed spec fn next_agent_request(&self) -> u64 {
        self.next_agent_request_id
    }

    /// The deferred create-pane requests, with their tab indices.
    pub closed spec fn create_requests(&self) -> Seq<(usize, C)> {
        self.pending_create@
    }

    /// The deferred window requests (`tabs.new`, `tabs.close`).
    pub closed spec fn window_requests(&self) -> Seq<WindowRequest<W>> {
        self.pending_window@
    }

    /// Whether this is the quick terminal's window.
    pub closed spec fn quick(&self) -> bool {
        self.is_quick_terminal
    }

    /// Whether the window has been prepared for closing.
    pub closed spec fn closing(&self) -> bool {
        self.close_prepared
    }

    /// The tabs are well formed, the histories usable, at most one agent
    /// prompt per tab, and every waiting request addresses an existing tab.
    pub closed spec fn wf(&self) -> bool {
        &&& self.tabs.wf()
        &&& forall|i: int|
            0 <= i < self.tabs.tabs().len() ==> (#[trigger] self.tabs.tabs()[i]).data.shell_history.wf()
        &&& self.shell_history.wf()
        &&& self.input_history.wf()
        &&& self.shell_history.capacity() == MAX_GLOBAL_SHELL_HISTORY
        &&& self.input_history.capacity() == MAX_GLOBAL_INPUT_HISTORY
        &&& self.pending_agent.wf()
        &&& all_below(self.pending_surface@, self.tabs.tabs().len())
        &&& all_below(self.pending_agent@, self.tabs.tabs().len())
    }

    /// What a well-formed workspace guarantees: its tab list is well formed
    /// (at least one tab, the active index names a tab, ids distinct and
    /// below the next id), every tab's pane histories are usable, and every
    /// waiting surface request and agent prompt addresses an existing tab.
    pub proof fn lemma_wf(&self)
        requires
            self.wf(),
        ensures
            self.tab_list().wf(),
            forall|i: int|
                0 <= i < self.tab_list().tabs().len() ==> (#[trigger] self.tab_list().tabs()[i]).data.shell_history.wf(),
            all_below(self.surface_requests(), self.tab_list().tabs().len()),
            all_below(self.agent_requests(), self.tab_list().tabs().len()),
    {
    }

    /// The workspace restored from a saved session: its tabs, with ids
    /// `0..n`, each titled and routed as [`restored_from`] says (a session
    /// without tabs gets one tab "Terminal" carrying `fallback`, with the
    /// default routing of `config`), the saved active index clamped to the
    /// last tab, and `n` (at least one) as the next id; the shell history
    /// from the
    /// session, or else from the tabs' per-pane histories, then merged with
    /// the persisted one; the input history from the session and the
    /// persisted inputs, or else from the shell history. Nothing waits yet.
    pub fn from_session(
        tabs: Vec<WorkspaceTab<T>>,
        fallback: T,
        config: &AgentConfig,
        active_tab: usize,
        session_shell: &Vec<CommandEntry>,
        pane_histories: &Vec<Vec<CommandEntry>>,
        persisted_shell: &Vec<CommandEntry>,
        session_inputs: &Vec<String>,
        persisted_inputs: &Vec<String>,
    ) -> (r: ConWorkspace<T, S, A, C, W>)
        requires
            forall|i: int| 0 <= i < tabs@.len() ==> (#[trigger] tabs@[i]).shell_history.wf(),
            tabs@.len() < usize::MAX,
        ensures
            r.wf(),
            r.tab_list().tabs().len() == if tabs@.len() > 0 {
                tabs@.len()
            } else {
                1
            },
            forall|i: int|
                0 <= i < tabs@.len() ==> restored_from(
                    (#[trigger] r.tab_list().tabs()[i]).data,
                    tabs@[i],
                    i as nat,
                    config.view_tuple(),
                ),
            tabs@.len() == 0 ==> {
                let t = r.tab_list().tabs()[0].data;
                &&& t.data == fallback
                &&& t.title@ == "Terminal"@
                &&& t.user_label is None
                &&& t.agent_routing.view_tuple() == default_routing(config.view_tuple())
                &&& t.shell_history@.len() == 0
            },
            forall|i: int|
                0 <= i < r.tab_list().tabs().len() ==> (#[trigger] r.tab_list().tabs()[i]).id == i
                    && !r.tab_list().tabs()[i].needs_attention,
            r.tab_list().next_id() == r.tab_list().tabs().len(),
            r.tab_list().active() == if active_tab < r.tab_list().tabs().len() {
                active_tab as int
            } else {
                r.tab_list().tabs().len() - 1
            },
            r.shell() == record_all(
                restored_global_shell(
                    entries_view(session_shell@),
                    pane_histories@.map_values(|p: Vec<CommandEntry>| entries_view(p@)),
                ),
                entries_view(persisted_shell@),
                MAX_GLOBAL_SHELL_HISTORY as nat,
            ),
            r.inputs() == restored_input_history(
                inputs_view(session_inputs@),
                inputs_view(persisted_inputs@),
                r.shell(),
            ),
            r.surface_requests().len() == 0,
            r.agent_requests().len() == 0,
            r.next_agent_request() == 1,
            r.create_requests().len() == 0,
            r.window_requests().len() == 0,
            !r.quick(),
            !r.closing(),
    {
        let ghost saved = tabs@;
        let list = if tabs.len() > 0 {
            let mut l = TabList::from_restored(tabs, active_tab);
            restore_titles_and_routing(&mut l, config, Ghost(saved));
            assert forall|k: int| 0 <= k < l.tabs().len() implies (
            #[trigger] l.tabs()[k]).data.shell_history.wf() by {
                assert(restored_from(l.tabs()[k].data, saved[k], k as nat, config.view_tuple()));
            }
            l
        } else {
            let l = TabList::single(
                WorkspaceTab {
                    data: fallback,
                    title: String::from_str("Terminal"),
                    user_label: None,
                    agent_routing: default_agent_routing(config),
                    shell_history: PaneHistories::new(),
                },
            );
            assert(l.ids().len() == 1);
            assert(l.ids().len() == l.tabs().len());
            assert(l.ids()[0] == l.tabs()[0].id);
            l
        };
        assert(list.tabs().len() == if saved.len() > 0 { saved.len() } else { 1 });
        let restored = restore_global_shell_history(session_shell, pane_histories);
        let shell = merge_shell_histories(restored, persisted_shell);
        let inputs = restore_global_input_history(session_inputs, persisted_inputs, &shell);
        ConWorkspace {
            tabs: list,
            shell_history: shell,
            input_history: inputs,
            pending_surface: PendingRequests::new(),
            pending_agent: PendingByTab::new(),
            next_agent_request_id: 1,
            pending_create: PendingRequests::new(),
            pending_window: PendingWindowRequests::new(),
            is_quick_terminal: false,
            close_prepared: false,
        }
    }

    /// Marks this window as the quick terminal's: closing its last tab
    /// starts it over instead of closing the window.
    pub fn mark_as_quick_terminal(&mut self)
        requires
            old(self).wf(),
        ensures
            final(self).wf(),
            final(self).next_agent_request() == old(self).next_agent_request(),
            final(self).closing() == old(self).closing(),
            final(self).create_requests() == old(self).create_requests(),
            final(self).window_requests() == old(self).window_requests(),
            final(self).quick(),
            final(self).tab_list() == old(self).tab_list(),
            final(self).shell() == old(self).shell(),
            final(self).inputs() == old(self).inputs(),
            final(self).surface_requests() == old(self).surface_requests(),
            final(self).agent_requests() == old(self).agent_requests(),
    {
        self.is_quick_terminal = true;
    }

    /// Whether this is the quick terminal's window.
    pub fn is_quick_terminal(&self) -> (r: bool)
        ensures
            r == self.quick(),
    {
        self.is_quick_terminal
    }

    /// The tabs.
    pub fn tabs(&self) -> (r: &TabList<WorkspaceTab<T>>)
        ensures
            *r == self.tab_list(),
    {
        &self.tabs
    }

    /// The window-wide shell history.
    pub fn shell_history(&self) -> (r: &History)
        ensures
            r@ == self.shell(),
    {
        &self.shell_history
    }

    /// The window-wide submitted-input history.
    pub fn input_history(&self) -> (r: &History)
        ensures
            r@ == self.inputs(),
    {
        &self.input_history
    }

    /// The histories as a session saves them: the shell history's entries
    /// and the input history's commands, oldest first.
    pub fn saved_histories(&self) -> (r: (Vec<CommandEntry>, Vec<String>))
        requires
            self.wf(),
        ensures
            entries_view(r.0@) == self.shell(),
            r.1@.map_values(|c: String| c@) == self.inputs().map_values(|e: EntryV| e.0),
    {
        let shell = self.shell_history.entries();
        let inputs = self.input_history.entries();
        let mut commands: Vec<String> = Vec::new();
        let mut i: usize = 0;
        while i < inputs.len()
            invariant
                i <= inputs@.len(),
                entries_view(inputs@) == self.inputs(),
                commands@.map_values(|c: String| c@) == self.inputs().map_values(|e: EntryV| e.0).take(
                    i as int,
                ),
            decreases inputs@.len() - i,
        {
            let ghost before = commands@;
            let c = inputs[i].command.clone();
            commands.push(c);
            proof {
                assert(commands@ == before.push(c));
                assert(commands@.map_values(|c: String| c@) =~= before.map_values(|c: String| c@).push(c@));
                assert(self.inputs()[i as int] == inputs@[i as int]@);
                assert(self.inputs().map_values(|e: EntryV| e.0).take(i + 1) =~= self.inputs().map_values(
                    |e: EntryV| e.0,
                ).take(i as int).push(self.inputs()[i as int].0));
            }
            i = i + 1;
        }
        assert(self.inputs().map_values(|e: EntryV| e.0).take(inputs@.len() as int) =~= self.inputs().map_values(
            |e: EntryV| e.0,
        ));
        (shell, commands)
    }

    /// Each tab's per-pane shell histories as a session saves them, in tab
    /// order (see [`PaneHistories::saved`]).
    pub fn saved_tab_histories(&self) -> (r: Vec<Vec<(Option<usize>, Vec<CommandEntry>)>>)
        requires
            self.wf(),
        ensures
            r@.len() == self.tab_list().tabs().len(),
            forall|i: int|
                0 <= i < r@.len() ==> (#[trigger] r@[i])@.map_values(
                    |p: (Option<usize>, Vec<CommandEntry>)| (p.0, entries_view(p.1@)),
                ) == saved_panes(self.tab_list().tabs()[i].data.shell_history@),
    {
        let mut r: Vec<Vec<(Option<usize>, Vec<CommandEntry>)>> = Vec::new();
        let mut i: usize = 0;
        let n = self.tabs.len();
        while i < n
            invariant
                n == self.tab_list().tabs().len(),
                i <= n,
                r@.len() == i,
                forall|k: int|
                    0 <= k < i ==> (#[trigger] r@[k])@.map_values(
                        |p: (Option<usize>, Vec<CommandEntry>)| (p.0, entries_view(p.1@)),
                    ) == saved_panes(self.tab_list().tabs()[k].data.shell_history@),
            decreases n - i,
        {
            let saved = self.tabs.get(i).data.shell_history.saved();
            r.push(saved);
            i = i + 1;
        }
        r
    }

    /// Records a command run in pane `pane_id` of the tab at `tab_idx`
    /// (trimmed): in that pane's history and in the window-wide one. A blank
    /// command, or a tab index past the end, changes nothing.
    pub fn record_shell_command(&mut self, tab_idx: usize, pane_id: usize, command: &str, cwd: Option<String>)
        requires
            old(self).wf(),
        ensures
            final(self).wf(),
            final(self).next_agent_request() == old(self).next_agent_request(),
            final(self).closing() == old(self).closing(),
            final(self).create_requests() == old(self).create_requests(),
            final(self).window_requests() == old(self).window_requests(),
            final(self).inputs() == old(self).inputs(),
            final(self).surface_requests() == old(self).surface_requests(),
            final(self).agent_requests() == old(self).agent_requests(),
            final(self).quick() == old(self).quick(),
            trim_seq(command@).len() == 0 || tab_idx >= old(self).tab_list().tabs().len()
                ==> final(self).tab_list() == old(self).tab_list() && final(self).shell() == old(
                self,
            ).shell(),
            trim_seq(command@).len() > 0 && tab_idx < old(self).tab_list().tabs().len() ==> {
                let before = old(self).tab_list().tabs()[tab_idx as int];
                let after = final(self).tab_list().tabs()[tab_idx as int];
                &&& final(self).shell() == record_command(
                    old(self).shell(),
                    command@,
                    opt_view(cwd),
                    MAX_GLOBAL_SHELL_HISTORY as nat,
                )
                &&& panes_map(after.data.shell_history@) == panes_map(
                    before.data.shell_history@,
                ).insert(
                    pane_id,
                    record_command(
                        if panes_map(before.data.shell_history@).dom().contains(pane_id) {
                            panes_map(before.data.shell_history@)[pane_id]
                        } else {
                            Seq::empty()
                        },
                        command@,
                        opt_view(cwd),
                        MAX_SHELL_HISTORY_PER_PANE as nat,
                    ),
                )
                &&& after.data.data == before.data.data
                &&& after.id == before.id
                &&& after.needs_attention == before.needs_attention
                &&& final(self).tab_list().tabs().len() == old(self).tab_list().tabs().len()
                &&& forall|k: int|
                    0 <= k < old(self).tab_list().tabs().len() && k != tab_idx
                        ==> (#[trigger] final(self).tab_list().tabs()[k]) == old(self).tab_list().tabs()[k]
                &&& final(self).tab_list().active() == old(self).tab_list().active()
                &&& final(self).tab_list().next_id() == old(self).tab_list().next_id()
            },
    {
        let t = trim_str(command);
        if t.len() == 0 || tab_idx >= self.tabs.len() {
            return;
        }
        let global_cwd = clone_opt_string(&cwd);
        let ghost before = self.tabs.tabs();
        {
            let tab = self.tabs.data_mut(tab_idx);
            tab.shell_history.record(pane_id, command, cwd);
        }
        proof {
            assert(self.tabs.ids() =~= ids_of(before));
            assert forall|k: int| 0 <= k < self.tabs.tabs().len() implies (
            #[trigger] self.tabs.tabs()[k]).data.shell_history.wf() by {
                if k != tab_idx {
                    assert(self.tabs.tabs()[k] == before[k]);
                }
            }
        }
        self.shell_history.record(command, global_cwd);
    }

    /// Records an input submitted from the input bar (trimmed; blank ones
    /// are skipped).
    pub fn record_input(&mut self, input: &str)
        requires
            old(self).wf(),
        ensures
            final(self).wf(),
            final(self).next_agent_request() == old(self).next_agent_request(),
            final(self).closing() == old(self).closing(),
            final(self).create_requests() == old(self).create_requests(),
            final(self).window_requests() == old(self).window_requests(),
            final(self).inputs() == record_command(
                old(self).inputs(),
                input@,
                None,
                MAX_GLOBAL_INPUT_HISTORY as nat,
            ),
            final(self).tab_list() == old(self).tab_list(),
            final(self).shell() == old(self).shell(),
            final(self).surface_requests() == old(self).surface_requests(),
            final(self).agent_requests() == old(self).agent_requests(),
            final(self).quick() == old(self).quick(),
    {
        self.input_history.record(input, None);
    }
}

/// What closing a tab did, with the waiting requests it cancelled.
pub struct ClosedTab<T, S, A> {
    pub outcome: CloseOutcome<WorkspaceTab<T>>,
    /// The surface requests for the closed tab, to answer with an error.
    pub surface_requests: Vec<S>,
    /// The agent prompt in flight for the closed tab, if any.
    pub agent_requests: Vec<PendingAgentAsk<A>>,
}

impl<T, S, A, C, W> ConWorkspace<T, S, A, C, W> {
    /// Queues a surface request for the tab that `tab_index` (1-based, the
    /// active tab when absent) names; an index outside the tabs hands the
    /// request back with the error. Returns the 0-based tab.
    pub fn queue_surface_request(&mut self, tab_index: Option<usize>, request: S) -> (r: Result<
        usize,
        (ControlError, S),
    >)
        requires
            old(self).wf(),
        ensures
            final(self).wf(),
            final(self).shell() == old(self).shell(),
            final(self).inputs() == old(self).inputs(),
            final(self).quick() == old(self).quick(),
            final(self).next_agent_request() == old(self).next_agent_request(),
            final(self).closing() == old(self).closing(),
            final(self).create_requests() == old(self).create_requests(),
            final(self).window_requests() == old(self).window_requests(),
            final(self).tab_list() == old(self).tab_list(),
            final(self).agent_requests() == old(self).agent_requests(),
            match tab_index {
                Some(i) => if i == 0 || i > old(self).tab_list().tabs().len() {
                    r matches Err((e, _)) && e == (ControlError::TabIndexOutOfRange {
                        index: i,
                        tab_count: old(self).tab_list().tabs().len() as usize,
                    })
                } else {
                    r == Ok::<usize, (ControlError, S)>((i - 1) as usize)
                },
                None => r == Ok::<usize, (ControlError, S)>(old(self).tab_list().active() as usize),
            },
            r matches Ok(k) ==> final(self).surface_requests() == old(self).surface_requests().push(
                (k, request),
            ),
            r matches Err((_, back)) ==> back == request
                && final(self).surface_requests() == old(self).surface_requests(),
    {
        let count = self.tabs.len();
        let active = self.tabs.active_index();
        match resolve_control_tab_index(tab_index, count, active) {
            Err(e) => Err((e, request)),
            Ok(k) => {
                let ghost before = self.pending_surface@;
                self.pending_surface.push(k, request);
                assert forall|i: int| 0 <= i < self.pending_surface@.len() implies (
                #[trigger] self.pending_surface@[i]).0 < self.tabs.tabs().len() by {
                    if i < before.len() {
                        assert(self.pending_surface@[i] == before[i]);
                    }
                }
                Ok(k)
            },
        }
    }

    /// Takes every queued surface request out, in arrival order, to run
    /// them.
    pub fn take_surface_requests(&mut self) -> (r: Vec<(usize, S)>)
        requires
            old(self).wf(),
        ensures
            final(self).wf(),
            final(self).shell() == old(self).shell(),
            final(self).inputs() == old(self).inputs(),
            final(self).quick() == old(self).quick(),
            final(self).next_agent_request() == old(self).next_agent_request(),
            final(self).closing() == old(self).closing(),
            final(self).create_requests() == old(self).create_requests(),
            final(self).window_requests() == old(self).window_requests(),
            r@ == old(self).surface_requests(),
            all_below(r@, old(self).tab_list().tabs().len()),
            final(self).surface_requests().len() == 0,
            final(self).tab_list() == old(self).tab_list(),
            final(self).agent_requests() == old(self).agent_requests(),
    {
        self.pending_surface.take_all()
    }

    /// Starts an `agent.ask` on the tab that `tab_index` names: the prompt
    /// must not be blank and the tab must not have one in flight; a refused
    /// request is handed back with the error. An accepted one takes the next
    /// request id, which then advances by one (wrapping). Returns the 0-based
    /// tab.
    pub fn ask_agent(&mut self, tab_index: Option<usize>, prompt: &str, request: A) -> (r: Result<
        usize,
        (ControlError, A),
    >)
        requires
            old(self).wf(),
        ensures
            final(self).wf(),
            final(self).shell() == old(self).shell(),
            final(self).inputs() == old(self).inputs(),
            final(self).quick() == old(self).quick(),
            final(self).closing() == old(self).closing(),
            final(self).create_requests() == old(self).create_requests(),
            final(self).window_requests() == old(self).window_requests(),
            final(self).tab_list() == old(self).tab_list(),
            final(self).surface_requests() == old(self).surface_requests(),
            r matches Ok(k) ==> {
                let new = final(self).agent_requests();
                &&& k < old(self).tab_list().tabs().len()
                &&& !tabs_of(old(self).agent_requests()).contains(k)
                &&& new.len() == old(self).agent_requests().len() + 1
                &&& new.drop_last() == old(self).agent_requests()
                &&& new.last().0 == k
                &&& new.last().1.request_id == old(self).next_agent_request()
                &&& new.last().1.prompt@ == prompt@
                &&& new.last().1.payload == request
                &&& final(self).next_agent_request() == next_request_id(old(self).next_agent_request())
            },
            r matches Err((_, back)) ==> back == request
                && final(self).agent_requests() == old(self).agent_requests()
                && final(self).next_agent_request() == old(self).next_agent_request(),
            tab_index matches Some(i) ==> ((i == 0 || i > old(self).tab_list().tabs().len()) ==> (
            r matches Err((e, _)) && e == (ControlError::TabIndexOutOfRange {
                index: i,
                tab_count: old(self).tab_list().tabs().len() as usize,
            }))),
            ({
                let n = old(self).tab_list().tabs().len();
                let k: int = match tab_index {
                    Some(i) => i - 1,
                    None => old(self).tab_list().active(),
                };
                let resolves = match tab_index {
                    Some(i) => 1 <= i <= n,
                    None => true,
                };
                resolves ==> if trim_seq(prompt@).len() == 0 {
                    r matches Err((e, _)) && e == ControlError::EmptyAgentPrompt
                } else if tabs_of(old(self).agent_requests()).contains(k as usize) {
                    r matches Err((e, _)) && e == (ControlError::AgentRequestPending {
                        tab_index: (k + 1) as usize,
                    })
                } else {
                    r == Ok::<usize, (ControlError, A)>(k as usize)
                }
            }),
    {
        let count = self.tabs.len();
        let active = self.tabs.active_index();
        let k = match resolve_control_tab_index(tab_index, count, active) {
            Err(e) => {
                return Err((e, request));
            },
            Ok(k) => k,
        };
        let pending = self.pending_agent.contains(k);
        match validate_agent_ask(prompt, k, pending) {
            Err(e) => Err((e, request)),
            Ok(()) => {
                let ghost before = self.pending_agent@;
                let ask = PendingAgentAsk {
                    request_id: self.next_agent_request_id,
                    prompt: String::from_str(prompt),
                    payload: request,
                };
                self.pending_agent.insert(k, ask);
                self.next_agent_request_id = self.next_agent_request_id.wrapping_add(1);
                assert(self.pending_agent@.drop_last() =~= before);
                assert forall|i: int| 0 <= i < self.pending_agent@.len() implies (
                #[trigger] self.pending_agent@[i]).0 < self.tabs.tabs().len() by {
                    if i < before.len() {
                        assert(self.pending_agent@[i] == before[i]);
                    }
                }
                Ok(k)
            },
        }
    }

    /// Ends the agent prompt in flight for the tab at `tab_idx`, if any.
    pub fn finish_agent_request(&mut self, tab_idx: usize) -> (r: Option<PendingAgentAsk<A>>)
        requires
            old(self).wf(),
        ensures
            final(self).wf(),
            final(self).shell() == old(self).shell(),
            final(self).inputs() == old(self).inputs(),
            final(self).quick() == old(self).quick(),
            final(self).next_agent_request() == old(self).next_agent_request(),
            final(self).closing() == old(self).closing(),
            final(self).create_requests() == old(self).create_requests(),
            final(self).window_requests() == old(self).window_requests(),
            final(self).tab_list() == old(self).tab_list(),
            final(self).surface_requests() == old(self).surface_requests(),
            tabs_of(old(self).agent_requests()).contains(tab_idx) <==> r is Some,
            r is None ==> final(self).agent_requests() == old(self).agent_requests(),
            r matches Some(x) ==> exists|i: int|
                0 <= i < old(self).agent_requests().len() && old(self).agent_requests()[i] == (
                tab_idx,
                x,
            ) && final(self).agent_requests() == old(self).agent_requests().remove(i),
    {
        let ghost before = self.pending_agent@;
        let r = self.pending_agent.remove(tab_idx);
        assert forall|i: int| 0 <= i < self.pending_agent@.len() implies (
        #[trigger] self.pending_agent@[i]).0 < self.tabs.tabs().len() by {
            if r is Some {
                let j = choose|j: int|
                    0 <= j < before.len() && before[j] == (tab_idx, r->0)
                        && self.pending_agent@ == before.remove(j);
                if i < j {
                    assert(self.pending_agent@[i] == before[i]);
                } else {
                    assert(self.pending_agent@[i] == before[i + 1]);
                }
            }
        }
        r
    }

    /// Opens a tab after the others and activates it: titled "Terminal N"
    /// (N = the new tab count), without a label, with the default routing
    /// of `config` and no histories; waiting requests keep their tabs.
    pub fn open_tab(&mut self, data: T, config: &AgentConfig) -> (i: usize)
        requires
            old(self).wf(),
            old(self).tab_list().next_id() < u64::MAX,
            old(self).tab_list().tabs().len() < usize::MAX,
        ensures
            final(self).wf(),
            final(self).shell() == old(self).shell(),
            final(self).inputs() == old(self).inputs(),
            final(self).quick() == old(self).quick(),
            final(self).next_agent_request() == old(self).next_agent_request(),
            final(self).closing() == old(self).closing(),
            final(self).create_requests() == old(self).create_requests(),
            final(self).window_requests() == old(self).window_requests(),
            i == old(self).tab_list().tabs().len(),
            final(self).tab_list().ids() == old(self).tab_list().ids().push(
                old(self).tab_list().next_id(),
            ),
            final(self).tab_list().active() == i,
            final(self).tab_list().next_id() == old(self).tab_list().next_id() + 1,
            final(self).tab_list().tabs()[i as int].data.data == data,
            final(self).tab_list().tabs()[i as int].data.shell_history@.len() == 0,
            final(self).tab_list().tabs()[i as int].data.title@ == numbered("Terminal"@, i as nat + 1),
            final(self).tab_list().tabs()[i as int].data.user_label is None,
            final(self).tab_list().tabs()[i as int].data.agent_routing.view_tuple() == default_routing(
                config.view_tuple(),
            ),
            !final(self).tab_list().tabs()[i as int].needs_attention,
            forall|k: int|
                0 <= k < old(self).tab_list().tabs().len() ==> (#[trigger] final(self).tab_list().tabs()[k])
                    == old(self).tab_list().tabs()[k],
            final(self).surface_requests() == old(self).surface_requests(),
            final(self).agent_requests() == old(self).agent_requests(),
    {
        let title = new_tab_title(self.tabs.len());
        let tab = WorkspaceTab {
            data,
            title,
            user_label: None,
            agent_routing: default_agent_routing(config),
            shell_history: PaneHistories::new(),
        };
        let i = self.tabs.open_tab(tab);
        assert forall|k: int| 0 <= k < self.tabs.tabs().len() implies (
        #[trigger] self.tabs.tabs()[k]).data.shell_history.wf() by {
            if k < i {
                assert(self.tabs.tabs()[k] == old(self).tab_list().tabs()[k]);
            }
        }
        i
    }

    /// Closes the tab at `index`: nothing
    /// happens for an index past the end or for the window's only tab
    /// (the caller then closes the window or starts the quick terminal
    /// over). Otherwise the requests waiting for the closed tab are handed
    /// back and the others follow their tabs to their new indices.
    pub fn close_tab_by_index(&mut self, index: usize) -> (r: ClosedTab<T, S, A>)
        requires
            old(self).wf(),
        ensures
            final(self).wf(),
            final(self).shell() == old(self).shell(),
            final(self).inputs() == old(self).inputs(),
            final(self).next_agent_request() == old(self).next_agent_request(),
            final(self).closing() == old(self).closing(),
            final(self).create_requests() == old(self).create_requests(),
            final(self).window_requests() == old(self).window_requests(),
            final(self).quick() == old(self).quick(),
            index >= old(self).tab_list().tabs().len() ==> r.outcome is OutOfRange,
            index < old(self).tab_list().tabs().len() && old(self).tab_list().tabs().len() <= 1
                ==> r.outcome is LastTab,
            !(r.outcome is Closed) ==> final(self).tab_list().tabs() == old(self).tab_list().tabs()
                && final(self).tab_list().active() == old(self).tab_list().active()
                && final(self).surface_requests() == old(self).surface_requests()
                && final(self).agent_requests() == old(self).agent_requests()
                && r.surface_requests@.len() == 0 && r.agent_requests@.len() == 0,
            index < old(self).tab_list().tabs().len() && old(self).tab_list().tabs().len() > 1 ==> {
                &&& r.outcome matches CloseOutcome::Closed { tab, was_active }
                    && tab == old(self).tab_list().tabs()[index as int]
                    && was_active == (index == old(self).tab_list().active())
                &&& final(self).tab_list().tabs() == old(self).tab_list().tabs().remove(
                    index as int,
                )
                &&& final(self).tab_list().active() == active_after_close(
                    old(self).tab_list().active(),
                    index as int,
                    old(self).tab_list().tabs().len() as int,
                )
                &&& final(self).surface_requests() == shifted(old(self).surface_requests(), index)
                &&& r.surface_requests@ == dropped(old(self).surface_requests(), index)
                &&& final(self).agent_requests() == shifted(old(self).agent_requests(), index)
                &&& r.agent_requests@ == dropped(old(self).agent_requests(), index)
            },
    {
        let n = self.tabs.len();
        let outcome = self.tabs.close(index);
        match outcome {
            CloseOutcome::Closed { tab, was_active } => {
                proof {
                    law_shift_stays_below(self.pending_surface@, index, n as nat);
                    law_shift_stays_below(self.pending_agent@, index, n as nat);
                }
                let surface_requests = self.pending_surface.reindex_after_tab_close(index);
                let agent_requests = self.pending_agent.reindex_after_tab_close(index);
                ClosedTab {
                    outcome: CloseOutcome::Closed { tab, was_active },
                    surface_requests,
                    agent_requests,
                }
            },
            other => ClosedTab {
                outcome: other,
                surface_requests: Vec::new(),
                agent_requests: Vec::new(),
            },
        }
    }

    /// Moves the tab with id `id` (see [`TabList::reorder`]); the waiting
    /// requests follow their tabs to their new indices. Returns the map from
    /// old to new indices when anything moved.
    pub fn reorder_tab(&mut self, id: u64, to: usize, delta: Option<i64>) -> (moved: Option<Vec<usize>>)
        requires
            old(self).wf(),
        ensures
            final(self).wf(),
            final(self).shell() == old(self).shell(),
            final(self).inputs() == old(self).inputs(),
            final(self).quick() == old(self).quick(),
            final(self).next_agent_request() == old(self).next_agent_request(),
            final(self).closing() == old(self).closing(),
            moved is None ==> final(self).tab_list().tabs() == old(self).tab_list().tabs()
                && final(self).tab_list().active() == old(self).tab_list().active()
                && final(self).surface_requests() == old(self).surface_requests()
                && final(self).agent_requests() == old(self).agent_requests(),
            moved is None ==> final(self).create_requests() == old(self).create_requests()
                && final(self).window_requests() == old(self).window_requests(),
            moved matches Some(m) ==> final(self).create_requests() == remapped(
                old(self).create_requests(),
                m@,
            ) && final(self).window_requests() == remapped_window(old(self).window_requests(), m@),
            moved matches Some(m) ==> final(self).surface_requests() == remapped(
                old(self).surface_requests(),
                m@,
            ) && final(self).agent_requests() == remapped(old(self).agent_requests(), m@),
            final(self).tab_list().next_id() == old(self).tab_list().next_id(),
            match position_of(old(self).tab_list().ids(), id) {
                None => moved is None,
                Some(from) => {
                    let len = old(self).tab_list().ids().len() as int;
                    let t = reorder_target(from, len, to as int, delta);
                    if t > len || t == from || t == from + 1 {
                        moved is None
                    } else {
                        let at = landing_index(from, t);
                        &&& moved matches Some(m) && m@.len() == len && forall|j: int|
                            0 <= j < len ==> m@[j] == moved_index(j, from, at)
                        &&& final(self).tab_list().tabs() == reorder_seq(
                            old(self).tab_list().tabs(),
                            from,
                            t,
                        )
                        &&& final(self).tab_list().active() == moved_index(
                            old(self).tab_list().active(),
                            from,
                            at,
                        )
                    }
                },
            },
    {
        let ghost old_tabs = self.tabs.tabs();
        let ghost old_len = self.tabs.tabs().len() as int;
        let moved = self.tabs.reorder(id, to, delta);
        match moved {
            None => None,
            Some(m) => {
                let n = self.tabs.len();
                proof {
                    lemma_position_of(old(self).tab_list().ids(), id);
                    let from = position_of(old(self).tab_list().ids(), id)->0;
                    let t = reorder_target(from, old_len, to as int, delta);
                    lemma_moved_tabs_keep_histories(old_tabs, from, landing_index(from, t));
                    assert(self.tabs.tabs() == reorder_seq(old_tabs, from, t));
                    law_remap_stays_below(self.pending_surface@, m@, n as nat);
                    law_remap_stays_below(self.pending_agent@, m@, n as nat);
                }
                self.pending_surface.remap_after_reorder(&m);
                self.pending_create.remap_after_reorder(&m);
                self.pending_window.remap_after_reorder(&m);
                let _none = self.pending_agent.remap_after_reorder(&m);
                Some(m)
            },
        }
    }
    /// Queues a create-pane request for the tab that `tab_index` (1-based,
    /// the active tab when absent) names; an index outside the tabs hands
    /// the request back with the error. Returns the 0-based tab.
    pub fn queue_create_pane(&mut self, tab_index: Option<usize>, request: C) -> (r: Result<
        usize,
        (ControlError, C),
    >)
        requires
            old(self).wf(),
        ensures
            final(self).wf(),
            final(self).shell() == old(self).shell(),
            final(self).inputs() == old(self).inputs(),
            final(self).quick() == old(self).quick(),
            final(self).next_agent_request() == old(self).next_agent_request(),
            final(self).closing() == old(self).closing(),
            final(self).tab_list() == old(self).tab_list(),
            final(self).surface_requests() == old(self).surface_requests(),
            final(self).agent_requests() == old(self).agent_requests(),
            final(self).window_requests() == old(self).window_requests(),
            match tab_index {
                Some(i) => if i == 0 || i > old(self).tab_list().tabs().len() {
                    r matches Err((e, _)) && e == (ControlError::TabIndexOutOfRange {
                        index: i,
                        tab_count: old(self).tab_list().tabs().len() as usize,
                    })
                } else {
                    r == Ok::<usize, (ControlError, C)>((i - 1) as usize)
                },
                None => r == Ok::<usize, (ControlError, C)>(old(self).tab_list().active() as usize),
            },
            r matches Ok(k) ==> final(self).create_requests() == old(self).create_requests().push(
                (k, request),
            ),
            r matches Err((_, back)) ==> back == request
                && final(self).create_requests() == old(self).create_requests(),
    {
        let count = self.tabs.len();
        let active = self.tabs.active_index();
        match resolve_control_tab_index(tab_index, count, active) {
            Err(e) => Err((e, request)),
            Ok(k) => {
                self.pending_create.push(k, request);
                Ok(k)
            },
        }
    }

    /// Takes every queued create-pane request out, in arrival order; a
    /// request's tab may have closed since it was queued.
    pub fn take_create_pane_requests(&mut self) -> (r: Vec<(usize, C)>)
        requires
            old(self).wf(),
        ensures
            final(self).wf(),
            final(self).shell() == old(self).shell(),
            final(self).inputs() == old(self).inputs(),
            final(self).quick() == old(self).quick(),
            final(self).next_agent_request() == old(self).next_agent_request(),
            final(self).closing() == old(self).closing(),
            r@ == old(self).create_requests(),
            final(self).create_requests().len() == 0,
            final(self).tab_list() == old(self).tab_list(),
            final(self).surface_requests() == old(self).surface_requests(),
            final(self).agent_requests() == old(self).agent_requests(),
            final(self).window_requests() == old(self).window_requests(),
    {
        self.pending_create.take_all()
    }

    /// Queues a `tabs.new` request.
    pub fn queue_new_tab(&mut self, request: W)
        requires
            old(self).wf(),
        ensures
            final(self).wf(),
            final(self).shell() == old(self).shell(),
            final(self).inputs() == old(self).inputs(),
            final(self).quick() == old(self).quick(),
            final(self).next_agent_request() == old(self).next_agent_request(),
            final(self).closing() == old(self).closing(),
            final(self).window_requests() == old(self).window_requests().push(
                WindowRequest::NewTab(request),
            ),
            final(self).tab_list() == old(self).tab_list(),
            final(self).surface_requests() == old(self).surface_requests(),
            final(self).agent_requests() == old(self).agent_requests(),
            final(self).create_requests() == old(self).create_requests(),
    {
        self.pending_window.push(WindowRequest::NewTab(request));
    }

    /// Queues a `tabs.close` request for the tab that `tab_index` (1-based,
    /// the active tab when absent) names; an index outside the tabs hands
    /// the request back with the error. Returns the 0-based tab.
    pub fn queue_tab_close(&mut self, tab_index: Option<usize>, request: W) -> (r: Result<
        usize,
        (ControlError, W),
    >)
        requires
            old(self).wf(),
        ensures
            final(self).wf(),
            final(self).shell() == old(self).shell(),
            final(self).inputs() == old(self).inputs(),
            final(self).quick() == old(self).quick(),
            final(self).next_agent_request() == old(self).next_agent_request(),
            final(self).closing() == old(self).closing(),
            final(self).tab_list() == old(self).tab_list(),
            final(self).surface_requests() == old(self).surface_requests(),
            final(self).agent_requests() == old(self).agent_requests(),
            final(self).create_requests() == old(self).create_requests(),
            match tab_index {
                Some(i) => if i == 0 || i > old(self).tab_list().tabs().len() {
                    r matches Err((e, _)) && e == (ControlError::TabIndexOutOfRange {
                        index: i,
                        tab_count: old(self).tab_list().tabs().len() as usize,
                    })
                } else {
                    r == Ok::<usize, (ControlError, W)>((i - 1) as usize)
                },
                None => r == Ok::<usize, (ControlError, W)>(old(self).tab_list().active() as usize),
            },
            r matches Ok(k) ==> final(self).window_requests() == old(self).window_requests().push(
                WindowRequest::CloseTab { tab_idx: k, request },
            ),
            r matches Err((_, back)) ==> back == request
                && final(self).window_requests() == old(self).window_requests(),
    {
        let count = self.tabs.len();
        let active = self.tabs.active_index();
        match resolve_control_tab_index(tab_index, count, active) {
            Err(e) => Err((e, request)),
            Ok(k) => {
                self.pending_window.push(WindowRequest::CloseTab { tab_idx: k, request });
                Ok(k)
            },
        }
    }

    /// Takes every queued window request out, in arrival order, to run them
    /// (a close is checked again with `check_deferred_tab_close`).
    pub fn take_window_requests(&mut self) -> (r: Vec<WindowRequest<W>>)
        requires
            old(self).wf(),
        ensures
            final(self).wf(),
            final(self).shell() == old(self).shell(),
            final(self).inputs() == old(self).inputs(),
            final(self).quick() == old(self).quick(),
            final(self).next_agent_request() == old(self).next_agent_request(),
            final(self).closing() == old(self).closing(),
            r@ == old(self).window_requests(),
            final(self).window_requests().len() == 0,
            final(self).tab_list() == old(self).tab_list(),
            final(self).surface_requests() == old(self).surface_requests(),
            final(self).agent_requests() == old(self).agent_requests(),
            final(self).create_requests() == old(self).create_requests(),
    {
        self.pending_window.take_all()
    }

    /// Prepares the window for closing, once: the first call takes every
    /// waiting surface request, agent prompt and window request out (in
    /// arrival order) to answer them with an error; later calls find the
    /// window already prepared and hand back nothing. Create-pane requests
    /// are left to the frame that flushes them.
    pub fn prepare_close(&mut self) -> (r: Option<
        (Vec<(usize, S)>, Vec<(usize, PendingAgentAsk<A>)>, Vec<WindowRequest<W>>),
    >)
        requires
            old(self).wf(),
        ensures
            final(self).wf(),
            final(self).next_agent_request() == old(self).next_agent_request(),
            final(self).closing(),
            final(self).tab_list() == old(self).tab_list(),
            final(self).shell() == old(self).shell(),
            final(self).inputs() == old(self).inputs(),
            final(self).quick() == old(self).quick(),
            final(self).create_requests() == old(self).create_requests(),
            old(self).closing() ==> r is None && final(self).surface_requests() == old(
                self,
            ).surface_requests() && final(self).agent_requests() == old(self).agent_requests()
                && final(self).window_requests() == old(self).window_requests(),
            !old(self).closing() ==> (r matches Some((surface, agent, window)) && surface@ == old(
                self,
            ).surface_requests() && agent@ == old(self).agent_requests() && window@ == old(
                self,
            ).window_requests() && final(self).surface_requests().len() == 0
                && final(self).agent_requests().len() == 0
                && final(self).window_requests().len() == 0),
    {
        if self.close_prepared {
            return None;
        }
        self.close_prepared = true;
        let surface = self.pending_surface.take_all();
        let agent = self.pending_agent.take_all();
        let window = self.pending_window.take_all();
        Some((surface, agent, window))
    }
}

proof fn lemma_moved_tabs_keep_histories<T>(s: Seq<Tab<WorkspaceTab<T>>>, from: int, at: int)
    requires
        0 <= from < s.len(),
        0 <= at < s.len(),
        forall|i: int| 0 <= i < s.len() ==> (#[trigger] s[i]).data.shell_history.wf(),
    ensures
        forall|k: int|
            0 <= k < s.len() ==> (#[trigger] move_seq(s, from, at)[k]).data.shell_history.wf(),
{
    let r = s.remove(from);
    assert forall|k: int| 0 <= k < s.len() implies (#[trigger] move_seq(s, from, at)[k]).data.shell_history.wf() by {
        if k < at {
            assert(move_seq(s, from, at)[k] == r[k]);
        } else if k > at {
            assert(move_seq(s, from, at)[k] == r[k - 1]);
        }
    }
}

} // verus!
