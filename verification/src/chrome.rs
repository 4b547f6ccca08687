//! Window chrome decisions: when the horizontal tab strip shows, what a new
//! tab refreshes, how tab titles fit the strip, and the guards that keep
//! native views still while chrome animates.
use vstd::prelude::*;
use crate::text::{chars_of, string_of};

verus! {

/// Where the tabs are shown.
#[derive(Debug, Clone, Copy, PartialEq, Eq, Structural)]
pub enum TabsOrientation {
    Horizontal,
    Vertical,
}

/// The horizontal tab strip is shown: horizontal tabs, and more than one.
pub fn horizontal_tabs_visible(orientation: TabsOrientation, tab_count: usize) -> (r: bool)
    ensures
        r == (orientation == TabsOrientation::Horizontal && tab_count > 1),
{
    orientation == TabsOrientation::Horizontal && tab_count > 1
}

/// Tabs are listed in the sidebar.
pub fn vertical_tabs_active(orientation: TabsOrientation) -> (r: bool)
    ensures
        r == (orientation == TabsOrientation::Vertical),
{
    orientation == TabsOrientation::Vertical
}

/// What opening a tab brings up to date at once.
#[derive(Debug, Clone, Copy, PartialEq, Eq)]
pub struct NewTabSyncPolicy {
    pub activates_new_tab: bool,
    pub syncs_sidebar: bool,
    pub notifies_ui: bool,
    pub syncs_native_visibility: bool,
    pub reuses_shared_tab_activation_flow: bool,
}

/// A new tab is activated through the same flow as any other activation,
/// which syncs the sidebar, the native views and the UI in the same frame.
pub fn new_tab_sync_policy() -> (r: NewTabSyncPolicy)
    ensures
        r.activates_new_tab,
        r.syncs_sidebar,
        r.notifies_ui,
        r.syncs_native_visibility,
        r.reuses_shared_tab_activation_flow,
{
    NewTabSyncPolicy {
        activates_new_tab: true,
        syncs_sidebar: true,
        notifies_ui: true,
        syncs_native_visibility: true,
        reuses_shared_tab_activation_flow: true,
    }
}

/// When a second tab makes the tab strip appear, the top chrome is
/// refreshed again on the next frame, once the strip has its height.
pub fn should_defer_top_chrome_refresh_when_tab_strip_appears() -> (r: bool)
    ensures
        r,
{
    true
}

// ── tab titles in the strip ─────────────────────────────────────────────

/// Characters beyond which a tab strip title is cut.
pub const TAB_TITLE_MAX_CHARS: usize = 24;

/// UTF-8 bytes kept of a cut title, before the ellipsis.
pub const TAB_TITLE_KEEP_BYTES: usize = 22;

/// The number of bytes `c` takes in UTF-8.
pub open spec fn utf8_width(c: char) -> nat {
    if (c as u32) < 0x80 {
        1
    } else if (c as u32) < 0x800 {
        2
    } else if (c as u32) < 0x10000 {
        3
    } else {
        4
    }
}

/// The number of characters of `s`, from `i` on, that fit in `budget` UTF-8
/// bytes (`str::floor_char_boundary`, counted in characters).
pub open spec fn chars_within(s: Seq<char>, i: int, budget: int) -> int
    decreases s.len() - i,
{
    if i < 0 || i >= s.len() || budget < utf8_width(s[i]) {
        0
    } else {
        1 + chars_within(s, i + 1, budget - utf8_width(s[i]))
    }
}

/// The title as the strip shows it: up to 24 characters as it is; longer,
/// the longest start that fits in 22 UTF-8 bytes, then `…`.
pub open spec fn strip_title(name: Seq<char>) -> Seq<char> {
    if name.len() > TAB_TITLE_MAX_CHARS {
        name.take(chars_within(name, 0, TAB_TITLE_KEEP_BYTES as int)).push('…')
    } else {
        name
    }
}

fn utf8_width_of(c: char) -> (r: usize)
    ensures
        r == utf8_width(c),
{
    let v = c as u32;
    if v < 0x80 {
        1
    } else if v < 0x800 {
        2
    } else if v < 0x10000 {
        3
    } else {
        4
    }
}

proof fn lemma_chars_within(s: Seq<char>, i: int, budget: int)
    requires
        0 <= i <= s.len(),
    ensures
        0 <= chars_within(s, i, budget) <= s.len() - i,
    decreases s.len() - i,
{
    if i < s.len() && budget >= utf8_width(s[i]) {
        lemma_chars_within(s, i + 1, budget - utf8_width(s[i]));
    }
}

/// The title a tab shows in the strip (see [`strip_title`]).
pub fn tab_strip_title(name: &str) -> (r: String)
    ensures
        r@ == strip_title(name@),
{
    let nc = chars_of(name);
    if nc.len() <= TAB_TITLE_MAX_CHARS {
        return string_of(nc.as_slice());
    }
    let mut i: usize = 0;
    let mut budget: usize = TAB_TITLE_KEEP_BYTES;
    proof {
        lemma_chars_within(nc@, 0, TAB_TITLE_KEEP_BYTES as int);
    }
    while i < nc.len() && utf8_width_of(nc[i]) <= budget
        invariant
            i <= nc@.len(),
            budget <= TAB_TITLE_KEEP_BYTES,
            chars_within(nc@, 0, TAB_TITLE_KEEP_BYTES as int) == i + chars_within(
                nc@,
                i as int,
                budget as int,
            ),
        decreases nc@.len() - i,
    {
        budget = budget - utf8_width_of(nc[i]);
        i = i + 1;
    }
    let mut out: Vec<char> = Vec::new();
    let mut k: usize = 0;
    while k < i
        invariant
            k <= i <= nc@.len(),
            out@ == nc@.take(k as int),
        decreases i - k,
    {
        out.push(nc[k]);
        assert(nc@.take(k + 1) =~= nc@.take(k as int).push(nc@[k as int]));
        k = k + 1;
    }
    out.push('…');
    string_of(out.as_slice())
}

proof fn lemma_chars_within_budget(s: Seq<char>, i: int, budget: int)
    requires
        0 <= i <= s.len(),
    ensures
        chars_within(s, i, budget) <= if budget < 0 { 0 } else { budget },
    decreases s.len() - i,
{
    if i < s.len() && budget >= utf8_width(s[i]) {
        lemma_chars_within_budget(s, i + 1, budget - utf8_width(s[i]));
    }
}

/// A title in the strip is never longer than 24 characters, and it starts
/// with the title (all of it, or a cut start followed by `…`).
pub proof fn law_strip_title_fits(name: Seq<char>)
    ensures
        strip_title(name).len() <= TAB_TITLE_MAX_CHARS,
        strip_title(name) == name || (strip_title(name).last() == '…' && strip_title(name).drop_last()
            == name.take(strip_title(name).len() - 1)),
{
    if name.len() > TAB_TITLE_MAX_CHARS {
        lemma_chars_within(name, 0, TAB_TITLE_KEEP_BYTES as int);
        lemma_chars_within_budget(name, 0, TAB_TITLE_KEEP_BYTES as int);
        let k = chars_within(name, 0, TAB_TITLE_KEEP_BYTES as int);
        assert(name.take(k).push('…').drop_last() =~= name.take(k));
    }
}

// ── snap guards ─────────────────────────────────────────────────────────

/// How long native views are held still when chrome snaps into place.
pub const CHROME_SNAP_GUARD_MS: u64 = 160;

/// How long chrome next to the terminal animates: never on macOS (native
/// terminal views would show a seam while the layout moves), else the
/// opening or closing duration.
pub fn terminal_adjacent_chrome_duration_ms(macos: bool, open: bool, open_ms: u64, close_ms: u64) -> (r:
    u64)
    ensures
        r == (if macos {
            0
        } else if open {
            open_ms
        } else {
            close_ms
        }),
{
    if macos {
        0
    } else if open {
        open_ms
    } else {
        close_ms
    }
}

/// While chrome animates, native views are held still until a deadline
/// (milliseconds on a monotonic clock); none when no guard is armed.
#[derive(Debug, Clone, Copy, PartialEq, Eq)]
pub struct SnapGuard {
    pub until_ms: Option<u64>,
}

/// What a guard says when looked at: whether it still holds, and whether it
/// has just run out (it is then disarmed).
#[derive(Debug, Clone, Copy, PartialEq, Eq)]
pub struct GuardState {
    pub active: bool,
    pub expired: bool,
}

impl SnapGuard {
    /// No guard armed.
    pub fn new() -> (r: SnapGuard)
        ensures
            r.until_ms is None,
    {
        SnapGuard { until_ms: None }
    }

    /// Arm the guard for `duration_ms` from `now_ms`; an armed guard is only
    /// ever extended, never shortened.
    pub fn extend(&mut self, now_ms: u64, duration_ms: u64)
        requires
            now_ms + duration_ms <= u64::MAX,
        ensures
            final(self).until_ms == Some(
                match old(self).until_ms {
                    Some(prev) => if prev > now_ms + duration_ms {
                        prev
                    } else {
                        (now_ms + duration_ms) as u64
                    },
                    None => (now_ms + duration_ms) as u64,
                },
            ),
            final(self).until_ms matches Some(d) && d >= now_ms + duration_ms,
            old(self).until_ms matches Some(p) ==> final(self).until_ms matches Some(d) && d >= p,
    {
        let next = now_ms + duration_ms;
        self.until_ms = Some(
            match self.until_ms {
                Some(prev) => if prev > next {
                    prev
                } else {
                    next
                },
                None => next,
            },
        );
    }

    /// Look at the guard at `now_ms`: unarmed, it neither holds nor expires;
    /// at or past its deadline it expires and is disarmed; before it, it
    /// holds.
    pub fn check(&mut self, now_ms: u64) -> (r: GuardState)
        ensures
            match old(self).until_ms {
                None => r == GuardState { active: false, expired: false } && final(self).until_ms
                    is None,
                Some(deadline) => if now_ms >= deadline {
                    r == GuardState { active: false, expired: true } && final(self).until_ms
                        is None
                } else {
                    r == GuardState { active: true, expired: false } && final(self).until_ms
                        == Some(deadline)
                },
            },
    {
        match self.until_ms {
            None => GuardState { active: false, expired: false },
            Some(deadline) => if now_ms >= deadline {
                self.until_ms = None;
                GuardState { active: false, expired: true }
            } else {
                GuardState { active: true, expired: false }
            },
        }
    }
}

// ── input bar and agent panel ───────────────────────────────────────────

/// What the window shows around its terminals.
#[derive(Debug, Clone, Copy, PartialEq, Eq)]
pub struct ChromeState {
    pub input_bar_visible: bool,
    pub agent_panel_open: bool,
    pub scope_picker_open: bool,
}

/// Where keyboard focus goes after a panel is toggled.
#[derive(Debug, Clone, Copy, PartialEq, Eq, Structural)]
pub enum FocusTarget {
    InputBar,
    /// The agent panel's own prompt field.
    AgentInline,
    Terminal,
}

/// Showing or hiding the input bar: hiding it closes the pane-scope
/// picker; focus goes to the input bar when it shows, else to the agent
/// panel's prompt when that panel is open, else to the terminal.
pub open spec fn toggled_input_bar(c: ChromeState) -> (ChromeState, FocusTarget) {
    let visible = !c.input_bar_visible;
    (
        ChromeState {
            input_bar_visible: visible,
            agent_panel_open: c.agent_panel_open,
            scope_picker_open: visible && c.scope_picker_open,
        },
        if visible {
            FocusTarget::InputBar
        } else if c.agent_panel_open {
            FocusTarget::AgentInline
        } else {
            FocusTarget::Terminal
        },
    )
}

/// Opening or closing the agent panel: when it opens, focus goes to the
/// input bar if it shows, else to the panel's prompt; when it closes, to the
/// terminal.
pub open spec fn toggled_agent_panel(c: ChromeState) -> (ChromeState, FocusTarget) {
    let open = !c.agent_panel_open;
    (
        ChromeState {
            input_bar_visible: c.input_bar_visible,
            agent_panel_open: open,
            scope_picker_open: c.scope_picker_open,
        },
        if open {
            if c.input_bar_visible {
                FocusTarget::InputBar
            } else {
                FocusTarget::AgentInline
            }
        } else {
            FocusTarget::Terminal
        },
    )
}

/// Shows or hides the input bar (see [`toggled_input_bar`]).
pub fn toggle_input_bar(c: ChromeState) -> (r: (ChromeState, FocusTarget))
    ensures
        r == toggled_input_bar(c),
{
    let visible = !c.input_bar_visible;
    let focus = if visible {
        FocusTarget::InputBar
    } else if c.agent_panel_open {
        FocusTarget::AgentInline
    } else {
        FocusTarget::Terminal
    };
    (
        ChromeState {
            input_bar_visible: visible,
            agent_panel_open: c.agent_panel_open,
            scope_picker_open: visible && c.scope_picker_open,
        },
        focus,
    )
}

/// Opens or closes the agent panel (see [`toggled_agent_panel`]).
pub fn toggle_agent_panel(c: ChromeState) -> (r: (ChromeState, FocusTarget))
    ensures
        r == toggled_agent_panel(c),
{
    let open = !c.agent_panel_open;
    let focus = if open {
        if c.input_bar_visible {
            FocusTarget::InputBar
        } else {
            FocusTarget::AgentInline
        }
    } else {
        FocusTarget::Terminal
    };
    (
        ChromeState {
            input_bar_visible: c.input_bar_visible,
            agent_panel_open: open,
            scope_picker_open: c.scope_picker_open,
        },
        focus,
    )
}

/// Toggling a panel twice shows what was shown before (the pane-scope
/// picker stays closed once the input bar hid), and each toggle leaves the
/// other panel alone.
pub proof fn law_toggle_twice_restores(c: ChromeState)
    ensures
        toggled_input_bar(toggled_input_bar(c).0).0.input_bar_visible == c.input_bar_visible,
        toggled_input_bar(toggled_input_bar(c).0).0.agent_panel_open == c.agent_panel_open,
        toggled_agent_panel(toggled_agent_panel(c).0).0 == c,
        toggled_input_bar(c).0.agent_panel_open == c.agent_panel_open,
        toggled_agent_panel(c).0.input_bar_visible == c.input_bar_visible,
        !toggled_input_bar(c).0.input_bar_visible ==> !toggled_input_bar(c).0.scope_picker_open,
{
}

} // verus!
