//! The pane-scope picker: when it can open and show, and what each pane's
//! tile says.
use vstd::prelude::*;
use crate::history::opt_view;
use crate::naming::{numbered, numbered_name};
use crate::suggest::InputMode;

verus! {

/// The picker can be toggled: not for agent prompts, and only with more
/// than one pane to choose from.
pub fn can_toggle_scope_picker(mode: InputMode, pane_count: usize) -> (r: bool)
    ensures
        r == (mode != InputMode::Agent && pane_count > 1),
{
    mode != InputMode::Agent && pane_count > 1
}

/// The picker is drawn: it is open, the input bar shows, input is not an
/// agent prompt, and there is more than one pane.
pub fn scope_picker_visible(open: bool, input_bar_visible: bool, mode: InputMode, pane_count: usize) -> (r:
    bool)
    ensures
        r == (open && input_bar_visible && mode != InputMode::Agent && pane_count > 1),
{
    open && input_bar_visible && mode != InputMode::Agent && pane_count > 1
}

/// What a pane's tile shows about it.
#[derive(Debug, Clone, Copy, PartialEq, Eq, Structural)]
pub enum PaneStatus {
    /// Its process has exited.
    Offline,
    /// A command is running.
    Busy,
    /// Idle, on a remote host.
    Remote,
    /// Idle, local.
    Ready,
}

/// A pane's status: offline before busy before remote.
pub fn pane_status(is_alive: bool, is_busy: bool, remote: bool) -> (r: PaneStatus)
    ensures
        r == (if !is_alive {
            PaneStatus::Offline
        } else if is_busy {
            PaneStatus::Busy
        } else if remote {
            PaneStatus::Remote
        } else {
            PaneStatus::Ready
        }),
{
    if !is_alive {
        PaneStatus::Offline
    } else if is_busy {
        PaneStatus::Busy
    } else if remote {
        PaneStatus::Remote
    } else {
        PaneStatus::Ready
    }
}

/// The word a tile shows for a status (a ready pane shows none).
pub fn status_text(status: PaneStatus) -> (r: Option<&'static str>)
    ensures
        status == PaneStatus::Offline ==> r == Some("offline"),
        status == PaneStatus::Busy ==> r == Some("busy"),
        status == PaneStatus::Remote ==> r == Some("remote"),
        status == PaneStatus::Ready ==> r is None,
{
    match status {
        PaneStatus::Offline => Some("offline"),
        PaneStatus::Busy => Some("busy"),
        PaneStatus::Remote => Some("remote"),
        PaneStatus::Ready => None,
    }
}

/// A tile's label: the remote host; else the pane's name; else "Pane N"
/// with the pane's id.
pub open spec fn tile_label(hostname: Option<Seq<char>>, name: Seq<char>, pane_id: nat) -> Seq<char> {
    match hostname {
        Some(h) => h,
        None => if name.len() == 0 {
            numbered("Pane"@, pane_id)
        } else {
            name
        },
    }
}

/// The label of a pane's tile (see [`tile_label`]).
pub fn scope_tile_label(hostname: &Option<String>, name: &str, pane_id: usize) -> (r: String)
    ensures
        r@ == tile_label(opt_view(*hostname), name@, pane_id as nat),
{
    match hostname {
        Some(h) => h.clone(),
        None => if name.unicode_len() == 0 {
            numbered_name("Pane", pane_id)
        } else {
            String::from_str(name)
        },
    }
}

/// The number a tile shows: the pane's 1-based position among the input
/// bar's panes (1 when it is not listed).
pub fn scope_tile_number(pane_ids: &Vec<usize>, pane_id: usize) -> (r: usize)
    requires
        pane_ids@.len() < usize::MAX,
    ensures
        (exists|i: int| 0 <= i < pane_ids@.len() && pane_ids@[i] == pane_id) ==> {
            &&& 1 <= r <= pane_ids@.len()
            &&& pane_ids@[r - 1] == pane_id
            &&& forall|j: int| 0 <= j < r - 1 ==> pane_ids@[j] != pane_id
        },
        (forall|i: int| 0 <= i < pane_ids@.len() ==> pane_ids@[i] != pane_id) ==> r == 1,
{
    let mut i: usize = 0;
    while i < pane_ids.len()
        invariant
            i <= pane_ids@.len(),
            pane_ids@.len() < usize::MAX,
            forall|j: int| 0 <= j < i ==> pane_ids@[j] != pane_id,
        decreases pane_ids@.len() - i,
    {
        if pane_ids[i] == pane_id {
            return i + 1;
        }
        i = i + 1;
    }
    1
}

/// The panes that typed input goes to: the focused pane for agent prompts
/// or the focused scope; every pane when broadcasting; otherwise the
/// selected panes that still exist, or the focused pane when none does.
pub open spec fn input_targets(
    mode: InputMode,
    broadcast: bool,
    focused_scope: bool,
    selected: Set<usize>,
    all: Set<usize>,
    focused_id: usize,
) -> Set<usize> {
    if mode == InputMode::Agent || focused_scope {
        set![focused_id]
    } else if broadcast {
        all
    } else if selected.intersect(all).is_empty() {
        set![focused_id]
    } else {
        selected.intersect(all)
    }
}

/// Where typed input goes: agent prompts and the focused scope reach the
/// focused pane alone; outside those, a broadcast reaches exactly every pane
/// of the tab; otherwise input reaches the selected panes that exist, and
/// the focused pane only when none of them does. Input never reaches a pane
/// outside the tab except the focused one.
pub proof fn law_input_reaches_its_scope(
    mode: InputMode,
    broadcast: bool,
    focused_scope: bool,
    selected: Set<usize>,
    all: Set<usize>,
    focused_id: usize,
)
    ensures
        ({
            let t = input_targets(mode, broadcast, focused_scope, selected, all, focused_id);
            &&& (mode == InputMode::Agent || focused_scope) ==> t =~= set![focused_id]
            &&& (mode != InputMode::Agent && !focused_scope && broadcast) ==> t =~= all
            &&& (mode != InputMode::Agent && !focused_scope && !broadcast) ==> {
                &&& forall|p: usize| selected.contains(p) && all.contains(p) ==> #[trigger] t.contains(p)
                &&& forall|p: usize| #[trigger] t.contains(p) ==> (selected.contains(p) && all.contains(p))
                    || p == focused_id
                &&& t.contains(focused_id) ==> (selected.contains(focused_id) && all.contains(focused_id))
                    || (forall|p: usize| selected.contains(p) ==> !all.contains(p))
            }
            &&& forall|p: usize| #[trigger] t.contains(p) ==> all.contains(p) || p == focused_id
        }),
{
    let t = input_targets(mode, broadcast, focused_scope, selected, all, focused_id);
    if !(mode == InputMode::Agent || focused_scope) && !broadcast {
        if selected.intersect(all).is_empty() {
            assert forall|p: usize| selected.contains(p) implies !all.contains(p) by {
                if all.contains(p) {
                    assert(selected.intersect(all).contains(p));
                }
            }
        } else {
        }
    }
}

fn contains_id(v: &Vec<usize>, id: usize) -> (r: bool)
    ensures
        r == v@.contains(id),
{
    let mut i: usize = 0;
    while i < v.len()
        invariant
            i <= v@.len(),
            forall|j: int| 0 <= j < i ==> v@[j] != id,
        decreases v@.len() - i,
    {
        if v[i] == id {
            assert(v@[i as int] == id);
            return true;
        }
        i = i + 1;
    }
    false
}

/// The panes typed input goes to (see [`input_targets`]), given the panes
/// the user selected and the panes of the tab.
pub fn input_target_panes(
    mode: InputMode,
    broadcast: bool,
    focused_scope: bool,
    selected: &Vec<usize>,
    all: &Vec<usize>,
    focused_id: usize,
) -> (r: Vec<usize>)
    ensures
        r@.to_set() == input_targets(
            mode,
            broadcast,
            focused_scope,
            selected@.to_set(),
            all@.to_set(),
            focused_id,
        ),
{
    if mode == InputMode::Agent || focused_scope {
        let r = vec![focused_id];
        assert(r@.to_set() =~= set![focused_id]) by {
            assert(r@[0] == focused_id);
        }
        return r;
    }
    if broadcast {
        let mut r: Vec<usize> = Vec::new();
        let mut i: usize = 0;
        while i < all.len()
            invariant
                i <= all@.len(),
                r@ == all@.take(i as int),
            decreases all@.len() - i,
        {
            r.push(all[i]);
            assert(all@.take(i + 1) =~= all@.take(i as int).push(all@[i as int]));
            i = i + 1;
        }
        assert(all@.take(all@.len() as int) =~= all@);
        return r;
    }
    let mut r: Vec<usize> = Vec::new();
    let mut i: usize = 0;
    while i < selected.len()
        invariant
            i <= selected@.len(),
            forall|x: usize|
                #![trigger r@.contains(x)]
                r@.contains(x) <==> ((exists|j: int| 0 <= j < i && selected@[j] == x)
                    && all@.contains(x)),
        decreases selected@.len() - i,
    {
        let x = selected[i];
        let keep = contains_id(all, x);
        let ghost before = r@;
        if keep {
            r.push(x);
        }
        proof {
            assert forall|y: usize|
                #![trigger r@.contains(y)]
                r@.contains(y) <==> ((exists|j: int| 0 <= j < i + 1 && selected@[j] == y)
                    && all@.contains(y)) by {
                if keep {
                    if r@.contains(y) {
                        let k = choose|k: int| 0 <= k < r@.len() && r@[k] == y;
                        if k < before.len() {
                            assert(before[k] == y);
                            assert(before.contains(y));
                        } else {
                            assert(selected@[i as int] == y);
                        }
                    }
                    if (exists|j: int| 0 <= j < i + 1 && selected@[j] == y) && all@.contains(y) {
                        let j = choose|j: int| 0 <= j < i + 1 && selected@[j] == y;
                        if j < i {
                            assert(before.contains(y));
                            let k = choose|k: int| 0 <= k < before.len() && before[k] == y;
                            assert(r@[k] == y);
                        } else {
                            assert(r@[before.len() as int] == y);
                        }
                    }
                } else {
                    assert(r@ == before);
                    if (exists|j: int| 0 <= j < i + 1 && selected@[j] == y) && all@.contains(y) {
                        let j = choose|j: int| 0 <= j < i + 1 && selected@[j] == y;
                        if j == i {
                            assert(false);
                        }
                        assert(before.contains(y));
                    }
                }
            }
        }
        i = i + 1;
    }
    proof {
        assert forall|x: usize| r@.contains(x) <==> (selected@.contains(x) && all@.contains(x)) by {
            if selected@.contains(x) {
                let j = choose|j: int| 0 <= j < selected@.len() && selected@[j] == x;
                assert(exists|j2: int| 0 <= j2 < i && selected@[j2] == x);
            }
        }
    }
    let ghost chosen = selected@.to_set().intersect(all@.to_set());
    assert(r@.to_set() =~= chosen);
    if r.len() == 0 {
        assert(chosen =~= Set::<usize>::empty()) by {
            assert forall|x: usize| !chosen.contains(x) by {
                if chosen.contains(x) {
                    assert(r@.contains(x));
                }
            }
        }
        let f = vec![focused_id];
        assert(f@.to_set() =~= set![focused_id]) by {
            assert(f@[0] == focused_id);
        }
        return f;
    }
    assert(!chosen.is_empty()) by {
        assert(r@.contains(r@[0]));
        assert(chosen.contains(r@[0]));
    }
    r
}

} // verus!
