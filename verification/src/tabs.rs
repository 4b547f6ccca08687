//! The window's tab list: stable tab ids, the active tab, opening, closing,
//! activation and drag reordering, and how indices held by deferred requests
//! follow those changes.
use vstd::prelude::*;

verus! {

/// One tab: its stable id (never reused within a window), whether it asks
/// for attention, and what the window keeps for it.
pub struct Tab<T> {
    pub id: u64,
    pub needs_attention: bool,
    pub data: T,
}

/// The ids of a sequence of tabs.
pub open spec fn ids_of<T>(s: Seq<Tab<T>>) -> Seq<u64> {
    s.map_values(|t: Tab<T>| t.id)
}

/// No id occurs twice.
pub open spec fn distinct_ids(s: Seq<u64>) -> bool {
    forall|i: int, j: int| 0 <= i < j < s.len() ==> s[i] != s[j]
}

/// Position of the first occurrence of `id`.
pub open spec fn position_of(s: Seq<u64>, id: u64) -> Option<int>
    decreases s.len(),
{
    if s.len() == 0 {
        None
    } else if s[0] == id {
        Some(0)
    } else {
        match position_of(s.drop_first(), id) {
            Some(i) => Some(i + 1),
            None => None,
        }
    }
}

/// Where `position_of` finds `id`: its first occurrence, or nowhere.
pub proof fn lemma_position_of(s: Seq<u64>, id: u64)
    ensures
        position_of(s, id) matches Some(i) ==> 0 <= i < s.len() && s[i] == id && forall|j: int|
            0 <= j < i ==> s[j] != id,
        position_of(s, id) is None ==> forall|j: int| 0 <= j < s.len() ==> s[j] != id,
    decreases s.len(),
{
    if s.len() > 0 {
        lemma_position_of(s.drop_first(), id);
        if s[0] != id {
            assert forall|j: int| 1 <= j < s.len() implies s[j] == s.drop_first()[j - 1] by {}
        }
    }
}

proof fn lemma_position_found(s: Seq<u64>, id: u64, i: int)
    requires
        0 <= i < s.len(),
        s[i] == id,
        forall|j: int| 0 <= j < i ==> s[j] != id,
    ensures
        position_of(s, id) == Some(i),
    decreases i,
{
    if i > 0 {
        lemma_position_found(s.drop_first(), id, i - 1);
    }
}

proof fn lemma_position_absent(s: Seq<u64>, id: u64)
    requires
        forall|j: int| 0 <= j < s.len() ==> s[j] != id,
    ensures
        position_of(s, id) is None,
    decreases s.len(),
{
    if s.len() > 0 {
        lemma_position_absent(s.drop_first(), id);
    }
}

/// `s` with the element at `from` moved to index `at`.
pub open spec fn move_seq<A>(s: Seq<A>, from: int, at: int) -> Seq<A> {
    s.remove(from).insert(at, s[from])
}

/// The order after dragging the tab at `from` to slot `to`: the slot is an
/// insertion point in `0..=len` (slot `k < len` is "before row `k`").
pub open spec fn reorder_seq<A>(s: Seq<A>, from: int, to: int) -> Seq<A> {
    move_seq(s, from, landing_index(from, to))
}

/// Where the element at `j` ends up when the one at `from` moves to `at`.
pub open spec fn moved_index(j: int, from: int, at: int) -> int {
    if j == from {
        at
    } else {
        let j1 = if j > from { j - 1 } else { j };
        if j1 >= at { j1 + 1 } else { j1 }
    }
}

/// Where the tab dragged from `from` to slot `to` lands.
pub open spec fn landing_index(from: int, to: int) -> int {
    if from < to { to - 1 } else { to }
}

/// The slot that moves a tab from `landed` back to index `from`.
pub open spec fn slot_back(from: int, landed: int) -> int {
    if from < landed { from } else { from + 1 }
}

/// The target slot for a reorder request: a keyboard step (`delta`) moves
/// one row up or down, otherwise the dropped slot is used.
pub open spec fn reorder_target(from: int, len: int, to: int, delta: Option<i64>) -> int {
    match delta {
        Some(d) => if d < 0 {
            if from >= 1 { from - 1 } else { 0 }
        } else if d > 0 {
            if from + 2 < len { from + 2 } else { len }
        } else {
            to
        },
        None => to,
    }
}

/// The index a tab at `idx` has after the tab at `closed` is removed (none
/// for the closed tab itself).
pub open spec fn index_after_close(idx: int, closed: int) -> Option<int> {
    if idx == closed {
        None
    } else if idx > closed {
        Some(idx - 1)
    } else {
        Some(idx)
    }
}

/// The active index after removing the tab at `closed` from `len` tabs.
pub open spec fn active_after_close(active: int, closed: int, len: int) -> int {
    if active >= len - 1 {
        len - 2
    } else if active > closed {
        active - 1
    } else {
        active
    }
}

/// What closing a tab did.
pub enum CloseOutcome<T> {
    /// No tab at that index; nothing changed.
    OutOfRange,
    /// It is the window's only tab; nothing changed (the window closes, or
    /// the quick terminal starts over).
    LastTab,
    /// The tab was removed.
    Closed { tab: Tab<T>, was_active: bool },
}

/// The list of tabs of a window.
pub struct TabList<T> {
    tabs: Vec<Tab<T>>,
    active: usize,
    next_id: u64,
}

impl<T> TabList<T> {
    /// The tabs, in display order.
    pub closed spec fn tabs(&self) -> Seq<Tab<T>> {
        self.tabs@
    }

    /// The tab ids, in display order.
    pub open spec fn ids(&self) -> Seq<u64> {
        ids_of(self.tabs())
    }

    /// Index of the active tab.
    pub closed spec fn active(&self) -> int {
        self.active as int
    }

    /// The id the next new tab gets.
    pub closed spec fn next_id(&self) -> u64 {
        self.next_id
    }

    /// At least one tab, a valid active index, distinct ids all below the next
    /// id to hand out.
    pub open spec fn wf(&self) -> bool {
        &&& self.tabs().len() > 0
        &&& 0 <= self.active() < self.tabs().len()
        &&& distinct_ids(self.ids())
        &&& forall|i: int| 0 <= i < self.ids().len() ==> #[trigger] self.ids()[i] < self.next_id()
    }

    /// The tabs restored from a session: tab `i` gets id `i`, and the saved
    /// active index is clamped to the last tab.
    pub fn from_restored(data: Vec<T>, saved_active: usize) -> (r: TabList<T>)
        requires
            data@.len() > 0,
        ensures
            r.wf(),
            r.tabs().len() == data@.len(),
            forall|i: int| 0 <= i < data@.len() ==> (#[trigger] r.tabs()[i]).data == data@[i]
                && r.tabs()[i].id == i && !r.tabs()[i].needs_attention,
            r.active() == if saved_active < data@.len() {
                saved_active as int
            } else {
                data@.len() - 1
            },
            r.next_id() == data@.len(),
    {
        let n = data.len();
        let mut tabs: Vec<Tab<T>> = Vec::new();
        let mut data = data;
        let ghost d0 = data@;
        // Move the payloads out back to front, then restore the order.
        let mut rev: Vec<T> = Vec::new();
        while data.len() > 0
            invariant
                data@.len() + rev@.len() == n,
                n == d0.len(),
                data@ == d0.subrange(0, data@.len() as int),
                forall|k: int| 0 <= k < rev@.len() ==> rev@[k] == d0[n - 1 - k],
            decreases data@.len(),
        {
            let x = data.pop().unwrap();
            rev.push(x);
        }
        let mut i: usize = 0;
        while rev.len() > 0
            invariant
                rev@.len() + i == n,
                n == d0.len(),
                n <= u64::MAX,
                forall|k: int| 0 <= k < rev@.len() ==> rev@[k] == d0[n - 1 - k],
                tabs@.len() == i,
                forall|k: int| 0 <= k < i ==> (#[trigger] tabs@[k]).data == d0[k] && tabs@[k].id == k
                    && !tabs@[k].needs_attention,
            decreases rev@.len(),
        {
            let x = rev.pop().unwrap();
            tabs.push(Tab { id: i as u64, needs_attention: false, data: x });
            i = i + 1;
        }
        let active = if saved_active < n {
            saved_active
        } else {
            n - 1
        };
        let r = TabList { tabs, active, next_id: n as u64 };
        assert(distinct_ids(r.ids()));
        r
    }

    /// A window with one tab, id 0.
    pub fn single(data: T) -> (r: TabList<T>)
        ensures
            r.wf(),
            r.ids() == seq![0u64],
            r.tabs()[0].data == data,
            !r.tabs()[0].needs_attention,
            r.active() == 0,
            r.next_id() == 1,
    {
        let mut tabs: Vec<Tab<T>> = Vec::new();
        tabs.push(Tab { id: 0, needs_attention: false, data });
        let r = TabList { tabs, active: 0, next_id: 1 };
        assert(r.ids() =~= seq![0u64]);
        r
    }

    /// Number of tabs.
    pub fn len(&self) -> (n: usize)
        ensures
            n == self.tabs().len(),
    {
        self.tabs.len()
    }

    /// Index of the active tab.
    pub fn active_index(&self) -> (i: usize)
        ensures
            i == self.active(),
    {
        self.active
    }

    /// The tab at `i`.
    pub fn get(&self, i: usize) -> (t: &Tab<T>)
        requires
            i < self.tabs().len(),
        ensures
            *t == self.tabs()[i as int],
    {
        &self.tabs[i]
    }

    /// The position of the tab with id `id`.
    pub fn index_of(&self, id: u64) -> (r: Option<usize>)
        requires
            self.wf(),
        ensures
            r matches Some(i) ==> i < self.ids().len() && self.ids()[i as int] == id,
            r is None ==> forall|i: int| 0 <= i < self.ids().len() ==> self.ids()[i] != id,
            match position_of(self.ids(), id) {
                Some(i) => r == Some(i as usize),
                None => r is None,
            },
    {
        let mut i: usize = 0;
        while i < self.tabs.len()
            invariant
                i <= self.ids().len(),
                self.ids().len() == self.tabs@.len(),
                forall|k: int| 0 <= k < i ==> self.ids()[k] != id,
            decreases self.ids().len() - i,
        {
            if self.tabs[i].id == id {
                proof {
                    lemma_position_found(self.ids(), id, i as int);
                }
                return Some(i);
            }
            i = i + 1;
        }
        proof {
            lemma_position_absent(self.ids(), id);
        }
        None
    }

    /// The data of the tab at `i`, to change in place; the tab keeps its id,
    /// its place and its attention flag.
    pub fn data_mut(&mut self, i: usize) -> (d: &mut T)
        requires
            i < old(self).tabs().len(),
        ensures
            *d == old(self).tabs()[i as int].data,
            final(self).tabs() == old(self).tabs().update(
                i as int,
                Tab {
                    id: old(self).tabs()[i as int].id,
                    needs_attention: old(self).tabs()[i as int].needs_attention,
                    data: *final(d),
                },
            ),
            final(self).active() == old(self).active(),
            final(self).next_id() == old(self).next_id(),
    {
        &mut self.tabs[i].data
    }

    /// Marks the tab at `i` as asking for attention (an agent event arrived
    /// while it was in the background).
    pub fn mark_needs_attention(&mut self, i: usize)
        requires
            old(self).wf(),
            i < old(self).tabs().len(),
        ensures
            final(self).wf(),
            final(self).ids() == old(self).ids(),
            final(self).active() == old(self).active(),
            final(self).next_id() == old(self).next_id(),
            forall|k: int| 0 <= k < final(self).tabs().len() ==> (#[trigger] final(self).tabs()[k]).data
                == old(self).tabs()[k].data,
            forall|k: int| 0 <= k < final(self).tabs().len() ==> (#[trigger] final(self).tabs()[k]).needs_attention
                == (k == i || old(self).tabs()[k].needs_attention),
    {
        let t = self.tabs.remove(i);
        self.tabs.insert(i, Tab { id: t.id, needs_attention: true, data: t.data });
        assert(self.ids() =~= old(self).ids());
    }

    /// Appends a tab with a fresh id; returns its index.
    pub fn push(&mut self, data: T) -> (i: usize)
        requires
            old(self).wf(),
            old(self).next_id() < u64::MAX,
        ensures
            final(self).wf(),
            i == old(self).tabs().len(),
            final(self).ids() == old(self).ids().push(old(self).next_id()),
            final(self).tabs() == old(self).tabs().push(
                Tab { id: old(self).next_id(), needs_attention: false, data },
            ),
            final(self).active() == old(self).active(),
            final(self).next_id() == old(self).next_id() + 1,
    {
        let id = self.next_id;
        self.tabs.push(Tab { id, needs_attention: false, data });
        self.next_id = id + 1;
        assert(self.ids() =~= old(self).ids().push(id));
        self.tabs.len() - 1
    }

    /// Makes the tab at `index` active and clears its attention mark; an
    /// index past the end, or the active tab, changes nothing.
    pub fn activate(&mut self, index: usize) -> (changed: bool)
        requires
            old(self).wf(),
        ensures
            final(self).wf(),
            changed == (index < old(self).tabs().len() && index != old(self).active()),
            final(self).ids() == old(self).ids(),
            final(self).next_id() == old(self).next_id(),
            !changed ==> final(self).tabs() == old(self).tabs() && final(self).active() == old(self).active(),
            changed ==> final(self).active() == index,
            changed ==> !final(self).tabs()[index as int].needs_attention,
            forall|k: int| 0 <= k < final(self).tabs().len() ==> (#[trigger] final(self).tabs()[k]).data
                == old(self).tabs()[k].data,
            forall|k: int| 0 <= k < final(self).tabs().len() && k != index ==> (#[trigger] final(self).tabs()[k]).needs_attention
                == old(self).tabs()[k].needs_attention,
    {
        if index >= self.tabs.len() || index == self.active {
            return false;
        }
        let t = self.tabs.remove(index);
        self.tabs.insert(index, Tab { id: t.id, needs_attention: false, data: t.data });
        self.active = index;
        assert(self.ids() =~= old(self).ids());
        true
    }

    /// Activates the next tab, wrapping around.
    pub fn next_tab(&mut self) -> (changed: bool)
        requires
            old(self).wf(),
        ensures
            final(self).wf(),
            final(self).ids() == old(self).ids(),
            changed == (old(self).tabs().len() > 1),
            final(self).active() == if old(self).tabs().len() <= 1 {
                old(self).active()
            } else if old(self).active() + 1 < old(self).tabs().len() {
                old(self).active() + 1
            } else {
                0
            },
            forall|k: int| 0 <= k < final(self).tabs().len() ==> (#[trigger] final(self).tabs()[k]).data
                == old(self).tabs()[k].data,
            forall|k: int| 0 <= k < final(self).tabs().len() && k != final(self).active() ==> (#[trigger] final(self).tabs()[k]).needs_attention
                == old(self).tabs()[k].needs_attention,
            changed ==> !final(self).tabs()[final(self).active()].needs_attention,
            !changed ==> final(self).tabs() == old(self).tabs(),
    {
        if self.tabs.len() <= 1 {
            return false;
        }
        let next = if self.active + 1 < self.tabs.len() {
            self.active + 1
        } else {
            0
        };
        self.activate(next)
    }

    /// Activates the previous tab, wrapping around.
    pub fn previous_tab(&mut self) -> (changed: bool)
        requires
            old(self).wf(),
        ensures
            final(self).wf(),
            final(self).ids() == old(self).ids(),
            changed == (old(self).tabs().len() > 1),
            final(self).active() == if old(self).tabs().len() <= 1 {
                old(self).active()
            } else if old(self).active() == 0 {
                old(self).tabs().len() - 1
            } else {
                old(self).active() - 1
            },
            forall|k: int| 0 <= k < final(self).tabs().len() ==> (#[trigger] final(self).tabs()[k]).data
                == old(self).tabs()[k].data,
            forall|k: int| 0 <= k < final(self).tabs().len() && k != final(self).active() ==> (#[trigger] final(self).tabs()[k]).needs_attention
                == old(self).tabs()[k].needs_attention,
            changed ==> !final(self).tabs()[final(self).active()].needs_attention,
            !changed ==> final(self).tabs() == old(self).tabs(),
    {
        if self.tabs.len() <= 1 {
            return false;
        }
        let prev = if self.active == 0 {
            self.tabs.len() - 1
        } else {
            self.active - 1
        };
        self.activate(prev)
    }

    /// Opens a tab after the others and activates it; returns its
    /// index.
    pub fn open_tab(&mut self, data: T) -> (i: usize)
        requires
            old(self).wf(),
            old(self).next_id() < u64::MAX,
        ensures
            final(self).wf(),
            i == old(self).tabs().len(),
            final(self).ids() == old(self).ids().push(old(self).next_id()),
            final(self).active() == i,
            final(self).tabs()[i as int].data == data,
            !final(self).tabs()[i as int].needs_attention,
            final(self).next_id() == old(self).next_id() + 1,
            final(self).tabs().len() == old(self).tabs().len() + 1,
            forall|k: int| 0 <= k < old(self).tabs().len() ==> (#[trigger] final(self).tabs()[k]) == old(self).tabs()[k],
    {
        let ghost before = self.tabs();
        let i = self.push(data);
        let ghost mid = self.tabs();
        let ghost mid_ids = self.ids();
        self.activate(i);
        proof {
            assert forall|k: int| 0 <= k < before.len() implies (#[trigger] self.tabs()[k]) == before[k] by {
                assert(mid[k] == before[k]);
                assert(self.ids()[k] == mid_ids[k]);
                assert(self.ids()[k] == self.tabs()[k].id);
                assert(mid_ids[k] == mid[k].id);
            }
        }
        i
    }

    /// Appends the tabs of an imported layout and activates the one it had
    /// active (clamped to its last tab); an empty import changes nothing.
    pub fn append_imported(&mut self, data: Vec<T>, imported_active: usize)
        requires
            old(self).wf(),
            old(self).next_id() + data@.len() < u64::MAX,
        ensures
            final(self).wf(),
            data@.len() == 0 ==> final(self).tabs() == old(self).tabs() && final(self).active()
                == old(self).active(),
            final(self).ids() == old(self).ids() + Seq::new(
                data@.len(),
                |k: int| (old(self).next_id() + k) as u64,
            ),
            data@.len() > 0 ==> final(self).active() == old(self).tabs().len() + if imported_active
                < data@.len() {
                imported_active as int
            } else {
                data@.len() - 1
            },
            final(self).next_id() == old(self).next_id() + data@.len(),
    {
        let n = data.len();
        if n == 0 {
            assert(self.ids() =~= old(self).ids() + Seq::new(0, |k: int| (old(self).next_id() + k) as u64));
            return;
        }
        let first_new = self.tabs.len();
        let mut data = data;
        let ghost d0 = data@;
        let mut rev: Vec<T> = Vec::new();
        while data.len() > 0
            invariant
                data@.len() + rev@.len() == n,
                n == d0.len(),
                data@ == d0.subrange(0, data@.len() as int),
                forall|k: int| 0 <= k < rev@.len() ==> rev@[k] == d0[n - 1 - k],
            decreases data@.len(),
        {
            let x = data.pop().unwrap();
            rev.push(x);
        }
        let mut added: usize = 0;
        while rev.len() > 0
            invariant
                self.wf(),
                rev@.len() + added == n,
                n == d0.len(),
                old(self).next_id() + n < u64::MAX,
                self.tabs().len() == first_new + added,
                first_new == old(self).tabs().len(),
                self.active() == old(self).active(),
                self.next_id() == old(self).next_id() + added,
                self.ids() == old(self).ids() + Seq::new(
                    added as nat,
                    |k: int| (old(self).next_id() + k) as u64,
                ),
            decreases rev@.len(),
        {
            let x = rev.pop().unwrap();
            self.push(x);
            added = added + 1;
            assert(self.ids() =~= old(self).ids() + Seq::new(
                added as nat,
                |k: int| (old(self).next_id() + k) as u64,
            ));
        }
        let pick = if imported_active < n {
            imported_active
        } else {
            n - 1
        };
        let total = self.tabs.len();
        assert(total == first_new + n);
        self.active = first_new + pick;
    }

    /// Closes the tab at `index`. The window's only tab
    /// is never removed. After a removal the active tab stays the same tab when
    /// it was another one; when it was the closed one, the tab that took its
    /// place (or the new last tab) becomes active.
    pub fn close(&mut self, index: usize) -> (r: CloseOutcome<T>)
        requires
            old(self).wf(),
        ensures
            final(self).wf(),
            final(self).next_id() == old(self).next_id(),
            index >= old(self).tabs().len() ==> r is OutOfRange && final(self).tabs() == old(self).tabs()
                && final(self).active() == old(self).active(),
            index < old(self).tabs().len() && old(self).tabs().len() <= 1 ==> r is LastTab
                && final(self).tabs() == old(self).tabs() && final(self).active() == old(self).active(),
            index < old(self).tabs().len() && old(self).tabs().len() > 1 ==> {
                &&& r matches CloseOutcome::Closed { tab, was_active } && tab == old(self).tabs()[index as int]
                    && was_active == (index == old(self).active())
                &&& final(self).tabs() == old(self).tabs().remove(index as int)
                &&& final(self).active() == active_after_close(
                    old(self).active(),
                    index as int,
                    old(self).tabs().len() as int,
                )
            },
    {
        if index >= self.tabs.len() {
            return CloseOutcome::OutOfRange;
        }
        if self.tabs.len() <= 1 {
            return CloseOutcome::LastTab;
        }
        let was_active = index == self.active;
        let ghost before = self.tabs@;
        let tab = self.tabs.remove(index);
        if self.active >= self.tabs.len() {
            self.active = self.tabs.len() - 1;
        } else if self.active > index {
            self.active = self.active - 1;
        }
        proof {
            assert(self.ids() =~= ids_of(before).remove(index as int));
            assert forall|a: int, b: int| 0 <= a < b < self.ids().len() implies self.ids()[a] != self.ids()[b] by {
                let a2 = if a < index { a } else { a + 1 };
                let b2 = if b < index { b } else { b + 1 };
                assert(self.ids()[a] == ids_of(before)[a2]);
                assert(self.ids()[b] == ids_of(before)[b2]);
            }
            assert forall|i: int| 0 <= i < self.ids().len() implies #[trigger] self.ids()[i] < self.next_id() by {
                let i2 = if i < index { i } else { i + 1 };
                assert(self.ids()[i] == ids_of(before)[i2]);
            }
        }
        CloseOutcome::Closed { tab, was_active }
    }
}


proof fn lemma_move_seq_index<A>(s: Seq<A>, from: int, at: int, j: int)
    requires
        0 <= from < s.len(),
        0 <= at < s.len(),
        0 <= j < s.len(),
    ensures
        0 <= moved_index(j, from, at) < s.len(),
        move_seq(s, from, at).len() == s.len(),
        move_seq(s, from, at)[moved_index(j, from, at)] == s[j],
{
    let r = s.remove(from);
    if j != from {
        let j1 = if j > from { j - 1 } else { j };
        assert(r[j1] == s[j]);
    }
}

proof fn lemma_moved_index_injective(from: int, at: int, a: int, b: int)
    requires
        a != b,
    ensures
        moved_index(a, from, at) != moved_index(b, from, at),
{
}

/// Law: dragging a tab only reorders the tabs: the result holds the same
/// elements the same number of times, and each one can be found at its moved
/// index.
pub proof fn law_move_is_permutation<A>(s: Seq<A>, from: int, at: int)
    requires
        0 <= from < s.len(),
        0 <= at < s.len(),
    ensures
        move_seq(s, from, at).len() == s.len(),
        move_seq(s, from, at).to_multiset() == s.to_multiset(),
        forall|j: int| 0 <= j < s.len() ==> 0 <= #[trigger] moved_index(j, from, at) < s.len()
            && move_seq(s, from, at)[moved_index(j, from, at)] == s[j],
        forall|a: int, b: int| 0 <= a < b < s.len() ==> #[trigger] moved_index(a, from, at)
            != #[trigger] moved_index(b, from, at),
{
    broadcast use vstd::multiset::group_multiset_axioms;

    vstd::seq_lib::to_multiset_remove(s, from);
    vstd::seq_lib::to_multiset_insert(s.remove(from), at, s[from]);
    assert(s.to_multiset().count(s[from]) > 0) by {
        vstd::seq_lib::to_multiset_contains(s, s[from]);
    }
    assert(s.to_multiset().remove(s[from]).insert(s[from]) =~= s.to_multiset());
    assert forall|j: int| 0 <= j < s.len() implies 0 <= #[trigger] moved_index(j, from, at) < s.len()
        && move_seq(s, from, at)[moved_index(j, from, at)] == s[j] by {
        lemma_move_seq_index(s, from, at, j);
    }
}

/// Law: dragging a tab back to the slot it came from restores the order.
#[verifier::spinoff_prover]
pub proof fn law_reorder_undo<A>(s: Seq<A>, from: int, to: int)
    requires
        0 <= from < s.len(),
        0 <= to <= s.len(),
        to != from,
        to != from + 1,
    ensures
        reorder_seq(
            reorder_seq(s, from, to),
            landing_index(from, to),
            slot_back(from, landing_index(from, to)),
        ) == s,
{
    let at = landing_index(from, to);
    let r = reorder_seq(s, from, to);
    assert(landing_index(at, slot_back(from, at)) == from);
    assert(r[at] == s[from]);
    assert(r.remove(at) =~= s.remove(from));
    assert(s.remove(from).insert(from, s[from]) =~= s);
}

/// Law: after a tab is closed, every other tab is found at its shifted index.
pub proof fn law_close_reindex<A>(s: Seq<A>, closed: int, j: int)
    requires
        0 <= closed < s.len(),
        0 <= j < s.len(),
        j != closed,
    ensures
        index_after_close(j, closed) matches Some(k) && 0 <= k < s.len() - 1 && s.remove(closed)[k]
            == s[j],
{
}

/// Law: closing a tab other than the active one keeps the same tab active.
pub proof fn law_close_keeps_active<A>(s: Seq<A>, active: int, closed: int)
    requires
        s.len() > 1,
        0 <= active < s.len(),
        0 <= closed < s.len(),
        active != closed,
    ensures
        s.remove(closed)[active_after_close(active, closed, s.len() as int)] == s[active],
{
}

/// The active index after `next_tab` on `len > 1` tabs.
pub open spec fn next_index(a: int, len: int) -> int {
    if a + 1 < len { a + 1 } else { 0 }
}

/// The active index after `previous_tab` on `len > 1` tabs.
pub open spec fn prev_index(a: int, len: int) -> int {
    if a == 0 { len - 1 } else { a - 1 }
}

/// Law: `next_tab` and `previous_tab` undo each other.
pub proof fn law_next_prev_inverse(a: int, len: int)
    requires
        len > 1,
        0 <= a < len,
    ensures
        prev_index(next_index(a, len), len) == a,
        next_index(prev_index(a, len), len) == a,
        0 <= next_index(a, len) < len,
        0 <= prev_index(a, len) < len,
{
}

/// The new index of a deferred request's tab after the tab at `closed` is
/// removed; `None` when the request's own tab was closed.
pub fn index_after_tab_close(idx: usize, closed: usize) -> (r: Option<usize>)
    ensures
        match index_after_close(idx as int, closed as int) {
            Some(k) => r == Some(k as usize),
            None => r is None,
        },
{
    if idx == closed {
        None
    } else if idx > closed {
        Some(idx - 1)
    } else {
        Some(idx)
    }
}

/// The order tabs are drawn in while the tab at `source` is dragged over
/// `slot`: indices `0..len` with `source` moved into the slot (clamped to the
/// last position).
pub fn drag_preview_order(len: usize, source: usize, slot: usize) -> (r: Vec<usize>)
    requires
        source < len,
    ensures
        r@ == move_seq(
            Seq::new(len as nat, |k: int| k as usize),
            source as int,
            if source < slot {
                if slot - 1 < len - 1 { slot - 1 } else { len - 1 }
            } else {
                if slot < len - 1 { slot as int } else { len - 1 }
            },
        ),
{
    let at = if source < slot {
        if slot - 1 < len - 1 { slot - 1 } else { len - 1 }
    } else {
        if slot < len - 1 { slot } else { len - 1 }
    };
    let mut r: Vec<usize> = Vec::new();
    let mut k: usize = 0;
    while k < len
        invariant
            k <= len,
            r@ == Seq::new(k as nat, |i: int| i as usize),
        decreases len - k,
    {
        r.push(k);
        k = k + 1;
        assert(r@ =~= Seq::new(k as nat, |i: int| i as usize));
    }
    let ghost base = r@;
    let x = r.remove(source);
    r.insert(at, x);
    assert(r@ =~= move_seq(base, source as int, at as int));
    r
}

impl<T> TabList<T> {
    /// Drags the tab with id `id` to slot `to` (`0..=len`), or one row up or
    /// down for a keyboard step (`delta`). Dropping a tab onto its own slot,
    /// an unknown id, or a slot past the end changes nothing. Otherwise the
    /// tabs are reordered (see [`reorder_seq`]), the same tab stays active, and
    /// the result maps each old index to the tab's new index.
    #[verifier::rlimit(40)]
    #[verifier::spinoff_prover]
    pub fn reorder(&mut self, id: u64, to: usize, delta: Option<i64>) -> (moved: Option<Vec<usize>>)
        requires
            old(self).wf(),
        ensures
            final(self).wf(),
            final(self).next_id() == old(self).next_id(),
            match position_of(old(self).ids(), id) {
                None => moved is None,
                Some(from) => {
                    let len = old(self).ids().len() as int;
                    let t = reorder_target(from, len, to as int, delta);
                    if t > len || t == from || t == from + 1 {
                        moved is None
                    } else {
                        let at = landing_index(from, t);
                        &&& moved matches Some(m) && m@.len() == len && forall|j: int|
                            0 <= j < len ==> m@[j] == moved_index(j, from, at)
                        &&& final(self).tabs() == reorder_seq(old(self).tabs(), from, t)
                        &&& final(self).active() == moved_index(old(self).active(), from, at)
                    }
                },
            },
            moved is None ==> final(self).tabs() == old(self).tabs() && final(self).active() == old(self).active(),
            moved matches Some(m) ==> forall|i: int, j: int| 0 <= i < j < m@.len() ==> m@[i] != m@[j],
            moved matches Some(m) ==> m@.len() == old(self).tabs().len() && forall|j: int|
                0 <= j < m@.len() ==> m@[j] < m@.len(),
            final(self).tabs().len() == old(self).tabs().len(),
            moved is Some ==> final(self).ids()[final(self).active()] == old(self).ids()[old(self).active()],
    {
        proof {
            lemma_position_of(self.ids(), id);
        }
        let from = match self.index_of(id) {
            Some(i) => i,
            None => return None,
        };
        let len = self.tabs.len();
        let t: usize = match delta {
            Some(d) => if d < 0 {
                if from >= 1 { from - 1 } else { 0 }
            } else if d > 0 {
                if len >= 2 && from < len - 2 { from + 2 } else { len }
            } else {
                to
            },
            None => to,
        };
        assert(t == reorder_target(from as int, len as int, to as int, delta));
        if from >= len || t > len {
            return None;
        }
        if from == t || from + 1 == t {
            return None;
        }
        let at = if from < t { t - 1 } else { t };
        let ghost before = self.tabs@;
        let ghost old_active = self.active as int;
        let tab = self.tabs.remove(from);
        self.tabs.insert(at, tab);
        let old_a = self.active;
        self.active = moved_to(old_a, from, at);
        let m = moved_indices(len, from, at);
        proof {
            assert(self.tabs@ =~= move_seq(before, from as int, at as int));
            assert(self.ids() =~= move_seq(ids_of(before), from as int, at as int));
            lemma_move_keeps_ids(ids_of(before), from as int, at as int, self.next_id(), old_active);
            assert(landing_index(from as int, t as int) == at);
            assert(self.tabs() == reorder_seq(before, from as int, t as int));
            assert(self.active() == moved_index(old_active, from as int, at as int));
            assert(position_of(ids_of(before), id) == Some(from as int));
            assert forall|i: int, j: int| 0 <= i < j < m@.len() implies m@[i] != m@[j] by {
                lemma_moved_index_injective(from as int, at as int, i, j);
            }
            assert forall|j: int| 0 <= j < m@.len() implies m@[j] < m@.len() by {
                assert(m@[j] == moved_index(j, from as int, at as int));
            }
        }
        Some(m)
    }
}


proof fn lemma_move_keeps_ids(s: Seq<u64>, from: int, at: int, bound: u64, a: int)
    requires
        0 <= from < s.len(),
        0 <= at < s.len(),
        0 <= a < s.len(),
        distinct_ids(s),
        forall|i: int| 0 <= i < s.len() ==> #[trigger] s[i] < bound,
    ensures
        distinct_ids(move_seq(s, from, at)),
        forall|i: int| 0 <= i < s.len() ==> #[trigger] move_seq(s, from, at)[i] < bound,
        0 <= moved_index(a, from, at) < s.len(),
        move_seq(s, from, at)[moved_index(a, from, at)] == s[a],
{
    let r = move_seq(s, from, at);
    lemma_move_seq_index(s, from, at, a);
    assert forall|x: int, y: int| 0 <= x < y < r.len() implies r[x] != r[y] by {
        let x0 = choose_preimage(s, from, at, x);
        let y0 = choose_preimage(s, from, at, y);
        assert(x0 != y0);
    }
    assert forall|x: int| 0 <= x < r.len() implies #[trigger] r[x] < bound by {
        let x0 = choose_preimage(s, from, at, x);
    }
}


/// Where index `j` goes when the element at `from` moves to `at`.
fn moved_to(j: usize, from: usize, at: usize) -> (r: usize)
    requires
        j < usize::MAX,
    ensures
        r == moved_index(j as int, from as int, at as int),
{
    if j == from {
        at
    } else {
        let j1 = if j > from { j - 1 } else { j };
        if j1 >= at { j1 + 1 } else { j1 }
    }
}

/// `moved_index` for every index below `len`.
fn moved_indices(len: usize, from: usize, at: usize) -> (m: Vec<usize>)
    ensures
        m@.len() == len,
        forall|k: int| 0 <= k < len ==> m@[k] == moved_index(k, from as int, at as int),
{
    let mut m: Vec<usize> = Vec::new();
    let mut j: usize = 0;
    while j < len
        invariant
            j <= len,
            m@.len() == j,
            forall|k: int| 0 <= k < j ==> m@[k] == moved_index(k, from as int, at as int),
        decreases len - j,
    {
        m.push(moved_to(j, from, at));
        j = j + 1;
    }
    m
}

/// The old index whose element moved to `x`.
proof fn choose_preimage<A>(s: Seq<A>, from: int, at: int, x: int) -> (j: int)
    requires
        0 <= from < s.len(),
        0 <= at < s.len(),
        0 <= x < s.len(),
    ensures
        0 <= j < s.len(),
        moved_index(j, from, at) == x,
        move_seq(s, from, at)[x] == s[j],
{
    let j = if x == at {
        from
    } else {
        let x1 = if x > at { x - 1 } else { x };
        if x1 >= from { x1 + 1 } else { x1 }
    };
    lemma_move_seq_index(s, from, at, j);
    j
}


impl<T> TabList<T> {
    /// Closes every tab but the one with id `keep_id`:
    /// first the tabs after it from the last one down, then the tabs before it
    /// from the nearest one down. Returns the closed tabs in that order; an
    /// unknown id closes nothing.
    pub fn close_others(&mut self, keep_id: u64) -> (closed: Option<Vec<Tab<T>>>)
        requires
            old(self).wf(),
        ensures
            final(self).wf(),
            final(self).next_id() == old(self).next_id(),
            position_of(old(self).ids(), keep_id) is None ==> closed is None && final(self).tabs()
                == old(self).tabs() && final(self).active() == old(self).active(),
            position_of(old(self).ids(), keep_id) matches Some(k) ==> {
                &&& closed matches Some(c) && c@ == old(self).tabs().subrange(
                    k + 1,
                    old(self).tabs().len() as int,
                ).reverse() + old(self).tabs().subrange(0, k).reverse()
                &&& final(self).tabs() == seq![old(self).tabs()[k]]
                &&& final(self).active() == 0
            },
    {
        proof {
            lemma_position_of(self.ids(), keep_id);
        }
        let keep = match self.index_of(keep_id) {
            Some(k) => k,
            None => return None,
        };
        let ghost orig = self.tabs@;
        let n = self.tabs.len();
        let mut closed: Vec<Tab<T>> = Vec::new();
        let mut i: usize = n;
        assert(orig.subrange(n as int, n as int).reverse() =~= Seq::<Tab<T>>::empty());
        assert(orig.subrange(0, n as int) =~= orig);
        while i > keep + 1
            invariant
                self.wf(),
                self.next_id() == old(self).next_id(),
                keep < i <= n,
                n == orig.len(),
                self.tabs() == orig.subrange(0, i as int),
                closed@ == orig.subrange(i as int, n as int).reverse(),
            decreases i,
        {
            i = i - 1;
            let out = self.close(i);
            match out {
                CloseOutcome::Closed { tab, was_active } => {
                    let ghost before = closed@;
                    closed.push(tab);
                    assert(orig.subrange(i as int, n as int).reverse() =~= before.push(orig[i as int]));
                },
                _ => {},
            }
            assert(self.tabs() =~= orig.subrange(0, i as int));
        }
        let ghost right = closed@;
        let mut j: usize = keep;
        assert(orig.subrange(keep as int, keep as int).reverse() =~= Seq::<Tab<T>>::empty());
        assert(orig.subrange(0, keep + 1) =~= orig.subrange(0, keep as int) + seq![orig[keep as int]]);
        while j > 0
            invariant
                self.wf(),
                self.next_id() == old(self).next_id(),
                j <= keep < n,
                n == orig.len(),
                self.tabs() == orig.subrange(0, j as int) + seq![orig[keep as int]],
                closed@ == right + orig.subrange(j as int, keep as int).reverse(),
            decreases j,
        {
            j = j - 1;
            let ghost cur = self.tabs();
            let out = self.close(j);
            match out {
                CloseOutcome::Closed { tab, was_active } => {
                    let ghost before = closed@;
                    closed.push(tab);
                    assert(orig.subrange(j as int, keep as int).reverse() =~= orig.subrange(
                        (j + 1) as int,
                        keep as int,
                    ).reverse().push(orig[j as int]));
                    assert(closed@ =~= right + orig.subrange(j as int, keep as int).reverse());
                },
                _ => {},
            }
            assert(cur.remove(j as int) =~= orig.subrange(0, j as int) + seq![orig[keep as int]]);
        }
        assert(self.tabs() =~= seq![orig[keep as int]]);
        assert(orig.subrange(0, keep as int) =~= orig.subrange(0 as int, keep as int));
        Some(closed)
    }

    /// Starts the quick terminal over:
    /// the active tab is replaced by a fresh tab at the end, which becomes the
    /// active tab at index 0 of what remains. Returns the removed tab.
    pub fn restart_with(&mut self, fresh: T) -> (removed: Tab<T>)
        requires
            old(self).wf(),
            old(self).tabs().len() == 1,
            old(self).next_id() < u64::MAX,
        ensures
            final(self).wf(),
            removed == old(self).tabs()[old(self).active()],
            final(self).tabs() == seq![Tab { id: old(self).next_id(), needs_attention: false, data: fresh }],
            final(self).active() == 0,
            final(self).next_id() == old(self).next_id() + 1,
    {
        let removed = self.tabs.remove(self.active);
        let id = self.next_id;
        self.tabs.push(Tab { id, needs_attention: false, data: fresh });
        self.next_id = id + 1;
        self.active = 0;
        assert(self.tabs@ =~= seq![Tab { id, needs_attention: false, data: fresh }]);
        assert(self.ids() =~= seq![id]);
        removed
    }
}

/// What a window does when one of its shells exits, or a pane or tab is to
/// be closed.
#[derive(Debug, Clone, Copy, PartialEq, Eq)]
pub enum CloseAction {
    /// Close just the surface; its pane keeps its other surfaces.
    CloseSurface,
    /// Close the pane; the tab keeps its other panes.
    ClosePane,
    /// Close the tab; the window keeps its other tabs.
    CloseTab,
    /// The quick terminal never closes: start it over with a fresh tab.
    RestartQuickTerminal,
    /// Close the window.
    CloseWindow,
}

/// When the shell of a surface exits: close the surface if its pane has
/// others, else the pane if its tab has others, else the tab if the window has
/// others, else restart the quick terminal or close the window.
pub fn process_exit_action(surfaces_in_pane: usize, panes_in_tab: usize, tab_count: usize, is_quick_terminal: bool) -> (a: CloseAction)
    ensures
        a == if surfaces_in_pane > 1 {
            CloseAction::CloseSurface
        } else if panes_in_tab > 1 {
            CloseAction::ClosePane
        } else if tab_count > 1 {
            CloseAction::CloseTab
        } else if is_quick_terminal {
            CloseAction::RestartQuickTerminal
        } else {
            CloseAction::CloseWindow
        },
{
    if surfaces_in_pane > 1 {
        CloseAction::CloseSurface
    } else if panes_in_tab > 1 {
        CloseAction::ClosePane
    } else if tab_count > 1 {
        CloseAction::CloseTab
    } else if is_quick_terminal {
        CloseAction::RestartQuickTerminal
    } else {
        CloseAction::CloseWindow
    }
}

/// The close-pane command: the focused pane if the tab has others, else the
/// tab if the window has others, else the window.
pub fn close_pane_action(panes_in_tab: usize, tab_count: usize) -> (a: CloseAction)
    ensures
        a == if panes_in_tab > 1 {
            CloseAction::ClosePane
        } else if tab_count > 1 {
            CloseAction::CloseTab
        } else {
            CloseAction::CloseWindow
        },
{
    if panes_in_tab > 1 {
        CloseAction::ClosePane
    } else if tab_count > 1 {
        CloseAction::CloseTab
    } else {
        CloseAction::CloseWindow
    }
}

/// The close-tab command: a tab with several panes loses its focused pane
/// first; a single-pane tab closes, and closing the window's last tab
/// restarts the quick terminal or closes the window.
pub fn close_tab_action(panes_in_active_tab: usize, tab_count: usize, is_quick_terminal: bool) -> (a: CloseAction)
    ensures
        a == if panes_in_active_tab > 1 {
            CloseAction::ClosePane
        } else if tab_count > 1 {
            CloseAction::CloseTab
        } else if is_quick_terminal {
            CloseAction::RestartQuickTerminal
        } else {
            CloseAction::CloseWindow
        },
{
    if panes_in_active_tab > 1 {
        CloseAction::ClosePane
    } else if tab_count > 1 {
        CloseAction::CloseTab
    } else if is_quick_terminal {
        CloseAction::RestartQuickTerminal
    } else {
        CloseAction::CloseWindow
    }
}

} // verus!
