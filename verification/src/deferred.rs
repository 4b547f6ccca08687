//! Requests that wait for a later frame, keyed by the tab they address.
//!
//! When a tab closes, the requests for it are handed back (to be answered
//! with an error) and those for later tabs move down one place, so every
//! request keeps addressing the tab it was made for. Session saves are
//! coalesced: a batch of save requests writes only the newest state and
//! answers every flush waiter.
use vstd::prelude::*;
use crate::tabs::{index_after_close, index_after_tab_close, move_seq, moved_index};

verus! {

/// The requests kept after the tab at `closed` is removed, re-indexed.
pub open spec fn shifted<T>(s: Seq<(usize, T)>, closed: usize) -> Seq<(usize, T)>
    decreases s.len(),
{
    if s.len() == 0 {
        s
    } else {
        let rest = shifted(s.drop_last(), closed);
        match index_after_close(s.last().0 as int, closed as int) {
            Some(k) => rest.push((k as usize, s.last().1)),
            None => rest,
        }
    }
}

/// The requests for the tab at `closed`, in order.
pub open spec fn dropped<T>(s: Seq<(usize, T)>, closed: usize) -> Seq<T>
    decreases s.len(),
{
    if s.len() == 0 {
        Seq::empty()
    } else {
        let rest = dropped(s.drop_last(), closed);
        if s.last().0 == closed {
            rest.push(s.last().1)
        } else {
            rest
        }
    }
}

/// The requests after the tabs moved: a request for old index `i` now
/// addresses `map[i]`; one whose index the map does not cover keeps it.
pub open spec fn remapped<T>(s: Seq<(usize, T)>, map: Seq<usize>) -> Seq<(usize, T)> {
    s.map_values(|e: (usize, T)| (if e.0 < map.len() { map[e.0 as int] } else { e.0 }, e.1))
}

/// The requests after the tabs moved, dropping any whose index the map
/// does not cover.
pub open spec fn remapped_covered<T>(s: Seq<(usize, T)>, map: Seq<usize>) -> Seq<(usize, T)>
    decreases s.len(),
{
    if s.len() == 0 {
        s
    } else {
        let rest = remapped_covered(s.drop_last(), map);
        if s.last().0 < map.len() {
            rest.push((map[s.last().0 as int], s.last().1))
        } else {
            rest
        }
    }
}

/// The requests whose index the map does not cover.
pub open spec fn uncovered<T>(s: Seq<(usize, T)>, map: Seq<usize>) -> Seq<T>
    decreases s.len(),
{
    if s.len() == 0 {
        Seq::empty()
    } else {
        let rest = uncovered(s.drop_last(), map);
        if s.last().0 < map.len() {
            rest
        } else {
            rest.push(s.last().1)
        }
    }
}

/// No two old indices move to the same new one.
pub open spec fn injective(map: Seq<usize>) -> bool {
    forall|i: int, j: int| 0 <= i < j < map.len() ==> map[i] != map[j]
}

fn remap_items<T>(items: Vec<(usize, T)>, map: &Vec<usize>) -> (r: (Vec<(usize, T)>, Vec<T>))
    ensures
        r.0@ == remapped_covered(items@, map@),
        r.1@ == uncovered(items@, map@),
{
    let ghost all = items@;
    let mut rest = items;
    let mut kept_rev: Vec<(usize, T)> = Vec::new();
    let mut dropped_rev: Vec<T> = Vec::new();
    while rest.len() > 0
        invariant
            remapped_covered(all, map@) == remapped_covered(rest@, map@) + kept_rev@.reverse(),
            uncovered(all, map@) == uncovered(rest@, map@) + dropped_rev@.reverse(),
        decreases rest@.len(),
    {
        let ghost before = rest@;
        let (tab, req) = rest.pop().unwrap();
        proof {
            assert(before.drop_last() == rest@);
            assert(before.last() == (tab, req));
        }
        if tab < map.len() {
            let k = map[tab];
            let ghost kr = kept_rev@;
            kept_rev.push((k, req));
            proof {
                assert(kept_rev@.reverse() =~= seq![(k, req)] + kr.reverse());
                assert(remapped_covered(rest@, map@).push((k, req)) + kr.reverse()
                    =~= remapped_covered(rest@, map@) + kept_rev@.reverse());
            }
        } else {
            let ghost dr = dropped_rev@;
            dropped_rev.push(req);
            proof {
                assert(dropped_rev@.reverse() =~= seq![req] + dr.reverse());
                assert(uncovered(rest@, map@).push(req) + dr.reverse() =~= uncovered(rest@, map@)
                    + dropped_rev@.reverse());
            }
        }
    }
    proof {
        assert(remapped_covered(all, map@) =~= kept_rev@.reverse());
        assert(uncovered(all, map@) =~= dropped_rev@.reverse());
    }
    (reverse_vec(kept_rev), reverse_vec(dropped_rev))
}

proof fn lemma_remapped_from<T>(s: Seq<(usize, T)>, map: Seq<usize>)
    ensures
        forall|i: int|
            0 <= i < remapped_covered(s, map).len() ==> exists|j: int|
                0 <= j < s.len() && #[trigger] s[j].0 < map.len() && map[s[j].0 as int] == (
                #[trigger] remapped_covered(s, map)[i]).0,
    decreases s.len(),
{
    if s.len() > 0 {
        let t = s.drop_last();
        lemma_remapped_from(t, map);
        let r = remapped_covered(t, map);
        assert forall|i: int| 0 <= i < remapped_covered(s, map).len() implies exists|j: int|
            0 <= j < s.len() && #[trigger] s[j].0 < map.len() && map[s[j].0 as int] == (
            #[trigger] remapped_covered(s, map)[i]).0 by {
            if i < r.len() {
                assert(remapped_covered(s, map)[i] == r[i]);
                let j = choose|j: int|
                    0 <= j < t.len() && #[trigger] t[j].0 < map.len() && map[t[j].0 as int] == (
                    #[trigger] r[i]).0;
                assert(s[j] == t[j]);
            } else {
                assert(s[s.len() - 1] == s.last());
            }
        }
    }
}

/// Following a reordering keeps at most one request per tab, since no two
/// tabs move to the same place.
pub proof fn law_remap_keeps_one_per_tab<T>(s: Seq<(usize, T)>, map: Seq<usize>)
    requires
        one_per_tab(s),
        injective(map),
    ensures
        one_per_tab(remapped_covered(s, map)),
    decreases s.len(),
{
    if s.len() > 0 {
        let t = s.drop_last();
        assert(one_per_tab(t));
        law_remap_keeps_one_per_tab(t, map);
        lemma_remapped_from(t, map);
        let r = remapped_covered(t, map);
        if s.last().0 < map.len() {
            let k = map[s.last().0 as int];
            assert forall|i: int| 0 <= i < r.len() implies r[i].0 != k by {
                let j = choose|j: int|
                    0 <= j < t.len() && #[trigger] t[j].0 < map.len() && map[t[j].0 as int] == (
                    #[trigger] r[i]).0;
                assert(t[j] == s[j]);
                assert(s.last() == s[s.len() - 1]);
                assert(t[j].0 != s.last().0);
            }
            assert forall|i: int, j: int|
                0 <= i < j < remapped_covered(s, map).len() implies remapped_covered(s, map)[i].0
                != remapped_covered(s, map)[j].0 by {
                assert(remapped_covered(s, map)[i] == r[i]);
                if j < r.len() {
                    assert(remapped_covered(s, map)[j] == r[j]);
                }
            }
        }
    }
}

/// Requests in arrival order, each with the 0-based tab it addresses.
pub struct PendingRequests<T> {
    items: Vec<(usize, T)>,
}

impl<T> View for PendingRequests<T> {
    type V = Seq<(usize, T)>;

    closed spec fn view(&self) -> Seq<(usize, T)> {
        self.items@
    }
}

fn reindex_items<T>(items: Vec<(usize, T)>, closed: usize) -> (r: (Vec<(usize, T)>, Vec<T>))
    ensures
        r.0@ == shifted(items@, closed),
        r.1@ == dropped(items@, closed),
{
    let ghost all = items@;
    let mut rest = items;
    let mut kept_rev: Vec<(usize, T)> = Vec::new();
    let mut dropped_rev: Vec<T> = Vec::new();
    while rest.len() > 0
        invariant
            shifted(all, closed) == shifted(rest@, closed) + kept_rev@.reverse(),
            dropped(all, closed) == dropped(rest@, closed) + dropped_rev@.reverse(),
        decreases rest@.len(),
    {
        let ghost before = rest@;
        let (tab, req) = rest.pop().unwrap();
        proof {
            assert(before.drop_last() == rest@);
            assert(before.last() == (tab, req));
        }
        match index_after_tab_close(tab, closed) {
            Some(k) => {
                let ghost kr = kept_rev@;
                kept_rev.push((k, req));
                proof {
                    assert(kept_rev@.reverse() =~= seq![(k, req)] + kr.reverse());
                    assert(shifted(before, closed) == shifted(rest@, closed).push((k, req)));
                    assert(shifted(rest@, closed).push((k, req)) + kr.reverse() =~= shifted(rest@, closed) + kept_rev@.reverse());
                    assert(dropped(before, closed) == dropped(rest@, closed));
                }
            },
            None => {
                let ghost dr = dropped_rev@;
                dropped_rev.push(req);
                proof {
                    assert(dropped_rev@.reverse() =~= seq![req] + dr.reverse());
                    assert(dropped(before, closed) == dropped(rest@, closed).push(req));
                    assert(dropped(rest@, closed).push(req) + dr.reverse() =~= dropped(rest@, closed) + dropped_rev@.reverse());
                    assert(shifted(before, closed) == shifted(rest@, closed));
                }
            },
        }
    }
    proof {
        assert(shifted(rest@, closed) == Seq::<(usize, T)>::empty());
        assert(dropped(rest@, closed) == Seq::<T>::empty());
        assert(shifted(all, closed) =~= kept_rev@.reverse());
        assert(dropped(all, closed) =~= dropped_rev@.reverse());
    }
    (reverse_vec(kept_rev), reverse_vec(dropped_rev))
}

pub(crate) fn reverse_vec<A>(v: Vec<A>) -> (r: Vec<A>)
    ensures
        r@ == v@.reverse(),
{
    let ghost orig = v@;
    let mut rest = v;
    let mut r: Vec<A> = Vec::new();
    while rest.len() > 0
        invariant
            orig.reverse() =~= r@ + rest@.reverse(),
        decreases rest@.len(),
    {
        let ghost before = rest@;
        let x = rest.pop().unwrap();
        proof {
            assert(before =~= rest@.push(x));
            assert(before.reverse() =~= seq![x] + rest@.reverse());
        }
        r.push(x);
    }
    assert(rest@.reverse() =~= Seq::<A>::empty());
    r
}

impl<T> PendingRequests<T> {
    /// No requests.
    pub fn new() -> (r: PendingRequests<T>)
        ensures
            r@ == Seq::<(usize, T)>::empty(),
    {
        PendingRequests { items: Vec::new() }
    }

    /// How many requests wait.
    pub fn len(&self) -> (n: usize)
        ensures
            n == self@.len(),
    {
        self.items.len()
    }

    /// Queue a request for the tab at `tab_idx`.
    pub fn push(&mut self, tab_idx: usize, request: T)
        ensures
            final(self)@ == old(self)@.push((tab_idx, request)),
    {
        self.items.push((tab_idx, request));
    }

    /// Take every request out, in arrival order.
    pub fn take_all(&mut self) -> (r: Vec<(usize, T)>)
        ensures
            r@ == old(self)@,
            final(self)@ == Seq::<(usize, T)>::empty(),
    {
        let mut taken: Vec<(usize, T)> = Vec::new();
        std::mem::swap(&mut taken, &mut self.items);
        taken
    }

    /// Follow a reordering of the tabs (`map[i]` is the new index of the tab
    /// that was at `i`); the requests keep their order.
    pub fn remap_after_reorder(&mut self, map: &Vec<usize>)
        ensures
            final(self)@ == remapped(old(self)@, map@),
    {
        let ghost before = self@;
        let mut i: usize = 0;
        while i < self.items.len()
            invariant
                i <= before.len(),
                self.items@.len() == before.len(),
                forall|k: int| 0 <= k < i ==> self.items@[k] == remapped(before, map@)[k],
                forall|k: int| i <= k < before.len() ==> self.items@[k] == before[k],
            decreases before.len() - i,
        {
            let old_idx = self.items[i].0;
            if old_idx < map.len() {
                self.items[i].0 = map[old_idx];
            }
            i = i + 1;
        }
        assert(self@ =~= remapped(before, map@));
    }

    /// Follow the removal of the tab at `closed`: its requests are handed
    /// back in order, the others keep their order and address the same tabs
    /// at their new indices.
    pub fn reindex_after_tab_close(&mut self, closed: usize) -> (r: Vec<T>)
        ensures
            final(self)@ == shifted(old(self)@, closed),
            r@ == dropped(old(self)@, closed),
    {
        let mut taken: Vec<(usize, T)> = Vec::new();
        std::mem::swap(&mut taken, &mut self.items);
        let (kept, gone) = reindex_items(taken, closed);
        self.items = kept;
        gone
    }
}

// ── at most one request per tab ─────────────────────────────────────────

/// No tab has two requests.
pub open spec fn one_per_tab<T>(s: Seq<(usize, T)>) -> bool {
    forall|i: int, j: int| 0 <= i < j < s.len() ==> s[i].0 != s[j].0
}

/// The tab indices of a request list.
pub open spec fn tabs_of<T>(s: Seq<(usize, T)>) -> Set<usize> {
    Set::new(|t: usize| exists|i: int| 0 <= i < s.len() && s[i].0 == t)
}

proof fn lemma_shifted_index<T>(s: Seq<(usize, T)>, closed: usize, i: int)
    requires
        0 <= i < shifted(s, closed).len(),
    ensures
        exists|j: int|
            0 <= j < s.len() && #[trigger] s[j].0 != closed && index_after_close(
                s[j].0 as int,
                closed as int,
            ) == Some(shifted(s, closed)[i].0 as int) && s[j].1 == shifted(s, closed)[i].1,
    decreases s.len(),
{
    let t = s.drop_last();
    let r = shifted(t, closed);
    if i < r.len() {
        lemma_shifted_index(t, closed, i);
        assert(shifted(s, closed)[i] == r[i]);
        let j = choose|j: int|
            0 <= j < t.len() && #[trigger] t[j].0 != closed && index_after_close(
                t[j].0 as int,
                closed as int,
            ) == Some(r[i].0 as int) && t[j].1 == r[i].1;
        assert(s[j] == t[j]);
    } else {
        let j = s.len() - 1;
        assert(s[j] == s.last());
        let k = index_after_close(s.last().0 as int, closed as int)->0;
        assert(shifted(s, closed) == r.push((k as usize, s.last().1)));
        assert(s[j].0 != closed);
    }
}

/// Re-indexing after a tab closes keeps at most one request per tab.
pub proof fn law_shift_keeps_one_per_tab<T>(s: Seq<(usize, T)>, closed: usize)
    requires
        one_per_tab(s),
    ensures
        one_per_tab(shifted(s, closed)),
    decreases s.len(),
{
    if s.len() > 0 {
        let t = s.drop_last();
        assert(one_per_tab(t));
        law_shift_keeps_one_per_tab(t, closed);
        let r = shifted(t, closed);
        match index_after_close(s.last().0 as int, closed as int) {
            Some(k) => {
                assert forall|i: int| 0 <= i < r.len() implies r[i].0 != k by {
                    lemma_shifted_index(t, closed, i);
                    let j = choose|j: int|
                        0 <= j < t.len() && #[trigger] t[j].0 != closed && index_after_close(
                            t[j].0 as int,
                            closed as int,
                        ) == Some(#[trigger] r[i].0 as int) && t[j].1 == r[i].1;
                    assert(t[j].0 != s.last().0) by {
                        assert(t[j] == s[j]);
                        assert(s.last() == s[s.len() - 1]);
                    }
                }
                assert forall|i: int, j: int|
                    0 <= i < j < shifted(s, closed).len() implies shifted(s, closed)[i].0
                    != shifted(s, closed)[j].0 by {
                    if j == r.len() {
                        assert(shifted(s, closed)[i] == r[i]);
                    } else {
                        assert(shifted(s, closed)[i] == r[i]);
                        assert(shifted(s, closed)[j] == r[j]);
                    }
                }
            },
            None => {},
        }
    }
}

/// Requests with at most one per tab (see [`one_per_tab`]), such as the
/// agent prompts that a tab answers one at a time.
pub struct PendingByTab<T> {
    items: PendingRequests<T>,
}

impl<T> View for PendingByTab<T> {
    type V = Seq<(usize, T)>;

    closed spec fn view(&self) -> Seq<(usize, T)> {
        self.items@
    }
}

impl<T> PendingByTab<T> {
    /// At most one request per tab.
    pub closed spec fn wf(&self) -> bool {
        one_per_tab(self.items@)
    }

    /// No requests.
    pub fn new() -> (r: PendingByTab<T>)
        ensures
            r.wf(),
            r@ == Seq::<(usize, T)>::empty(),
    {
        PendingByTab { items: PendingRequests::new() }
    }

    /// Whether the tab at `tab_idx` has a request.
    pub fn contains(&self, tab_idx: usize) -> (r: bool)
        ensures
            r == tabs_of(self@).contains(tab_idx),
    {
        let mut i: usize = 0;
        while i < self.items.items.len()
            invariant
                i <= self@.len(),
                self@ == self.items.items@,
                forall|j: int| 0 <= j < i ==> self@[j].0 != tab_idx,
            decreases self@.len() - i,
        {
            if self.items.items[i].0 == tab_idx {
                assert(self@[i as int].0 == tab_idx);
                return true;
            }
            i = i + 1;
        }
        false
    }

    /// Add a request for a tab that has none.
    pub fn insert(&mut self, tab_idx: usize, request: T)
        requires
            old(self).wf(),
            !tabs_of(old(self)@).contains(tab_idx),
        ensures
            final(self).wf(),
            final(self)@ == old(self)@.push((tab_idx, request)),
    {
        let ghost before = self@;
        self.items.push(tab_idx, request);
        assert forall|i: int| 0 <= i < before.len() implies before[i].0 != tab_idx by {
            if before[i].0 == tab_idx {
                assert(tabs_of(before).contains(tab_idx));
            }
        }
    }

    /// Take the request of the tab at `tab_idx`, if it has one; the others
    /// stay in order.
    pub fn remove(&mut self, tab_idx: usize) -> (r: Option<T>)
        requires
            old(self).wf(),
        ensures
            final(self).wf(),
            tabs_of(old(self)@).contains(tab_idx) <==> r is Some,
            r matches Some(x) ==> exists|i: int|
                0 <= i < old(self)@.len() && old(self)@[i] == (tab_idx, x) && final(self)@
                    == old(self)@.remove(i),
            r is None ==> final(self)@ == old(self)@,
    {
        let ghost before = self@;
        let mut i: usize = 0;
        while i < self.items.items.len()
            invariant
                i <= before.len(),
                self@ == before,
                old(self)@ == before,
                self.items.items@ == before,
                one_per_tab(before),
                forall|j: int| 0 <= j < i ==> before[j].0 != tab_idx,
            decreases before.len() - i,
        {
            if self.items.items[i].0 == tab_idx {
                let ghost item = before[i as int];
                let (_, x) = self.items.items.remove(i);
                proof {
                    assert(item.0 == tab_idx);
                    assert(item.1 == x);
                    assert(before[i as int] == (tab_idx, x));
                    assert(tabs_of(before).contains(tab_idx)) by {
                        assert(0 <= i < before.len() && before[i as int].0 == tab_idx);
                    }
                    assert forall|a: int, b: int|
                        0 <= a < b < self@.len() implies self@[a].0 != self@[b].0 by {
                        let a2 = if a < i { a } else { a + 1 };
                        let b2 = if b < i { b } else { b + 1 };
                        assert(self@[a] == before[a2]);
                        assert(self@[b] == before[b2]);
                    }
                    assert(old(self)@ == before);
                    assert(self@ == before.remove(i as int));
                    assert(old(self)@[i as int] == (tab_idx, x));
                }
                return Some(x);
            }
            i = i + 1;
        }
        proof {
            assert(!tabs_of(before).contains(tab_idx));
        }
        None
    }

    /// Take every request out, in arrival order.
    pub fn take_all(&mut self) -> (r: Vec<(usize, T)>)
        ensures
            r@ == old(self)@,
            final(self)@ == Seq::<(usize, T)>::empty(),
            final(self).wf(),
    {
        self.items.take_all()
    }

    /// Follow a reordering of the tabs (`map[i]` is the new index of the tab
    /// that was at `i`); requests for an index the map does not cover are
    /// taken out and handed back.
    pub fn remap_after_reorder(&mut self, map: &Vec<usize>) -> (r: Vec<T>)
        requires
            old(self).wf(),
            injective(map@),
        ensures
            final(self).wf(),
            final(self)@ == remapped_covered(old(self)@, map@),
            r@ == uncovered(old(self)@, map@),
    {
        proof {
            law_remap_keeps_one_per_tab(self@, map@);
        }
        let taken = self.items.take_all();
        let (kept, gone) = remap_items(taken, map);
        self.items.items = kept;
        gone
    }

    /// Follow the removal of the tab at `closed` (see
    /// [`PendingRequests::reindex_after_tab_close`]); still one per tab.
    pub fn reindex_after_tab_close(&mut self, closed: usize) -> (r: Vec<T>)
        requires
            old(self).wf(),
        ensures
            final(self).wf(),
            final(self)@ == shifted(old(self)@, closed),
            r@ == dropped(old(self)@, closed),
    {
        proof {
            law_shift_keeps_one_per_tab(self@, closed);
        }
        self.items.reindex_after_tab_close(closed)
    }
}

// ── coalescing session saves ────────────────────────────────────────────

/// A request to the session saver: save this state, or save it and then
/// answer the waiter.
pub enum SaveRequest<S, W> {
    Save(S),
    Flush(S, W),
}

/// The state a request carries.
pub open spec fn save_state<S, W>(r: SaveRequest<S, W>) -> S {
    match r {
        SaveRequest::Save(s) => s,
        SaveRequest::Flush(s, _) => s,
    }
}

/// The waiters of a batch of requests, in order.
pub open spec fn flush_waiters<S, W>(rs: Seq<SaveRequest<S, W>>) -> Seq<W>
    decreases rs.len(),
{
    if rs.len() == 0 {
        Seq::empty()
    } else {
        let rest = flush_waiters(rs.drop_last());
        match rs.last() {
            SaveRequest::Save(_) => rest,
            SaveRequest::Flush(_, w) => rest.push(w),
        }
    }
}

/// A batch of save requests as one write: the newest state (none for an
/// empty batch) and every waiter, in order, to answer once it is written.
pub fn coalesce_saves<S, W>(batch: Vec<SaveRequest<S, W>>) -> (r: (Option<S>, Vec<W>))
    ensures
        batch@.len() == 0 ==> r.0 is None,
        batch@.len() > 0 ==> r.0 == Some(save_state(batch@.last())),
        r.1@ == flush_waiters(batch@),
{
    let ghost all = batch@;
    let mut rest = batch;
    let mut latest: Option<S> = None;
    let mut waiters_rev: Vec<W> = Vec::new();
    let mut first = true;
    while rest.len() > 0
        invariant
            all.len() > 0 ==> (first <==> rest@.len() == all.len()),
            all.len() == 0 ==> rest@.len() == 0,
            rest@.len() <= all.len(),
            rest@ == all.take(rest@.len() as int),
            !first ==> latest == Some(save_state(all.last())),
            first ==> latest is None,
            all.len() == 0 ==> first,
            flush_waiters(all) == flush_waiters(rest@) + waiters_rev@.reverse(),
        decreases rest@.len(),
    {
        let ghost before = rest@;
        let req = rest.pop().unwrap();
        proof {
            assert(before.drop_last() == rest@);
            assert(all.take(rest@.len() as int) =~= before.drop_last());
            if first {
                assert(before =~= all);
            }
        }
        let ghost wr = waiters_rev@;
        match req {
            SaveRequest::Save(s) => {
                if first {
                    latest = Some(s);
                }
                proof {
                    assert(flush_waiters(before) == flush_waiters(rest@));
                }
            },
            SaveRequest::Flush(s, w) => {
                if first {
                    latest = Some(s);
                }
                waiters_rev.push(w);
                proof {
                    assert(flush_waiters(before) == flush_waiters(rest@).push(w));
                    assert(waiters_rev@.reverse() =~= seq![w] + wr.reverse());
                    assert(flush_waiters(rest@).push(w) + wr.reverse() =~= flush_waiters(rest@)
                        + waiters_rev@.reverse());
                }
            },
        }
        first = false;
    }
    proof {
        assert(flush_waiters(rest@) == Seq::<W>::empty());
        assert(flush_waiters(all) =~= waiters_rev@.reverse());
    }
    (latest, reverse_vec(waiters_rev))
}

// ── requests keep addressing existing tabs ─────────────────────────────

/// Every request in `s` addresses one of the first `n` tabs.
pub open spec fn all_below<T>(s: Seq<(usize, T)>, n: nat) -> bool {
    forall|i: int| 0 <= i < s.len() ==> (#[trigger] s[i]).0 < n
}

/// After the tab at `closed` (one of `n`) is removed, the requests that
/// remain address the `n - 1` tabs that are left.
pub proof fn law_shift_stays_below<T>(s: Seq<(usize, T)>, closed: usize, n: nat)
    requires
        all_below(s, n),
        closed < n,
    ensures
        all_below(shifted(s, closed), (n - 1) as nat),
{
    assert forall|i: int| 0 <= i < shifted(s, closed).len() implies (#[trigger] shifted(
        s,
        closed,
    )[i]).0 < n - 1 by {
        lemma_shifted_index(s, closed, i);
        let j = choose|j: int|
            0 <= j < s.len() && #[trigger] s[j].0 != closed && index_after_close(
                s[j].0 as int,
                closed as int,
            ) == Some(#[trigger] shifted(s, closed)[i].0 as int) && s[j].1 == shifted(
                s,
                closed,
            )[i].1;
        assert(s[j].0 < n);
    }
}

/// After a reordering of `n` tabs onto `n` places, every request still
/// addresses one of them, and none is left uncovered.
pub proof fn law_remap_stays_below<T>(s: Seq<(usize, T)>, map: Seq<usize>, n: nat)
    requires
        all_below(s, n),
        map.len() == n,
        forall|i: int| 0 <= i < map.len() ==> map[i] < n,
    ensures
        all_below(remapped(s, map), n),
        remapped_covered(s, map) == remapped(s, map),
        uncovered(s, map) == Seq::<T>::empty(),
    decreases s.len(),
{
    assert forall|i: int| 0 <= i < remapped(s, map).len() implies (#[trigger] remapped(
        s,
        map,
    )[i]).0 < n by {
        assert(s[i].0 < n);
    }
    if s.len() > 0 {
        let t = s.drop_last();
        assert(all_below(t, n)) by {
            assert forall|i: int| 0 <= i < t.len() implies (#[trigger] t[i]).0 < n by {
                assert(t[i] == s[i]);
            }
        }
        law_remap_stays_below(t, map, n);
        assert(s.last() == s[s.len() - 1]);
        assert(remapped(s, map) =~= remapped(t, map).push(
            (map[s.last().0 as int], s.last().1),
        ));
    } else {
        assert(remapped(s, map) =~= s);
    }
}

/// Where a remaining request came from when the tab at `gone` was
/// removed: a request for another tab, with the same payload, whose tab is
/// now at the remaining request's index.
pub open spec fn follows_its_tab<A, T>(
    tabs: Seq<A>,
    s: Seq<(usize, T)>,
    gone: usize,
    after: (usize, T),
    j: int,
) -> bool {
    &&& 0 <= j < s.len()
    &&& s[j].0 != gone
    &&& s[j].1 == after.1
    &&& tabs.remove(gone as int)[after.0 as int] == tabs[s[j].0 as int]
}

/// The `i`-th request left after the tab at `gone` was removed follows its
/// tab (see [`follows_its_tab`]).
pub open spec fn request_follows_tab<A, T>(tabs: Seq<A>, s: Seq<(usize, T)>, gone: usize, i: int) -> bool {
    exists|j: int| follows_its_tab(tabs, s, gone, shifted(s, gone)[i], j)
}

/// When the tab at `gone` is removed from `tabs`, each remaining request
/// still addresses the very tab it was queued for.
pub proof fn law_requests_follow_tabs_on_close<A, T>(tabs: Seq<A>, s: Seq<(usize, T)>, gone: usize)
    requires
        gone < tabs.len(),
        all_below(s, tabs.len()),
    ensures
        forall|i: int| 0 <= i < shifted(s, gone).len() ==> #[trigger] request_follows_tab(tabs, s, gone, i),
{
    assert forall|i: int| 0 <= i < shifted(s, gone).len() implies #[trigger] request_follows_tab(
        tabs,
        s,
        gone,
        i,
    ) by {
        lemma_follows_one(tabs, s, gone, i);
    }
}

proof fn lemma_follows_one<A, T>(tabs: Seq<A>, s: Seq<(usize, T)>, gone: usize, i: int)
    requires
        gone < tabs.len(),
        all_below(s, tabs.len()),
        0 <= i < shifted(s, gone).len(),
    ensures
        exists|j: int| follows_its_tab(tabs, s, gone, shifted(s, gone)[i], j),
{
    lemma_shifted_index(s, gone, i);
    let j = choose|j: int|
        0 <= j < s.len() && #[trigger] s[j].0 != gone && index_after_close(
            s[j].0 as int,
            gone as int,
        ) == Some(#[trigger] shifted(s, gone)[i].0 as int) && s[j].1 == shifted(s, gone)[i].1;
    assert(s[j].0 < tabs.len());
    crate::tabs::law_close_reindex(tabs, gone as int, s[j].0 as int);
    assert(follows_its_tab(tabs, s, gone, shifted(s, gone)[i], j));
}

/// When the tab at `from` moves to index `at`, each request, mapped through
/// the moved indices, still addresses the very tab it was queued for.
pub proof fn law_requests_follow_tabs_on_move<A, T>(tabs: Seq<A>, s: Seq<(usize, T)>, from: int, at: int)
    requires
        tabs.len() <= usize::MAX,
        0 <= from < tabs.len(),
        0 <= at < tabs.len(),
        all_below(s, tabs.len()),
    ensures
        ({
            let map = Seq::new(tabs.len(), |k: int| moved_index(k, from, at) as usize);
            forall|i: int|
                0 <= i < s.len() ==> (#[trigger] remapped(s, map)[i]).1 == s[i].1 && move_seq(
                    tabs,
                    from,
                    at,
                )[remapped(s, map)[i].0 as int] == tabs[s[i].0 as int]
        }),
{
    let map = Seq::new(tabs.len(), |k: int| moved_index(k, from, at) as usize);
    crate::tabs::law_move_is_permutation(tabs, from, at);
    assert forall|i: int| 0 <= i < s.len() implies (#[trigger] remapped(s, map)[i]).1 == s[i].1
        && move_seq(tabs, from, at)[remapped(s, map)[i].0 as int] == tabs[s[i].0 as int] by {
        let k = s[i].0 as int;
        assert(0 <= k < tabs.len()) by {
            assert(s[i].0 < tabs.len());
        }
        assert(0 <= moved_index(k, from, at) < tabs.len());
        assert(map[k] as int == moved_index(k, from, at));
        assert(remapped(s, map)[i] == (map[k], s[i].1));
    }
}

/// One thing the session saver does.
pub enum SaverAction<S, W> {
    /// Write this state.
    Save(S),
    /// Tell this waiter that the state it asked for is written.
    Answer(W),
}

/// What the saver does with one batch of requests, in order: nothing for an
/// empty batch; otherwise it writes the newest state once, and only then
/// answers every waiter of the batch, in the order they asked.
pub open spec fn saver_plan<S, W>(batch: Seq<SaveRequest<S, W>>) -> Seq<SaverAction<S, W>> {
    if batch.len() == 0 {
        Seq::empty()
    } else {
        seq![SaverAction::Save(save_state(batch.last()))] + flush_waiters(batch).map_values(
            |w: W| SaverAction::Answer(w),
        )
    }
}

/// What the saver does with one batch (see [`saver_plan`]).
pub fn saver_actions<S, W>(batch: Vec<SaveRequest<S, W>>) -> (r: Vec<SaverAction<S, W>>)
    ensures
        r@ == saver_plan(batch@),
{
    let ghost b = batch@;
    let (latest, waiters) = coalesce_saves(batch);
    let mut r: Vec<SaverAction<S, W>> = Vec::new();
    match latest {
        None => {
            proof {
                assert(waiters@ == flush_waiters(b));
                assert(flush_waiters(b) =~= Seq::<W>::empty());
            }
            return r;
        },
        Some(state) => {
            r.push(SaverAction::Save(state));
        },
    }
    let ghost ws = waiters@;
    let n = waiters.len();
    assert(ws.len() == n);
    let mut rest = reverse_vec(waiters);
    let mut k: usize = 0;
    while rest.len() > 0
        invariant
            rest@ == ws.skip(k as int).reverse(),
            k <= ws.len(),
            ws.len() <= usize::MAX,
            rest@.len() == ws.len() - k,
            r@.len() == k + 1,
            r@ == seq![SaverAction::Save(save_state(b.last()))] + ws.take(k as int).map_values(
                |w: W| SaverAction::Answer(w),
            ),
        decreases rest@.len(),
    {
        let ghost before = r@;
        let w = rest.pop().unwrap();
        proof {
            assert(ws.skip(k as int).reverse().last() == ws[k as int]);
            assert(rest@ =~= ws.skip(k + 1).reverse());
        }
        r.push(SaverAction::Answer(w));
        proof {
            assert(ws.take(k + 1) =~= ws.take(k as int).push(ws[k as int]));
            assert(r@ =~= seq![SaverAction::Save(save_state(b.last()))] + ws.take(k + 1).map_values(
                |w: W| SaverAction::Answer(w),
            ));
        }
        k = k + 1;
    }
    proof {
        assert(ws.skip(k as int).len() == 0);
        assert(ws.take(k as int) =~= ws);
    }
    r
}

} // verus!
