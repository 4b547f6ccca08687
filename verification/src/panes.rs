//! Which pane and which surface a request addresses, inside one tab.
//!
//! A tab's panes are listed in layout order; each position holds the pane id
//! it still resolves to, or nothing when the terminal there is no longer a
//! live pane. Requests name a pane by its 1-based position, by its id, or not
//! at all (the focused pane); a surface is named by its id or as the active
//! surface of a pane.
use vstd::prelude::*;
use crate::naming::{decimal, decimal_chars};
use crate::text::{chars_of, concat_chars, string_of};

verus! {

/// How a request names a pane: a 1-based position, an id, both, or neither.
#[derive(Debug, Clone, Copy, PartialEq, Eq)]
pub struct PaneSelector {
    pub pane_index: Option<usize>,
    pub pane_id: Option<usize>,
}

/// A pane that a selector resolved to: its 1-based position and its id.
#[derive(Debug, Clone, Copy, PartialEq, Eq)]
pub struct ResolvedPane {
    pub pane_index: usize,
    pub pane_id: usize,
}

/// Why a pane selector did not resolve.
#[derive(Debug, Clone, Copy, PartialEq, Eq)]
pub enum PaneTargetError {
    /// No pane of the tab has this id any more.
    PaneIdGone { pane_id: usize },
    /// The 1-based position is outside the current layout.
    PaneIndexStale { index: usize },
    /// The position exists but its terminal is no longer a live pane.
    PaneIndexNotLive { index: usize },
}

/// The first position at or after `i` whose pane id is `id`.
pub open spec fn pane_pos_from(ids: Seq<Option<usize>>, id: usize, i: int) -> Option<int>
    decreases ids.len() - i,
{
    if i < 0 || i >= ids.len() {
        None
    } else if ids[i] == Some(id) {
        Some(i)
    } else {
        pane_pos_from(ids, id, i + 1)
    }
}

/// The first position whose pane id is `id`.
pub open spec fn pane_pos(ids: Seq<Option<usize>>, id: usize) -> Option<int> {
    pane_pos_from(ids, id, 0)
}

/// What a selector resolves to. An id wins: when it is live the position
/// given beside it is not consulted (a stale, dead or different position is
/// passed over); when it is gone the request fails. Without an id the
/// position must be in range and live. Without either, the focused pane,
/// at its first position (1 when the layout does not show it).
pub open spec fn pane_target(
    ids: Seq<Option<usize>>,
    focused_pane_id: usize,
    sel: PaneSelector,
) -> Result<ResolvedPane, PaneTargetError> {
    match sel.pane_id {
        Some(pid) => match pane_pos(ids, pid) {
            Some(p) => Ok(ResolvedPane { pane_index: (p + 1) as usize, pane_id: pid }),
            None => Err(PaneTargetError::PaneIdGone { pane_id: pid }),
        },
        None => match sel.pane_index {
            Some(index) => if index == 0 || index > ids.len() {
                Err(PaneTargetError::PaneIndexStale { index })
            } else {
                match ids[index - 1] {
                    Some(pid) => Ok(ResolvedPane { pane_index: index, pane_id: pid }),
                    None => Err(PaneTargetError::PaneIndexNotLive { index }),
                }
            },
            None => Ok(
                ResolvedPane {
                    pane_index: match pane_pos(ids, focused_pane_id) {
                        Some(p) => (p + 1) as usize,
                        None => 1,
                    },
                    pane_id: focused_pane_id,
                },
            ),
        },
    }
}

fn find_pane(ids: &Vec<Option<usize>>, id: usize) -> (r: Option<usize>)
    ensures
        r matches Some(p) ==> pane_pos(ids@, id) == Some(p as int) && p < ids@.len() && p
            < usize::MAX,
        r is None <==> pane_pos(ids@, id) is None,
{
    let mut i: usize = 0;
    while i < ids.len()
        invariant
            i <= ids@.len(),
            pane_pos(ids@, id) == pane_pos_from(ids@, id, i as int),
        decreases ids@.len() - i,
    {
        if ids[i] == Some(id) {
            return Some(i);
        }
        i = i + 1;
    }
    None
}

/// Resolve a pane selector against the tab's layout (`live_ids[k]` is the
/// pane id at position `k + 1`, if live) and its focused pane.
pub fn resolve_pane_target(
    live_ids: &Vec<Option<usize>>,
    focused_pane_id: usize,
    selector: PaneSelector,
) -> (r: Result<ResolvedPane, PaneTargetError>)
    ensures
        r == pane_target(live_ids@, focused_pane_id, selector),
{
    match selector.pane_id {
        Some(pid) => match find_pane(live_ids, pid) {
            Some(p) => Ok(ResolvedPane { pane_index: p + 1, pane_id: pid }),
            None => Err(PaneTargetError::PaneIdGone { pane_id: pid }),
        },
        None => match selector.pane_index {
            Some(index) => {
                if index == 0 || index > live_ids.len() {
                    Err(PaneTargetError::PaneIndexStale { index })
                } else {
                    match live_ids[index - 1] {
                        Some(pid) => Ok(ResolvedPane { pane_index: index, pane_id: pid }),
                        None => Err(PaneTargetError::PaneIndexNotLive { index }),
                    }
                }
            },
            None => {
                let pane_index = match find_pane(live_ids, focused_pane_id) {
                    Some(p) => p + 1,
                    None => 1,
                };
                Ok(ResolvedPane { pane_index, pane_id: focused_pane_id })
            },
        },
    }
}

// ── surfaces ────────────────────────────────────────────────────────────

/// One surface (a terminal inside a pane) as the tab lists it.
#[derive(Debug, Clone, Copy, PartialEq, Eq)]
pub struct SurfaceInfo {
    pub pane_index: usize,
    pub pane_id: usize,
    pub surface_index: usize,
    pub surface_id: usize,
}

/// How a request names a surface: by id (optionally checked against the
/// pane given beside it), or as the active surface of a selected pane.
#[derive(Debug, Clone, Copy, PartialEq, Eq)]
pub struct SurfaceTarget {
    pub pane_index: Option<usize>,
    pub pane_id: Option<usize>,
    pub surface_id: Option<usize>,
}

impl SurfaceTarget {
    /// The pane part of the target.
    pub open spec fn pane_selector(self) -> PaneSelector {
        PaneSelector { pane_index: self.pane_index, pane_id: self.pane_id }
    }
}

/// Why a surface target did not resolve (`tab_idx` is 0-based).
#[derive(Debug, Clone, Copy, PartialEq, Eq)]
pub enum SurfaceTargetError {
    /// No surface of the tab has this id any more.
    SurfaceGone { surface_id: usize, tab_idx: usize },
    /// The surface lives in pane `pane_id`, not in the requested one.
    SurfaceNotInPaneId { surface_id: usize, pane_id: usize, requested: usize },
    /// The surface lives at pane position `pane_index`, not the requested one.
    SurfaceNotInPaneIndex { surface_id: usize, pane_index: usize, requested: usize },
    /// The pane selector did not resolve.
    Pane(PaneTargetError),
    /// The resolved pane has no active surface.
    NoActiveSurface { pane_id: usize, tab_idx: usize },
}

/// The first surface at or after `i` with id `sid`, restricted to pane
/// `pane` when one is given.
pub open spec fn surface_pos_from(
    s: Seq<SurfaceInfo>,
    pane: Option<usize>,
    sid: usize,
    i: int,
) -> Option<int>
    decreases s.len() - i,
{
    if i < 0 || i >= s.len() {
        None
    } else if s[i].surface_id == sid && (pane matches Some(p) ==> s[i].pane_id == p) {
        Some(i)
    } else {
        surface_pos_from(s, pane, sid, i + 1)
    }
}

/// The first surface with id `sid` (in pane `pane`, when given).
pub open spec fn surface_pos(s: Seq<SurfaceInfo>, pane: Option<usize>, sid: usize) -> Option<int> {
    surface_pos_from(s, pane, sid, 0)
}

/// The active surface of pane `pid` in a table of (pane id, active surface
/// id) pairs, first entry first.
pub open spec fn active_surface_from(t: Seq<(usize, usize)>, pid: usize, i: int) -> Option<usize>
    decreases t.len() - i,
{
    if i < 0 || i >= t.len() {
        None
    } else if t[i].0 == pid {
        Some(t[i].1)
    } else {
        active_surface_from(t, pid, i + 1)
    }
}

/// What a surface target resolves to. With an id: that surface, provided a
/// pane id or position given beside it names the surface's own pane (the id
/// check first). Without: the selected pane's active surface.
pub open spec fn surface_target(
    surfaces: Seq<SurfaceInfo>,
    ids: Seq<Option<usize>>,
    focused_pane_id: usize,
    active: Seq<(usize, usize)>,
    tab_idx: usize,
    target: SurfaceTarget,
) -> Result<SurfaceInfo, SurfaceTargetError> {
    match target.surface_id {
        Some(sid) => match surface_pos(surfaces, None, sid) {
            None => Err(SurfaceTargetError::SurfaceGone { surface_id: sid, tab_idx }),
            Some(k) => {
                let s = surfaces[k];
                match (target.pane_id, target.pane_index) {
                    (Some(p), _) if p != s.pane_id => Err(
                        SurfaceTargetError::SurfaceNotInPaneId {
                            surface_id: sid,
                            pane_id: s.pane_id,
                            requested: p,
                        },
                    ),
                    (_, Some(q)) if q != s.pane_index => Err(
                        SurfaceTargetError::SurfaceNotInPaneIndex {
                            surface_id: sid,
                            pane_index: s.pane_index,
                            requested: q,
                        },
                    ),
                    _ => Ok(s),
                }
            },
        },
        None => match pane_target(ids, focused_pane_id, target.pane_selector()) {
            Err(e) => Err(SurfaceTargetError::Pane(e)),
            Ok(pane) => match active_surface_from(active, pane.pane_id, 0) {
                None => Err(
                    SurfaceTargetError::NoActiveSurface { pane_id: pane.pane_id, tab_idx },
                ),
                Some(sid) => match surface_pos(surfaces, Some(pane.pane_id), sid) {
                    None => Err(SurfaceTargetError::SurfaceGone { surface_id: sid, tab_idx }),
                    Some(k) => Ok(surfaces[k]),
                },
            },
        },
    }
}

fn find_surface(surfaces: &Vec<SurfaceInfo>, pane: Option<usize>, sid: usize) -> (r: Option<usize>)
    ensures
        r matches Some(k) ==> surface_pos(surfaces@, pane, sid) == Some(k as int) && k
            < surfaces@.len(),
        r is None <==> surface_pos(surfaces@, pane, sid) is None,
{
    let mut i: usize = 0;
    while i < surfaces.len()
        invariant
            i <= surfaces@.len(),
            surface_pos(surfaces@, pane, sid) == surface_pos_from(surfaces@, pane, sid, i as int),
        decreases surfaces@.len() - i,
    {
        let s = surfaces[i];
        let in_pane = match pane {
            Some(p) => s.pane_id == p,
            None => true,
        };
        if s.surface_id == sid && in_pane {
            return Some(i);
        }
        i = i + 1;
    }
    None
}

fn active_surface_of(active: &Vec<(usize, usize)>, pid: usize) -> (r: Option<usize>)
    ensures
        r == active_surface_from(active@, pid, 0),
{
    let mut i: usize = 0;
    while i < active.len()
        invariant
            i <= active@.len(),
            active_surface_from(active@, pid, 0) == active_surface_from(active@, pid, i as int),
        decreases active@.len() - i,
    {
        if active[i].0 == pid {
            return Some(active[i].1);
        }
        i = i + 1;
    }
    None
}

/// Resolve a surface target in tab `tab_idx` (0-based), given its surfaces,
/// its layout (as for [`resolve_pane_target`]), its focused pane and the
/// active surface of each pane.
pub fn resolve_surface_target(
    surfaces: &Vec<SurfaceInfo>,
    live_ids: &Vec<Option<usize>>,
    focused_pane_id: usize,
    active: &Vec<(usize, usize)>,
    tab_idx: usize,
    target: SurfaceTarget,
) -> (r: Result<SurfaceInfo, SurfaceTargetError>)
    ensures
        r == surface_target(surfaces@, live_ids@, focused_pane_id, active@, tab_idx, target),
{
    match target.surface_id {
        Some(sid) => match find_surface(surfaces, None, sid) {
            None => Err(SurfaceTargetError::SurfaceGone { surface_id: sid, tab_idx }),
            Some(k) => {
                let s = surfaces[k];
                if let Some(p) = target.pane_id {
                    if p != s.pane_id {
                        return Err(
                            SurfaceTargetError::SurfaceNotInPaneId {
                                surface_id: sid,
                                pane_id: s.pane_id,
                                requested: p,
                            },
                        );
                    }
                }
                if let Some(q) = target.pane_index {
                    if q != s.pane_index {
                        return Err(
                            SurfaceTargetError::SurfaceNotInPaneIndex {
                                surface_id: sid,
                                pane_index: s.pane_index,
                                requested: q,
                            },
                        );
                    }
                }
                Ok(s)
            },
        },
        None => {
            let sel = PaneSelector { pane_index: target.pane_index, pane_id: target.pane_id };
            match resolve_pane_target(live_ids, focused_pane_id, sel) {
                Err(e) => Err(SurfaceTargetError::Pane(e)),
                Ok(pane) => match active_surface_of(active, pane.pane_id) {
                    None => Err(
                        SurfaceTargetError::NoActiveSurface { pane_id: pane.pane_id, tab_idx },
                    ),
                    Some(sid) => match find_surface(surfaces, Some(pane.pane_id), sid) {
                        None => Err(SurfaceTargetError::SurfaceGone { surface_id: sid, tab_idx }),
                        Some(k) => Ok(surfaces[k]),
                    },
                },
            }
        },
    }
}

proof fn lemma_pane_pos(ids: Seq<Option<usize>>, id: usize, i: int)
    requires
        0 <= i,
    ensures
        pane_pos_from(ids, id, i) matches Some(p) ==> i <= p < ids.len() && ids[p] == Some(id),
    decreases ids.len() - i,
{
    if i < ids.len() && ids[i] != Some(id) {
        lemma_pane_pos(ids, id, i + 1);
    }
}

proof fn lemma_surface_pos(s: Seq<SurfaceInfo>, pane: Option<usize>, sid: usize, i: int)
    requires
        0 <= i,
    ensures
        surface_pos_from(s, pane, sid, i) matches Some(k) ==> i <= k < s.len() && s[k].surface_id
            == sid && (pane matches Some(p) ==> s[k].pane_id == p),
    decreases s.len() - i,
{
    if i < s.len() && !(s[i].surface_id == sid && (pane matches Some(p) ==> s[i].pane_id == p)) {
        lemma_surface_pos(s, pane, sid, i + 1);
    }
}

/// A pane named by id or by position resolves to a live pane, at the
/// position it reports.
pub proof fn law_named_pane_is_live(ids: Seq<Option<usize>>, focused_pane_id: usize, sel: PaneSelector)
    requires
        ids.len() < usize::MAX,
        sel.pane_id is Some || sel.pane_index is Some,
        pane_target(ids, focused_pane_id, sel) is Ok,
    ensures
        ({
            let r = pane_target(ids, focused_pane_id, sel)->Ok_0;
            &&& 1 <= r.pane_index <= ids.len()
            &&& ids[r.pane_index - 1] == Some(r.pane_id)
            &&& (sel.pane_id matches Some(p) ==> r.pane_id == p)
        }),
{
    if let Some(pid) = sel.pane_id {
        lemma_pane_pos(ids, pid, 0);
    }
}

/// A resolved surface is one of the tab's surfaces, and it has the surface
/// id and the pane id that the target names.
pub proof fn law_resolved_surface_matches_target(
    surfaces: Seq<SurfaceInfo>,
    ids: Seq<Option<usize>>,
    focused_pane_id: usize,
    active: Seq<(usize, usize)>,
    tab_idx: usize,
    target: SurfaceTarget,
)
    requires
        surface_target(surfaces, ids, focused_pane_id, active, tab_idx, target) is Ok,
    ensures
        ({
            let s = surface_target(surfaces, ids, focused_pane_id, active, tab_idx, target)->Ok_0;
            &&& surfaces.contains(s)
            &&& (target.surface_id matches Some(sid) ==> s.surface_id == sid)
            &&& (target.pane_id matches Some(p) ==> s.pane_id == p)
        }),
{
    match target.surface_id {
        Some(sid) => {
            lemma_surface_pos(surfaces, None, sid, 0);
            let k = surface_pos(surfaces, None, sid)->0;
            assert(surfaces[k] == surfaces[k]);
        },
        None => {
            let pane = pane_target(ids, focused_pane_id, target.pane_selector())->Ok_0;
            if let Some(p) = target.pane_id {
                lemma_pane_pos(ids, p, 0);
            }
            let sid = active_surface_from(active, pane.pane_id, 0)->0;
            lemma_surface_pos(surfaces, Some(pane.pane_id), sid, 0);
            let k = surface_pos(surfaces, Some(pane.pane_id), sid)->0;
            assert(surfaces[k] == surfaces[k]);
        },
    }
}

// ── cycling through a pane's surfaces ───────────────────────────────────

/// The first active surface at or after `i` (the list's length if none).
pub open spec fn first_active_from(active: Seq<bool>, i: int) -> int
    decreases active.len() - i,
{
    if i < 0 || i >= active.len() {
        active.len() as int
    } else if active[i] {
        i
    } else {
        first_active_from(active, i + 1)
    }
}

/// The position of the pane's active surface (0 when none is marked).
pub open spec fn active_position(active: Seq<bool>) -> int {
    let k = first_active_from(active, 0);
    if k < active.len() {
        k
    } else {
        0
    }
}

/// The surface to focus when stepping `offset` surfaces through a pane
/// (`ids[k]` is the id of the k-th surface, `active[k]` whether it is the
/// active one): the position `offset` away from the active one, wrapping
/// around; nothing to do with fewer than two surfaces.
pub open spec fn cycle_target(ids: Seq<usize>, active: Seq<bool>, offset: int) -> Option<usize> {
    if ids.len() <= 1 {
        None
    } else {
        Some(ids[(active_position(active) + offset) % (ids.len() as int)])
    }
}

proof fn lemma_first_active_bound(active: Seq<bool>, i: int)
    requires
        0 <= i <= active.len(),
    ensures
        i <= first_active_from(active, i) <= active.len(),
    decreases active.len() - i,
{
    if i < active.len() && !active[i] {
        lemma_first_active_bound(active, i + 1);
    }
}

/// Wrap `v` into `0..len`, as `rem_euclid` does.
fn wrap_index(v: i128, len: usize) -> (r: usize)
    requires
        len > 0,
        v > i128::MIN,
    ensures
        r == (v as int) % (len as int),
        r < len,
{
    let l: u128 = len as u128;
    if v >= 0 {
        let u: u128 = v as u128;
        let m: u128 = u % l;
        m as usize
    } else {
        let u: u128 = (-v) as u128;
        let m: u128 = u % l;
        proof {
            let vi = v as int;
            let li = len as int;
            let mi = m as int;
            assert(mi == (-vi) % li);
            assert(mi == 0 ==> vi % li == 0) by (nonlinear_arith)
                requires
                    li > 0,
                    mi == (-vi) % li,
            {
                vstd::arithmetic::div_mod::lemma_fundamental_div_mod(-vi, li);
                vstd::arithmetic::div_mod::lemma_mod_multiples_basic(-((-vi) / li), li);
            }
            assert(mi != 0 ==> vi % li == li - mi) by (nonlinear_arith)
                requires
                    li > 0,
                    mi == (-vi) % li,
            {
                vstd::arithmetic::div_mod::lemma_fundamental_div_mod(-vi, li);
                if mi != 0 {
                    vstd::arithmetic::div_mod::lemma_fundamental_div_mod_converse(
                        vi,
                        li,
                        -((-vi) / li) - 1,
                        li - mi,
                    );
                }
            }
        }
        if m == 0 {
            0
        } else {
            (l - m) as usize
        }
    }
}

/// The id of the surface to focus when stepping `offset` surfaces through a
/// pane (see [`cycle_target`]).
pub fn cycle_surface_target(ids: &Vec<usize>, active: &Vec<bool>, offset: isize) -> (r: Option<
    usize,
>)
    requires
        active@.len() == ids@.len(),
    ensures
        r == cycle_target(ids@, active@, offset as int),
{
    if ids.len() <= 1 {
        return None;
    }
    let mut k: usize = 0;
    while k < active.len() && !active[k]
        invariant
            k <= active@.len(),
            first_active_from(active@, 0) == first_active_from(active@, k as int),
        decreases active@.len() - k,
    {
        k = k + 1;
    }
    let position: usize = if k < active.len() {
        k
    } else {
        0
    };
    let v: i128 = position as i128 + offset as i128;
    let next = wrap_index(v, ids.len());
    Some(ids[next])
}

// ── pane text search ────────────────────────────────────────────────────

/// The panes a text search covers, as 1-based positions: every pane of the
/// tab, in layout order, when the selector names none; else the pane it
/// resolves to (or its error).
pub open spec fn search_positions(
    ids: Seq<Option<usize>>,
    focused_pane_id: usize,
    sel: PaneSelector,
) -> Result<Seq<usize>, PaneTargetError> {
    if sel.pane_index is None && sel.pane_id is None {
        Ok(Seq::new(ids.len(), |k: int| (k + 1) as usize))
    } else {
        match pane_target(ids, focused_pane_id, sel) {
            Ok(p) => Ok(seq![p.pane_index]),
            Err(e) => Err(e),
        }
    }
}

/// The panes a text search covers (see [`search_positions`]).
pub fn search_targets(live_ids: &Vec<Option<usize>>, focused_pane_id: usize, selector: PaneSelector)
    -> (r: Result<Vec<usize>, PaneTargetError>)
    requires
        live_ids@.len() < usize::MAX,
    ensures
        match search_positions(live_ids@, focused_pane_id, selector) {
            Ok(s) => r matches Ok(v) && v@ == s,
            Err(e) => r == Err::<Vec<usize>, PaneTargetError>(e),
        },
{
    if selector.pane_index.is_none() && selector.pane_id.is_none() {
        let mut v: Vec<usize> = Vec::new();
        let mut k: usize = 0;
        while k < live_ids.len()
            invariant
                k <= live_ids@.len(),
                live_ids@.len() < usize::MAX,
                v@ == Seq::new(k as nat, |j: int| (j + 1) as usize),
            decreases live_ids@.len() - k,
        {
            v.push(k + 1);
            k = k + 1;
            assert(v@ =~= Seq::new(k as nat, |j: int| (j + 1) as usize));
        }
        Ok(v)
    } else {
        match resolve_pane_target(live_ids, focused_pane_id, selector) {
            Ok(p) => {
                let v = vec![p.pane_index];
                assert(v@ =~= seq![p.pane_index]);
                Ok(v)
            },
            Err(e) => Err(e),
        }
    }
}


/// One search hit as (1-based pane position, line number, line text).
pub type HitV = (usize, usize, Seq<char>);

/// The hits of each searched pane, tagged with the pane's position, in pane
/// order.
pub open spec fn all_hits(panes: Seq<(usize, Seq<(usize, Seq<char>)>)>) -> Seq<HitV>
    decreases panes.len(),
{
    if panes.len() == 0 {
        Seq::empty()
    } else {
        all_hits(panes.drop_last()) + panes.last().1.map_values(
            |h: (usize, Seq<char>)| (panes.last().0, h.0, h.1),
        )
    }
}

/// At most `max` hits, the first ones in pane order.
pub open spec fn limited_hits(panes: Seq<(usize, Seq<(usize, Seq<char>)>)>, max: nat) -> Seq<HitV> {
    if all_hits(panes).len() <= max {
        all_hits(panes)
    } else {
        all_hits(panes).take(max as int)
    }
}

/// The view of the hits a pane search found.
pub open spec fn pane_hits_view(panes: Seq<(usize, Vec<(usize, String)>)>) -> Seq<(usize, Seq<(usize, Seq<char>)>)> {
    panes.map_values(
        |p: (usize, Vec<(usize, String)>)| (p.0, p.1@.map_values(|h: (usize, String)| (h.0, h.1@))),
    )
}

/// The answer to a text search over panes (`pane_hits` holds each searched
/// pane's position and its hits as (line, text), in pane order): the hits in
/// pane order, stopping once `max_matches` are found.
pub fn search_results(pane_hits: &Vec<(usize, Vec<(usize, String)>)>, max_matches: usize) -> (r: Vec<
    (usize, usize, String),
>)
    ensures
        r@.map_values(|h: (usize, usize, String)| (h.0, h.1, h.2@)) == limited_hits(
            pane_hits_view(pane_hits@),
            max_matches as nat,
        ),
{
    let ghost pv = pane_hits_view(pane_hits@);
    let mut r: Vec<(usize, usize, String)> = Vec::new();
    let mut p: usize = 0;
    while p < pane_hits.len()
        invariant
            p <= pane_hits@.len(),
            pv == pane_hits_view(pane_hits@),
            r@.len() <= max_matches,
            r@.map_values(|h: (usize, usize, String)| (h.0, h.1, h.2@)) == limited_hits(
                pv.take(p as int),
                max_matches as nat,
            ),
        decreases pane_hits@.len() - p,
    {
        let ghost before = r@.map_values(|h: (usize, usize, String)| (h.0, h.1, h.2@));
        let ghost prev = pv.take(p as int);
        let ghost next = pv.take(p + 1);
        proof {
            assert(next.drop_last() =~= prev);
            assert(next.last() == pv[p as int]);
        }
        let (pos, hits) = (pane_hits[p].0, &pane_hits[p].1);
        let ghost hv = pv[p as int].1;
        let mut k: usize = 0;
        while k < hits.len() && r.len() < max_matches
            invariant
                k <= hits@.len(),
                hv == hits@.map_values(|h: (usize, String)| (h.0, h.1@)),
                r@.len() <= max_matches,
                r@.len() < max_matches ==> r@.len() == before.len() + k,
                r@.map_values(|h: (usize, usize, String)| (h.0, h.1, h.2@)) == before + hv.take(
                    k as int,
                ).map_values(|h: (usize, Seq<char>)| (pos, h.0, h.1)),
            decreases hits@.len() - k,
        {
            let ghost rb = r@;
            r.push((pos, hits[k].0, hits[k].1.clone()));
            proof {
                assert(hv.take(k + 1) =~= hv.take(k as int).push(hv[k as int]));
                assert(r@.map_values(|h: (usize, usize, String)| (h.0, h.1, h.2@)) =~= rb.map_values(
                    |h: (usize, usize, String)| (h.0, h.1, h.2@),
                ).push((pos, hv[k as int].0, hv[k as int].1)));
                assert(hv.take(k + 1).map_values(|h: (usize, Seq<char>)| (pos, h.0, h.1)) =~= hv.take(
                    k as int,
                ).map_values(|h: (usize, Seq<char>)| (pos, h.0, h.1)).push(
                    (pos, hv[k as int].0, hv[k as int].1),
                ));
            }
            k = k + 1;
        }
        proof {
            lemma_limited_step(prev, pv[p as int], max_matches as nat, before, k as nat);
        }
        p = p + 1;
    }
    proof {
        assert(pv.take(pane_hits@.len() as int) =~= pv);
    }
    r
}

proof fn lemma_limited_step(
    prev: Seq<(usize, Seq<(usize, Seq<char>)>)>,
    pane: (usize, Seq<(usize, Seq<char>)>),
    max: nat,
    before: Seq<HitV>,
    k: nat,
)
    requires
        before == limited_hits(prev, max),
        k <= pane.1.len(),
        before.len() <= max,
        k == pane.1.len() || before.len() + k == max,
        before.len() + k <= max,
    ensures
        before + pane.1.take(k as int).map_values(|h: (usize, Seq<char>)| (pane.0, h.0, h.1))
            == limited_hits(prev.push(pane), max),
{
    let tagged = pane.1.map_values(|h: (usize, Seq<char>)| (pane.0, h.0, h.1));
    assert(prev.push(pane).drop_last() =~= prev);
    assert(all_hits(prev.push(pane)) == all_hits(prev) + tagged);
    assert(pane.1.take(k as int).map_values(|h: (usize, Seq<char>)| (pane.0, h.0, h.1)) =~= tagged.take(
        k as int,
    ));
    if all_hits(prev).len() <= max {
        assert(before == all_hits(prev));
        if all_hits(prev).len() + tagged.len() <= max {
            assert(k == pane.1.len());
            assert(tagged.take(k as int) =~= tagged);
        } else {
            assert((all_hits(prev) + tagged).take(max as int) =~= all_hits(prev) + tagged.take(
                k as int,
            ));
        }
    } else {
        assert(before.len() == max);
        assert(k == 0);
        assert(tagged.take(0) =~= Seq::<HitV>::empty());
        assert((all_hits(prev) + tagged).take(max as int) =~= all_hits(prev).take(max as int));
    }
}

// ── refusal texts ───────────────────────────────────────────────────────

fn push_text(buf: &mut Vec<char>, t: &str)
    ensures
        final(buf)@ == old(buf)@ + t@,
{
    let c = chars_of(t);
    let r = concat_chars(buf.as_slice(), c.as_slice());
    *buf = r;
}

fn push_number(buf: &mut Vec<char>, n: usize)
    ensures
        final(buf)@ == old(buf)@ + decimal(n as nat),
{
    let d = decimal_chars(n);
    let r = concat_chars(buf.as_slice(), d.as_slice());
    *buf = r;
}

/// The text a pane selector that did not resolve is answered with.
pub open spec fn pane_error_text(e: PaneTargetError) -> Seq<char> {
    match e {
        PaneTargetError::PaneIdGone { pane_id } => "Pane id "@ + decimal(pane_id as nat)
            + " is no longer available in this tab. That pane was likely closed. Re-run list_panes to choose a new target."@,
        PaneTargetError::PaneIndexStale { index } => "Pane index "@ + decimal(index as nat)
            + " is no longer valid in the current layout. The pane layout changed or that pane was closed. Re-run list_panes and prefer pane_id for follow-up targeting."@,
        PaneTargetError::PaneIndexNotLive { index } => "Pane index "@ + decimal(index as nat)
            + " no longer resolves to a live pane. Re-run list_panes and prefer pane_id for follow-up targeting."@,
    }
}

impl PaneTargetError {
    /// The text this refusal is answered with (see [`pane_error_text`]).
    pub fn message(&self) -> (r: String)
        ensures
            r@ == pane_error_text(*self),
    {
        let mut b: Vec<char> = Vec::new();
        match self {
            PaneTargetError::PaneIdGone { pane_id } => {
                push_text(&mut b, "Pane id ");
                push_number(&mut b, *pane_id);
                push_text(
                    &mut b,
                    " is no longer available in this tab. That pane was likely closed. Re-run list_panes to choose a new target.",
                );
            },
            PaneTargetError::PaneIndexStale { index } => {
                push_text(&mut b, "Pane index ");
                push_number(&mut b, *index);
                push_text(
                    &mut b,
                    " is no longer valid in the current layout. The pane layout changed or that pane was closed. Re-run list_panes and prefer pane_id for follow-up targeting.",
                );
            },
            PaneTargetError::PaneIndexNotLive { index } => {
                push_text(&mut b, "Pane index ");
                push_number(&mut b, *index);
                push_text(
                    &mut b,
                    " no longer resolves to a live pane. Re-run list_panes and prefer pane_id for follow-up targeting.",
                );
            },
        }
        proof {
            assert(b@ =~= pane_error_text(*self));
        }
        string_of(b.as_slice())
    }
}

/// The text a surface target that did not resolve is answered with (tabs
/// are named 1-based).
pub open spec fn surface_error_text(e: SurfaceTargetError) -> Seq<char> {
    match e {
        SurfaceTargetError::SurfaceGone { surface_id, tab_idx } => "Surface id "@ + decimal(
            surface_id as nat,
        ) + " is no longer available in tab "@ + decimal(tab_idx as nat + 1) + "."@,
        SurfaceTargetError::SurfaceNotInPaneId { surface_id, pane_id, requested } => "Surface id "@
            + decimal(surface_id as nat) + " belongs to pane id "@ + decimal(pane_id as nat)
            + ", not pane id "@ + decimal(requested as nat) + "."@,
        SurfaceTargetError::SurfaceNotInPaneIndex { surface_id, pane_index, requested } =>
            "Surface id "@ + decimal(surface_id as nat) + " belongs to pane "@ + decimal(
            pane_index as nat,
        ) + ", not pane "@ + decimal(requested as nat) + "."@,
        SurfaceTargetError::Pane(p) => pane_error_text(p),
        SurfaceTargetError::NoActiveSurface { pane_id, tab_idx } => "Pane id "@ + decimal(
            pane_id as nat,
        ) + " has no active surface in tab "@ + decimal(tab_idx as nat + 1) + "."@,
    }
}

impl SurfaceTargetError {
    /// The tab index it names can be shown 1-based.
    pub open spec fn showable(&self) -> bool {
        match *self {
            SurfaceTargetError::SurfaceGone { tab_idx, .. } => tab_idx < usize::MAX,
            SurfaceTargetError::NoActiveSurface { tab_idx, .. } => tab_idx < usize::MAX,
            _ => true,
        }
    }

    /// The text this refusal is answered with (see [`surface_error_text`]).
    pub fn message(&self) -> (r: String)
        requires
            self.showable(),
        ensures
            r@ == surface_error_text(*self),
    {
        let mut b: Vec<char> = Vec::new();
        match self {
            SurfaceTargetError::SurfaceGone { surface_id, tab_idx } => {
                push_text(&mut b, "Surface id ");
                push_number(&mut b, *surface_id);
                push_text(&mut b, " is no longer available in tab ");
                push_number(&mut b, *tab_idx + 1);
                push_text(&mut b, ".");
            },
            SurfaceTargetError::SurfaceNotInPaneId { surface_id, pane_id, requested } => {
                push_text(&mut b, "Surface id ");
                push_number(&mut b, *surface_id);
                push_text(&mut b, " belongs to pane id ");
                push_number(&mut b, *pane_id);
                push_text(&mut b, ", not pane id ");
                push_number(&mut b, *requested);
                push_text(&mut b, ".");
            },
            SurfaceTargetError::SurfaceNotInPaneIndex { surface_id, pane_index, requested } => {
                push_text(&mut b, "Surface id ");
                push_number(&mut b, *surface_id);
                push_text(&mut b, " belongs to pane ");
                push_number(&mut b, *pane_index);
                push_text(&mut b, ", not pane ");
                push_number(&mut b, *requested);
                push_text(&mut b, ".");
            },
            SurfaceTargetError::Pane(p) => {
                return p.message();
            },
            SurfaceTargetError::NoActiveSurface { pane_id, tab_idx } => {
                push_text(&mut b, "Pane id ");
                push_number(&mut b, *pane_id);
                push_text(&mut b, " has no active surface in tab ");
                push_number(&mut b, *tab_idx + 1);
                push_text(&mut b, ".");
            },
        }
        proof {
            assert(b@ =~= surface_error_text(*self));
        }
        string_of(b.as_slice())
    }
}

} // verus!
