use con_workspace::panes::{
    cycle_surface_target, resolve_pane_target, resolve_surface_target, search_results, search_targets, PaneSelector,
    PaneTargetError, ResolvedPane, SurfaceInfo, SurfaceTarget, SurfaceTargetError,
};

fn sel(pane_index: Option<usize>, pane_id: Option<usize>) -> PaneSelector {
    PaneSelector { pane_index, pane_id }
}

fn pane(pane_index: usize, pane_id: usize) -> ResolvedPane {
    ResolvedPane { pane_index, pane_id }
}

#[test]
fn pane_selector_by_id_index_or_focus() {
    let ids = vec![Some(10), None, Some(30)];
    assert_eq!(resolve_pane_target(&ids, 30, sel(None, None)), Ok(pane(3, 30)));
    assert_eq!(resolve_pane_target(&ids, 99, sel(None, None)), Ok(pane(1, 99)));
    assert_eq!(resolve_pane_target(&ids, 30, sel(Some(1), None)), Ok(pane(1, 10)));
    assert_eq!(resolve_pane_target(&ids, 30, sel(None, Some(30))), Ok(pane(3, 30)));
}

#[test]
fn pane_id_wins_over_a_stale_or_different_index() {
    let ids = vec![Some(10), None, Some(30)];
    assert_eq!(resolve_pane_target(&ids, 10, sel(Some(7), Some(30))), Ok(pane(3, 30)));
    assert_eq!(resolve_pane_target(&ids, 10, sel(Some(2), Some(30))), Ok(pane(3, 30)));
    assert_eq!(resolve_pane_target(&ids, 10, sel(Some(1), Some(30))), Ok(pane(3, 30)));
}

#[test]
fn pane_selector_errors() {
    let ids = vec![Some(10), None, Some(30)];
    assert_eq!(
        resolve_pane_target(&ids, 10, sel(Some(1), Some(20))),
        Err(PaneTargetError::PaneIdGone { pane_id: 20 })
    );
    assert_eq!(
        resolve_pane_target(&ids, 10, sel(Some(0), None)),
        Err(PaneTargetError::PaneIndexStale { index: 0 })
    );
    assert_eq!(
        resolve_pane_target(&ids, 10, sel(Some(4), None)),
        Err(PaneTargetError::PaneIndexStale { index: 4 })
    );
    assert_eq!(
        resolve_pane_target(&ids, 10, sel(Some(2), None)),
        Err(PaneTargetError::PaneIndexNotLive { index: 2 })
    );
}

fn surface(pane_index: usize, pane_id: usize, surface_index: usize, surface_id: usize) -> SurfaceInfo {
    SurfaceInfo { pane_index, pane_id, surface_index, surface_id }
}

fn target(pane_index: Option<usize>, pane_id: Option<usize>, surface_id: Option<usize>) -> SurfaceTarget {
    SurfaceTarget { pane_index, pane_id, surface_id }
}

#[test]
fn surface_by_id_checks_the_pane_given_beside_it() {
    let surfaces = vec![surface(1, 10, 0, 100), surface(1, 10, 1, 101), surface(2, 20, 0, 200)];
    let ids = vec![Some(10), Some(20)];
    let active = vec![(10, 101), (20, 200)];
    let r = |t| resolve_surface_target(&surfaces, &ids, 10, &active, 0, t);
    assert_eq!(r(target(None, None, Some(200))), Ok(surfaces[2]));
    assert_eq!(r(target(Some(2), Some(20), Some(200))), Ok(surfaces[2]));
    assert_eq!(
        r(target(None, None, Some(300))),
        Err(SurfaceTargetError::SurfaceGone { surface_id: 300, tab_idx: 0 })
    );
    assert_eq!(
        r(target(Some(9), Some(10), Some(200))),
        Err(SurfaceTargetError::SurfaceNotInPaneId { surface_id: 200, pane_id: 20, requested: 10 })
    );
    assert_eq!(
        r(target(Some(1), None, Some(200))),
        Err(SurfaceTargetError::SurfaceNotInPaneIndex { surface_id: 200, pane_index: 2, requested: 1 })
    );
}

#[test]
fn surface_without_id_is_the_active_surface_of_the_pane() {
    let surfaces = vec![surface(1, 10, 0, 100), surface(1, 10, 1, 101), surface(2, 20, 0, 200)];
    let ids = vec![Some(10), Some(20), Some(30)];
    let active = vec![(10, 101), (20, 200), (30, 300)];
    let r = |t| resolve_surface_target(&surfaces, &ids, 10, &active, 1, t);
    assert_eq!(r(target(None, None, None)), Ok(surfaces[1]));
    assert_eq!(r(target(Some(2), None, None)), Ok(surfaces[2]));
    assert_eq!(
        r(target(Some(5), None, None)),
        Err(SurfaceTargetError::Pane(PaneTargetError::PaneIndexStale { index: 5 }))
    );
    assert_eq!(
        r(target(Some(3), None, None)),
        Err(SurfaceTargetError::SurfaceGone { surface_id: 300, tab_idx: 1 })
    );
    let no_active = vec![(20, 200)];
    assert_eq!(
        resolve_surface_target(&surfaces, &ids, 10, &no_active, 1, target(None, None, None)),
        Err(SurfaceTargetError::NoActiveSurface { pane_id: 10, tab_idx: 1 })
    );
}

#[test]
fn cycling_surfaces_wraps_around() {
    let ids = vec![100, 101, 102];
    let active = vec![false, true, false];
    assert_eq!(cycle_surface_target(&ids, &active, 1), Some(102));
    assert_eq!(cycle_surface_target(&ids, &active, -1), Some(100));
    let last = vec![false, false, true];
    assert_eq!(cycle_surface_target(&ids, &last, 1), Some(100));
    let none = vec![false, false, false];
    assert_eq!(cycle_surface_target(&ids, &none, -1), Some(102));
    assert_eq!(cycle_surface_target(&ids, &active, -7), Some(100));
    assert_eq!(cycle_surface_target(&ids, &active, -8), Some(102));
    assert_eq!(cycle_surface_target(&vec![5], &vec![true], 1), None);
}

#[test]
fn text_search_stops_at_the_match_limit() {
    let hits = vec![
        (1, vec![(3, "error: a".to_string()), (9, "error: b".to_string())]),
        (2, vec![]),
        (3, vec![(1, "error: c".to_string()), (4, "error: d".to_string())]),
    ];
    assert_eq!(
        search_results(&hits, 3),
        vec![
            (1, 3, "error: a".to_string()),
            (1, 9, "error: b".to_string()),
            (3, 1, "error: c".to_string()),
        ]
    );
    assert_eq!(search_results(&hits, 10).len(), 4);
    assert!(search_results(&hits, 0).is_empty());
}

#[test]
fn a_search_without_a_target_covers_every_pane_in_order() {
    let ids = vec![Some(4), None, Some(9)];
    assert_eq!(search_targets(&ids, 9, sel(None, None)), Ok(vec![1, 2, 3]));
    assert_eq!(search_targets(&ids, 9, sel(None, Some(9))), Ok(vec![3]));
    assert_eq!(search_targets(&ids, 9, sel(Some(1), None)), Ok(vec![1]));
    assert_eq!(
        search_targets(&ids, 9, sel(Some(2), None)),
        Err(PaneTargetError::PaneIndexNotLive { index: 2 })
    );
}

#[test]
fn target_refusals_are_answered_with_their_texts() {
    assert_eq!(
        PaneTargetError::PaneIndexNotLive { index: 2 }.message(),
        "Pane index 2 no longer resolves to a live pane. Re-run list_panes and prefer pane_id for follow-up targeting."
    );
    assert_eq!(
        SurfaceTargetError::SurfaceGone { surface_id: 7, tab_idx: 0 }.message(),
        "Surface id 7 is no longer available in tab 1."
    );
    assert_eq!(
        SurfaceTargetError::SurfaceNotInPaneId { surface_id: 7, pane_id: 3, requested: 4 }.message(),
        "Surface id 7 belongs to pane id 3, not pane id 4."
    );
    assert_eq!(
        SurfaceTargetError::Pane(PaneTargetError::PaneIdGone { pane_id: 12 }).message(),
        "Pane id 12 is no longer available in this tab. That pane was likely closed. Re-run list_panes to choose a new target."
    );
    assert_eq!(
        SurfaceTargetError::NoActiveSurface { pane_id: 5, tab_idx: 1 }.message(),
        "Pane id 5 has no active surface in tab 2."
    );
}
