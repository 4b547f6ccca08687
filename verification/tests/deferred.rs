use con_workspace::deferred::{
    coalesce_saves, saver_actions, PendingByTab, PendingRequests, SaveRequest, SaverAction,
};

#[test]
fn closing_a_tab_answers_its_requests_and_shifts_the_rest() {
    let mut p = PendingRequests::new();
    p.push(0, 'a');
    p.push(2, 'b');
    p.push(1, 'c');
    p.push(2, 'd');
    p.push(1, 'e');
    let dropped = p.reindex_after_tab_close(1);
    assert_eq!(dropped, vec!['c', 'e']);
    assert_eq!(p.len(), 3);
    assert_eq!(p.take_all(), vec![(0, 'a'), (1, 'b'), (1, 'd')]);
    assert_eq!(p.len(), 0);
}

#[test]
fn closing_an_unrelated_tab_only_shifts() {
    let mut p = PendingRequests::new();
    p.push(3, "x");
    p.push(0, "y");
    assert!(p.reindex_after_tab_close(5).is_empty());
    assert_eq!(p.take_all(), vec![(3, "x"), (0, "y")]);
}

#[test]
fn one_agent_request_per_tab() {
    let mut p = PendingByTab::new();
    p.insert(0, 10);
    p.insert(2, 20);
    p.insert(3, 30);
    assert!(p.contains(2));
    assert!(!p.contains(1));
    assert_eq!(p.remove(2), Some(20));
    assert_eq!(p.remove(2), None);
    p.insert(2, 21);
    let dropped = p.reindex_after_tab_close(0);
    assert_eq!(dropped, vec![10]);
    assert!(p.contains(1));
    assert!(p.contains(2));
    assert!(!p.contains(3));
    let mut all = p.take_all();
    all.sort();
    assert_eq!(all, vec![(1, 21), (2, 30)]);
}

#[test]
fn saves_are_coalesced_to_the_newest_state() {
    let batch = vec![
        SaveRequest::Save(1),
        SaveRequest::Flush(2, 'x'),
        SaveRequest::Save(3),
        SaveRequest::Flush(4, 'y'),
        SaveRequest::Save(5),
    ];
    let (latest, waiters) = coalesce_saves(batch);
    assert_eq!(latest, Some(5));
    assert_eq!(waiters, vec!['x', 'y']);
    let (latest, waiters) = coalesce_saves::<u8, char>(vec![]);
    assert_eq!(latest, None);
    assert!(waiters.is_empty());
}

#[test]
fn reordering_tabs_moves_the_requests_with_them() {
    let mut p = PendingRequests::new();
    p.push(0, 'a');
    p.push(2, 'b');
    p.push(5, 'c');
    p.remap_after_reorder(&vec![2, 0, 1]);
    assert_eq!(p.take_all(), vec![(2, 'a'), (1, 'b'), (5, 'c')]);
}

#[test]
fn reordering_drops_agent_requests_for_unknown_tabs() {
    let mut p = PendingByTab::new();
    p.insert(0, 10);
    p.insert(2, 20);
    p.insert(7, 70);
    let dropped = p.remap_after_reorder(&vec![2, 0, 1]);
    assert_eq!(dropped, vec![70]);
    assert_eq!(p.take_all(), vec![(2, 10), (1, 20)]);
}

#[test]
fn the_saver_writes_the_newest_state_then_answers_every_waiter() {
    let batch = vec![
        SaveRequest::Flush(1u8, 'a'),
        SaveRequest::Save(2u8),
        SaveRequest::Flush(3u8, 'b'),
        SaveRequest::Save(4u8),
    ];
    let actions = saver_actions(batch);
    assert_eq!(actions.len(), 3);
    assert!(matches!(actions[0], SaverAction::Save(4)));
    assert!(matches!(actions[1], SaverAction::Answer('a')));
    assert!(matches!(actions[2], SaverAction::Answer('b')));
    assert!(saver_actions::<u8, char>(vec![]).is_empty());
}
