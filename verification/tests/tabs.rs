use con_workspace::tabs::{
    close_pane_action, close_tab_action, drag_preview_order, index_after_tab_close,
    process_exit_action, CloseAction, CloseOutcome, TabList,
};

fn ids<T>(list: &TabList<T>) -> Vec<u64> {
    (0..list.len()).map(|i| list.get(i).id).collect()
}

fn data(list: &TabList<char>) -> Vec<char> {
    (0..list.len()).map(|i| list.get(i).data).collect()
}

#[test]
fn restored_tabs_get_ids_in_order_and_a_clamped_active_index() {
    let list = TabList::from_restored(vec!['a', 'b', 'c'], 7);
    assert_eq!(ids(&list), vec![0, 1, 2]);
    assert_eq!(data(&list), vec!['a', 'b', 'c']);
    assert_eq!(list.active_index(), 2);
    let list = TabList::from_restored(vec!['a', 'b', 'c'], 1);
    assert_eq!(list.active_index(), 1);
}

#[test]
fn new_tabs_get_fresh_ids_and_become_active() {
    let mut list = TabList::single('a');
    let i = list.open_tab('b');
    assert_eq!(i, 1);
    assert_eq!(list.active_index(), 1);
    list.close(0);
    let j = list.open_tab('c');
    assert_eq!(ids(&list), vec![1, 2]);
    assert_eq!(list.active_index(), j);
    assert_eq!(list.index_of(2), Some(1));
    assert_eq!(list.index_of(0), None);
}

#[test]
fn next_and_previous_wrap_around() {
    let mut list = TabList::from_restored(vec!['a', 'b', 'c'], 2);
    assert!(list.next_tab());
    assert_eq!(list.active_index(), 0);
    assert!(list.previous_tab());
    assert_eq!(list.active_index(), 2);
    let mut one = TabList::single('a');
    assert!(!one.next_tab());
    assert!(!one.previous_tab());
}

#[test]
fn activate_clears_attention() {
    let mut list = TabList::from_restored(vec!['a', 'b'], 0);
    list.mark_needs_attention(1);
    assert!(list.get(1).needs_attention);
    assert!(list.activate(1));
    assert!(!list.get(1).needs_attention);
    assert!(!list.activate(1));
    assert!(!list.activate(5));
}

#[test]
fn closing_keeps_the_active_tab_or_picks_its_successor() {
    let mut list = TabList::from_restored(vec!['a', 'b', 'c', 'd'], 2);
    match list.close(0) {
        CloseOutcome::Closed { tab, was_active } => {
            assert_eq!(tab.data, 'a');
            assert!(!was_active);
        }
        _ => panic!("expected a closed tab"),
    }
    assert_eq!(data(&list), vec!['b', 'c', 'd']);
    assert_eq!(list.get(list.active_index()).data, 'c');
    match list.close(1) {
        CloseOutcome::Closed { was_active, .. } => assert!(was_active),
        _ => panic!("expected a closed tab"),
    }
    assert_eq!(list.get(list.active_index()).data, 'd');
    match list.close(1) {
        CloseOutcome::Closed { .. } => {}
        _ => panic!("expected a closed tab"),
    }
    assert_eq!(list.active_index(), 0);
    assert!(matches!(list.close(0), CloseOutcome::LastTab));
    assert!(matches!(list.close(3), CloseOutcome::OutOfRange));
    assert_eq!(data(&list), vec!['b']);
}

#[test]
fn reorder_moves_the_tab_and_keeps_the_active_one() {
    let mut list = TabList::from_restored(vec!['a', 'b', 'c', 'd'], 1);
    let moved = list.reorder(0, 3, None).unwrap();
    assert_eq!(data(&list), vec!['b', 'c', 'a', 'd']);
    assert_eq!(moved, vec![2, 0, 1, 3]);
    assert_eq!(list.get(list.active_index()).data, 'b');
    assert_eq!(list.reorder(0, 2, None), None);
    assert_eq!(list.reorder(0, 3, None), None);
    assert_eq!(list.reorder(9, 0, None), None);
    assert_eq!(list.reorder(0, 9, None), None);
}

#[test]
fn reorder_undo_restores_the_order() {
    let mut list = TabList::from_restored(vec!['a', 'b', 'c', 'd'], 0);
    list.reorder(3, 1, None).unwrap();
    assert_eq!(data(&list), vec!['a', 'd', 'b', 'c']);
    // Moving it back: from index 1 to the slot before its old place.
    list.reorder(3, 4, None).unwrap();
    assert_eq!(data(&list), vec!['a', 'b', 'c', 'd']);
}

#[test]
fn keyboard_reorder_steps_one_row() {
    let mut list = TabList::from_restored(vec!['a', 'b', 'c'], 0);
    list.reorder(1, 0, Some(-1)).unwrap();
    assert_eq!(data(&list), vec!['b', 'a', 'c']);
    list.reorder(1, 0, Some(1)).unwrap();
    assert_eq!(data(&list), vec!['a', 'b', 'c']);
    assert_eq!(list.reorder(0, 0, Some(-1)), None);
    assert_eq!(list.reorder(2, 0, Some(1)), None);
}

#[test]
fn close_others_keeps_one_tab() {
    let mut list = TabList::from_restored(vec!['a', 'b', 'c', 'd'], 3);
    let closed = list.close_others(1).unwrap();
    let closed: Vec<char> = closed.into_iter().map(|t| t.data).collect();
    assert_eq!(closed, vec!['d', 'c', 'a']);
    assert_eq!(data(&list), vec!['b']);
    assert_eq!(list.active_index(), 0);
    assert!(list.close_others(7).is_none());
}

#[test]
fn appended_tabs_follow_the_imported_active_one() {
    let mut list = TabList::single('a');
    list.append_imported(vec!['x', 'y', 'z'], 1);
    assert_eq!(data(&list), vec!['a', 'x', 'y', 'z']);
    assert_eq!(list.active_index(), 2);
    assert_eq!(ids(&list), vec![0, 1, 2, 3]);
}

#[test]
fn quick_terminal_restart_replaces_the_tab() {
    let mut list = TabList::single('a');
    let removed = list.restart_with('b');
    assert_eq!(removed.data, 'a');
    assert_eq!(data(&list), vec!['b']);
    assert_eq!(ids(&list), vec![1]);
}

#[test]
fn deferred_indices_follow_a_close() {
    assert_eq!(index_after_tab_close(0, 1), Some(0));
    assert_eq!(index_after_tab_close(1, 1), None);
    assert_eq!(index_after_tab_close(3, 1), Some(2));
}

#[test]
fn drag_preview_moves_the_source_into_the_slot() {
    assert_eq!(drag_preview_order(4, 0, 3), vec![1, 2, 0, 3]);
    assert_eq!(drag_preview_order(4, 3, 0), vec![3, 0, 1, 2]);
    assert_eq!(drag_preview_order(3, 0, 9), vec![1, 2, 0]);
    assert_eq!(drag_preview_order(3, 1, 1), vec![0, 1, 2]);
}

#[test]
fn close_actions_escalate() {
    assert_eq!(process_exit_action(2, 1, 1, false), CloseAction::CloseSurface);
    assert_eq!(process_exit_action(1, 2, 1, false), CloseAction::ClosePane);
    assert_eq!(process_exit_action(1, 1, 2, false), CloseAction::CloseTab);
    assert_eq!(process_exit_action(1, 1, 1, true), CloseAction::RestartQuickTerminal);
    assert_eq!(process_exit_action(1, 1, 1, false), CloseAction::CloseWindow);
    assert_eq!(close_pane_action(2, 1), CloseAction::ClosePane);
    assert_eq!(close_pane_action(1, 3), CloseAction::CloseTab);
    assert_eq!(close_pane_action(1, 1), CloseAction::CloseWindow);
    assert_eq!(close_tab_action(3, 1, true), CloseAction::ClosePane);
    assert_eq!(close_tab_action(1, 2, true), CloseAction::CloseTab);
    assert_eq!(close_tab_action(1, 1, true), CloseAction::RestartQuickTerminal);
    assert_eq!(close_tab_action(1, 1, false), CloseAction::CloseWindow);
}
