use gpui_kit::selection::{Selection, SelectionGoal};
use gpui_kit::undo::{Change, EditIntent, UndoManager, MAX_CHANGES_PER_TRANSACTION, MAX_UNDO_TRANSACTIONS};

fn typing_change(offset: usize, text: &str) -> Change {
    let end = offset + text.len();
    Change::new(
        offset..offset,
        "",
        offset..end,
        text,
        Selection::new(offset, offset),
        Selection::new(end, end),
    )
}

fn change_at(offset: usize, old_text: &str, new_text: &str) -> Change {
    let end = offset + new_text.len();
    Change::new(
        offset..offset + old_text.len(),
        old_text,
        offset..end,
        new_text,
        Selection::new(offset, offset + old_text.len()),
        Selection::new(end, end),
    )
}

fn deletion(start: usize, end: usize, old_text: &str) -> Change {
    Change::new(
        start..end,
        old_text,
        start..start,
        "",
        Selection::new(end, end),
        Selection::new(start, start),
    )
}

#[test]
fn adjacent_typing_transactions_coalesce() {
    let mut manager = UndoManager::new();
    manager.record_transaction(typing_change(0, "a"), EditIntent::Typing);
    manager.record_transaction(typing_change(1, "b"), EditIntent::Typing);

    assert_eq!(manager.undo().unwrap().changes.len(), 2);
    assert!(manager.undo().is_none());
}

#[test]
fn newline_breaks_coalescing() {
    let mut manager = UndoManager::new();
    manager.record_transaction(typing_change(0, "a"), EditIntent::Typing);
    manager.record_transaction(typing_change(1, "\n"), EditIntent::Typing);
    assert_eq!(manager.undo().unwrap().changes.len(), 1);
    assert_eq!(manager.undo().unwrap().changes.len(), 1);
}

#[test]
fn cursor_move_breaks_coalescing() {
    let mut manager = UndoManager::new();
    manager.record_transaction(typing_change(0, "a"), EditIntent::Typing);
    manager.break_transaction_coalescing();
    manager.record_transaction(typing_change(1, "b"), EditIntent::Typing);
    assert_eq!(manager.undo().unwrap().changes.len(), 1);
    assert_eq!(manager.undo().unwrap().changes.len(), 1);
}

#[test]
fn explicit_transaction_collects_multiple_changes() {
    let mut manager = UndoManager::new();
    let before = vec![Selection::new(0, 0)];
    manager.begin_transaction(before.clone());
    manager.record_transaction(change_at(0, "", "n"), EditIntent::Typing);
    manager.record_transaction(change_at(0, "n", "ni"), EditIntent::Typing);
    manager.record_transaction(change_at(0, "ni", "你"), EditIntent::Typing);
    let after = vec![Selection::new(3, 3)];
    manager.commit_transaction(after.clone());

    let step = manager.undo().unwrap();
    assert_eq!(step.changes.len(), 3);
    let mut text = String::from("你");
    for change in &step.changes {
        text.replace_range(change.new_range.start..change.new_range.end, &change.old_text);
    }
    assert_eq!(text, "", "undo takes back the whole composition");
    assert_eq!(step.selections, before, "the cursor from before the composition comes back");
    assert!(manager.undo().is_none(), "the composition is one transaction");

    let step = manager.redo().unwrap();
    assert_eq!(step.selections, after);
    assert_eq!(step.changes.len(), 3);
}

#[test]
fn multi_cursor_transaction_is_one_undo_step() {
    let mut manager = UndoManager::new();
    let before = vec![Selection::new(5, 5), Selection::new(12, 12)];
    let after = vec![Selection::new(6, 6), Selection::new(13, 13)];
    manager.begin_transaction(before.clone());
    manager.record_transaction(typing_change(12, "y"), EditIntent::Typing);
    manager.record_transaction(typing_change(5, "x"), EditIntent::Typing);
    manager.commit_transaction(after.clone());

    let step = manager.undo().unwrap();
    assert_eq!(step.changes.len(), 2, "one change per cursor");
    assert_eq!(step.selections, before, "the cursor group comes back");
    assert!(manager.undo().is_none(), "a multi-cursor edit is one undo step");
    assert_eq!(manager.redo().unwrap().selections, after);
}

#[test]
fn redo_is_cleared_by_new_edit() {
    let mut manager = UndoManager::new();
    manager.record_transaction(typing_change(0, "a"), EditIntent::Typing);
    assert!(manager.undo().is_some());
    manager.record_transaction(typing_change(1, "b"), EditIntent::Typing);
    assert!(manager.redo().is_none());
}

#[test]
fn limits_the_number_of_retained_transactions() {
    let mut manager = UndoManager::new();
    for offset in 0..1_100 {
        manager.record_transaction(typing_change(offset, "a"), EditIntent::Atomic);
    }
    for _ in 0..MAX_UNDO_TRANSACTIONS {
        assert!(manager.undo().is_some());
    }
    assert!(manager.undo().is_none());
}

#[test]
fn splits_a_coalesced_transaction_before_its_change_list_grows_too_large() {
    let mut manager = UndoManager::new();
    for offset in 0..1_100 {
        manager.record_transaction(typing_change(offset, "a"), EditIntent::Typing);
    }
    assert_eq!(manager.undo().unwrap().changes.len(), 100);
    assert_eq!(manager.undo().unwrap().changes.len(), MAX_CHANGES_PER_TRANSACTION);
    assert!(manager.undo().is_none());
}

#[test]
fn selection_travels_with_change() {
    let change = Change::new(
        2..4,
        "cd",
        2..2,
        "",
        Selection::new(2, 4),
        Selection::new(2, 2).with_goal(SelectionGoal::Unset),
    );
    assert_eq!(change.selection_before.head(), 2);
    assert_eq!(change.selection_before.tail(), 4);
    assert_eq!(change.selection_after.head(), 2);
}

#[test]
fn undo_then_redo_gives_the_same_step_back() {
    let mut manager = UndoManager::new();
    manager.record_transaction(typing_change(0, "a"), EditIntent::Atomic);
    manager.record_transaction(typing_change(1, "b"), EditIntent::Atomic);
    let undone = manager.undo().unwrap();
    assert_eq!(undone.changes[0].new_text, "b");
    assert_eq!(undone.selections, vec![Selection::new(1, 1)]);
    let redone = manager.redo().unwrap();
    assert_eq!(redone.changes[0].new_text, "b");
    assert_eq!(redone.selections, vec![Selection::new(2, 2)]);
    // and the history is as before: undo again takes "b" back first
    assert_eq!(manager.undo().unwrap().changes[0].new_text, "b");
    assert_eq!(manager.undo().unwrap().changes[0].new_text, "a");
    assert!(manager.undo().is_none());
}

#[test]
fn redo_then_undo_gives_the_same_step_back() {
    let mut manager = UndoManager::new();
    manager.record_transaction(typing_change(0, "a"), EditIntent::Atomic);
    manager.undo().unwrap();
    let redone = manager.redo().unwrap();
    assert_eq!(redone.changes[0].new_text, "a");
    let undone = manager.undo().unwrap();
    assert_eq!(undone.changes[0].new_text, "a");
    assert!(manager.undo().is_none());
}

#[test]
fn empty_history_has_nothing_to_undo_or_redo() {
    let mut manager = UndoManager::new();
    assert!(manager.undo().is_none());
    assert!(manager.redo().is_none());
}

#[test]
fn backspaces_coalesce_backwards() {
    let mut manager = UndoManager::new();
    manager.record_transaction(deletion(2, 3, "c"), EditIntent::Backspace);
    manager.record_transaction(deletion(1, 2, "b"), EditIntent::Backspace);
    // not adjacent: a deletion elsewhere starts a new transaction
    manager.record_transaction(deletion(5, 6, "x"), EditIntent::Backspace);
    assert_eq!(manager.undo().unwrap().changes.len(), 1);
    let step = manager.undo().unwrap();
    assert_eq!(step.changes.len(), 2);
    // undo replays backwards: the later deletion ("b") comes first
    assert_eq!(step.changes[0].old_text, "b");
    assert_eq!(step.selections, vec![Selection::new(3, 3)]);
}

#[test]
fn forward_deletes_coalesce_at_one_place() {
    let mut manager = UndoManager::new();
    manager.record_transaction(deletion(1, 2, "b"), EditIntent::DeleteForward);
    manager.record_transaction(deletion(1, 2, "c"), EditIntent::DeleteForward);
    assert_eq!(manager.undo().unwrap().changes.len(), 2);
    assert!(manager.undo().is_none());
}

#[test]
fn atomic_edits_never_coalesce() {
    let mut manager = UndoManager::new();
    manager.record_transaction(typing_change(0, "a"), EditIntent::Atomic);
    manager.record_transaction(typing_change(1, "b"), EditIntent::Typing);
    assert_eq!(manager.undo().unwrap().changes.len(), 1);
    assert_eq!(manager.undo().unwrap().changes.len(), 1);
}

#[test]
fn an_edit_that_changes_nothing_only_ends_the_run() {
    let mut manager = UndoManager::new();
    manager.record_transaction(typing_change(0, "a"), EditIntent::Typing);
    manager.record_transaction(change_at(1, "", ""), EditIntent::Typing);
    manager.record_transaction(typing_change(1, "b"), EditIntent::Typing);
    assert_eq!(manager.undo().unwrap().changes.len(), 1);
    assert_eq!(manager.undo().unwrap().changes.len(), 1);
    assert!(manager.undo().is_none());
}

#[test]
fn clear_forgets_everything() {
    let mut manager = UndoManager::new();
    manager.record_transaction(typing_change(0, "a"), EditIntent::Atomic);
    manager.record_transaction(typing_change(1, "b"), EditIntent::Atomic);
    manager.undo();
    manager.clear();
    assert!(manager.undo().is_none());
    assert!(manager.redo().is_none());
}

#[test]
fn undo_commits_an_open_transaction_first() {
    let mut manager = UndoManager::new();
    manager.begin_transaction(vec![Selection::new(0, 0)]);
    manager.record_transaction(change_at(0, "", "x"), EditIntent::Atomic);
    let step = manager.undo().unwrap();
    assert_eq!(step.changes.len(), 1);
    assert_eq!(step.selections, vec![Selection::new(0, 0)]);
}

#[test]
fn empty_explicit_transaction_records_nothing() {
    let mut manager = UndoManager::new();
    manager.begin_transaction(vec![Selection::new(0, 0)]);
    manager.commit_transaction(vec![Selection::new(0, 0)]);
    assert!(manager.undo().is_none());
}
