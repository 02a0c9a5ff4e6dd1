use gpui_kit::editor::{Editor, EditorMode};
use gpui_kit::selection::Selection;
use gpui_kit::undo::EditIntent;

fn at(editor: &mut Editor, offset: usize) {
    editor.home();
    for _ in 0..offset {
        editor.move_right();
    }
}

#[test]
fn test_insert_and_value() {
    let mut editor = Editor::single_line().default_value("hello");
    editor.replace_selections(" world", EditIntent::Typing);
    assert_eq!(editor.value(), "hello world");
    assert_eq!(editor.selection().head(), 11, "the cursor collapses to the end of the insertion");
}

#[test]
fn test_undo_redo_restores_selection() {
    let mut editor = Editor::single_line().default_value("hello");
    assert_eq!(editor.selection(), Selection::new(5, 5));
    editor.replace_selections(" world", EditIntent::Typing);
    assert_eq!(editor.value(), "hello world");

    assert!(editor.undo());
    assert_eq!(editor.value(), "hello");
    assert_eq!(editor.selection().head(), 5, "undo restores the selection from before");

    assert!(editor.redo());
    assert_eq!(editor.value(), "hello world");
    assert_eq!(editor.selection().head(), 11);
}

#[test]
fn test_typing_coalesces_into_one_undo() {
    let mut editor = Editor::single_line();
    for c in ['a', 'b', 'c'] {
        editor.replace_selections(&c.to_string(), EditIntent::Typing);
    }
    assert_eq!(editor.value(), "abc");
    assert!(editor.undo());
    assert_eq!(editor.value(), "", "a run of typing is one undo step");
}

#[test]
fn test_paste_replaces_selection() {
    let mut editor = Editor::single_line().default_value("hello world");
    for _ in 0..5 {
        editor.select_left();
    }
    assert_eq!(editor.selection(), Selection::new(6, 11));
    editor.replace_selections("gpui", EditIntent::Atomic);
    assert_eq!(editor.value(), "hello gpui");
    assert!(editor.undo());
    assert_eq!(editor.value(), "hello world");
}

#[test]
fn test_multiline_newline_inherits_indent() {
    let mut editor = Editor::new(EditorMode::MultiLine { rows: 5 }).default_value("  fn main()");
    editor.end();
    editor.newline_core();
    assert_eq!(editor.value(), "  fn main()\n  ", "the new line keeps the indent");
}

#[test]
fn test_single_line_newline_submits_without_insert() {
    let mut editor = Editor::single_line().default_value("abc");
    editor.end();
    assert!(editor.newline(), "Enter submits in a single-line editor");
    assert_eq!(editor.value().len(), 3);
    editor.newline_core();
    assert_eq!(editor.value().len(), 4);
}

#[test]
fn test_multiline_vertical_movement() {
    let mut editor = Editor::new(EditorMode::MultiLine { rows: 3 }).default_value("abcd\nef\nghijk");
    at(&mut editor, 4);
    editor.move_vertical_core(1);
    assert_eq!(editor.selection().head(), 7, "moving down clamps to the end of a short row");
    editor.move_vertical_core(1);
    assert_eq!(editor.selection().head(), 10);
    editor.move_vertical_core(-1);
    assert_eq!(editor.selection().head(), 7, "moving up comes back to the second row");
}

#[test]
fn test_multiline_backspace_across_lines() {
    let mut editor = Editor::new(EditorMode::MultiLine { rows: 3 }).default_value("ab\ncd");
    at(&mut editor, 3);
    assert!(!editor.backspace());
    assert_eq!(editor.value(), "abcd");
    assert_eq!(editor.selection().head(), 2);
}

#[test]
fn test_backspace_at_boundary_rings_bell() {
    let mut editor = Editor::single_line().default_value("ab");
    editor.home();
    assert!(editor.backspace(), "backspace at the start reports the boundary");
    assert_eq!(editor.value().len(), 2);
}

#[test]
fn edit_then_undo_restores_text_and_selection() {
    let mut editor = Editor::new(EditorMode::MultiLine { rows: 3 }).default_value("one two");
    at(&mut editor, 3);
    editor.select_right();
    editor.select_right();
    let before = editor.selection();
    editor.replace_selections("--", EditIntent::Atomic);
    assert_eq!(editor.value(), "one--wo");
    assert!(editor.undo());
    assert_eq!(editor.value(), "one two");
    assert_eq!(editor.selection(), before);
}

#[test]
fn undo_then_redo_and_redo_then_undo_give_the_text_back() {
    let mut editor = Editor::single_line();
    editor.replace_selections("a", EditIntent::Atomic);
    editor.replace_selections("b", EditIntent::Atomic);
    assert!(editor.undo());
    assert_eq!(editor.value(), "a");
    assert!(editor.redo());
    assert_eq!(editor.value(), "ab");
    assert!(editor.undo());
    assert!(editor.undo());
    assert_eq!(editor.value(), "");
    assert!(!editor.undo(), "nothing left to undo");
    assert!(editor.redo());
    assert!(editor.undo());
    assert_eq!(editor.value(), "");
}

#[test]
fn a_new_edit_clears_redo() {
    let mut editor = Editor::single_line();
    editor.replace_selections("a", EditIntent::Atomic);
    assert!(editor.undo());
    editor.replace_selections("b", EditIntent::Atomic);
    assert!(!editor.redo());
    assert_eq!(editor.value(), "b");
}

#[test]
fn disabled_editor_ignores_edits() {
    let mut editor = Editor::single_line().default_value("abc").disabled(true);
    assert!(editor.is_disabled());
    editor.replace_selections("x", EditIntent::Typing);
    assert_eq!(editor.value(), "abc");
    editor.paste("y");
    assert_eq!(editor.value(), "abc");
}

#[test]
fn set_value_and_clear_drop_the_history() {
    let mut editor = Editor::single_line();
    editor.replace_selections("abc", EditIntent::Atomic);
    editor.set_value("xyz");
    assert_eq!(editor.value(), "xyz");
    assert_eq!(editor.selection(), Selection::new(3, 3));
    assert!(!editor.undo());
    editor.clear();
    assert_eq!(editor.value(), "");
    assert_eq!(editor.value().len(), 0);
}

#[test]
fn set_value_during_a_composition_keeps_it_going() {
    let mut editor = Editor::single_line();
    editor.replace_and_mark_text_in_range(None, "a", None);
    editor.set_value("xy");
    assert_eq!(editor.marked_range(), None);
    editor.replace_and_mark_text_in_range(None, "b", None);
    editor.replace_and_mark_text_in_range(None, "bc", None);
    assert_eq!(editor.value(), "xybc");
    assert_eq!(editor.marked_range(), Some(2..4));
    // the composition was already under way, so no new undo transaction
    // brackets these steps: each is an undo step of its own
    assert!(editor.undo());
    assert_eq!(editor.value(), "xyb");
    assert!(editor.undo());
    assert_eq!(editor.value(), "xy");
}

#[test]
fn default_value_keeps_the_editor_settings() {
    let editor = Editor::single_line().placeholder("Name").default_value("ab");
    assert_eq!(editor.value(), "ab");
    assert_eq!(editor.placeholder_text(), "Name");
    assert_eq!(editor.selection(), Selection::new(2, 2));
    assert_eq!(editor.marked_range(), None);
}

#[test]
fn builders_and_accessors() {
    let editor = Editor::new(EditorMode::AutoHeight { min_rows: 1, max_rows: 4 })
        .placeholder("Search")
        .submit_on_enter(true);
    assert_eq!(editor.placeholder_text(), "Search");
    assert!(editor.is_multi_line());
    assert_eq!(editor.mode(), EditorMode::AutoHeight { min_rows: 1, max_rows: 4 });
    assert!(!editor.is_disabled());
    assert_eq!(editor.marked_range(), None);
    assert!(EditorMode::SingleLine.is_single_line());
    assert!(EditorMode::MultiLine { rows: 2 }.is_multi_line());
}

#[test]
fn multi_line_submit_on_enter_submits() {
    let mut editor = Editor::new(EditorMode::MultiLine { rows: 3 }).submit_on_enter(true);
    assert!(editor.newline());
    assert_eq!(editor.value(), "");
    let mut editor = Editor::new(EditorMode::MultiLine { rows: 3 });
    assert!(!editor.newline());
    assert_eq!(editor.value(), "\n");
}

#[test]
fn movement_by_graphemes() {
    // "é" written as e + combining acute accent is one grapheme of three bytes
    let mut editor = Editor::single_line().default_value("ae\u{301}b");
    editor.home();
    editor.move_right();
    assert_eq!(editor.selection().head(), 1);
    editor.move_right();
    assert_eq!(editor.selection().head(), 4, "the combining accent is not cut off");
    editor.move_left();
    assert_eq!(editor.selection().head(), 1);
    assert_eq!(editor.previous_boundary(4), 1);
    assert_eq!(editor.next_boundary(1), 4);
    assert_eq!(editor.next_boundary(5), 5);
}

#[test]
fn moves_collapse_a_selection_first() {
    let mut editor = Editor::single_line().default_value("hello");
    editor.select_all();
    assert_eq!(editor.selection(), Selection::new(5, 0));
    editor.move_left();
    assert_eq!(editor.selection(), Selection::new(0, 0));
    editor.select_all();
    editor.move_right();
    assert_eq!(editor.selection(), Selection::new(5, 5));
}

#[test]
fn delete_removes_the_next_grapheme() {
    let mut editor = Editor::single_line().default_value("a😀b");
    at(&mut editor, 1);
    assert!(!editor.delete());
    assert_eq!(editor.value(), "ab");
    editor.end();
    assert!(editor.delete(), "delete at the end reports the boundary");
    assert_eq!(editor.value(), "ab");
}

#[test]
fn backspaces_coalesce_into_one_undo() {
    let mut editor = Editor::single_line().default_value("abcd");
    assert!(!editor.backspace());
    assert!(!editor.backspace());
    assert_eq!(editor.value(), "ab");
    assert!(editor.undo());
    assert_eq!(editor.value(), "abcd");
}

#[test]
fn single_line_ignores_vertical_motion() {
    let mut editor = Editor::single_line().default_value("abc");
    editor.home();
    editor.move_down();
    assert_eq!(editor.selection().head(), 0);
    editor.select_down();
    assert_eq!(editor.selection(), Selection::new(0, 0));
}

#[test]
fn vertical_motion_at_the_edges() {
    let mut editor = Editor::new(EditorMode::MultiLine { rows: 3 }).default_value("abc\nde");
    at(&mut editor, 2);
    editor.move_up();
    assert_eq!(editor.selection().head(), 0, "above the first row: the start");
    at(&mut editor, 5);
    editor.move_down();
    assert_eq!(editor.selection().head(), 6, "below the last row: the end");
    at(&mut editor, 2);
    editor.select_up();
    assert_eq!(editor.selection(), Selection::new(2, 2), "stretching up stays on the first row");
    editor.select_down();
    assert_eq!(editor.selection(), Selection::new(6, 2));
}

#[test]
fn vertical_motion_keeps_the_byte_column() {
    let mut editor = Editor::new(EditorMode::MultiLine { rows: 3 }).default_value("abcd\nxy\nefgh");
    at(&mut editor, 3);
    editor.move_down();
    assert_eq!(editor.selection().head(), 7, "clipped to the end of a shorter row");
    at(&mut editor, 2);
    editor.move_down();
    assert_eq!(editor.selection().head(), 7);
    editor.move_down();
    assert_eq!(editor.selection().head(), 10);
    editor.select_up();
    assert_eq!(editor.selection(), Selection::new(7, 10));
}

#[test]
fn vertical_motion_keeps_to_character_boundaries() {
    let mut editor = Editor::new(EditorMode::MultiLine { rows: 3 }).default_value("abc\né");
    at(&mut editor, 1);
    editor.move_down();
    // byte column 1 would fall inside "é" (bytes 4..6): it rounds down to its start
    assert_eq!(editor.selection().head(), 4);
}

#[test]
fn paste_flattens_line_breaks_in_a_single_line_editor() {
    let mut editor = Editor::single_line();
    editor.paste("a\nb\nc");
    assert_eq!(editor.value(), "a b c");
    let mut editor = Editor::new(EditorMode::MultiLine { rows: 3 });
    editor.paste("a\nb");
    assert_eq!(editor.value(), "a\nb");
}

#[test]
fn copy_and_cut_the_selection() {
    let mut editor = Editor::single_line().default_value("hello world");
    assert_eq!(editor.copy(), None);
    assert_eq!(editor.cut(), None);
    for _ in 0..5 {
        editor.select_left();
    }
    assert_eq!(editor.copy(), Some("world".to_string()));
    assert_eq!(editor.cut(), Some("world".to_string()));
    assert_eq!(editor.value(), "hello ");
    assert!(editor.undo());
    assert_eq!(editor.value(), "hello world");
}

#[test]
fn word_motion_and_deletion() {
    let mut editor = Editor::single_line().default_value("hello big world");
    assert_eq!(editor.previous_word_start_offset(15), 10);
    assert_eq!(editor.previous_word_start_offset(10), 6);
    assert_eq!(editor.previous_word_start_offset(3), 0);
    assert_eq!(editor.next_word_end_offset(0), 5);
    assert_eq!(editor.next_word_end_offset(5), 9);
    assert_eq!(editor.word_range_at(7), 6..9);
    assert_eq!(editor.word_range_at(5), 0..5);

    editor.move_to_previous_word_start();
    assert_eq!(editor.selection().head(), 10);
    editor.delete_to_previous_word_start();
    assert_eq!(editor.value(), "hello world");
    assert_eq!(editor.selection().head(), 6);
    editor.delete_to_next_word_end();
    assert_eq!(editor.value(), "hello ");
    editor.home();
    editor.move_to_next_word_end();
    assert_eq!(editor.selection().head(), 5);
    editor.end();
    editor.delete_to_next_word_end();
    assert_eq!(editor.value(), "hello ", "nothing after the end to delete");
}

#[test]
fn word_range_of_white_space_is_empty() {
    let editor = Editor::single_line().default_value("a   b");
    assert_eq!(editor.word_range_at(2), 2..2);
}

#[test]
fn utf16_offsets_count_surrogate_pairs() {
    let editor = Editor::single_line().default_value("a😀é");
    // a: 1 byte / 1 unit, 😀: 4 bytes / 2 units, é: 2 bytes / 1 unit
    assert_eq!(editor.offset_to_utf16(0), 0);
    assert_eq!(editor.offset_to_utf16(1), 1);
    assert_eq!(editor.offset_to_utf16(5), 3);
    assert_eq!(editor.offset_to_utf16(7), 4);
    assert_eq!(editor.offset_to_utf16(100), 4);
    assert_eq!(editor.offset_from_utf16(1), 1);
    assert_eq!(editor.offset_from_utf16(2), 5, "inside a surrogate pair rounds up");
    assert_eq!(editor.offset_from_utf16(3), 5);
    assert_eq!(editor.offset_from_utf16(4), 7);
    assert_eq!(editor.offset_from_utf16(9), 7);
    assert_eq!(editor.range_from_utf16(&(1..3)), 1..5);
    assert_eq!(editor.range_to_utf16(&(1..5)), 1..3);
    let (text, actual) = editor.text_for_range(1..3);
    assert_eq!(text, "😀");
    assert_eq!(actual, 1..3);
}

#[test]
fn selected_text_range_is_in_utf16() {
    let mut editor = Editor::single_line().default_value("😀ab");
    editor.select_left();
    let (range, reversed) = editor.selected_text_range();
    assert_eq!(range, 3..4);
    assert!(reversed);
}

#[test]
fn ime_composition_is_one_undo_step() {
    let mut editor = Editor::single_line().default_value("x");
    editor.replace_and_mark_text_in_range(None, "n", None);
    assert_eq!(editor.value(), "xn");
    assert_eq!(editor.marked_range(), Some(1..2));
    editor.replace_and_mark_text_in_range(None, "ni", Some(2..2));
    assert_eq!(editor.value(), "xni");
    assert_eq!(editor.marked_range(), Some(1..3));
    assert_eq!(editor.marked_text_range(), Some(1..3));
    assert_eq!(editor.selection(), Selection::new(3, 3));
    editor.replace_text_in_range(Some(1..3), "你");
    assert_eq!(editor.value(), "x你");
    assert_eq!(editor.marked_range(), None);
    assert_eq!(editor.selection(), Selection::new(4, 4));

    assert!(editor.undo());
    assert_eq!(editor.value(), "x", "the whole composition goes back at once");
    assert_eq!(editor.selection(), Selection::new(1, 1));
    assert!(!editor.undo());
    assert!(editor.redo());
    assert_eq!(editor.value(), "x你");
}

#[test]
fn composed_selection_counts_utf16_through_the_whole_text() {
    let mut editor = Editor::single_line().default_value("é");
    editor.replace_and_mark_text_in_range(None, "abcd", Some(2..2));
    assert_eq!(editor.value(), "éabcd");
    assert_eq!(editor.marked_range(), Some(2..6));
    assert_eq!(editor.selection(), Selection::new(5, 5));
}

#[test]
fn composed_selection_past_the_end_stops_at_the_end() {
    let mut editor = Editor::single_line().default_value("中");
    editor.replace_and_mark_text_in_range(None, "ab", Some(1..2));
    assert_eq!(editor.value(), "中ab");
    assert_eq!(editor.selection(), Selection::new(5, 5));
}

#[test]
fn composed_selection_inside_a_character_rounds_down() {
    let mut editor = Editor::single_line().default_value("a中");
    editor.home();
    editor.move_right();
    assert_eq!(editor.selection(), Selection::new(1, 1));
    editor.replace_and_mark_text_in_range(None, "b", Some(2..2));
    assert_eq!(editor.value(), "ab中");
    assert_eq!(editor.selection(), Selection::new(2, 2));
}

#[test]
fn unmark_text_ends_the_composition() {
    let mut editor = Editor::single_line();
    editor.replace_and_mark_text_in_range(None, "ab", Some(0..1));
    assert_eq!(editor.selection(), Selection::new(1, 0));
    editor.unmark_text();
    assert_eq!(editor.marked_range(), None);
    assert_eq!(editor.value(), "ab");
    editor.replace_selections("c", EditIntent::Atomic);
    assert_eq!(editor.value(), "cb");
    assert!(editor.undo());
    assert_eq!(editor.value(), "ab");
    assert!(editor.undo());
    assert_eq!(editor.value(), "");
}

#[test]
fn platform_text_without_range_types_over_the_selection() {
    let mut editor = Editor::single_line().default_value("ab");
    editor.replace_text_in_range(None, "c");
    editor.replace_text_in_range(None, "d");
    assert_eq!(editor.value(), "abcd");
    assert!(editor.undo());
    assert_eq!(editor.value(), "ab", "typing outside a composition coalesces");
}

#[test]
fn paste_flattens_line_breaks_between_wide_characters() {
    let mut editor = Editor::single_line();
    editor.paste("é\n中\r\n😀");
    assert_eq!(editor.value(), "é 中\r 😀");
}
