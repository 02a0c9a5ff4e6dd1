use gpui_kit::layout::{caret_column, row_runs, selection_span};
use gpui_kit::selection::Selection;

#[test]
fn row_runs_cut_around_the_composition() {
    assert_eq!(row_runs(&Some(2..4), false, 0, 6), vec![(2, false), (2, true), (2, false)]);
    assert_eq!(row_runs(&Some(7..9), false, 5, 6), vec![(2, false), (2, true), (2, false)]);
}

#[test]
fn row_runs_leave_out_empty_parts() {
    assert_eq!(row_runs(&Some(0..3), false, 0, 3), vec![(3, true)]);
    assert_eq!(row_runs(&Some(1..3), false, 0, 3), vec![(1, false), (2, true)]);
    assert_eq!(row_runs(&Some(2..4), false, 10, 5), vec![(5, false)]);
    assert_eq!(row_runs(&Some(2..2), false, 0, 5), vec![(2, false), (3, false)]);
}

#[test]
fn row_runs_clip_the_composition_to_the_row() {
    assert_eq!(row_runs(&Some(3..20), false, 0, 5), vec![(3, false), (2, true)]);
    assert_eq!(row_runs(&Some(0..7), false, 5, 4), vec![(2, true), (2, false)]);
}

#[test]
fn row_runs_without_composition_or_over_placeholder() {
    assert_eq!(row_runs(&None, false, 0, 4), vec![(4, false)]);
    assert_eq!(row_runs(&Some(0..1), true, 0, 4), vec![(4, false)]);
    assert_eq!(row_runs(&None, false, 3, 0), vec![(0, false)]);
}

#[test]
fn selection_span_clamps_to_the_row() {
    let selection = Selection::new(5, 1);
    assert_eq!(selection_span(&selection, &(0..3)), Some((1, 3)));
    assert_eq!(selection_span(&selection, &(4..7)), Some((0, 1)));
    assert_eq!(selection_span(&selection, &(6..9)), None);
}

#[test]
fn selection_span_covers_an_empty_row_inside_it() {
    let selection = Selection::new(6, 2);
    assert_eq!(selection_span(&selection, &(4..4)), Some((0, 0)));
    let touching = Selection::new(3, 0);
    assert_eq!(selection_span(&touching, &(3..5)), None);
    let caret = Selection::new(4, 4);
    assert_eq!(selection_span(&caret, &(4..4)), None);
}

#[test]
fn caret_column_on_its_row() {
    let caret = Selection::new(3, 3);
    assert_eq!(caret_column(&caret, &(0..3)), Some(3));
    assert_eq!(caret_column(&caret, &(3..5)), Some(0));
    assert_eq!(caret_column(&caret, &(4..6)), None);
    assert_eq!(caret_column(&Selection::new(3, 1), &(0..3)), None);
}
