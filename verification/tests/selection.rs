use std::ops::Range;

use gpui_kit::selection::{Selection, SelectionGoal};

#[test]
fn test_head_tail_reversal() {
    let mut s = Selection::new(5, 5);
    assert!(s.is_empty());
    assert_eq!(s.head(), 5);

    s.set_head(2, SelectionGoal::Unset);
    assert!(s.reversed);
    assert_eq!(s.head(), 2);
    assert_eq!(s.tail(), 5);

    s.set_head(7, SelectionGoal::Unset);
    assert!(!s.reversed);
    assert_eq!(s.head(), 7);
    assert_eq!(s.tail(), 5);
    assert_eq!(Range::from(&s), 5..7);
}

#[test]
fn test_collapse() {
    let mut s = Selection::new(2, 8);
    s.collapse_to(4, SelectionGoal::HorizontalPosition(12));
    assert!(s.is_empty());
    assert!(!s.reversed);
    assert_eq!(s.goal, SelectionGoal::HorizontalPosition(12));
}

#[test]
fn test_set_head_tail_direction() {
    let s = Selection::new(3, 9);
    assert!(s.reversed);
    assert_eq!(Range::from(&s), 3..9);
    assert_eq!(s.head(), 3);
    assert_eq!(s.tail(), 9);
}

#[test]
fn set_tail_keeps_head() {
    let mut s = Selection::new(4, 6);
    s.set_tail(9, SelectionGoal::Unset);
    assert_eq!(s.head(), 4);
    assert_eq!(s.tail(), 9);
    assert!(s.reversed);
    s.set_tail(1, SelectionGoal::Unset);
    assert_eq!(s.head(), 4);
    assert_eq!(s.tail(), 1);
    assert!(!s.reversed);
    assert_eq!(s.range(), 1..4);
}

#[test]
fn set_head_tail_and_goal() {
    let mut s = Selection::default();
    assert_eq!(s, Selection::new(0, 0));
    s.set_head_tail(2, 7, SelectionGoal::HorizontalPosition(3));
    assert_eq!((s.start, s.end, s.reversed), (2, 7, true));
    assert_eq!(s.goal, SelectionGoal::HorizontalPosition(3));
    let t = s.with_goal(SelectionGoal::Unset);
    assert_eq!((t.start, t.end, t.reversed, t.goal), (2, 7, true, SelectionGoal::Unset));
}

#[test]
fn selection_from_range_is_forward() {
    let s = Selection::from(3..8);
    assert_eq!(s.head(), 8);
    assert_eq!(s.tail(), 3);
    assert!(!s.reversed);
}
