use gpui_kit::display_map::{DisplayMap, DisplayPoint};
use gpui_kit::movement::{
    down, left, line_beginning, line_end, next_word_end, previous_word_start, right,
    saturating_left, saturating_right, up, word_around, word_end_after, word_start_before,
};
use gpui_kit::rope::Rope;
use gpui_kit::selection::SelectionGoal;

fn setup(text: &str, width: usize) -> (DisplayMap, Rope) {
    let rope = Rope::from_str(text);
    let mut map = DisplayMap::new(rope.max_row() + 1);
    for (row, line) in text.split('\n').enumerate() {
        let segments = if line.len() > width {
            let mut segments = Vec::new();
            let mut start = 0;
            while start < line.len() {
                let end = (start + width).min(line.len());
                segments.push(start..end);
                start = end;
            }
            segments
        } else {
            Vec::new()
        };
        map.set_row_segments(row as u32, segments);
    }
    (map, rope)
}

fn dp(row: u32, column: u32) -> DisplayPoint {
    DisplayPoint::new(row, column)
}

#[test]
fn test_left_right_within_row() {
    let (map, rope) = setup("abcdef", 100);
    let p = dp(0, 3);
    assert_eq!(left(&map, &rope, p), dp(0, 2));
    assert_eq!(right(&map, &rope, p), dp(0, 4));
    let end = dp(0, 6);
    assert_eq!(saturating_right(&map, &rope, end), None);
    assert_eq!(saturating_left(&map, &rope, dp(0, 0)), None);
}

#[test]
fn test_left_right_across_wrap() {
    let (map, rope) = setup("abcdef", 4);
    assert_eq!(saturating_left(&map, &rope, dp(0, 0)), None);
    assert_eq!(left(&map, &rope, dp(1, 0)), dp(0, 3));
    assert_eq!(right(&map, &rope, dp(0, 3)), dp(1, 0));
}

#[test]
fn test_up_down_with_goal() {
    let (map, rope) = setup("abcdefgh\nxyz", 4);
    let (p, goal) = up(&map, &rope, dp(1, 2), SelectionGoal::Unset);
    assert_eq!(p, dp(0, 2));
    assert_eq!(goal, SelectionGoal::HorizontalPosition(2));

    let (p, _) = down(&map, &rope, p, goal);
    assert_eq!(p, dp(1, 2));

    let (p, _) = down(&map, &rope, dp(1, 2), SelectionGoal::Unset);
    assert_eq!(p, dp(2, 2));
}

#[test]
fn test_line_beginning_indented() {
    let (map, rope) = setup("    hello", 100);
    let p = dp(0, 7);
    assert_eq!(line_beginning(&map, &rope, p, true), dp(0, 4));
    assert_eq!(line_beginning(&map, &rope, dp(0, 4), true), dp(0, 0));
    assert_eq!(line_end(&map, &rope, p), dp(0, 9));
}

#[test]
fn test_word_movement() {
    let (map, rope) = setup("hello world foo", 100);
    let p = dp(0, 5);
    assert_eq!(previous_word_start(&map, &rope, p), dp(0, 0));
    assert_eq!(next_word_end(&map, &rope, dp(0, 0)), dp(0, 5));
    assert_eq!(next_word_end(&map, &rope, dp(0, 5)), dp(0, 11));
}

#[test]
fn left_steps_over_a_whole_character() {
    let (map, rope) = setup("aé", 100);
    // 'é' takes two bytes: left from the end lands before it
    assert_eq!(left(&map, &rope, dp(0, 3)), dp(0, 1));
    assert_eq!(right(&map, &rope, dp(0, 1)), dp(0, 3));
}

#[test]
fn up_stays_on_the_first_row_and_down_ends_the_last() {
    let (map, rope) = setup("abc\nde", 100);
    let (p, goal) = up(&map, &rope, dp(0, 2), SelectionGoal::HorizontalPosition(1));
    assert_eq!(p, dp(0, 2));
    assert_eq!(goal, SelectionGoal::Unset);
    let (p, _) = down(&map, &rope, dp(1, 1), SelectionGoal::Unset);
    assert_eq!(p, dp(1, 2));
}

#[test]
fn line_beginning_without_indent_goes_to_column_zero() {
    let (map, rope) = setup("hello", 100);
    assert_eq!(line_beginning(&map, &rope, dp(0, 3), true), dp(0, 0));
    assert_eq!(line_beginning(&map, &rope, dp(0, 3), false), dp(0, 0));
}

#[test]
fn words_in_plain_text() {
    assert_eq!(word_start_before("hello world", 8), Some(6));
    assert_eq!(word_start_before("  hello", 2), None);
    assert_eq!(word_end_after("hello world", 5), 11);
    assert_eq!(word_end_after("hello   ", 5), 8);
    assert_eq!(word_around("hello world", 7), Some((6, 11)));
    assert_eq!(word_around("a  b", 2), None);
}
