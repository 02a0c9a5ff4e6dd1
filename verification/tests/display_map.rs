use std::ops::Range;

use gpui_kit::display_map::{DisplayMap, DisplayPoint, DisplayRow};
use gpui_kit::point::Point;

/// Breaks each row every `width` bytes (a stand-in for measured widths).
fn segments_for(line_len: usize, width: usize) -> Vec<Range<usize>> {
    if line_len <= width {
        return Vec::new();
    }
    let mut segments = Vec::new();
    let mut start = 0;
    while start < line_len {
        let end = (start + width).min(line_len);
        segments.push(start..end);
        start = end;
    }
    segments
}

fn wrap_all(map: &mut DisplayMap, text: &str, width: usize) {
    for (row, line) in text.split('\n').enumerate() {
        map.set_row_segments(row as u32, segments_for(line.len(), width));
    }
}

#[test]
fn test_identity_without_wrap() {
    let map = DisplayMap::new(3);
    assert_eq!(map.buffer_point_to_display_point(Point::new(1, 1)), DisplayPoint::new(1, 1));
    assert_eq!(map.display_point_to_buffer_point(DisplayPoint::new(2, 0)), Point::new(2, 0));
    assert_eq!(map.max_display_row(), 2);
}

#[test]
fn test_wrap_expands_display_rows() {
    let mut map = DisplayMap::new(3);
    wrap_all(&mut map, "abcdef\nx\nghijkl", 4);
    assert_eq!(map.display_row_for_buffer_row(0), DisplayRow(0));
    assert_eq!(map.display_row_for_buffer_row(1), DisplayRow(2));
    assert_eq!(map.display_row_for_buffer_row(2), DisplayRow(3));
    assert_eq!(map.max_display_row(), 4);
}

#[test]
fn test_point_mapping_roundtrip_with_wrap() {
    let mut map = DisplayMap::new(2);
    wrap_all(&mut map, "abcdef\ngh", 4);

    let display = map.buffer_point_to_display_point(Point::new(0, 5));
    assert_eq!(display, DisplayPoint::new(1, 1));
    assert_eq!(map.display_point_to_buffer_point(display), Point::new(0, 5));

    let display = map.buffer_point_to_display_point(Point::new(1, 1));
    assert_eq!(display, DisplayPoint::new(2, 1));
    assert_eq!(map.display_point_to_buffer_point(display), Point::new(1, 1));

    assert_eq!(map.display_row_len(1), Some(2));
    assert_eq!(map.display_row_len(2), None, "an unwrapped row's width is on the buffer side");
}

/// Every buffer point comes back from its display point, for many texts
/// and wrap widths (an exhaustive sweep in place of random sampling).
#[test]
fn test_property_random_wraps_roundtrip() {
    let lengths = [0usize, 1, 3, 7, 12, 29];
    for rows in 1..6usize {
        for width in 1..20usize {
            let mut text = String::new();
            for r in 0..rows {
                let len = lengths[(r * 7 + width) % lengths.len()];
                for i in 0..len {
                    text.push((b'a' + (i % 26) as u8) as char);
                }
                if r + 1 < rows {
                    text.push('\n');
                }
            }
            let mut map = DisplayMap::new(rows as u32);
            wrap_all(&mut map, &text, width);
            for (row, line) in text.split('\n').enumerate() {
                for col in 0..=line.len() {
                    let buffer = Point::new(row as u32, col as u32);
                    let display = map.buffer_point_to_display_point(buffer);
                    assert_eq!(
                        map.display_point_to_buffer_point(display),
                        buffer,
                        "roundtrip failed: text={text:?} width={width} buffer={buffer:?}"
                    );
                }
            }
        }
    }
}

#[test]
fn summary_counts_buffer_and_display_rows() {
    let mut map = DisplayMap::new(3);
    wrap_all(&mut map, "abcdef\nx\nghijkl", 4);
    let summary = map.summary();
    assert_eq!(summary.buffer_lines(), 3);
    assert_eq!(summary.display_lines(), 5);
    assert_eq!(map.buffer_rows(), 3);
}

#[test]
fn snapshot_answers_like_the_map() {
    let mut map = DisplayMap::new(2);
    wrap_all(&mut map, "abcdef\ngh", 4);
    let snapshot = map.snapshot();
    assert_eq!(snapshot.max_display_row(), map.max_display_row());
    assert_eq!(snapshot.buffer_rows(), 2);
    assert_eq!(snapshot.buffer_point_to_display_point(Point::new(0, 5)), DisplayPoint::new(1, 1));
    assert_eq!(snapshot.display_point_to_buffer_point(DisplayPoint::new(2, 1)), Point::new(1, 1));
    assert_eq!(snapshot.display_row_len(0), Some(4));
}

#[test]
fn rows_past_the_end_are_left_alone() {
    let mut map = DisplayMap::new(1);
    map.set_row_segments(5, vec![0..2, 2..4]);
    assert_eq!(map.max_display_row(), 0);
    assert_eq!(map.display_row_for_buffer_row(3), DisplayRow(1));
}

#[test]
fn row_end_maps_to_the_end_of_the_last_segment() {
    let mut map = DisplayMap::new(1);
    wrap_all(&mut map, "abcdef", 4);
    let display = map.buffer_point_to_display_point(Point::new(0, 6));
    assert_eq!(display, DisplayPoint::new(1, 2));
    assert_eq!(map.display_point_to_buffer_point(display), Point::new(0, 6));
}
