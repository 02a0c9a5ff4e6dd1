use gpui_kit::point::{OffsetUtf16, Point};
use gpui_kit::rope::Rope;

#[test]
fn rows_and_points() {
    let rope = Rope::from_str("ab\ncde\n\nf");
    assert_eq!(rope.len(), 9);
    assert_eq!(rope.max_row(), 3);
    assert_eq!(rope.line_len(1), 3);
    assert_eq!(rope.line_len(2), 0);
    assert_eq!(rope.line_len(9), 1, "a row past the end means the last row");
    assert_eq!(rope.offset_to_point(4), Point::new(1, 1));
    assert_eq!(rope.offset_to_point(100), Point::new(3, 1));
    assert_eq!(rope.point_to_offset(Point::new(1, 1)), 4);
    assert_eq!(rope.point_to_offset(Point::new(1, 9)), 6, "a column past the row clips to its end");
    assert_eq!(rope.point_to_offset(Point::new(7, 0)), 9);
}

#[test]
fn offsets_and_points_round_trip() {
    let rope = Rope::from_str("héllo\nwörld\n");
    for offset in 0..=rope.len() {
        assert_eq!(rope.point_to_offset(rope.offset_to_point(offset)), offset);
    }
}

#[test]
fn character_boundaries() {
    let rope = Rope::from_str("aé😀");
    assert!(rope.is_char_boundary(1));
    assert!(!rope.is_char_boundary(2));
    assert!(rope.is_char_boundary(3));
    assert!(!rope.is_char_boundary(9));
    assert_eq!(rope.floor_char_boundary(2), 1);
    assert_eq!(rope.ceil_char_boundary(2), 3);
    assert_eq!(rope.floor_char_boundary(5), 3);
    assert_eq!(rope.ceil_char_boundary(5), 7);
    assert_eq!(rope.ceil_char_boundary(50), 7);
}

#[test]
fn replace_and_read_back() {
    let mut rope = Rope::new();
    rope.replace(0..0, "hello world");
    rope.replace(6..11, "rope");
    assert_eq!(rope.to_string(), "hello rope");
    assert_eq!(rope.text_in_range(0..5), "hello");
    assert_eq!(rope.str_in_range(6, 10), "rope");
}

#[test]
fn utf16_offsets() {
    let rope = Rope::from_str("a😀b");
    assert_eq!(rope.offset_to_offset_utf16(0), OffsetUtf16(0));
    assert_eq!(rope.offset_to_offset_utf16(5), OffsetUtf16(3));
    assert_eq!(rope.offset_to_offset_utf16(6), OffsetUtf16(4));
    assert_eq!(rope.offset_utf16_to_offset(OffsetUtf16(3)), 5);
    assert_eq!(rope.offset_utf16_to_offset(OffsetUtf16(2)), 5);
    assert_eq!(rope.offset_utf16_to_offset(OffsetUtf16(40)), 6);
}
