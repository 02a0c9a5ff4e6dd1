use gpui_kit::point::{OffsetUtf16, Point, PointUtf16};

#[test]
fn points_add_and_subtract() {
    assert_eq!(Point::new(1, 2) + Point::new(0, 3), Point::new(1, 5));
    assert_eq!(Point::new(1, 2) + Point::new(2, 3), Point::new(3, 3));
    assert_eq!(Point::new(3, 3) - Point::new(2, 3), Point::new(1, 3));
    assert_eq!(Point::new(1, 5) - Point::new(1, 2), Point::new(0, 3));
}

#[test]
fn subtracting_the_start_gives_the_motion_back() {
    let a = Point::new(2, 7);
    for b in [Point::new(0, 4), Point::new(3, 1), Point::zero()] {
        assert_eq!((a + b) - a, b);
    }
}

#[test]
fn saturating_sub_stops_at_zero() {
    assert_eq!(Point::new(1, 2).saturating_sub(Point::new(3, 0)), Point::zero());
    assert_eq!(Point::new(2, 5).saturating_sub(Point::new(2, 3)), Point::new(0, 2));
    assert_eq!(Point::new(2, 1).saturating_sub(Point::new(2, 3)), Point::zero());
    assert_eq!(Point::new(4, 1).saturating_sub(Point::new(2, 3)), Point::new(2, 1));
    assert!(Point::zero().is_zero());
    assert!(!Point::new(0, 1).is_zero());
}

#[test]
fn points_order_by_row_then_column() {
    assert!(Point::new(0, 9).lt(&Point::new(1, 0)));
    assert!(Point::new(1, 1).lt(&Point::new(1, 2)));
    assert!(!Point::new(1, 2).lt(&Point::new(1, 2)));
}

#[test]
fn utf16_points_and_offsets() {
    assert_eq!(PointUtf16::new(1, 2) + PointUtf16::new(0, 1), PointUtf16::new(1, 3));
    assert_eq!(PointUtf16::new(2, 2) - PointUtf16::new(1, 5), PointUtf16::new(1, 2));
    assert_eq!(PointUtf16::zero(), PointUtf16::new(0, 0));
    assert_eq!(OffsetUtf16(3) + OffsetUtf16(4), OffsetUtf16(7));
    assert_eq!(OffsetUtf16(7) - OffsetUtf16(4), OffsetUtf16(3));
    assert_eq!(OffsetUtf16::zero(), OffsetUtf16(0));
    assert!(OffsetUtf16(5).eq_count(5));
    assert!(!OffsetUtf16(5).eq_count(4));
}
