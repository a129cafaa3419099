use gooey::container::{Container, ContainerTransmogrifier};
use gooey::geometry::{Point, Rect, Size, Vector};
use gooey::raster::{
    border_fills, content_area_within, content_constraints, BorderFill, ContentArea, ContentSize,
    EventStatus, SizeConstraints,
};
use gooey::style::{Border, BorderOptions, Color, Surround};

fn side(width: i64, color: u32) -> Option<BorderOptions> {
    Some(BorderOptions { width, color: Color(color) })
}

fn padded() -> Surround {
    Surround { left: Some(1), top: Some(2), right: Some(3), bottom: Some(4) }
}

fn bordered() -> Border {
    Border { left: side(10, 1), top: side(20, 2), right: side(30, 3), bottom: side(40, 4) }
}

#[test]
fn minimum_sizes_add_opposite_sides() {
    assert_eq!(padded().minimum_size(), Size { width: 4, height: 6 });
    assert_eq!(padded().minimum_width(), 4);
    assert_eq!(padded().minimum_height(), 6);
    assert_eq!(bordered().minimum_size(), Size { width: 40, height: 60 });
    assert_eq!(Surround::default().minimum_size(), Size { width: 0, height: 0 });
    assert_eq!(Border::default().minimum_size(), Size { width: 0, height: 0 });
}

#[test]
fn total_size_adds_padding_and_border() {
    let size = ContentSize { content: Size { width: 100, height: 50 }, padding: padded(), border: bordered() };
    assert_eq!(size.total_size(), Size { width: 144, height: 116 });
    assert_eq!(ContentSize::default().total_size(), Size { width: 0, height: 0 });
}

#[test]
fn bounds_include_padding_and_border() {
    let area = ContentArea {
        location: Point { x: 100, y: 200 },
        size: ContentSize { content: Size { width: 10, height: 20 }, padding: padded(), border: bordered() },
    };
    assert_eq!(area.content_bounds(), Rect { origin: Point { x: 100, y: 200 }, size: Size { width: 10, height: 20 } });
    let bounds = area.bounds();
    assert_eq!(bounds.origin, Point { x: 100 - 11, y: 200 - 22 });
    assert_eq!(bounds.size, Size { width: 54, height: 86 });
    // The whole bounds are as big as the total size.
    assert_eq!(bounds.size, area.size.total_size());
}

#[test]
fn sized_area_bounds_are_its_content_bounds() {
    let area = ContentArea::sized(Size { width: 7, height: 9 });
    assert_eq!(area.location, Point { x: 0, y: 0 });
    assert_eq!(area.bounds(), area.content_bounds());
    assert_eq!(area.bounds(), Rect { origin: Point { x: 0, y: 0 }, size: Size { width: 7, height: 9 } });
    assert_eq!(ContentArea::default(), ContentArea::sized(Size { width: 0, height: 0 }));
}

#[test]
fn translate_moves_location_and_bounds() {
    let area = ContentArea {
        location: Point { x: 5, y: 6 },
        size: ContentSize { content: Size { width: 10, height: 20 }, padding: padded(), border: bordered() },
    };
    let moved = area.translate(Vector { x: 3, y: -4 });
    assert_eq!(moved.location, Point { x: 8, y: 2 });
    assert_eq!(moved.size, area.size);
    let b0 = area.bounds();
    let b1 = moved.bounds();
    assert_eq!(b1.origin, Point { x: b0.origin.x + 3, y: b0.origin.y - 4 });
    assert_eq!(b1.size, b0.size);
    let twice = area.translate(Vector { x: 3, y: -4 }).translate(Vector { x: 1, y: 1 });
    assert_eq!(twice, area.translate(Vector { x: 4, y: -3 }));
}

#[test]
fn content_area_fills_the_bounds() {
    let area = content_area_within(Size { width: 200, height: 100 }, padded(), bordered());
    assert_eq!(area.size.content, Size { width: 156, height: 34 });
    assert_eq!(area.location, Point { x: 22, y: 33 });
    assert_eq!(area.size.total_size(), Size { width: 200, height: 100 });
    assert_eq!(area.size.padding, padded());
    assert_eq!(area.size.border, bordered());
}

#[test]
fn content_area_never_goes_negative() {
    let area = content_area_within(Size { width: 10, height: 5 }, padded(), bordered());
    assert_eq!(area.size.content, Size { width: 0, height: 0 });
    assert_eq!(area.location, Point { x: 5, y: 2 });
}

#[test]
fn content_constraints_take_off_padding_and_border() {
    let c = content_constraints(SizeConstraints { width: Some(100), height: None }, padded(), bordered());
    assert_eq!(c, SizeConstraints { width: Some(56), height: None });
    let c = content_constraints(SizeConstraints { width: None, height: Some(10) }, padded(), bordered());
    assert_eq!(c, SizeConstraints { width: None, height: Some(-56) });
}

#[test]
fn border_fills_in_drawing_order() {
    let bounds = Rect { origin: Point { x: 0, y: 0 }, size: Size { width: 100, height: 80 } };
    let fills = border_fills(bounds, &bordered());
    assert_eq!(
        fills,
        vec![
            BorderFill { rect: Rect { origin: Point { x: 0, y: 0 }, size: Size { width: 100, height: 20 } }, color: Color(2) },
            BorderFill { rect: Rect { origin: Point { x: 0, y: 40 }, size: Size { width: 100, height: 40 } }, color: Color(4) },
            BorderFill { rect: Rect { origin: Point { x: 0, y: 20 }, size: Size { width: 10, height: 40 } }, color: Color(1) },
            // The right side is filled with the left side's color.
            BorderFill { rect: Rect { origin: Point { x: 70, y: 20 }, size: Size { width: 30, height: 40 } }, color: Color(1) },
        ]
    );
}

#[test]
fn border_sides_without_width_are_not_drawn() {
    let bounds = Rect { origin: Point { x: 3, y: 4 }, size: Size { width: 100, height: 80 } };
    let border = Border { left: side(0, 1), top: side(5, 2), right: None, bottom: side(-1, 4) };
    let fills = border_fills(bounds, &border);
    assert_eq!(
        fills,
        vec![BorderFill { rect: Rect { origin: Point { x: 3, y: 4 }, size: Size { width: 100, height: 5 } }, color: Color(2) }]
    );
    assert!(border_fills(bounds, &Border::default()).is_empty());
}

#[test]
fn container_padding_builders() {
    let c = Container::new("child").pad_left(1).pad_right(2).pad_top(3).pad_bottom(4);
    assert_eq!(c.child, "child");
    assert_eq!(c.padding, Surround { left: Some(1), top: Some(3), right: Some(2), bottom: Some(4) });
    let plain = Container::new(7u8);
    assert_eq!(plain.padding, Surround::default());
    assert_eq!(plain.pad_left(9).padding, Surround { left: Some(9), top: None, right: None, bottom: None });
}

#[test]
fn container_centers_its_child() {
    let t = ContainerTransmogrifier;
    let area = ContentArea::sized(Size { width: 101, height: 50 });
    let child = ContentSize { content: Size { width: 10, height: 10 }, padding: padded(), border: Border::default() };
    let r = t.child_bounds(&area, &child);
    assert_eq!(r, Rect { origin: Point { x: 43, y: 17 }, size: Size { width: 14, height: 16 } });
    // Space left of the child is at most one unit less than space right of it.
    assert_eq!(101 - (r.origin.x + r.size.width), 44);
    assert_eq!(
        t.child_constraints(&area),
        SizeConstraints { width: Some(101), height: Some(50) }
    );
    assert_eq!(t.measure_content(Some(Size { width: 3, height: 4 })), Size { width: 3, height: 4 });
    assert_eq!(t.measure_content(None), Size { width: 0, height: 0 });
}

#[test]
fn container_child_larger_than_content_is_offset_toward_zero() {
    let t = ContainerTransmogrifier;
    let area = ContentArea::sized(Size { width: 10, height: 10 });
    let child = ContentSize { content: Size { width: 15, height: 10 }, padding: Surround::default(), border: Border::default() };
    let r = t.child_bounds(&area, &child);
    assert_eq!(r.origin, Point { x: -2, y: 0 });
}

#[test]
fn event_status_values() {
    assert_ne!(EventStatus::Ignored, EventStatus::Processed);
    let s = EventStatus::Processed;
    assert_eq!(s, EventStatus::Processed);
}

#[test]
fn geometry_constructors() {
    assert_eq!(Size::new(1, 2), Size { width: 1, height: 2 });
    assert_eq!(Point::new(3, 4), Point { x: 3, y: 4 });
    assert_eq!(Vector::new(5, 6), Vector { x: 5, y: 6 });
    assert_eq!(Rect::sized(Point::new(1, 1), Size::new(2, 2)), Rect { origin: Point { x: 1, y: 1 }, size: Size { width: 2, height: 2 } });
}
