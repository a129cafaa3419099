use gooey::button::{ButtonTransmogrifier, BUTTON_PADDING};
use gooey::geometry::{Point, Rect, Size};
use gooey::text::TextMetrics;

fn label() -> TextMetrics {
    TextMetrics { width: 12_000, ascent: 8_000, descent: -2_000, line_gap: 1_000 }
}

#[test]
fn button_size_is_label_with_padding() {
    let t = ButtonTransmogrifier;
    assert_eq!(BUTTON_PADDING, 5_000);
    assert_eq!(t.content_size(Some(label())), Size { width: 22_000, height: 20_000 });
    assert_eq!(t.content_size(None), Size { width: 0, height: 0 });
}

#[test]
fn button_label_is_centered() {
    let t = ButtonTransmogrifier;
    let bounds = Rect { origin: Point { x: 0, y: 0 }, size: Size { width: 100_000, height: 40_000 } };
    assert_eq!(t.label_origin(bounds, label()), Point { x: 44_000, y: 23_000 });
    let moved = Rect { origin: Point { x: 10, y: 20 }, size: Size { width: 100_000, height: 40_000 } };
    assert_eq!(t.label_origin(moved, label()), Point { x: 44_010, y: 23_020 });
}
