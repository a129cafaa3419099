//! Sizing and laying out a button's label.

use vstd::prelude::*;

use crate::geometry::{Point, Rect, Size};
use crate::raster::half;
use crate::style::fits_i64;
use crate::text::TextMetrics;

verus! {

/// The padding on each side of a button's label: five points.
pub const BUTTON_PADDING: i64 = 5000;

/// Lays out and draws a button.
#[derive(Debug)]
pub struct ButtonTransmogrifier;

impl ButtonTransmogrifier {
    /// The size a button takes: its label's measured size with the padding on
    /// every side, or nothing when there is nothing to measure the label with
    /// (`label` is `None`).
    pub fn content_size(&self, label: Option<TextMetrics>) -> (s: Size)
        requires
            label matches Some(m) ==> fits_i64(m.spec_height()) && fits_i64(m.width + 2 * BUTTON_PADDING)
                && fits_i64(m.spec_height() + 2 * BUTTON_PADDING),
        ensures
            s == (match label {
                Some(m) => Size {
                    width: (m.width + 2 * BUTTON_PADDING) as i64,
                    height: (m.spec_height() + 2 * BUTTON_PADDING) as i64,
                },
                None => Size { width: 0, height: 0 },
            }),
    {
        match label {
            Some(m) => Size { width: m.width + 2 * BUTTON_PADDING, height: m.height() + 2 * BUTTON_PADDING },
            None => Size { width: 0, height: 0 },
        }
    }

    /// Where the label's baseline starts so that the label is centered in
    /// `bounds`: half the label's size before the center, lowered by its
    /// ascent.
    pub fn label_origin(&self, bounds: Rect, label: TextMetrics) -> (p: Point)
        requires
            fits_i64(label.spec_height()),
            fits_i64(bounds.origin.x + half(bounds.size.width as int)),
            fits_i64(bounds.origin.x + half(bounds.size.width as int) - half(label.width as int)),
            fits_i64(bounds.origin.y + half(bounds.size.height as int)),
            fits_i64(bounds.origin.y + half(bounds.size.height as int) - half(label.spec_height())),
            fits_i64(bounds.origin.y + half(bounds.size.height as int) - half(label.spec_height()) + label.ascent),
        ensures
            p.x == bounds.origin.x + half(bounds.size.width as int) - half(label.width as int),
            p.y == bounds.origin.y + half(bounds.size.height as int) - half(label.spec_height()) + label.ascent,
    {
        let center_x = bounds.origin.x + bounds.size.width / 2;
        let center_y = bounds.origin.y + bounds.size.height / 2;
        let height = label.height();
        Point { x: center_x - label.width / 2, y: center_y - height / 2 + label.ascent }
    }
}

} // verus!
