//! Content areas, content sizes and borders of rasterized widgets.

use vstd::prelude::*;

use crate::geometry::{Point, Rect, Size, Vector};
use crate::style::{fits_i64, side_length, side_width, Border, BorderOptions, Color, Surround};

verus! {

/// Whether a widget handled an input event.
#[derive(Clone, Copy, Debug, PartialEq, Eq, Structural)]
pub enum EventStatus {
    Ignored,
    Processed,
}

/// `v / 2`, rounded toward zero as integer division does. Lengths are whole
/// thousandths of a point, so half of an odd length loses half a thousandth.
pub open spec fn half(v: int) -> int {
    if v >= 0 {
        v / 2
    } else {
        -((-v) / 2)
    }
}

/// The size of a widget's content together with its padding and border.
#[derive(Clone, Copy, Debug, PartialEq, Eq, Structural)]
pub struct ContentSize {
    pub content: Size,
    pub padding: Surround,
    pub border: Border,
}

impl Default for ContentSize {
    /// No content, padding or border.
    fn default() -> (c: ContentSize)
        ensures
            c == (ContentSize {
                content: Size { width: 0, height: 0 },
                padding: Surround { left: None, top: None, right: None, bottom: None },
                border: Border { left: None, top: None, right: None, bottom: None },
            }),
    {
        ContentSize { content: Size { width: 0, height: 0 }, padding: Surround::default(), border: Border::default() }
    }
}

impl ContentSize {
    /// The width of content, padding and border together.
    pub open spec fn spec_total_width(self) -> int {
        self.content.width + self.padding.spec_minimum_width() + self.border.spec_minimum_width()
    }

    /// The height of content, padding and border together.
    pub open spec fn spec_total_height(self) -> int {
        self.content.height + self.padding.spec_minimum_height() + self.border.spec_minimum_height()
    }

    /// Whether the sizes that this content size adds up fit in an `i64`.
    pub open spec fn sums_fit(self) -> bool {
        &&& self.padding.sums_fit()
        &&& self.border.sums_fit()
        &&& fits_i64(self.content.width + self.padding.spec_minimum_width())
        &&& fits_i64(self.content.height + self.padding.spec_minimum_height())
        &&& fits_i64(self.spec_total_width())
        &&& fits_i64(self.spec_total_height())
    }

    /// The size of content, padding and border together.
    pub fn total_size(&self) -> (s: Size)
        requires
            self.sums_fit(),
        ensures
            s.width == self.spec_total_width(),
            s.height == self.spec_total_height(),
    {
        let padding = self.padding.minimum_size();
        let border = self.border.minimum_size();
        Size {
            width: self.content.width + padding.width + border.width,
            height: self.content.height + padding.height + border.height,
        }
    }
}

/// Where a widget's content lies, and how big it is with its padding and
/// border.
#[derive(Clone, Copy, Debug, PartialEq, Eq, Structural)]
pub struct ContentArea {
    pub location: Point,
    pub size: ContentSize,
}

impl Default for ContentArea {
    /// An empty area at the origin.
    fn default() -> (a: ContentArea)
        ensures
            a == (ContentArea {
                location: Point { x: 0, y: 0 },
                size: ContentSize {
                    content: Size { width: 0, height: 0 },
                    padding: Surround { left: None, top: None, right: None, bottom: None },
                    border: Border { left: None, top: None, right: None, bottom: None },
                },
            }),
    {
        ContentArea { location: Point { x: 0, y: 0 }, size: ContentSize::default() }
    }
}

impl ContentArea {
    /// The origin of the whole area: the content location moved back by the
    /// left and top border and padding.
    pub open spec fn spec_bounds_origin(self) -> (int, int) {
        (
            self.location.x - (side_width(self.size.border.left) + side_length(self.size.padding.left)),
            self.location.y - (side_width(self.size.border.top) + side_length(self.size.padding.top)),
        )
    }

    /// Whether the lengths that `bounds` adds up fit in an `i64`.
    pub open spec fn bounds_fit(self) -> bool {
        let b = self.size.border;
        let p = self.size.padding;
        &&& self.size.sums_fit()
        &&& fits_i64(side_width(b.left) + side_length(p.left))
        &&& fits_i64(side_width(b.top) + side_length(p.top))
        &&& fits_i64(self.spec_bounds_origin().0)
        &&& fits_i64(self.spec_bounds_origin().1)
        &&& fits_i64(self.size.content.width + self.size.border.spec_minimum_width())
        &&& fits_i64(self.size.content.height + self.size.border.spec_minimum_height())
    }

    /// An area at the origin holding `size` of content, with no padding or
    /// border.
    pub fn sized(size: Size) -> (a: ContentArea)
        ensures
            a == (ContentArea {
                location: Point { x: 0, y: 0 },
                size: ContentSize {
                    content: size,
                    padding: Surround { left: None, top: None, right: None, bottom: None },
                    border: Border { left: None, top: None, right: None, bottom: None },
                },
            }),
    {
        ContentArea {
            location: Point { x: 0, y: 0 },
            size: ContentSize { content: size, padding: Surround::default(), border: Border::default() },
        }
    }

    /// Returns the bounds of the content area.
    pub fn content_bounds(&self) -> (r: Rect)
        ensures
            r == (Rect { origin: self.location, size: self.size.content }),
    {
        Rect::sized(self.location, self.size.content)
    }

    /// Returns the entire area including padding and border.
    pub fn bounds(&self) -> (r: Rect)
        requires
            self.bounds_fit(),
        ensures
            r.origin.x == self.spec_bounds_origin().0,
            r.origin.y == self.spec_bounds_origin().1,
            r.size.width == self.size.spec_total_width(),
            r.size.height == self.size.spec_total_height(),
    {
        let left = match self.size.border.left {
            Some(b) => b.width,
            None => 0,
        } + match self.size.padding.left {
            Some(l) => l,
            None => 0,
        };
        let top = match self.size.border.top {
            Some(b) => b.width,
            None => 0,
        } + match self.size.padding.top {
            Some(l) => l,
            None => 0,
        };
        let border = self.size.border.minimum_size();
        let padding = self.size.padding.minimum_size();
        Rect::sized(
            Point { x: self.location.x - left, y: self.location.y - top },
            Size {
                width: self.size.content.width + border.width + padding.width,
                height: self.size.content.height + border.height + padding.height,
            },
        )
    }

    /// The same area moved by `by`.
    pub open spec fn translated(self, by: Vector) -> ContentArea {
        ContentArea {
            location: Point { x: (self.location.x + by.x) as i64, y: (self.location.y + by.y) as i64 },
            size: self.size,
        }
    }

    /// The same area moved by `by`.
    pub fn translate(&self, by: Vector) -> (a: ContentArea)
        requires
            fits_i64(self.location.x + by.x),
            fits_i64(self.location.y + by.y),
        ensures
            a == self.translated(by),
    {
        ContentArea {
            location: Point { x: self.location.x + by.x, y: self.location.y + by.y },
            size: self.size,
        }
    }
}

/// The content length left in `available` after `taken`, never below zero.
pub open spec fn content_length(available: int, taken: int) -> int {
    if available - taken >= 0 {
        available - taken
    } else {
        0
    }
}

/// Whether the lengths that `content_area_within` adds up fit in an `i64`.
pub open spec fn within_fits(bounds: Size, padding: Surround, border: Border) -> bool {
    &&& padding.sums_fit()
    &&& border.sums_fit()
    &&& fits_i64(bounds.width - border.spec_minimum_width())
    &&& fits_i64(bounds.height - border.spec_minimum_height())
    &&& fits_i64(bounds.width - border.spec_minimum_width() - padding.spec_minimum_width())
    &&& fits_i64(bounds.height - border.spec_minimum_height() - padding.spec_minimum_height())
    &&& fits_i64(
        bounds.width - content_length(
            bounds.width as int,
            border.spec_minimum_width() + padding.spec_minimum_width(),
        ),
    )
    &&& fits_i64(
        bounds.height - content_length(
            bounds.height as int,
            border.spec_minimum_height() + padding.spec_minimum_height(),
        ),
    )
}

/// The content area of a widget drawn within `bounds`: the content gets what
/// the border and padding leave of the bounds (never less than nothing), and is
/// centered in the bounds.
pub fn content_area_within(bounds: Size, padding: Surround, border: Border) -> (area: ContentArea)
    requires
        within_fits(bounds, padding, border),
    ensures
        area.size.padding == padding,
        area.size.border == border,
        area.size.content.width == content_length(
            bounds.width as int,
            border.spec_minimum_width() + padding.spec_minimum_width(),
        ),
        area.size.content.height == content_length(
            bounds.height as int,
            border.spec_minimum_height() + padding.spec_minimum_height(),
        ),
        area.location.x == half(bounds.width - area.size.content.width),
        area.location.y == half(bounds.height - area.size.content.height),
{
    let border_size = border.minimum_size();
    let padding_size = padding.minimum_size();
    let mut width = bounds.width - border_size.width - padding_size.width;
    if width < 0 {
        width = 0;
    }
    let mut height = bounds.height - border_size.height - padding_size.height;
    if height < 0 {
        height = 0;
    }
    let content = Size { width, height };
    let remaining = Size { width: bounds.width - content.width, height: bounds.height - content.height };
    ContentArea {
        location: Point { x: remaining.width / 2, y: remaining.height / 2 },
        size: ContentSize { content, padding, border },
    }
}

/// Optional lengths along each axis.
#[derive(Clone, Copy, Debug, PartialEq, Eq, Structural)]
pub struct SizeConstraints {
    pub width: Option<i64>,
    pub height: Option<i64>,
}

/// `length` less `taken`, when there is a length.
pub open spec fn shrink(length: Option<i64>, taken: int) -> Option<i64> {
    match length {
        Some(l) => Some((l - taken) as i64),
        None => None,
    }
}

/// The constraints that a widget's content must keep within, when its whole
/// area must keep within `constraints`: what border and padding take up is
/// taken off each given length.
pub fn content_constraints(constraints: SizeConstraints, padding: Surround, border: Border) -> (c: SizeConstraints)
    requires
        padding.sums_fit(),
        border.sums_fit(),
        constraints.width matches Some(w) ==> fits_i64(w - border.spec_minimum_width())
            && fits_i64(w - border.spec_minimum_width() - padding.spec_minimum_width()),
        constraints.height matches Some(h) ==> fits_i64(h - border.spec_minimum_height())
            && fits_i64(h - border.spec_minimum_height() - padding.spec_minimum_height()),
    ensures
        c.width == shrink(constraints.width, border.spec_minimum_width() + padding.spec_minimum_width()),
        c.height == shrink(constraints.height, border.spec_minimum_height() + padding.spec_minimum_height()),
{
    let width = match constraints.width {
        Some(w) => Some(w - border.minimum_width() - padding.minimum_width()),
        None => None,
    };
    let height = match constraints.height {
        Some(h) => Some(h - border.minimum_height() - padding.minimum_height()),
        None => None,
    };
    SizeConstraints { width, height }
}

/// A rectangle to fill with a color.
#[derive(Clone, Copy, Debug, PartialEq, Eq, Structural)]
pub struct BorderFill {
    pub rect: Rect,
    pub color: Color,
}

/// The width of a border side that is drawn: present and wider than zero.
pub open spec fn drawn_width(side: Option<BorderOptions>) -> Option<i64> {
    match side {
        Some(b) => if b.width > 0 {
            Some(b.width)
        } else {
            None
        },
        None => None,
    }
}

pub open spec fn drawn_or_zero(side: Option<BorderOptions>) -> int {
    match drawn_width(side) {
        Some(w) => w as int,
        None => 0,
    }
}

/// The fill of the top side across the full width.
pub open spec fn top_fill(bounds: Rect, border: Border) -> Seq<BorderFill> {
    match drawn_width(border.top) {
        Some(w) => seq![
            BorderFill {
                rect: Rect { origin: bounds.origin, size: Size { width: bounds.size.width, height: w } },
                color: border.top.unwrap().color,
            },
        ],
        None => Seq::empty(),
    }
}

/// The fill of the bottom side across the full width.
pub open spec fn bottom_fill(bounds: Rect, border: Border) -> Seq<BorderFill> {
    match drawn_width(border.bottom) {
        Some(w) => seq![
            BorderFill {
                rect: Rect {
                    origin: Point { x: 0, y: (bounds.size.height - w) as i64 },
                    size: Size { width: bounds.size.width, height: w },
                },
                color: border.bottom.unwrap().color,
            },
        ],
        None => Seq::empty(),
    }
}

/// The fill of the left side, below the top side.
pub open spec fn left_fill(bounds: Rect, border: Border) -> Seq<BorderFill> {
    match drawn_width(border.left) {
        Some(w) => seq![
            BorderFill {
                rect: Rect {
                    origin: Point { x: 0, y: drawn_or_zero(border.top) as i64 },
                    size: Size { width: w, height: (bounds.size.height - drawn_or_zero(border.bottom)) as i64 },
                },
                color: border.left.unwrap().color,
            },
        ],
        None => Seq::empty(),
    }
}

/// The fill of the right side, below the top side. It takes the color of the
/// left side.
pub open spec fn right_fill(bounds: Rect, border: Border) -> Seq<BorderFill> {
    match drawn_width(border.right) {
        Some(w) => seq![
            BorderFill {
                rect: Rect {
                    origin: Point { x: (bounds.size.width - w) as i64, y: drawn_or_zero(border.top) as i64 },
                    size: Size { width: w, height: (bounds.size.height - drawn_or_zero(border.bottom)) as i64 },
                },
                color: border.left.unwrap().color,
            },
        ],
        None => Seq::empty(),
    }
}

/// The rectangles that draw `border` within `bounds`, in drawing order: top,
/// bottom, left, right. The top and bottom sides take the full width; the
/// left and right sides start below the top side and are the bounds' height
/// less the bottom side high, so they overlap the bottom side by the top
/// side's width.
pub open spec fn border_fills_spec(bounds: Rect, border: Border) -> Seq<BorderFill> {
    top_fill(bounds, border) + bottom_fill(bounds, border) + left_fill(bounds, border) + right_fill(
        bounds,
        border,
    )
}

/// Whether the lengths that `border_fills` computes fit in an `i64`.
pub open spec fn border_fills_fit(bounds: Rect, border: Border) -> bool {
    &&& fits_i64(bounds.size.height - drawn_or_zero(border.bottom))
    &&& fits_i64(bounds.size.width - drawn_or_zero(border.right))
}

fn drawn(side: Option<BorderOptions>) -> (w: Option<i64>)
    ensures
        w == drawn_width(side),
{
    match side {
        Some(b) => if b.width > 0 {
            Some(b.width)
        } else {
            None
        },
        None => None,
    }
}

/// The rectangles to fill to draw `border` within `bounds`.
pub fn border_fills(bounds: Rect, border: &Border) -> (fills: Vec<BorderFill>)
    requires
        border_fills_fit(bounds, *border),
        drawn_width(border.right) is Some ==> border.left is Some,
    ensures
        fills@ == border_fills_spec(bounds, *border),
{
    let left_width = drawn(border.left);
    let right_width = drawn(border.right);
    let top_width = drawn(border.top);
    let bottom_width = drawn(border.bottom);
    let top_or_zero = match top_width {
        Some(w) => w,
        None => 0,
    };
    let bottom_or_zero = match bottom_width {
        Some(w) => w,
        None => 0,
    };

    let mut fills: Vec<BorderFill> = Vec::new();
    // The top and bottom borders will draw full width always.
    match top_width {
        Some(width) => {
            fills.push(
                BorderFill {
                    rect: Rect::sized(bounds.origin, Size::new(bounds.size.width, width)),
                    color: border.top.unwrap().color,
                },
            );
        },
        None => {},
    }
    match bottom_width {
        Some(width) => {
            fills.push(
                BorderFill {
                    rect: Rect::sized(
                        Point::new(0, bounds.size.height - width),
                        Size::new(bounds.size.width, width),
                    ),
                    color: border.bottom.unwrap().color,
                },
            );
        },
        None => {},
    }
    // The left and right sides start below the top side and are as high as
    // the bounds less the bottom side, so when a top side is drawn they reach
    // into the bottom side by the top side's width.
    match left_width {
        Some(width) => {
            fills.push(
                BorderFill {
                    rect: Rect::sized(
                        Point::new(0, top_or_zero),
                        Size::new(width, bounds.size.height - bottom_or_zero),
                    ),
                    color: border.left.unwrap().color,
                },
            );
        },
        None => {},
    }
    match right_width {
        Some(width) => {
            fills.push(
                BorderFill {
                    rect: Rect::sized(
                        Point::new(bounds.size.width - width, top_or_zero),
                        Size::new(width, bounds.size.height - bottom_or_zero),
                    ),
                    color: border.left.unwrap().color,
                },
            );
        },
        None => {},
    }
    assert(fills@ =~= border_fills_spec(bounds, *border));
    fills
}

} // verus!
