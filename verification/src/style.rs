//! Padding, borders and colors.

use vstd::prelude::*;

use crate::geometry::Size;

verus! {

/// A color as red, green, blue and alpha bytes packed into one integer.
#[derive(Clone, Copy, Debug, PartialEq, Eq, Structural)]
pub struct Color(pub u32);

/// An optional length on each side of a rectangle (used for padding).
#[derive(Clone, Copy, Debug, PartialEq, Eq, Structural)]
pub struct Surround {
    pub left: Option<i64>,
    pub top: Option<i64>,
    pub right: Option<i64>,
    pub bottom: Option<i64>,
}

/// The width and color of one side of a border.
#[derive(Clone, Copy, Debug, PartialEq, Eq, Structural)]
pub struct BorderOptions {
    pub width: i64,
    pub color: Color,
}

/// A border, with optional options for each side.
#[derive(Clone, Copy, Debug, PartialEq, Eq, Structural)]
pub struct Border {
    pub left: Option<BorderOptions>,
    pub top: Option<BorderOptions>,
    pub right: Option<BorderOptions>,
    pub bottom: Option<BorderOptions>,
}

/// The length of a side, zero when it is absent.
pub open spec fn side_length(side: Option<i64>) -> int {
    match side {
        Some(l) => l as int,
        None => 0,
    }
}

/// The width of a border side, zero when it is absent.
pub open spec fn side_width(side: Option<BorderOptions>) -> int {
    match side {
        Some(b) => b.width as int,
        None => 0,
    }
}

/// Whether `v` fits in an `i64`.
pub open spec fn fits_i64(v: int) -> bool {
    i64::MIN <= v <= i64::MAX
}

fn length_or_zero(side: Option<i64>) -> (l: i64)
    ensures
        l == side_length(side),
{
    match side {
        Some(l) => l,
        None => 0,
    }
}

fn width_or_zero(side: Option<BorderOptions>) -> (w: i64)
    ensures
        w == side_width(side),
{
    match side {
        Some(b) => b.width,
        None => 0,
    }
}

impl Default for Surround {
    /// No length on any side.
    fn default() -> (s: Surround)
        ensures
            s == (Surround { left: None, top: None, right: None, bottom: None }),
    {
        Surround { left: None, top: None, right: None, bottom: None }
    }
}

impl Default for Border {
    /// No border on any side.
    fn default() -> (b: Border)
        ensures
            b == (Border { left: None, top: None, right: None, bottom: None }),
    {
        Border { left: None, top: None, right: None, bottom: None }
    }
}

impl Surround {
    pub open spec fn spec_minimum_width(self) -> int {
        side_length(self.left) + side_length(self.right)
    }

    pub open spec fn spec_minimum_height(self) -> int {
        side_length(self.top) + side_length(self.bottom)
    }

    /// Whether the sums of opposite sides fit in an `i64`.
    pub open spec fn sums_fit(self) -> bool {
        fits_i64(self.spec_minimum_width()) && fits_i64(self.spec_minimum_height())
    }

    /// The left and right lengths together.
    pub fn minimum_width(&self) -> (w: i64)
        requires
            fits_i64(self.spec_minimum_width()),
        ensures
            w == self.spec_minimum_width(),
    {
        length_or_zero(self.left) + length_or_zero(self.right)
    }

    /// The top and bottom lengths together.
    pub fn minimum_height(&self) -> (h: i64)
        requires
            fits_i64(self.spec_minimum_height()),
        ensures
            h == self.spec_minimum_height(),
    {
        length_or_zero(self.top) + length_or_zero(self.bottom)
    }

    /// The size that the surround takes up.
    pub fn minimum_size(&self) -> (s: Size)
        requires
            self.sums_fit(),
        ensures
            s.width == self.spec_minimum_width(),
            s.height == self.spec_minimum_height(),
    {
        Size { width: self.minimum_width(), height: self.minimum_height() }
    }
}

impl Border {
    pub open spec fn spec_minimum_width(self) -> int {
        side_width(self.left) + side_width(self.right)
    }

    pub open spec fn spec_minimum_height(self) -> int {
        side_width(self.top) + side_width(self.bottom)
    }

    /// Whether the sums of opposite sides fit in an `i64`.
    pub open spec fn sums_fit(self) -> bool {
        fits_i64(self.spec_minimum_width()) && fits_i64(self.spec_minimum_height())
    }

    /// The left and right widths together.
    pub fn minimum_width(&self) -> (w: i64)
        requires
            fits_i64(self.spec_minimum_width()),
        ensures
            w == self.spec_minimum_width(),
    {
        width_or_zero(self.left) + width_or_zero(self.right)
    }

    /// The top and bottom widths together.
    pub fn minimum_height(&self) -> (h: i64)
        requires
            fits_i64(self.spec_minimum_height()),
        ensures
            h == self.spec_minimum_height(),
    {
        width_or_zero(self.top) + width_or_zero(self.bottom)
    }

    /// The size that the border takes up.
    pub fn minimum_size(&self) -> (s: Size)
        requires
            self.sums_fit(),
        ensures
            s.width == self.spec_minimum_width(),
            s.height == self.spec_minimum_height(),
    {
        Size { width: self.minimum_width(), height: self.minimum_height() }
    }
}

} // verus!
