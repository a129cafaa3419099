//! A widget that holds one child inside padding.

use vstd::prelude::*;

use crate::geometry::{Point, Rect, Size};
use crate::raster::{half, ContentArea, ContentSize, SizeConstraints};
use crate::style::{fits_i64, Surround};
use crate::widget::Widget;

verus! {

/// A widget holding one child, with padding around it.
///
/// `C` is how the child is held: its registration with the widget storage.
#[derive(Debug)]
pub struct Container<C> {
    pub child: C,
    pub padding: Surround,
}

impl<C> Container<C> {
    /// A container for `child`, without padding.
    pub fn new(child: C) -> (c: Container<C>)
        ensures
            c.child == child,
            c.padding == (Surround { left: None, top: None, right: None, bottom: None }),
    {
        Container { child, padding: Surround::default() }
    }

    /// Sets the padding on the left side.
    pub fn pad_left(self, padding: i64) -> (c: Container<C>)
        ensures
            c.child == self.child,
            c.padding == (Surround { left: Some(padding), ..self.padding }),
    {
        let mut this = self;
        this.padding.left = Some(padding);
        this
    }

    /// Sets the padding on the right side.
    pub fn pad_right(self, padding: i64) -> (c: Container<C>)
        ensures
            c.child == self.child,
            c.padding == (Surround { right: Some(padding), ..self.padding }),
    {
        let mut this = self;
        this.padding.right = Some(padding);
        this
    }

    /// Sets the padding on the top side.
    pub fn pad_top(self, padding: i64) -> (c: Container<C>)
        ensures
            c.child == self.child,
            c.padding == (Surround { top: Some(padding), ..self.padding }),
    {
        let mut this = self;
        this.padding.top = Some(padding);
        this
    }

    /// Sets the padding on the bottom side.
    pub fn pad_bottom(self, padding: i64) -> (c: Container<C>)
        ensures
            c.child == self.child,
            c.padding == (Surround { bottom: Some(padding), ..self.padding }),
    {
        let mut this = self;
        this.padding.bottom = Some(padding);
        this
    }
}

impl<C: 'static> Widget for Container<C> {
    type TransmogrifierEvent = ();
}

/// Lays out and draws a [`Container`].
#[derive(Debug)]
pub struct ContainerTransmogrifier;

/// Whether `child_bounds` can compute within `i64`.
pub open spec fn child_bounds_fit(content_area: ContentArea, child: ContentSize) -> bool {
    &&& child.sums_fit()
    &&& fits_i64(content_area.size.content.width - child.spec_total_width())
    &&& fits_i64(content_area.size.content.height - child.spec_total_height())
}

impl ContainerTransmogrifier {
    /// The constraints the child is measured within: the container's whole
    /// content.
    pub fn child_constraints(&self, content_area: &ContentArea) -> (c: SizeConstraints)
        ensures
            c == (SizeConstraints {
                width: Some(content_area.size.content.width),
                height: Some(content_area.size.content.height),
            }),
    {
        SizeConstraints {
            width: Some(content_area.size.content.width),
            height: Some(content_area.size.content.height),
        }
    }

    /// Where the child is drawn: its whole size, centered in the container's
    /// content.
    pub fn child_bounds(&self, content_area: &ContentArea, child: &ContentSize) -> (r: Rect)
        requires
            child_bounds_fit(*content_area, *child),
        ensures
            r.size.width == child.spec_total_width(),
            r.size.height == child.spec_total_height(),
            r.origin.x == half(content_area.size.content.width - child.spec_total_width()),
            r.origin.y == half(content_area.size.content.height - child.spec_total_height()),
    {
        let child_size = child.total_size();
        let remaining = Size {
            width: content_area.size.content.width - child_size.width,
            height: content_area.size.content.height - child_size.height,
        };
        Rect::sized(Point::new(remaining.width / 2, remaining.height / 2), child_size)
    }

    /// The content size of the container: that of its child, or nothing when
    /// the child could not be measured.
    pub fn measure_content(&self, child_content: Option<Size>) -> (s: Size)
        ensures
            s == (match child_content {
                Some(c) => c,
                None => Size { width: 0, height: 0 },
            }),
    {
        match child_content {
            Some(c) => c,
            None => Size { width: 0, height: 0 },
        }
    }
}

} // verus!
