//! The widget traits.

use vstd::prelude::*;

use crate::geometry::Size;
use crate::raster::SizeConstraints;

verus! {

/// A graphical user interface element.
pub trait Widget: 'static {
    /// The type of the event that any [`Transmogrifier`] for this widget
    /// uses.
    type TransmogrifierEvent: Send + Sync;
}

/// Transforms a [`Widget`] into whatever is needed for the frontend `F`.
pub trait Transmogrifier<F> {
    /// The type of the widget being transmogrified.
    type Widget: Widget;
    /// The frontend-specific context type provided to aide in
    /// transmogrifying.
    type Context;

    /// Calculate the content-size needed for this `widget`, trying to stay
    /// within `constraints`.
    fn content_size(
        &self,
        widget: &Self::Widget,
        constraints: SizeConstraints,
        context: &Self::Context,
    ) -> Size;
}

} // verus!
