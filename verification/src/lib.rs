//! Verified layout logic of the Gooey user-interface toolkit: text wrapping,
//! content areas and borders, container placement and progress indicators.
//!
//! All lengths are whole numbers of thousandths of a point, so that layout
//! arithmetic is exact.

pub mod geometry;
pub mod style;
pub mod text;
pub mod wrap_laws;
pub mod raster;
pub mod widget;
pub mod container;
pub mod button;
pub mod progress;
pub mod layout_laws;
