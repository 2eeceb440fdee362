//! A double-buffered pixel framebuffer.
//!
//! A [`FrameBuffer`] is one pixel store: a fixed number of colours in one run,
//! row by row. An [`H7Display`] owns two of them. One is shown, the other is
//! drawn to; [`H7Display::swap_buffers`] shows what was drawn and leaves the
//! drawing client a store that holds the same image, so that the next frame
//! can be drawn on top of the last.
//!
//! No operation fails. A pixel write off the surface is dropped, a rectangle is
//! clamped to the surface, and a scroll past the height fills the store.
//!
//! What each operation does is stated over [`DisplayView`], the mathematical
//! state of a display, and over the functions of [`raster`], which act on a
//! store as a sequence of colours. [`model`] also holds the laws that relate
//! the operations to one another.

pub mod display;
pub mod framebuffer;
pub mod geometry;
pub mod model;
pub mod raster;

pub use display::H7Display;
pub use framebuffer::FrameBuffer;
pub use geometry::{Pixel, Point, Rectangle, Size};
pub use model::DisplayView;
