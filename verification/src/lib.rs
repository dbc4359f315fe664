//! A two-view pixel buffer in the style softbuffer presents: one flat run of
//! 32-bit packed colour words, readable and writable at the same time as a
//! width x height grid of `[pad, r, g, b]` byte groups.
//!
//! The flat view is what a presentation layer displays; the grid view is what
//! drawing code wants to address. Both views describe the same words: a write
//! through either is visible through the other, because every grid access is
//! an index computation into the one backing store.

pub mod buffer;
pub mod color;
pub mod model;

pub use buffer::RgbBuffer;
pub use buffer::RgbBufferError;
pub use color::pack;
pub use color::rgb;
pub use color::unpack;
pub use color::Color;
