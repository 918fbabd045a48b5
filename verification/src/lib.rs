//! Pixel dispatch for an ILI9341-class display controller.
//!
//! The controller is reached through a narrow transport that takes one
//! bounded batch of 16-bit words per call, each batch addressed to a
//! rectangular window of the screen. This crate holds the part that decides
//! *what* is sent: clipping against the screen, encoding colours for the
//! wire, and cutting an arbitrarily large fill into windowed batches. It
//! performs no I/O itself: every operation returns the writes to perform, and
//! the caller that owns the bus performs them.

pub mod color;
pub mod geometry;
pub mod transport;
pub mod fill;
pub mod writer;
pub mod display;
pub mod guarantees;

pub use color::{encode, wire_word, Rgb565, WireWord};
pub use display::{Ili9341, Pixel};
pub use fill::ROW_CHUNK;
pub use geometry::{clip, Point, Rectangle, Size};
pub use transport::{Action, Flush, PixelWrite, Window};
pub use writer::ChunkedWriter;
