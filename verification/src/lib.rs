//! Driver for 128x64 monochrome dot-matrix LCDs built around the ST7920
//! controller, spoken to over a write-only 3-wire serial bus.
//!
//! The driver keeps a 1024-byte off-chip pixel buffer (one bit per pixel,
//! row-major, 8 pixels per byte). Drawing calls only mutate the buffer; a
//! flush call translates the buffer, or a rectangular part of it, into the
//! controller's windowed-addressing command protocol and streams it out.

use vstd::prelude::*;

pub mod address;
pub mod bus;
pub mod driver;
pub mod pixels;
pub mod protocol;
pub mod sim;

pub use address::{clamp_region, compute_address};
pub use bus::{DelaySource, OutPin, SerialBus};
pub use driver::{Error, ST7920};
pub use sim::{CountingDelay, FailingBus, FailingDelay, FailingPin, RecordingBus, RecordingPin};

verus! {

/// Display width in pixels.
pub const WIDTH: u32 = 128;

/// Display height in pixels.
pub const HEIGHT: u32 = 64;

} // verus!
