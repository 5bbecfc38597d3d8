//! Palette-driven lighting effects for keyboards with one RGB emitter per key.
//!
//! Effects write HSV values into a frame buffer that the caller supplies; the
//! caller converts to RGB and ships the result to its LED driver. Every
//! effect is a plain integer computation on a millisecond clock, the LED
//! positions and its own state, and each one's contract says which color
//! every LED of a frame gets.

pub mod bytes;
pub mod color;
pub mod effects;
pub mod layout;
pub mod math;
pub mod palette;
pub mod rmk_lighting;
