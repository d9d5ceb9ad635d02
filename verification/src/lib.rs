//! Interactive Julia-set renderer core.
//!
//! Coordinates on the complex plane are carried as fixed-point numbers
//! ([`fixed::Fixed`]), so every arithmetic step of the escape-time loop, the
//! viewport transforms and the gradient lookup table is exact and verified.
//! The windowing, accelerator and file plumbing around this library hand in
//! plain values and take plain values back.

pub mod color;
pub mod fixed;
pub mod fractal;
pub mod gradient;
pub mod renderer;
