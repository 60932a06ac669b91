//! Escape-time engine for exploring the Mandelbrot set: the iteration verdict,
//! the orbit tracer, the colour schemes and the row-major frame renderer.
//!
//! The numeric recurrence itself (`z -> z^2 + c` over a chosen number type) and
//! the bound test are supplied by the caller as closures; everything that is
//! decided from their results is verified here.
pub mod escape;
pub mod color;
pub mod frame;
