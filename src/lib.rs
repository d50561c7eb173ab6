//! Escape-time rendering of the Mandelbrot set on a fixed-point grid.
//!
//! Coordinates of the complex plane are fixed-point numbers: an `i64` that
//! holds the value times `ONE` (2^28). The escape iteration, the brightness
//! curve, the pixel mapping, the row partition among workers and the
//! assembly of the final buffer are all verified against spec functions.
pub mod point;
pub mod escape;
pub mod glow;
pub mod config;
pub mod partition;
pub mod render;
