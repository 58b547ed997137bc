//! Escape-time Mandelbrot rendering on fixed-point coordinates.
//!
//! The complex plane is modelled with signed 64-bit fixed-point numbers
//! (`SCALE` fractional steps per unit), so every arithmetic step of the
//! renderer is exact and verified: the recurrence kernel (`cplex`), the
//! HSV-derived palette (`colors`), and the coordinate normalisation and
//! raster assembly (`render`).

pub mod colors;
pub mod cplex;
pub mod render;
