//! Progressive escape-time rendering of the Mandelbrot set.
//!
//! The crate holds the frame-by-frame refinement strategy, the per-pixel
//! iteration bookkeeping, the key bindings and the colour gradient, each with
//! a machine-checked contract. It is agnostic of the number representation:
//! the arithmetic of the complex plane is supplied by the embedding
//! application as plain functions, and every contract holds for whatever
//! those functions compute.

pub mod orbit;
pub mod palette;
pub mod controls;
pub mod schedule;
pub mod viewport;
pub mod state;
