//! Core of an embryonic ray-tracing renderer: a deterministic gradient
//! image generator and the construction of unique output file names.
//!
//! The renderer's 3-D vector algebra works on `f64` values, which the
//! verifier does not accept; it lives with the surrounding binary. What
//! stands here is everything whose behaviour is exact: the per-pixel
//! colour computation, the assembly of the RGB888 pixel buffer, and the
//! naming of the output file.

pub mod gradient;
pub mod naming;
