//! Geometry engine for animated, parametric line fractals.
//!
//! The engine decides the shape of every frame: which branches exist, in
//! which order they are drawn, from which branch each one continues and by
//! which rule its direction is derived. It also decides how the cyclic
//! animation values settle after each frame. Numbers with a fractional part
//! are carried by their IEEE 754 single-precision bit pattern; the host does
//! the trigonometry and hands the results back as bit patterns.

pub mod scalar;
pub mod branch;
pub mod chain;
pub mod tree;
pub mod count;
pub mod clock;
pub mod geometry;
pub mod fractal;
pub mod singlelinefractal;
pub mod treefractal;
pub mod order;
