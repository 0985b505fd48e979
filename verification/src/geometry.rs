//! Plain values that the engine carries for the host: points and strokes.

use vstd::prelude::*;
use crate::scalar::Scalar;

verus! {

/// A point of the drawing surface.
#[derive(Clone, Copy, Debug, PartialEq, Eq, Structural)]
pub struct Point {
    pub x: Scalar,
    pub y: Scalar,
}

/// A colour by its red, green and blue parts.
#[derive(Clone, Copy, Debug, PartialEq, Eq, Structural)]
pub struct Rgb {
    pub r: u8,
    pub g: u8,
    pub b: u8,
}

/// Width and colour with which every segment of a fractal is drawn.
#[derive(Clone, Copy, Debug, PartialEq, Eq, Structural)]
pub struct Stroke {
    pub width: Scalar,
    pub color: Rgb,
}

} // verus!
