//! Procedural synthesis of two raster images: a stylized game-board surface
//! drawn from geometric region predicates, and a wood-grain texture driven by
//! multi-octave lattice noise modulated by a radial sine wave.
//!
//! All geometry and noise arithmetic is exact fixed-point integer arithmetic:
//! lengths on the board are measured in thousandths of a board square or of a
//! pixel ("milli-units"), and noise, sine and brightness values are dyadic
//! fixed-point numbers.

use vstd::prelude::*;

pub mod board;
pub mod buffer;
pub mod lattice;
pub mod mathfx;
mod rnd;
pub mod wood;

verus! {

/// Why a synthesis request was rejected.
#[derive(Clone, Copy, Debug, PartialEq, Eq, Structural)]
pub enum RenderError {
    /// The requested scale or pixel dimensions describe an empty image.
    InvalidDimension,
}

} // verus!
