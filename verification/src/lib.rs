//! A verified core for a tile-based Monte-Carlo ray tracer.
//!
//! The library owns everything about a render that is exact: the scene
//! registry with its material-index invariants, the partition of the image
//! into tiles, the work queue that hands each tile out exactly once, and the
//! pixel buffers the tiles are rendered into and merged from. Floating-point
//! quantities (sphere centers, radii, colors) are carried through the library
//! as opaque 32-bit words; the rendering front end encodes and decodes them
//! and performs all floating-point shading itself.

use vstd::prelude::*;

pub mod frame;
pub mod material;
pub mod queue;
pub mod scene;
pub mod sphere;
pub mod tile;
pub mod vector;
pub mod window;

verus! {

/// A finished pixel: one 8-bit value per color channel.
#[derive(Clone, Copy, PartialEq, Eq, Structural, Debug)]
pub struct Rgb8 {
    pub r: u8,
    pub g: u8,
    pub b: u8,
}

impl Rgb8 {
    /// The fully black pixel, the initial contents of every buffer.
    pub fn black() -> (p: Rgb8)
        ensures
            p.r == 0 && p.g == 0 && p.b == 0,
    {
        Rgb8 { r: 0, g: 0, b: 0 }
    }
}

} // verus!
