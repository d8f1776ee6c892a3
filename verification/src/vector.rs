//! Carriers for the scalar quantities of a scene.
//!
//! The renderer's geometry and colors are measured in a 32-bit scalar type
//! that the library does not compute with. Each scalar travels through the
//! library as the raw 32-bit word of its encoding; the rendering front end
//! encodes scalars into words when it builds a scene and decodes them again
//! when it shades pixels. The library stores and moves these words unchanged,
//! which is exactly what its contracts state.

use vstd::prelude::*;

verus! {

/// One scalar quantity, carried as the raw 32-bit word of its encoding.
#[derive(Clone, Copy, PartialEq, Eq, Structural, Debug)]
pub struct Scalar {
    pub bits: u32,
}

impl Scalar {
    /// Wraps a raw 32-bit word.
    pub fn new(bits: u32) -> (s: Scalar)
        ensures
            s.bits == bits,
    {
        Scalar { bits }
    }
}

/// A three-component vector of carried scalars: a point, a direction or a
/// color, depending on where it is used.
#[derive(Clone, Copy, PartialEq, Eq, Structural, Debug)]
pub struct Vector3 {
    pub x: Scalar,
    pub y: Scalar,
    pub z: Scalar,
}

impl Vector3 {
    /// Builds a vector from its three components.
    pub fn new(x: Scalar, y: Scalar, z: Scalar) -> (v: Vector3)
        ensures
            v.x == x && v.y == y && v.z == z,
    {
        Vector3 { x, y, z }
    }

    /// The vector whose three component words are zero.
    pub fn zero() -> (v: Vector3)
        ensures
            v.x.bits == 0 && v.y.bits == 0 && v.z.bits == 0,
    {
        Vector3 { x: Scalar { bits: 0 }, y: Scalar { bits: 0 }, z: Scalar { bits: 0 } }
    }
}

} // verus!
