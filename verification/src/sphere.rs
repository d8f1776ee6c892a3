//! Sphere primitives, the only geometry the renderer knows.

use crate::vector::{Scalar, Vector3};
use vstd::prelude::*;

verus! {

/// A sphere, given by its center and radius. Both are carried scalar words;
/// the intersection arithmetic itself happens in the rendering front end.
#[derive(Clone, Copy, PartialEq, Eq, Structural, Debug)]
pub struct Sphere {
    pub position: Vector3,
    pub radius: Scalar,
}

impl Sphere {
    /// Builds a sphere from its center and radius.
    pub fn new(position: Vector3, radius: Scalar) -> (s: Sphere)
        ensures
            s.position == position,
            s.radius == radius,
    {
        Sphere { position, radius }
    }
}

} // verus!
