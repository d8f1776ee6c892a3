//! Surface materials.

use crate::vector::{Scalar, Vector3};
use vstd::prelude::*;

verus! {

/// A surface material: a color, whether the surface emits light, and how
/// mirror-like it is. Emissive materials terminate a light path; the others
/// scatter it, blending a diffuse direction with the mirror reflection by
/// `shininess`. The color and shininess words are carried, never interpreted.
#[derive(Clone, Copy, PartialEq, Eq, Structural, Debug)]
pub struct Material {
    pub color: Vector3,
    pub is_a_source: bool,
    pub shininess: Scalar,
}

impl Material {
    /// Builds a material from its parts.
    pub fn new(color: Vector3, is_a_source: bool, shininess: Scalar) -> (m: Material)
        ensures
            m.color == color,
            m.is_a_source == is_a_source,
            m.shininess == shininess,
    {
        Material { color, is_a_source, shininess }
    }
}

} // verus!
