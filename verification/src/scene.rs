//! The scene being rendered and its configuration.
//!
//! A [`Stray`] holds the ordered sphere and material collections together
//! with the render configuration. Two invariants are enforced at insertion
//! time and hold thereafter: every sphere's material index references a
//! registered material, and no two materials share an index.

use crate::material::Material;
use crate::sphere::Sphere;
use crate::vector::{Scalar, Vector3};
use crate::window::Window;
use vstd::prelude::*;

verus! {

/// A configuration error in building a scene.
#[derive(Clone, Copy, PartialEq, Eq, Structural, Debug)]
pub enum SceneError {
    /// A sphere referenced a material index under which nothing is registered.
    NoSuchMaterial,
    /// A material was registered under an index that is already taken.
    DuplicateMaterialIndex,
}

impl SceneError {
    /// A human-readable account of the error.
    pub fn describe(&self) -> (s: &'static str)
        ensures
            *self is NoSuchMaterial ==> s@ == "No material of such index!"@,
            *self is DuplicateMaterialIndex ==> s@
                == "Cannot add another material with the same index!"@,
    {
        match self {
            SceneError::NoSuchMaterial => "No material of such index!",
            SceneError::DuplicateMaterialIndex => "Cannot add another material with the same index!",
        }
    }
}

/// Whether some material in `mats` is registered under index `idx`.
pub open spec fn has_material_index(mats: Seq<(Material, u32)>, idx: u32) -> bool {
    exists|i: int| 0 <= i < mats.len() && (#[trigger] mats[i]).1 == idx
}

/// The scene and the render configuration, built once and then read-only for
/// the duration of a render.
pub struct Stray {
    /// Pixel dimensions of the output image.
    pub window: Window,
    /// The spheres of the scene, each tagged with its material index.
    pub spheres: Vec<(Sphere, u32)>,
    /// The registered materials, each tagged with its index.
    pub materials: Vec<(Material, u32)>,
    /// Maximum number of bounces per traced path.
    pub tracing_depth: u32,
    /// Radiance assigned to rays that escape the scene, as carried words.
    pub background_color: Vector3,
    /// Independent path samples averaged per pixel.
    pub rays_per_pixel: u32,
    /// Edge length of the square tiles the image is partitioned into.
    pub tile_size: u32,
    /// Number of concurrent workers a render may use.
    pub number_of_threads: u32,
}

impl Stray {
    /// The scene invariants: a positive tile size, pairwise distinct material
    /// indices, and every sphere's material index registered.
    pub open spec fn wf(self) -> bool {
        &&& self.tile_size >= 1
        &&& forall|i: int, j: int|
            0 <= i < j < self.materials@.len() ==> (#[trigger] self.materials@[i]).1 != (
            #[trigger] self.materials@[j]).1
        &&& forall|i: int|
            0 <= i < self.spheres@.len() ==> has_material_index(
                self.materials@,
                (#[trigger] self.spheres@[i]).1,
            )
    }

    /// Whether a material is registered under `idx`.
    pub open spec fn has_material(self, idx: u32) -> bool {
        has_material_index(self.materials@, idx)
    }

    /// An empty scene with the default configuration.
    pub fn new() -> (s: Stray)
        ensures
            s.wf(),
            s.window == (Window { width: 1024, height: 1024 }),
            s.spheres@.len() == 0,
            s.materials@.len() == 0,
            s.tracing_depth == 5,
            s.background_color.x.bits == 0,
            s.background_color.y.bits == 0,
            s.background_color.z.bits == 0,
            s.rays_per_pixel == 4,
            s.tile_size == 100,
            s.number_of_threads == 1,
    {
        Stray {
            window: Window::new(1024, 1024),
            spheres: Vec::new(),
            materials: Vec::new(),
            tracing_depth: 5,
            background_color: Vector3::zero(),
            rays_per_pixel: 4,
            tile_size: 100,
            number_of_threads: 1,
        }
    }

    /// Sets how many concurrent workers a render may use.
    pub fn set_number_of_threads(&mut self, new_number_of_threads: u32)
        ensures
            *final(self) == (Stray { number_of_threads: new_number_of_threads, ..*old(self) }),
    {
        self.number_of_threads = new_number_of_threads;
    }

    /// Sets how many path samples are averaged per pixel.
    pub fn set_rays_per_pixel(&mut self, new_rays_per_pixel: u32)
        ensures
            *final(self) == (Stray { rays_per_pixel: new_rays_per_pixel, ..*old(self) }),
    {
        self.rays_per_pixel = new_rays_per_pixel;
    }

    /// Sets the maximum number of bounces per traced path.
    pub fn set_depth(&mut self, new_tracing_depth: u32)
        ensures
            *final(self) == (Stray { tracing_depth: new_tracing_depth, ..*old(self) }),
    {
        self.tracing_depth = new_tracing_depth;
    }

    /// Sets the pixel dimensions of the output image.
    pub fn set_window_dimensions(&mut self, width: u32, height: u32)
        ensures
            *final(self) == (Stray { window: Window { width, height }, ..*old(self) }),
    {
        self.window = Window::new(width, height);
    }

    /// Sets the background radiance, stored word for word as given.
    pub fn set_background(&mut self, color: Vector3)
        ensures
            *final(self) == (Stray { background_color: color, ..*old(self) }),
    {
        self.background_color = color;
    }

    /// Registers a scattering material under `mat_index`. Fails if and only
    /// if the index is already taken, and then changes nothing.
    pub fn add_material(&mut self, color: Vector3, shininess: Scalar, mat_index: u32) -> (res:
        Result<(), SceneError>)
        requires
            old(self).wf(),
        ensures
            final(self).wf(),
            final(self).has_material(mat_index),
            old(self).has_material(mat_index) ==> {
                &&& res == Err::<(), SceneError>(SceneError::DuplicateMaterialIndex)
                &&& *final(self) == *old(self)
            },
            !old(self).has_material(mat_index) ==> {
                &&& res == Ok::<(), SceneError>(())
                &&& final(self).materials@ == old(self).materials@.push(
                    (Material { color, is_a_source: false, shininess }, mat_index),
                )
                &&& *final(self) == (Stray { materials: final(self).materials, ..*old(self) })
            },
    {
        self.register_material(Material::new(color, false, shininess), mat_index)
    }

    /// Registers an emissive material under `mat_index`; its shininess word
    /// is zero. Fails if and only if the index is already taken, and then
    /// changes nothing.
    pub fn add_emit_material(&mut self, color: Vector3, mat_index: u32) -> (res: Result<
        (),
        SceneError,
    >)
        requires
            old(self).wf(),
        ensures
            final(self).wf(),
            final(self).has_material(mat_index),
            old(self).has_material(mat_index) ==> {
                &&& res == Err::<(), SceneError>(SceneError::DuplicateMaterialIndex)
                &&& *final(self) == *old(self)
            },
            !old(self).has_material(mat_index) ==> {
                &&& res == Ok::<(), SceneError>(())
                &&& final(self).materials@ == old(self).materials@.push(
                    (Material { color, is_a_source: true, shininess: Scalar { bits: 0 } }, mat_index),
                )
                &&& *final(self) == (Stray { materials: final(self).materials, ..*old(self) })
            },
    {
        self.register_material(Material::new(color, true, Scalar::new(0)), mat_index)
    }

    /// Adds a sphere referencing the material registered under `mat_index`.
    /// Fails if and only if no such material exists, and then changes
    /// nothing.
    pub fn add_sphere(&mut self, position: Vector3, r: Scalar, mat_index: u32) -> (res: Result<
        (),
        SceneError,
    >)
        requires
            old(self).wf(),
        ensures
            final(self).wf(),
            !old(self).has_material(mat_index) ==> {
                &&& res == Err::<(), SceneError>(SceneError::NoSuchMaterial)
                &&& *final(self) == *old(self)
            },
            old(self).has_material(mat_index) ==> {
                &&& res == Ok::<(), SceneError>(())
                &&& final(self).spheres@ == old(self).spheres@.push(
                    (Sphere { position, radius: r }, mat_index),
                )
                &&& *final(self) == (Stray { spheres: final(self).spheres, ..*old(self) })
            },
    {
        let sphere = Sphere::new(position, r);
        if self.find_material_by_index(&mat_index).is_none() {
            return Err(SceneError::NoSuchMaterial);
        }
        self.spheres.push((sphere, mat_index));
        Ok(())
    }

    /// Returns the first material registered under `mat_index`, if any.
    pub fn find_material_by_index(&self, mat_index: &u32) -> (res: Option<Material>)
        ensures
            (res is Some) <==> self.has_material(*mat_index),
            res matches Some(m) ==> exists|i: int|
                {
                    &&& 0 <= i < self.materials@.len()
                    &&& (#[trigger] self.materials@[i]).1 == *mat_index
                    &&& self.materials@[i].0 == m
                },
    {
        let mut pos: usize = 0;
        while pos < self.materials.len()
            invariant
                pos <= self.materials@.len(),
                forall|j: int| 0 <= j < pos ==> (#[trigger] self.materials@[j]).1 != *mat_index,
            decreases self.materials@.len() - pos,
        {
            let (m, idx) = self.materials[pos];
            if idx == *mat_index {
                assert(self.materials@[pos as int].1 == *mat_index);
                return Some(m);
            }
            pos += 1;
        }
        None
    }

    /// Registers `material` under `mat_index`, rejecting a taken index.
    fn register_material(&mut self, material: Material, mat_index: u32) -> (res: Result<
        (),
        SceneError,
    >)
        requires
            old(self).wf(),
        ensures
            final(self).wf(),
            final(self).has_material(mat_index),
            old(self).has_material(mat_index) ==> {
                &&& res == Err::<(), SceneError>(SceneError::DuplicateMaterialIndex)
                &&& *final(self) == *old(self)
            },
            !old(self).has_material(mat_index) ==> {
                &&& res == Ok::<(), SceneError>(())
                &&& final(self).materials@ == old(self).materials@.push((material, mat_index))
                &&& *final(self) == (Stray { materials: final(self).materials, ..*old(self) })
            },
    {
        if self.find_material_by_index(&mat_index).is_some() {
            return Err(SceneError::DuplicateMaterialIndex);
        }
        self.materials.push((material, mat_index));
        proof {
            lemma_has_material_index_push(old(self).materials@, material, mat_index);
        }
        Ok(())
    }
}

/// Pushing a new material preserves every index that was already registered,
/// and registers exactly the new one besides.
proof fn lemma_has_material_index_push(mats: Seq<(Material, u32)>, m: Material, idx: u32)
    ensures
        forall|q: u32| #[trigger]
            has_material_index(mats.push((m, idx)), q) <==> (has_material_index(mats, q) || q
                == idx),
{
    assert forall|q: u32| #[trigger] has_material_index(mats.push((m, idx)), q) implies (
    has_material_index(mats, q) || q == idx) by {
        let i = choose|i: int|
            0 <= i < mats.push((m, idx)).len() && (#[trigger] mats.push((m, idx))[i]).1 == q;
        if i < mats.len() {
            assert(mats[i].1 == q);
        }
    }
    assert forall|q: u32| (has_material_index(mats, q) || q == idx) implies #[trigger]
    has_material_index(mats.push((m, idx)), q) by {
        if has_material_index(mats, q) {
            let i = choose|i: int| 0 <= i < mats.len() && (#[trigger] mats[i]).1 == q;
            assert(mats.push((m, idx))[i].1 == q);
        } else {
            assert(mats.push((m, idx))[mats.len() as int].1 == idx);
        }
    }
}

} // verus!
