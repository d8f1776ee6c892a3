use stray::material::Material;
use stray::scene::{SceneError, Stray};
use stray::sphere::Sphere;
use stray::vector::{Scalar, Vector3};
use stray::window::Window;

fn vec3(x: f32, y: f32, z: f32) -> Vector3 {
    Vector3::new(
        Scalar::new(x.to_bits()),
        Scalar::new(y.to_bits()),
        Scalar::new(z.to_bits()),
    )
}

#[test]
fn new_scene_has_default_configuration() {
    let s = Stray::new();
    assert_eq!(s.window, Window::new(1024, 1024));
    assert_eq!(s.spheres.len(), 0);
    assert_eq!(s.materials.len(), 0);
    assert_eq!(s.tracing_depth, 5);
    assert_eq!(s.background_color, Vector3::zero());
    assert_eq!(s.rays_per_pixel, 4);
    assert_eq!(s.tile_size, 100);
    assert_eq!(s.number_of_threads, 1);
}

#[test]
fn setters_update_their_field() {
    let mut s = Stray::new();
    s.set_number_of_threads(4);
    assert_eq!(s.number_of_threads, 4);
    s.set_rays_per_pixel(16);
    assert_eq!(s.rays_per_pixel, 16);
    s.set_depth(8);
    assert_eq!(s.tracing_depth, 8);
    s.set_window_dimensions(350, 250);
    assert_eq!(s.window, Window::new(350, 250));
    let bg = vec3(0.2, 0.2, 0.2);
    s.set_background(bg);
    assert_eq!(s.background_color, bg);
    assert_eq!(s.tile_size, 100);
}

#[test]
fn add_material_registers_and_is_found() {
    let mut s = Stray::new();
    let color = vec3(1.0, 0.5, 0.1);
    assert_eq!(s.add_material(color, Scalar::new(0.7f32.to_bits()), 0), Ok(()));
    let found = s.find_material_by_index(&0).expect("material 0 should exist");
    assert_eq!(found.color, color);
    assert!(!found.is_a_source);
    assert_eq!(found.shininess, Scalar::new(0.7f32.to_bits()));
}

#[test]
fn add_emit_material_is_a_source_with_zero_shininess() {
    let mut s = Stray::new();
    let color = vec3(0.8, 0.5, 0.5);
    assert_eq!(s.add_emit_material(color, 1), Ok(()));
    let found = s.find_material_by_index(&1).expect("material 1 should exist");
    assert_eq!(found.color, color);
    assert!(found.is_a_source);
    assert_eq!(found.shininess, Scalar::new(0));
}

#[test]
fn duplicate_material_index_is_rejected() {
    let mut s = Stray::new();
    assert_eq!(s.add_material(vec3(1.0, 0.0, 0.0), Scalar::new(0), 7), Ok(()));
    let before = s.materials.clone();
    assert_eq!(
        s.add_material(vec3(0.0, 1.0, 0.0), Scalar::new(0), 7),
        Err(SceneError::DuplicateMaterialIndex)
    );
    assert_eq!(
        s.add_emit_material(vec3(0.0, 0.0, 1.0), 7),
        Err(SceneError::DuplicateMaterialIndex)
    );
    assert_eq!(s.materials, before);
    assert_eq!(s.materials.len(), 1);
}

#[test]
fn add_sphere_with_unknown_material_is_rejected_and_changes_nothing() {
    let mut s = Stray::new();
    assert_eq!(s.add_material(vec3(1.0, 0.5, 0.1), Scalar::new(0.7f32.to_bits()), 0), Ok(()));
    assert_eq!(s.add_sphere(vec3(0.0, -1.0, -5.0), Scalar::new(1.0f32.to_bits()), 0), Ok(()));
    let spheres_before = s.spheres.clone();
    let materials_before = s.materials.clone();
    assert_eq!(
        s.add_sphere(vec3(0.0, 1.0, -5.0), Scalar::new(1.0f32.to_bits()), 3),
        Err(SceneError::NoSuchMaterial)
    );
    assert_eq!(s.spheres, spheres_before);
    assert_eq!(s.materials, materials_before);
    assert_eq!(s.spheres.len(), 1);
}

#[test]
fn add_sphere_stores_geometry_and_material_index() {
    let mut s = Stray::new();
    assert_eq!(s.add_emit_material(vec3(1.0, 1.0, 1.0), 2), Ok(()));
    let center = vec3(1.0, 0.0, -4.0);
    let radius = Scalar::new(0.5f32.to_bits());
    assert_eq!(s.add_sphere(center, radius, 2), Ok(()));
    assert_eq!(s.spheres.len(), 1);
    let (sphere, mat_index) = s.spheres[0];
    assert_eq!(sphere, Sphere::new(center, radius));
    assert_eq!(mat_index, 2);
}

#[test]
fn find_material_by_index_missing_returns_none() {
    let mut s = Stray::new();
    assert!(s.find_material_by_index(&0).is_none());
    assert_eq!(s.add_material(vec3(1.0, 1.0, 1.0), Scalar::new(0), 1), Ok(()));
    assert!(s.find_material_by_index(&0).is_none());
    assert!(s.find_material_by_index(&1).is_some());
}

#[test]
fn scene_errors_describe_themselves() {
    assert_eq!(SceneError::NoSuchMaterial.describe(), "No material of such index!");
    assert_eq!(
        SceneError::DuplicateMaterialIndex.describe(),
        "Cannot add another material with the same index!"
    );
}

#[test]
fn material_new_keeps_its_parts() {
    let color = vec3(0.3, 0.6, 0.9);
    let m = Material::new(color, false, Scalar::new(0.25f32.to_bits()));
    assert_eq!(m.color, color);
    assert!(!m.is_a_source);
    assert_eq!(m.shininess, Scalar::new(0.25f32.to_bits()));
}
