//! A ray tracer over exact integer geometry: fixed-point coordinates with
//! three decimal places, rational ray parameters where a comparison must be
//! exact, bounding volumes and an octree over triangle meshes, and a
//! depth-bounded shading integrator with shadows, reflection, refraction and
//! Fresnel weighting.
use vstd::prelude::*;

pub mod aabb;
pub mod camera;
pub mod color;
pub mod extent_volume;
pub mod instance;
pub mod intersection;
pub mod light;
pub mod material;
pub mod math;
pub mod matrix;
pub mod mesh;
pub mod octree;
pub mod ray;
pub mod renderer;
pub mod scene;
pub mod sphere;
pub mod texture;
pub mod triangle;

verus! {

} // verus!
