use vstd::prelude::*;

use crate::math::{Point2, Point3, Vector3};
use crate::ray::Ray;

verus! {

/// The record of a ray meeting a surface: the ray parameter `t` as a
/// fixed-point number (`SCALE` is one direction length), the point hit, the outward surface normal, whether the ray
/// started inside the surface, the texture coordinate there if the surface
/// has one, and the material of the surface.
#[derive(Clone, Copy, Debug)]
pub struct Intersection {
    pub t: i128,
    pub point: Point3,
    pub ray: Ray,
    pub normal: Vector3,
    pub inside: bool,
    pub texture_coord: Option<Point2>,
    pub material: usize,
}

} // verus!
