use vstd::prelude::*;

use crate::math::{vec_in_range, Point3, Vector3, POINT_MAX, SCALE};

verus! {

/// A half-line from `origin` along `direction`, with the refractive index of
/// the medium it travels through (fixed-point, `SCALE` for vacuum).
///
/// Coordinates are exact integers, so in place of a reciprocal direction the
/// ray keeps only the sign of each component: `sign[i]` is 1 when component
/// `i` of the direction is negative, else 0; slab tests use it to pick the
/// near and the far face of a box.
#[derive(Clone, Copy, Debug)]
pub struct Ray {
    pub origin: Point3,
    pub direction: Vector3,
    pub sign: [usize; 3],
    pub medium_refraction: i64,
}

pub open spec fn sign_of(c: int) -> usize {
    if c < 0 {
        1
    } else {
        0
    }
}

/// What geometry sees of a ray: its origin and its direction.
pub type RayView = ((int, int, int), (int, int, int));

impl View for Ray {
    type V = RayView;

    open spec fn view(&self) -> RayView {
        (self.origin@, self.direction@)
    }
}

impl Ray {
    pub open spec fn wf(&self) -> bool {
        &&& self.origin.wf()
        &&& vec_in_range(self.direction@, POINT_MAX as int)
        &&& self.sign[0] == sign_of(self.direction.x as int)
        &&& self.sign[1] == sign_of(self.direction.y as int)
        &&& self.sign[2] == sign_of(self.direction.z as int)
        &&& 0 < self.medium_refraction <= POINT_MAX
    }

    /// The ray from `origin` along `direction` in a medium of index
    /// `medium`, with its sign bits.
    pub open spec fn make(origin: Point3, direction: Vector3, medium: i64) -> Ray {
        Ray {
            origin,
            direction,
            sign: [
                sign_of(direction.x as int),
                sign_of(direction.y as int),
                sign_of(direction.z as int),
            ],
            medium_refraction: medium,
        }
    }

    /// A ray; the medium defaults to vacuum.
    pub fn new(origin: Point3, direction: Vector3, medium_refraction: Option<i64>) -> (r: Ray)
        requires
            origin.wf(),
            vec_in_range(direction@, POINT_MAX as int),
            medium_refraction matches Some(m) ==> 0 < m <= POINT_MAX,
        ensures
            r.wf(),
            r.origin == origin,
            r.direction == direction,
            r.medium_refraction == match medium_refraction {
                Some(m) => m,
                None => SCALE,
            },
            r == Ray::make(
                origin,
                direction,
                match medium_refraction {
                    Some(m) => m,
                    None => SCALE,
                },
            ),
    {
        let m = match medium_refraction {
            Some(m) => m,
            None => SCALE,
        };
        let sx: usize = if direction.x < 0 { 1 } else { 0 };
        let sy: usize = if direction.y < 0 { 1 } else { 0 };
        let sz: usize = if direction.z < 0 { 1 } else { 0 };
        Ray { origin, direction, sign: [sx, sy, sz], medium_refraction: m }
    }
}

} // verus!
