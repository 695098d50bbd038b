use vstd::prelude::*;

use crate::intersection::Intersection;
use crate::material::uv_ok;
use crate::math::{abs, div_trunc, dot, normalized, sqrt_of, vec_in_range, Vector3, POINT_MAX, SCALE};
use crate::matrix::{InverseError, Matrix4};
use crate::mesh::{mesh_t, Mesh};
use crate::ray::{Ray, RayView};
use crate::sphere::{offset_point, point_at, DIR_MAX};

verus! {

/// Largest magnitude of a ray parameter an instance hands on.
pub const PARAMETER_MAX: i128 = 0x1_0000_0000_0000_0000;

/// One placement of a shared mesh: the mesh's index in the scene's mesh
/// table, the model matrix that places it, its inverse, and the material
/// the placement is drawn with.
#[derive(Clone, Copy, Debug)]
pub struct Instance {
    pub mesh: usize,
    pub model_matrix: Matrix4,
    pub inverse_model_matrix: Matrix4,
    pub material: usize,
}

/// The ray's origin in the mesh's own space.
pub open spec fn local_origin(inst: Instance, ray: RayView) -> (int, int, int) {
    inst.inverse_model_matrix.point_image(ray.0)
}

/// The ray's direction in the mesh's own space, normalized.
pub open spec fn local_direction(inst: Instance, ray: RayView) -> (int, int, int) {
    normalized(inst.inverse_model_matrix.vector_image(ray.1))
}

/// A parameter along the local ray as a parameter along the world ray: the
/// local direction carried back to world space gives the ratio of lengths.
pub open spec fn world_t(inst: Instance, ray: RayView, tl: int) -> int {
    let w = inst.model_matrix.vector_image(local_direction(inst, ray));
    div_trunc(tl * sqrt_of(dot(w, w)), SCALE as int)
}

/// The parameter of the hit of the placed mesh, if the ray hits it: the
/// nearest hit of the local ray against the shared mesh, carried back.
pub open spec fn instance_t(inst: Instance, mesh: Mesh, ray: RayView, cull: bool) -> Option<int> {
    let ol = local_origin(inst, ray);
    let dl = local_direction(inst, ray);
    if !vec_in_range(ol, POINT_MAX as int) || dl == (0int, 0int, 0int) {
        None
    } else {
        match mesh_t(mesh, (ol, dl), cull) {
            None => None,
            Some(tl) => {
                let tw = world_t(inst, ray, tl);
                if abs(tl) > PARAMETER_MAX || abs(tw) > PARAMETER_MAX || !vec_in_range(
                    point_at(ray.0, ray.1, tw),
                    POINT_MAX as int,
                ) {
                    None
                } else {
                    Some(tw)
                }
            },
        }
    }
}

/// `n` times the transpose of `m` (without translation), rounded toward
/// zero: how a normal is carried by the inverse transpose.
pub open spec fn normal_image(m: Matrix4, n: (int, int, int)) -> (int, int, int) {
    let e = |r: int, c: int| crate::matrix::entry(m.data, r, c);
    (
        div_trunc(n.0 * e(0, 0) + n.1 * e(0, 1) + n.2 * e(0, 2), SCALE as int),
        div_trunc(n.0 * e(1, 0) + n.1 * e(1, 1) + n.2 * e(1, 2), SCALE as int),
        div_trunc(n.0 * e(2, 0) + n.1 * e(2, 1) + n.2 * e(2, 2), SCALE as int),
    )
}

/// The ray carried into the mesh's own space.
pub open spec fn local_ray(inst: Instance, ray: Ray) -> Ray {
    Ray::make(
        crate::math::point_of(local_origin(inst, ray@)),
        crate::math::vec_of(local_direction(inst, ray@)),
        ray.medium_refraction,
    )
}

/// The hit record of the placed mesh: the mesh's record for the local ray,
/// carried back to world space, with the placement's material.
pub open spec fn instance_hit(inst: Instance, mesh: Mesh, ray: Ray, cull: bool) -> Option<Intersection> {
    match instance_t(inst, mesh, ray@, cull) {
        Some(tw) => {
            let mh = crate::mesh::mesh_hit(mesh, local_ray(inst, ray), cull).unwrap();
            Some(
                Intersection {
                    t: tw as i128,
                    point: crate::math::point_of(point_at(ray.origin@, ray.direction@, tw)),
                    ray,
                    normal: crate::math::vec_of(normalized(normal_image(inst.inverse_model_matrix, mh.normal@))),
                    inside: mh.inside,
                    texture_coord: mh.texture_coord,
                    material: inst.material,
                },
            )
        },
        None => None,
    }
}

impl Instance {
    pub open spec fn wf(&self) -> bool {
        self.model_matrix.wf() && self.inverse_model_matrix.wf()
    }

    /// The mesh at its own place, drawn with `material`.
    pub fn new(mesh: usize, material: usize) -> (i: Instance)
        ensures
            i.wf(),
            i.mesh == mesh && i.material == material,
    {
        Instance {
            mesh,
            model_matrix: Matrix4::identity(),
            inverse_model_matrix: Matrix4::identity(),
            material,
        }
    }

    /// Places the mesh by `model`; an error, leaving the placement as it
    /// was, when `model` cannot be inverted.
    pub fn set_model_matrix(&mut self, model: Matrix4) -> (r: Result<(), InverseError>)
        requires
            old(self).wf(),
            model.wf(),
        ensures
            final(self).wf(),
            final(self).mesh == old(self).mesh && final(self).material == old(self).material,
            r is Ok ==> final(self).model_matrix == model && forall|i: int, j: int|
                0 <= i < 4 && 0 <= j < 4 ==> #[trigger] crate::matrix::entry(final(self).inverse_model_matrix.data, i, j)
                    == crate::matrix::inverse_entry(model.data, i, j),
            r is Err ==> *final(self) == *old(self),
            r is Err <==> (crate::matrix::determinant(model.data) == 0 || exists|i: int, j: int|
                0 <= i < 4 && 0 <= j < 4 && abs(#[trigger] crate::matrix::inverse_entry(model.data, i, j))
                    > crate::matrix::ENTRY_MAX),
    {
        match model.inverse() {
            Ok(inverse) => {
                proof {
                    assert forall|i: int, j: int| 0 <= i < 4 && 0 <= j < 4 implies abs(
                        #[trigger] crate::matrix::entry(inverse.data, i, j),
                    ) <= crate::matrix::ENTRY_MAX by {
                        assert(crate::matrix::entry(inverse.data, i, j) == crate::matrix::inverse_entry(model.data, i, j));
                    }
                }
                proof {
                    assert forall|i: int, j: int| 0 <= i < 4 && 0 <= j < 4 implies !(abs(
                        #[trigger] crate::matrix::inverse_entry(model.data, i, j),
                    ) > crate::matrix::ENTRY_MAX) by {
                        assert(crate::matrix::entry(inverse.data, i, j) == crate::matrix::inverse_entry(model.data, i, j));
                    }
                }
                self.model_matrix = model;
                self.inverse_model_matrix = inverse;
                Ok(())
            },
            Err(e) => Err(e),
        }
    }

    /// Intersects the shared mesh with the ray carried into the mesh's
    /// space by the inverse model matrix, then carries the hit back: the
    /// point along the world ray, the normal by the inverse transpose. The
    /// hit takes the placement's material.
    pub fn intersect(&self, mesh: &Mesh, ray: &Ray, cull: bool) -> (r: Option<Intersection>)
        requires
            self.wf(),
            mesh.wf(),
            ray.wf(),
            vec_in_range(ray.direction@, DIR_MAX as int),
        ensures
            r.is_some() == instance_t(*self, *mesh, ray@, cull).is_some(),
            r == instance_hit(*self, *mesh, *ray, cull),
            r matches Some(h) ==> {
                &&& Some(h.t as int) == instance_t(*self, *mesh, ray@, cull)
                &&& h.point.wf()
                &&& vec_in_range(h.normal@, SCALE as int)
                &&& uv_ok(h.texture_coord)
                &&& h.material == self.material
                &&& h.ray == *ray
            },
    {
        let ol = match self.inverse_model_matrix.transform_point(&ray.origin) {
            Some(p) => p,
            None => {
                return None;
            },
        };
        let dl = self.inverse_model_matrix.transform_vector(&ray.direction).normalize();
        if dl.x == 0 && dl.y == 0 && dl.z == 0 {
            return None;
        }
        let local = Ray::new(ol, dl, Some(ray.medium_refraction));
        let hit = match mesh.intersect(&local, cull) {
            Some(h) => h,
            None => {
                return None;
            },
        };
        let tl = hit.t;
        if tl > PARAMETER_MAX || tl < -PARAMETER_MAX {
            return None;
        }
        let w = self.model_matrix.transform_vector(&dl);
        let len = w.length();
        proof {
            crate::math::lemma_mul_abs_bound(w.x as int, w.x as int, 3 * crate::matrix::ENTRY_MAX, 3 * crate::matrix::ENTRY_MAX);
            crate::math::lemma_mul_abs_bound(w.y as int, w.y as int, 3 * crate::matrix::ENTRY_MAX, 3 * crate::matrix::ENTRY_MAX);
            crate::math::lemma_mul_abs_bound(w.z as int, w.z as int, 3 * crate::matrix::ENTRY_MAX, 3 * crate::matrix::ENTRY_MAX);
            crate::math::lemma_sqrt_of(dot(w@, w@), len as int);
            assert(len <= 0x1000_0000) by (nonlinear_arith)
                requires
                    len * len <= dot(w@, w@),
                    dot(w@, w@) <= 3 * (3 * crate::matrix::ENTRY_MAX) * (3 * crate::matrix::ENTRY_MAX),
                    len >= 0,
            ;
            crate::math::lemma_mul_abs_bound(w.x as int, w.x as int, 3 * crate::matrix::ENTRY_MAX, 3 * crate::matrix::ENTRY_MAX);
            crate::math::lemma_mul_abs_bound(w.y as int, w.y as int, 3 * crate::matrix::ENTRY_MAX, 3 * crate::matrix::ENTRY_MAX);
            crate::math::lemma_mul_abs_bound(w.z as int, w.z as int, 3 * crate::matrix::ENTRY_MAX, 3 * crate::matrix::ENTRY_MAX);
            crate::math::lemma_mul_abs_bound(tl as int, len as int, PARAMETER_MAX as int, 0x1000_0000);
        }
        let tw = crate::math::div_toward_zero(tl * (len as i128), SCALE as i128);
        if tw > PARAMETER_MAX || tw < -PARAMETER_MAX {
            return None;
        }
        let point = match offset_point(&ray.origin, &ray.direction, tw) {
            Some(p) => p,
            None => {
                return None;
            },
        };
        let tr = self.inverse_model_matrix.transpose();
        let nv = tr.transform_vector(&hit.normal);
        proof {
            assert(nv@ == normal_image(self.inverse_model_matrix, hit.normal@));
            assert(local == local_ray(*self, *ray));
        }
        let normal = nv.normalize();
        Some(
            Intersection {
                t: tw,
                point,
                ray: *ray,
                normal,
                inside: hit.inside,
                texture_coord: hit.texture_coord,
                material: self.material,
            },
        )
    }
}

} // verus!
