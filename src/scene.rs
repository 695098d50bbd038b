use vstd::prelude::*;

use crate::color::Color;
use crate::intersection::Intersection;
use crate::light::Light;
use crate::material::{uv_ok, Material};
use crate::math::{dot, vec_in_range, vsub, POINT_MAX, SCALE};
use crate::instance::{instance_t, Instance};
use crate::mesh::{mesh_t, Mesh};
use crate::ray::Ray;
use crate::sphere::{plane_t, point_at, sphere_ahead, sphere_t, Plane, Sphere, DIR_MAX};
use crate::triangle::{mt_hit, tri_t, Triangle};

verus! {

/// A scene description could not be turned into a scene.
#[derive(Clone, Debug)]
pub struct SceneConfigLoadError {
    pub description: String,
}

impl SceneConfigLoadError {
    pub fn new(description: String) -> (e: SceneConfigLoadError)
        ensures
            e.description == description,
    {
        SceneConfigLoadError { description }
    }
}

/// Anything a ray can hit.
pub enum Shape {
    Sphere(Sphere),
    Plane(Plane),
    Triangle(Triangle),
    Mesh(Mesh),
    /// A placement of a mesh of the scene's mesh table.
    Instance(Instance),
}

/// The parameter of the hit of a shape, if the ray hits it.
pub open spec fn shape_t(s: Shape, meshes: Seq<Mesh>, ray: Ray, cull: bool) -> Option<int> {
    let (o, d) = (ray.origin@, ray.direction@);
    match s {
        Shape::Sphere(sp) => if dot(d, d) > 0 && sphere_ahead(sp, o, d) && vec_in_range(
            point_at(o, d, sphere_t(sp, o, d)),
            POINT_MAX as int,
        ) {
            Some(sphere_t(sp, o, d))
        } else {
            None
        },
        Shape::Plane(pl) => {
            let denom = dot(pl.normal@, d);
            let num = dot(vsub(pl.origin@, o), pl.normal@);
            if crate::math::abs(denom) > crate::sphere::PARALLEL_EPSILON && num * denom >= 0 && vec_in_range(
                point_at(o, d, plane_t(pl, o, d)),
                POINT_MAX as int,
            ) {
                Some(plane_t(pl, o, d))
            } else {
                None
            }
        },
        Shape::Triangle(t) => if mt_hit(t, o, d, cull) {
            Some(tri_t(t, o, d))
        } else {
            None
        },
        Shape::Mesh(m) => mesh_t(m, ray@, cull),
        Shape::Instance(i) => if i.mesh < meshes.len() {
            instance_t(i, meshes[i.mesh as int], ray@, cull)
        } else {
            None
        },
    }
}

/// The hit record of a shape, if the ray hits it.
pub open spec fn shape_hit(s: Shape, meshes: Seq<Mesh>, ray: Ray, cull: bool) -> Option<Intersection> {
    match s {
        Shape::Sphere(sp) => crate::sphere::sphere_hit(sp, ray),
        Shape::Plane(pl) => crate::sphere::plane_hit(pl, ray),
        Shape::Triangle(t) => crate::triangle::tri_hit(t, ray, cull),
        Shape::Mesh(m) => crate::mesh::mesh_hit(m, ray, cull),
        Shape::Instance(i) => if i.mesh < meshes.len() {
            crate::instance::instance_hit(i, meshes[i.mesh as int], ray, cull)
        } else {
            None
        },
    }
}

/// The nearest hit over the first `n` shapes; on equal parameters the
/// shape that comes first wins.
pub open spec fn nearest_upto(objects: Seq<Shape>, meshes: Seq<Mesh>, ray: Ray, cull: bool, n: nat) -> Option<Intersection>
    decreases n,
{
    if n == 0 {
        None
    } else {
        let prev = nearest_upto(objects, meshes, ray, cull, (n - 1) as nat);
        match shape_hit(objects[n - 1], meshes, ray, cull) {
            Some(h) => match prev {
                Some(b) => if h.t < b.t {
                    Some(h)
                } else {
                    prev
                },
                None => Some(h),
            },
            None => prev,
        }
    }
}

/// The hit of the first of the first `n` shapes (in order) that the ray
/// hits closer than `limit` (at any distance when there is none).
pub open spec fn first_upto(objects: Seq<Shape>, meshes: Seq<Mesh>, ray: Ray, cull: bool, limit: Option<int>, n: nat) -> Option<Intersection>
    decreases n,
{
    if n == 0 {
        None
    } else {
        let prev = first_upto(objects, meshes, ray, cull, limit, (n - 1) as nat);
        if prev is Some {
            prev
        } else {
            match shape_hit(objects[n - 1], meshes, ray, cull) {
                Some(h) => if (limit matches Some(l) ==> h.t < l) {
                    Some(h)
                } else {
                    None
                },
                None => None,
            }
        }
    }
}

proof fn lemma_first_stays(objects: Seq<Shape>, meshes: Seq<Mesh>, ray: Ray, cull: bool, limit: Option<int>, n: nat, m: nat)
    requires
        n <= m,
        first_upto(objects, meshes, ray, cull, limit, n) is Some,
    ensures
        first_upto(objects, meshes, ray, cull, limit, m) == first_upto(objects, meshes, ray, cull, limit, n),
    decreases m - n,
{
    if n < m {
        lemma_first_stays(objects, meshes, ray, cull, limit, n, (m - 1) as nat);
    }
}

/// Every material index a shape can report is below `n`.
pub open spec fn materials_below(s: Shape, n: int) -> bool {
    match s {
        Shape::Sphere(sp) => sp.material < n,
        Shape::Plane(pl) => pl.material < n,
        Shape::Triangle(t) => t.material < n,
        Shape::Mesh(m) => forall|i: int|
            0 <= i < m.storage.triangles@.len() ==> #[trigger] m.storage.triangles@[i].material < n,
        Shape::Instance(i) => i.material < n,
    }
}

/// What the shading of a hit relies on.
pub open spec fn hit_ok(h: Intersection, n: int) -> bool {
    &&& h.point.wf()
    &&& vec_in_range(h.normal@, SCALE as int)
    &&& uv_ok(h.texture_coord)
    &&& h.material < n
}

impl Shape {
    pub open spec fn wf(&self) -> bool {
        match self {
            Shape::Sphere(s) => s.wf(),
            Shape::Plane(p) => p.wf(),
            Shape::Triangle(t) => t.wf(),
            Shape::Mesh(m) => m.wf(),
            Shape::Instance(i) => i.wf(),
        }
    }

    /// The hit of the ray with this shape; an instance finds its mesh in
    /// `meshes`.
    pub fn intersect(&self, meshes: &Vec<Mesh>, ray: &Ray, cull: bool, num_materials: Ghost<int>) -> (r: Option<Intersection>)
        requires
            self.wf(),
            forall|k: int| 0 <= k < meshes@.len() ==> (#[trigger] meshes@[k]).wf(),
            ray.wf(),
            vec_in_range(ray.direction@, DIR_MAX as int),
            materials_below(*self, num_materials@),
        ensures
            r == shape_hit(*self, meshes@, *ray, cull),
            r.is_some() == shape_t(*self, meshes@, *ray, cull).is_some(),
            r matches Some(h) ==> Some(h.t as int) == shape_t(*self, meshes@, *ray, cull) && hit_ok(
                h,
                num_materials@,
            ) && h.ray == *ray,
    {
        match self {
            Shape::Sphere(s) => s.intersect(ray),
            Shape::Plane(p) => p.intersect(ray),
            Shape::Triangle(t) => t.intersect(ray, cull),
            Shape::Mesh(m) => m.intersect(ray, cull),
            Shape::Instance(i) => {
                if i.mesh < meshes.len() {
                    i.intersect(&meshes[i.mesh], ray, cull)
                } else {
                    None
                }
            },
        }
    }
}

/// The shapes and lights of a scene, the materials the shapes refer to by
/// index, the meshes that instances place, and the ambient and background
/// colors.
pub struct Scene {
    pub objects: Vec<Shape>,
    pub lights: Vec<Light>,
    pub materials: Vec<Material>,
    pub meshes: Vec<Mesh>,
    pub ambient_color: Color,
    pub clear_color: Color,
}

impl Scene {
    /// The nearest hit over all shapes, the first in order on ties.
    pub open spec fn scene_hit(&self, ray: Ray, cull: bool) -> Option<Intersection> {
        nearest_upto(self.objects@, self.meshes@, ray, cull, self.objects@.len())
    }

    /// The first hit in shape order closer than `limit`.
    pub open spec fn first_hit(&self, ray: Ray, cull: bool, limit: Option<int>) -> Option<Intersection> {
        first_upto(self.objects@, self.meshes@, ray, cull, limit, self.objects@.len())
    }

    /// `h` is a nearest hit of the ray over the shapes.
    pub open spec fn is_nearest_hit(&self, ray: Ray, cull: bool, h: Intersection) -> bool {
        &&& exists|k: int|
            0 <= k < self.objects@.len() && #[trigger] shape_t(self.objects@[k], self.meshes@, ray, cull) == Some(
                h.t as int,
            )
        &&& forall|k: int|
            0 <= k < self.objects@.len() ==> (#[trigger] shape_t(self.objects@[k], self.meshes@, ray, cull) matches Some(
                t,
            ) ==> h.t <= t)
        &&& hit_ok(h, self.materials@.len() as int)
        &&& h.ray == ray
    }

    pub open spec fn wf(&self) -> bool {
        &&& forall|k: int| 0 <= k < self.objects@.len() ==> (#[trigger] self.objects@[k]).wf()
        &&& forall|k: int|
            0 <= k < self.objects@.len() ==> materials_below(
                #[trigger] self.objects@[k],
                self.materials@.len() as int,
            )
        &&& forall|k: int| 0 <= k < self.lights@.len() ==> (#[trigger] self.lights@[k]).wf()
        &&& forall|k: int| 0 <= k < self.materials@.len() ==> (#[trigger] self.materials@[k]).wf()
        &&& forall|k: int| 0 <= k < self.meshes@.len() ==> (#[trigger] self.meshes@[k]).wf()
    }

    pub fn new(
        objects: Vec<Shape>,
        lights: Vec<Light>,
        materials: Vec<Material>,
        meshes: Vec<Mesh>,
        ambient_color: Color,
        clear_color: Color,
    ) -> (s: Scene)
        ensures
            s.objects == objects && s.lights == lights && s.materials == materials && s.meshes
                == meshes,
            s.ambient_color == ambient_color && s.clear_color == clear_color,
    {
        Scene { objects, lights, materials, meshes, ambient_color, clear_color }
    }

    /// The nearest hit over all shapes; on equal parameters the shape
    /// that comes first wins.
    pub fn intersect(&self, ray: &Ray, cull: bool) -> (r: Option<Intersection>)
        requires
            self.wf(),
            ray.wf(),
            vec_in_range(ray.direction@, DIR_MAX as int),
        ensures
            r.is_some() == exists|k: int|
                0 <= k < self.objects@.len() && (#[trigger] shape_t(self.objects@[k], self.meshes@, *ray, cull)).is_some(),
            r matches Some(h) ==> self.is_nearest_hit(*ray, cull, h),
            r == self.scene_hit(*ray, cull),
    {
        let mut best: Option<Intersection> = None;
        let mut i: usize = 0;
        while i < self.objects.len()
            invariant
                self.wf(),
                ray.wf(),
                vec_in_range(ray.direction@, DIR_MAX as int),
                0 <= i <= self.objects@.len(),
                best == nearest_upto(self.objects@, self.meshes@, *ray, cull, i as nat),
                best is None <==> forall|k: int|
                    0 <= k < i ==> (#[trigger] shape_t(self.objects@[k], self.meshes@, *ray, cull)) is None,
                best matches Some(h) ==> {
                    &&& exists|k: int|
                        0 <= k < i && #[trigger] shape_t(self.objects@[k], self.meshes@, *ray, cull) == Some(h.t as int)
                    &&& forall|k: int|
                        0 <= k < i ==> (#[trigger] shape_t(self.objects@[k], self.meshes@, *ray, cull) matches Some(t)
                            ==> h.t <= t)
                    &&& hit_ok(h, self.materials@.len() as int)
                    &&& h.ray == *ray
                },
            decreases self.objects@.len() - i,
        {
            let hit = self.objects[i].intersect(&self.meshes, ray, cull, Ghost(self.materials@.len() as int));
            let ghost prev = best;
            match hit {
                Some(h) => {
                    let better = match &best {
                        None => true,
                        Some(b) => h.t < b.t,
                    };
                    if better {
                        best = Some(h);
                    }
                },
                None => {},
            }
            proof {
                if best is Some && prev is Some && best.unwrap() == prev.unwrap() {
                    let k0 = choose|k: int|
                        0 <= k < i && #[trigger] shape_t(self.objects@[k], self.meshes@, *ray, cull) == Some(
                            prev.unwrap().t as int,
                        );
                    assert(0 <= k0 < i + 1);
                }
                if hit is Some {
                    assert(shape_t(self.objects@[i as int], self.meshes@, *ray, cull) is Some);
                }
            }
            i = i + 1;
        }
        best
    }

    /// Some hit closer than `distance` (any distance when there is none),
    /// not necessarily the nearest: the first shape in order that has one.
    pub fn first_intersection(&self, ray: &Ray, cull: bool, distance: Option<i128>) -> (r: Option<Intersection>)
        requires
            self.wf(),
            ray.wf(),
            vec_in_range(ray.direction@, DIR_MAX as int),
        ensures
            r is None <==> forall|k: int|
                0 <= k < self.objects@.len() ==> !(#[trigger] shape_t(self.objects@[k], self.meshes@, *ray, cull)
                    matches Some(t) && (distance matches Some(dm) ==> t < dm)),
            r matches Some(h) ==> (distance matches Some(dm) ==> h.t < dm) && exists|k: int|
                0 <= k < self.objects@.len() && #[trigger] shape_t(self.objects@[k], self.meshes@, *ray, cull)
                    == Some(h.t as int),
            r == self.first_hit(
                *ray,
                cull,
                match distance {
                    Some(d) => Some(d as int),
                    None => None,
                },
            ),
    {
        let ghost limit: Option<int> = match distance {
            Some(d) => Some(d as int),
            None => None,
        };
        let mut i: usize = 0;
        while i < self.objects.len()
            invariant
                self.wf(),
                ray.wf(),
                vec_in_range(ray.direction@, DIR_MAX as int),
                0 <= i <= self.objects@.len(),
                forall|k: int|
                    0 <= k < i ==> !(#[trigger] shape_t(self.objects@[k], self.meshes@, *ray, cull) matches Some(t)
                        && (distance matches Some(dm) ==> t < dm)),
                limit == (match distance {
                    Some(d) => Some(d as int),
                    None => None::<int>,
                }),
                first_upto(self.objects@, self.meshes@, *ray, cull, limit, i as nat) is None,
            decreases self.objects@.len() - i,
        {
            let hit = self.objects[i].intersect(&self.meshes, ray, cull, Ghost(self.materials@.len() as int));
            match hit {
                Some(h) => {
                    let closer = match distance {
                        Some(dm) => h.t < dm,
                        None => true,
                    };
                    if closer {
                        proof {
                            assert(first_upto(self.objects@, self.meshes@, *ray, cull, limit, (i + 1) as nat) == Some(h));
                            lemma_first_stays(self.objects@, self.meshes@, *ray, cull, limit, (i + 1) as nat, self.objects@.len());
                        }
                        return Some(h);
                    }
                },
                None => {},
            }
            i = i + 1;
        }
        None
    }
}

} // verus!
