use vstd::prelude::*;

use crate::aabb::{ray_meets_box, AABB};
use crate::intersection::Intersection;
use crate::math::{vec_in_range, Point3, Vector3, POINT_MAX, SCALE};
use crate::matrix::Matrix4;
use crate::octree::Octree;
use crate::ray::{Ray, RayView};
use crate::triangle::{mt_hit, tri_t, vertex_ok, Normal, Triangle};

verus! {

/// Triangle `t` of the octree is held by a node the traversal reaches.
pub open spec fn candidate(o: Octree, ray: RayView, t: usize) -> bool {
    exists|p: int| 0 <= p < o.arena.len() && #[trigger] o.visited(ray, p) && o.arena.data@[p]@.contains(t)
}

/// Triangle `t` is a candidate and the ray hits it.
pub open spec fn candidate_hit(o: Octree, ray: RayView, cull: bool, t: usize) -> bool {
    t < o.triangles@.len() && candidate(o, ray, t) && mt_hit(
        o.triangles@[t as int],
        ray.0,
        ray.1,
        cull,
    )
}

/// The parameter of the hit of triangle `t`.
pub open spec fn candidate_t(o: Octree, ray: RayView, t: usize) -> int {
    tri_t(o.triangles@[t as int], ray.0, ray.1)
}

/// `v` is the least parameter of a candidate hit.
pub open spec fn is_nearest(o: Octree, ray: RayView, cull: bool, v: int) -> bool {
    &&& exists|t: usize| #[trigger] candidate_hit(o, ray, cull, t) && candidate_t(o, ray, t) == v
    &&& forall|t: usize| #[trigger] candidate_hit(o, ray, cull, t) ==> v <= candidate_t(o, ray, t)
}

/// `(ta, a)` comes no later than `(tb, b)`: a smaller parameter, or the
/// same parameter and a smaller index.
pub open spec fn lex_le(ta: int, a: int, tb: int, b: int) -> bool {
    ta < tb || (ta == tb && a <= b)
}

/// Triangle `t` is the hit candidate with the least parameter, and among
/// those the least index.
pub open spec fn is_best(o: Octree, ray: RayView, cull: bool, t: usize) -> bool {
    &&& candidate_hit(o, ray, cull, t)
    &&& forall|t2: usize|
        #[trigger] candidate_hit(o, ray, cull, t2) ==> lex_le(
            candidate_t(o, ray, t),
            t as int,
            candidate_t(o, ray, t2),
            t2 as int,
        )
}

/// The hit record of the mesh: the record of its best candidate triangle.
pub open spec fn mesh_hit(m: Mesh, ray: Ray, cull: bool) -> Option<Intersection> {
    if mesh_t(m, ray@, cull) is Some {
        crate::triangle::tri_hit(
            m.storage.triangles@[(choose|t: usize| #[trigger] is_best(m.storage, ray@, cull, t)) as int],
            ray,
            cull,
        )
    } else {
        None
    }
}

/// The nearest hit among the candidate triangles, if any.
pub open spec fn mesh_t(m: Mesh, ray: RayView, cull: bool) -> Option<int> {
    let b = m.bounding_volume;
    if ray_meets_box(b.lo(), b.hi(), ray.0, ray.1) && exists|t: usize|
        #[trigger] candidate_hit(m.storage, ray, cull, t) {
        Some(choose|v: int| #[trigger] is_nearest(m.storage, ray, cull, v))
    } else {
        None
    }
}

/// A moved vertex would leave the range of a triangle.
#[derive(Clone, Copy, Debug, PartialEq, Eq, Structural)]
pub enum TransformError {
    OutOfRange,
}

fn transform_normal(n: &Vector3, m: &Matrix4) -> (r: Vector3)
    requires
        vec_in_range(n@, SCALE as int),
        m.wf(),
    ensures
        vec_in_range(r@, SCALE as int),
        r@ == crate::math::normalized(m.vector_image(n@)),
{
    m.transform_vector(n).normalize()
}

/// Point `p` moved by `m` stays within the range of a triangle's vertices.
pub open spec fn moved_ok(m: Matrix4, p: (int, int, int)) -> bool {
    vec_in_range(m.point_image(p), POINT_MAX as int / 2)
}

/// A normal carried by `m`: the direction moved without translation and
/// renormalized.
pub open spec fn moved_vector(m: Matrix4, n: Vector3) -> Vector3 {
    crate::math::vec_of(crate::math::normalized(m.vector_image(n@)))
}

pub open spec fn moved_normal(m: Matrix4, n: Normal) -> Normal {
    match n {
        Normal::Face(a) => Normal::Face(moved_vector(m, a)),
        Normal::Vertex(a, b, c) => Normal::Vertex(moved_vector(m, a), moved_vector(m, b), moved_vector(m, c)),
    }
}

/// The triangle with its vertices and normals moved by `m`; nothing when a
/// vertex would leave the range of a triangle.
fn transform_triangle(t: &Triangle, m: &Matrix4) -> (r: Option<Triangle>)
    requires
        t.wf(),
        m.wf(),
    ensures
        r is None <==> exists|v: int| 0 <= v < 3 && !moved_ok(*m, #[trigger] t.vertices[v]@),
        r matches Some(nt) ==> nt.wf() && forall|v: int|
            0 <= v < 3 ==> #[trigger] nt.vertices[v]@ == m.point_image(t.vertices[v]@),
        r matches Some(nt) ==> nt.normal == moved_normal(*m, t.normal) && nt.texture_coords
            == t.texture_coords && nt.material == t.material,
{
    let a = m.transform_point(&t.vertices[0]);
    let b = m.transform_point(&t.vertices[1]);
    let c = m.transform_point(&t.vertices[2]);
    match (a, b, c) {
        (Some(a), Some(b), Some(c)) => {
            let half = POINT_MAX / 2;
            if a.x < -half || a.x > half || a.y < -half || a.y > half || a.z < -half || a.z > half
                || b.x < -half || b.x > half || b.y < -half || b.y > half || b.z < -half || b.z > half
                || c.x < -half || c.x > half || c.y < -half || c.y > half || c.z < -half || c.z > half {
                proof {
                    if !moved_ok(*m, t.vertices[0]@) {
                    } else if !moved_ok(*m, t.vertices[1]@) {
                    } else {
                        assert(!moved_ok(*m, t.vertices[2]@));
                    }
                }
                return None;
            }
            let normal = match t.normal {
                Normal::Face(n) => Normal::Face(transform_normal(&n, m)),
                Normal::Vertex(n0, n1, n2) => Normal::Vertex(
                    transform_normal(&n0, m),
                    transform_normal(&n1, m),
                    transform_normal(&n2, m),
                ),
            };
            let nt = Triangle::new(a, b, c, normal, t.texture_coords, t.material);
            proof {
                assert(nt.vertices[0]@ == m.point_image(t.vertices[0]@));
                assert(nt.vertices[1]@ == m.point_image(t.vertices[1]@));
                assert(nt.vertices[2]@ == m.point_image(t.vertices[2]@));
            }
            Some(nt)
        },
        _ => {
            proof {
                if a is None {
                    assert(!moved_ok(*m, t.vertices[0]@));
                } else if b is None {
                    assert(!moved_ok(*m, t.vertices[1]@));
                } else {
                    assert(!moved_ok(*m, t.vertices[2]@));
                }
            }
            None
        },
    }
}

/// Triangles behind one bounding box and one octree.
pub struct Mesh {
    pub storage: Octree,
    pub bounding_volume: AABB,
}

impl Mesh {
    pub open spec fn wf(&self) -> bool {
        &&& self.storage.wf()
        &&& self.storage.built()
        &&& self.storage.rooted()
        &&& self.storage.subdivided()
        &&& self.bounding_volume.wf()
        &&& forall|t: int|
            0 <= t < self.storage.triangles@.len() ==> crate::aabb::le3(
                self.bounding_volume.lo(),
                crate::aabb::tri_min(#[trigger] self.storage.triangles@[t]),
            ) && crate::aabb::le3(crate::aabb::tri_max(self.storage.triangles@[t]), self.bounding_volume.hi())
    }

    /// A mesh over the triangles; its octree is built.
    pub fn new(triangles: Vec<Triangle>) -> (m: Mesh)
        requires
            forall|i: int| 0 <= i < triangles@.len() ==> #[trigger] triangles@[i].wf(),
        ensures
            m.wf(),
            m.storage.triangles@ == triangles@,
    {
        let bounding_volume = AABB::from_triangles(&triangles);
        let mut storage = Octree::new(triangles);
        storage.rebuild();
        Mesh { storage, bounding_volume }
    }

    /// Rebuilds the octree from the triangles, as after a transform.
    pub fn rebuild_accelleration_structure(&mut self)
        requires
            old(self).wf(),
        ensures
            final(self).wf(),
            final(self).storage.triangles@ == old(self).storage.triangles@,
            final(self).bounding_volume == old(self).bounding_volume,
    {
        self.storage.rebuild();
    }

    /// Applies `m` to every triangle (vertices by `transform_point`, normals
    /// by the same matrix without translation, renormalized) and rebuilds
    /// the bounding box and the octree from the moved triangles. When a
    /// moved vertex would leave the range of a triangle the mesh is left as
    /// it was and an error is returned.
    pub fn transform(&mut self, m: &Matrix4) -> (r: Result<(), TransformError>)
        requires
            old(self).wf(),
            m.wf(),
        ensures
            final(self).wf(),
            r is Err ==> final(self).storage.triangles@ == old(self).storage.triangles@,
            r is Err <==> exists|i: int, v: int|
                0 <= i < old(self).storage.triangles@.len() && 0 <= v < 3 && !moved_ok(
                    *m,
                    #[trigger] old(self).storage.triangles@[i].vertices[v]@,
                ),
            r is Ok ==> forall|i: int|
                0 <= i < old(self).storage.triangles@.len() ==> (#[trigger] final(self).storage.triangles@[i]).normal
                    == moved_normal(*m, old(self).storage.triangles@[i].normal)
                    && final(self).storage.triangles@[i].texture_coords == old(self).storage.triangles@[i].texture_coords
                    && final(self).storage.triangles@[i].material == old(self).storage.triangles@[i].material,
            r is Ok ==> final(self).storage.triangles@.len() == old(self).storage.triangles@.len()
                && forall|i: int, v: int|
                0 <= i < old(self).storage.triangles@.len() && 0 <= v < 3 ==> #[trigger] final(self).storage.triangles@[i].vertices[v]@
                    == m.point_image(old(self).storage.triangles@[i].vertices[v]@),
    {
        let mut moved: Vec<Triangle> = Vec::new();
        let n = self.storage.triangles.len();
        let mut i: usize = 0;
        while i < n
            invariant
                old(self).wf(),
                *self == *old(self),
                m.wf(),
                n == self.storage.triangles@.len(),
                0 <= i <= n,
                moved@.len() == i,
                forall|k: int| 0 <= k < i ==> (#[trigger] moved@[k]).wf(),
                forall|k: int, v: int|
                    0 <= k < i && 0 <= v < 3 ==> #[trigger] moved@[k].vertices[v]@ == m.point_image(
                        self.storage.triangles@[k].vertices[v]@,
                    ),
                forall|k: int|
                    0 <= k < i ==> (#[trigger] moved@[k]).normal == moved_normal(*m, self.storage.triangles@[k].normal)
                        && moved@[k].texture_coords == self.storage.triangles@[k].texture_coords
                        && moved@[k].material == self.storage.triangles@[k].material,
                forall|k: int, v: int|
                    0 <= k < i && 0 <= v < 3 ==> moved_ok(*m, #[trigger] self.storage.triangles@[k].vertices[v]@),
            decreases n - i,
        {
            let t = self.storage.triangles[i];
            proof {
                assert(self.storage.triangles@[i as int].wf());
            }
            match transform_triangle(&t, m) {
                Some(nt) => moved.push(nt),
                None => {
                    proof {
                        let v = choose|v: int| 0 <= v < 3 && !moved_ok(*m, #[trigger] t.vertices[v]@);
                        assert(!moved_ok(*m, self.storage.triangles@[i as int].vertices[v]@));
                    }
                    return Err(TransformError::OutOfRange);
                },
            }
            i = i + 1;
        }
        proof {
            assert forall|k: int, v: int|
                0 <= k < n && 0 <= v < 3 implies moved_ok(*m, #[trigger] old(self).storage.triangles@[k].vertices[v]@) by {
            }
        }
        self.bounding_volume = AABB::from_triangles(&moved);
        self.storage.triangles = moved;
        self.storage.rebuild();
        Ok(())
    }

    /// A cube from `-size` to `size` on each axis, two triangles a face with
    /// outward face normals.
    pub fn cube(size: i64, material: usize) -> (m: Mesh)
        requires
            0 <= size <= POINT_MAX / 2,
        ensures
            m.wf(),
            m.storage.triangles@.len() == 12,
    {
        let n = -size;
        let v = [
            Point3::new(n, n, size),
            Point3::new(size, n, size),
            Point3::new(size, size, size),
            Point3::new(n, size, size),
            Point3::new(n, n, n),
            Point3::new(size, n, n),
            Point3::new(size, size, n),
            Point3::new(n, size, n),
        ];
        let order: [usize; 36] = [
            0, 1, 2, 2, 3, 0, 1, 5, 6, 6, 2, 1, 7, 6, 5, 5, 4, 7, 4, 0, 3, 3, 7, 4, 4, 5, 1, 1, 0, 4, 3, 2, 6, 6, 7, 3,
        ];
        let mut vertices: Vec<Point3> = Vec::new();
        let mut i: usize = 0;
        while i < 36
            invariant
                0 <= i <= 36,
                vertices@.len() == i,
                forall|j: int| 0 <= j < 8 ==> vertex_ok(#[trigger] v[j]),
                forall|j: int| 0 <= j < i ==> vertex_ok(#[trigger] vertices@[j]),
                forall|j: int| 0 <= j < 36 ==> #[trigger] order[j] < 8,
            decreases 36 - i,
        {
            vertices.push(v[order[i]]);
            i = i + 1;
        }
        let triangles = Mesh::from_triangles(&vertices, material);
        Mesh::new(triangles)
    }

    /// One triangle for each three vertices, with the normalized face
    /// normal `(a - b) x (a - c)`.
    fn from_triangles(vertices: &Vec<Point3>, material: usize) -> (ts: Vec<Triangle>)
        requires
            vertices@.len() % 3 == 0,
            forall|j: int| 0 <= j < vertices@.len() ==> vertex_ok(#[trigger] vertices@[j]),
        ensures
            ts@.len() == vertices@.len() / 3,
            forall|i: int| 0 <= i < ts@.len() ==> (#[trigger] ts@[i]).wf(),
            forall|i: int|
                0 <= i < ts@.len() ==> (#[trigger] ts@[i]).vertices == [
                    vertices@[3 * i],
                    vertices@[3 * i + 1],
                    vertices@[3 * i + 2],
                ],
    {
        let mut ts: Vec<Triangle> = Vec::new();
        let mut i: usize = 0;
        let count = vertices.len() / 3;
        while i < count
            invariant
                0 <= i <= count,
                count == vertices@.len() / 3,
                vertices@.len() == 3 * count,
                count <= usize::MAX / 3,
                forall|j: int| 0 <= j < vertices@.len() ==> vertex_ok(#[trigger] vertices@[j]),
                ts@.len() == i,
                forall|k: int| 0 <= k < i ==> (#[trigger] ts@[k]).wf(),
                forall|k: int|
                    0 <= k < i ==> (#[trigger] ts@[k]).vertices == [
                        vertices@[3 * k],
                        vertices@[3 * k + 1],
                        vertices@[3 * k + 2],
                    ],
            decreases count - i,
        {
            let a = vertices[3 * i];
            let b = vertices[3 * i + 1];
            let c = vertices[3 * i + 2];
            let ab = a.sub(&b);
            let ac = a.sub(&c);
            let normal = ab.cross(&ac).normalize();
            proof {
                assert(crate::math::vec_in_range(ab@, POINT_MAX as int));
            }
            ts.push(Triangle::new(a, b, c, Normal::Face(normal), None, material));
            i = i + 1;
        }
        ts
    }

    /// The nearest hit among the triangles that the octree offers, when the
    /// ray meets the bounding box; on equal parameters the first found wins.
    pub fn intersect(&self, ray: &Ray, cull: bool) -> (r: Option<Intersection>)
        requires
            self.wf(),
            ray.wf(),
        ensures
            r.is_some() == mesh_t(*self, ray@, cull).is_some(),
            r == mesh_hit(*self, *ray, cull),
            r matches Some(h) ==> Some(h.t as int) == mesh_t(*self, ray@, cull) && h.point.wf()
                && vec_in_range(h.normal@, SCALE as int) && !h.inside && h.ray == *ray
                && crate::material::uv_ok(h.texture_coord) && exists|t: int|
                0 <= t < self.storage.triangles@.len() && h.material
                    == #[trigger] self.storage.triangles@[t].material,
    {
        if !self.bounding_volume.intersect(ray) {
            return None;
        }
        let ids = self.storage.intersect(ray);
        let tris = &self.storage.triangles;
        let mut best: Option<Intersection> = None;
        let mut best_id: usize = 0;
        let mut i: usize = 0;
        while i < ids.len()
            invariant
                best matches Some(h) ==> {
                    &&& (best_id as int) < tris@.len()
                    &&& ids@.contains(best_id)
                    &&& mt_hit(tris@[best_id as int], ray.origin@, ray.direction@, cull)
                    &&& Some(h) == crate::triangle::tri_hit(tris@[best_id as int], *ray, cull)
                    &&& h.t == candidate_t(self.storage, ray@, best_id)
                    &&& forall|j: int|
                        0 <= j < i && mt_hit(tris@[ids@[j] as int], ray.origin@, ray.direction@, cull)
                            ==> lex_le(h.t as int, best_id as int, #[trigger] candidate_t(self.storage, ray@, ids@[j]), ids@[j] as int)
                },
                self.wf(),
                ray.wf(),
                tris == &self.storage.triangles,
                0 <= i <= ids@.len(),
                forall|j: int| 0 <= j < ids@.len() ==> #[trigger] ids@[j] < tris@.len(),
                forall|t: usize|
                    ids@.contains(t) <==> candidate(self.storage, ray@, t),
                best is None ==> forall|j: int|
                    0 <= j < i ==> !mt_hit(tris@[ids@[j] as int], ray.origin@, ray.direction@, cull),
                best matches Some(h) ==> {
                    &&& exists|j: int|
                        0 <= j < i && mt_hit(tris@[ids@[j] as int], ray.origin@, ray.direction@, cull)
                            && h.t == #[trigger] candidate_t(self.storage, ray@, ids@[j])
                    &&& forall|j: int|
                        0 <= j < i && mt_hit(tris@[ids@[j] as int], ray.origin@, ray.direction@, cull)
                            ==> h.t <= #[trigger] candidate_t(self.storage, ray@, ids@[j])
                    &&& h.point.wf()
                    &&& vec_in_range(h.normal@, SCALE as int)
                    &&& !h.inside
                    &&& h.ray == *ray
                    &&& crate::material::uv_ok(h.texture_coord)
                    &&& exists|t: int|
                        0 <= t < tris@.len() && h.material == #[trigger] tris@[t].material
                },
            decreases ids@.len() - i,
        {
            let id = ids[i];
            proof {
                assert(tris@[id as int].wf());
            }
            let hit = tris[id].intersect(ray, cull);
            let ghost prev = best;
            match hit {
                Some(h) => {
                    let better = match &best {
                        None => true,
                        Some(b) => h.t < b.t || (h.t == b.t && id < best_id),
                    };
                    if better {
                        best = Some(h);
                        best_id = id;
                    }
                },
                None => {},
            }
            proof {
                if hit is Some {
                    assert(hit.unwrap().t == candidate_t(self.storage, ray@, ids@[i as int]));
                    if best is Some {
                        let bh = best.unwrap();
                        if prev is Some {
                            let j0 = choose|j: int|
                                0 <= j < i && mt_hit(tris@[ids@[j] as int], ray.origin@, ray.direction@, cull)
                                    && prev.unwrap().t == #[trigger] candidate_t(self.storage, ray@, ids@[j]);
                            if bh == prev.unwrap() {
                                assert(0 <= j0 < i + 1);
                            }
                        }
                    }
                }
            }
            i = i + 1;
        }
        proof {
            let o = self.storage;
            assert forall|t: usize| #[trigger] candidate_hit(o, ray@, cull, t) implies exists|j: int|
                0 <= j < ids@.len() && ids@[j] == t by {
                assert(ids@.contains(t as usize));
                let j = choose|j: int| 0 <= j < ids@.len() && ids@[j] == t as usize;
                assert(ids@[j] == t);
            }
            if best is None {
                assert forall|t: usize| !#[trigger] candidate_hit(o, ray@, cull, t) by {
                    if candidate_hit(o, ray@, cull, t) {
                        let j = choose|j: int| 0 <= j < ids@.len() && ids@[j] == t;
                    }
                }
            } else {
                let h = best.unwrap();
                let j0 = choose|j: int|
                    0 <= j < ids@.len() && mt_hit(tris@[ids@[j] as int], ray.origin@, ray.direction@, cull)
                        && h.t == #[trigger] candidate_t(self.storage, ray@, ids@[j]);
                assert(ids@.contains(ids@[j0]));
                assert(candidate_hit(o, ray@, cull, ids@[j0]));
                assert forall|t: usize| #[trigger] candidate_hit(o, ray@, cull, t) implies h.t
                    <= candidate_t(o, ray@, t) by {
                    let j = choose|j: int| 0 <= j < ids@.len() && ids@[j] == t;
                    assert(h.t <= candidate_t(self.storage, ray@, ids@[j]));
                }
                assert(candidate_hit(o, ray@, cull, best_id));
                assert forall|t2: usize| #[trigger] candidate_hit(o, ray@, cull, t2) implies lex_le(
                    candidate_t(o, ray@, best_id),
                    best_id as int,
                    candidate_t(o, ray@, t2),
                    t2 as int,
                ) by {
                    let j = choose|j: int| 0 <= j < ids@.len() && ids@[j] == t2;
                    assert(lex_le(h.t as int, best_id as int, candidate_t(self.storage, ray@, ids@[j]), ids@[j] as int));
                }
                assert(is_best(o, ray@, cull, best_id));
                let bc = choose|t: usize| #[trigger] is_best(o, ray@, cull, t);
                assert(lex_le(candidate_t(o, ray@, bc), bc as int, candidate_t(o, ray@, best_id), best_id as int));
                assert(lex_le(candidate_t(o, ray@, best_id), best_id as int, candidate_t(o, ray@, bc), bc as int));
                assert(bc == best_id);
                assert(is_nearest(o, ray@, cull, h.t as int));
                let v = choose|v: int| #[trigger] is_nearest(o, ray@, cull, v);
                let tv = choose|t: usize| #[trigger] candidate_hit(o, ray@, cull, t) && candidate_t(o, ray@, t) == v;
                let th = choose|t: usize| #[trigger] candidate_hit(o, ray@, cull, t) && candidate_t(o, ray@, t) == h.t;
                assert(h.t <= v);
                assert(v <= h.t);
            }
        }
        best
    }
}

} // verus!

verus! {

/// The ray hits triangle `t` of the mesh.
pub open spec fn hits_triangle(o: Octree, ray: RayView, cull: bool, t: usize) -> bool {
    (t as int) < o.triangles@.len() && mt_hit(o.triangles@[t as int], ray.0, ray.1, cull)
}

/// `v` is the least parameter of a hit over all triangles.
pub open spec fn is_linear_nearest(o: Octree, ray: RayView, cull: bool, v: int) -> bool {
    &&& exists|t: usize| #[trigger] hits_triangle(o, ray, cull, t) && candidate_t(o, ray, t) == v
    &&& forall|t: usize| #[trigger] hits_triangle(o, ray, cull, t) ==> v <= candidate_t(o, ray, t)
}

/// The nearest hit over all triangles, found by scanning them all.
pub open spec fn linear_t(m: Mesh, ray: RayView, cull: bool) -> Option<int> {
    if exists|t: usize| #[trigger] hits_triangle(m.storage, ray, cull, t) {
        Some(choose|v: int| #[trigger] is_linear_nearest(m.storage, ray, cull, v))
    } else {
        None
    }
}

/// `v` is the least parameter of a hit over the triangles below index `n`.
pub open spec fn nearest_below(o: Octree, ray: RayView, cull: bool, n: int, v: int) -> bool {
    &&& exists|t: usize| (t as int) < n && #[trigger] hits_triangle(o, ray, cull, t) && candidate_t(o, ray, t) == v
    &&& forall|t: usize| (t as int) < n && #[trigger] hits_triangle(o, ray, cull, t) ==> v <= candidate_t(o, ray, t)
}

proof fn lemma_nearest_exists(o: Octree, ray: RayView, cull: bool, n: nat)
    requires
        exists|t: usize| (t as int) < n && #[trigger] hits_triangle(o, ray, cull, t),
    ensures
        exists|v: int| #[trigger] nearest_below(o, ray, cull, n as int, v),
    decreases n,
{
    let last = (n - 1) as usize;
    if exists|t: usize| (t as int) < n - 1 && #[trigger] hits_triangle(o, ray, cull, t) {
        lemma_nearest_exists(o, ray, cull, (n - 1) as nat);
        let v = choose|v: int| #[trigger] nearest_below(o, ray, cull, n - 1, v);
        let tv = choose|t: usize| (t as int) < n - 1 && #[trigger] hits_triangle(o, ray, cull, t) && candidate_t(o, ray, t) == v;
        if hits_triangle(o, ray, cull, last) && candidate_t(o, ray, last) < v {
            let w = candidate_t(o, ray, last);
            assert forall|t: usize| (t as int) < n && #[trigger] hits_triangle(o, ray, cull, t) implies w <= candidate_t(o, ray, t) by {
                if t != last {
                    assert((t as int) < n - 1);
                }
            }
            assert(nearest_below(o, ray, cull, n as int, w));
        } else {
            assert forall|t: usize| (t as int) < n && #[trigger] hits_triangle(o, ray, cull, t) implies v <= candidate_t(o, ray, t) by {
                if t != last {
                    assert((t as int) < n - 1);
                }
            }
            assert((tv as int) < n);
            assert(nearest_below(o, ray, cull, n as int, v));
        }
    } else {
        let t0 = choose|t: usize| (t as int) < n && #[trigger] hits_triangle(o, ray, cull, t);
        assert(t0 == last);
        let w = candidate_t(o, ray, last);
        assert forall|t: usize| (t as int) < n && #[trigger] hits_triangle(o, ray, cull, t) implies w <= candidate_t(o, ray, t) by {
            if t != last {
                assert(!((t as int) < n - 1 && hits_triangle(o, ray, cull, t)));
            }
        }
        assert(nearest_below(o, ray, cull, n as int, w));
    }
}

/// The nearest hit found through the octree is the nearest hit over all
/// triangles: the same parameter, and none exactly when no triangle is hit.
pub proof fn lemma_mesh_nearest_is_linear_nearest(m: Mesh, ray: RayView, cull: bool)
    requires
        m.wf(),
    ensures
        mesh_t(m, ray, cull) == linear_t(m, ray, cull),
{
    let o = m.storage;
    assert forall|t: usize| #[trigger] candidate_hit(o, ray, cull, t) <==> hits_triangle(o, ray, cull, t) by {
        if hits_triangle(o, ray, cull, t) {
            crate::octree::lemma_octree_finds_every_hit(o, ray, cull, t);
            assert(crate::octree::reached(o, ray, t));
        }
    }
    if exists|t: usize| #[trigger] hits_triangle(o, ray, cull, t) {
        let t0 = choose|t: usize| #[trigger] hits_triangle(o, ray, cull, t);
        let tri = o.triangles@[t0 as int];
        assert(tri.wf());
        crate::triangle::lemma_hit_in_bounding_box(tri, ray.0, ray.1, cull);
        let (num, den) = choose|num: int, den: int|
            num > 0 && den > 0 && #[trigger] crate::aabb::point_at_in_box(
                crate::aabb::tri_min(tri),
                crate::aabb::tri_max(tri),
                ray.0,
                ray.1,
                num,
                den,
            );
        let b = m.bounding_volume;
        let (lo, hi, tl, th) = (b.lo(), b.hi(), crate::aabb::tri_min(tri), crate::aabb::tri_max(tri));
        assert(crate::aabb::le3(lo, tl) && crate::aabb::le3(th, hi));
        assert(lo.0 * den <= tl.0 * den && lo.1 * den <= tl.1 * den && lo.2 * den <= tl.2 * den)
            by (nonlinear_arith)
            requires
                den > 0,
                lo.0 <= tl.0,
                lo.1 <= tl.1,
                lo.2 <= tl.2,
        ;
        assert(th.0 * den <= hi.0 * den && th.1 * den <= hi.1 * den && th.2 * den <= hi.2 * den)
            by (nonlinear_arith)
            requires
                den > 0,
                th.0 <= hi.0,
                th.1 <= hi.1,
                th.2 <= hi.2,
        ;
        assert(crate::aabb::point_at_in_box(lo, hi, ray.0, ray.1, num, den));
        assert(ray_meets_box(lo, hi, ray.0, ray.1));
        assert(candidate_hit(o, ray, cull, t0));
        lemma_nearest_exists(o, ray, cull, o.triangles@.len());
        let v = choose|v: int| #[trigger] nearest_below(o, ray, cull, o.triangles@.len() as int, v);
        assert(is_linear_nearest(o, ray, cull, v));
        let tw = choose|t: usize| #[trigger] hits_triangle(o, ray, cull, t) && candidate_t(o, ray, t) == v;
        assert(candidate_hit(o, ray, cull, tw));
        assert forall|t: usize| #[trigger] candidate_hit(o, ray, cull, t) implies v <= candidate_t(o, ray, t) by {
            assert(hits_triangle(o, ray, cull, t));
        }
        assert(is_nearest(o, ray, cull, v));
        let v1 = choose|v: int| #[trigger] is_nearest(o, ray, cull, v);
        let v2 = choose|v: int| #[trigger] is_linear_nearest(o, ray, cull, v);
        let t1 = choose|t: usize| #[trigger] candidate_hit(o, ray, cull, t) && candidate_t(o, ray, t) == v1;
        let t2 = choose|t: usize| #[trigger] hits_triangle(o, ray, cull, t) && candidate_t(o, ray, t) == v2;
        assert(v1 <= candidate_t(o, ray, t2));
        assert(v2 <= candidate_t(o, ray, t1));
        assert(v1 == v2);
    }
}

} // verus!
