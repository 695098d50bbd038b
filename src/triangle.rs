use vstd::prelude::*;

use crate::intersection::Intersection;
use crate::math::{
    abs, cross, div_trunc, dot, vadd, vec_in_range, vscale, vsub, Point2, Point3, Vector3, POINT_MAX,
    SCALE,
};
use crate::ray::Ray;

verus! {

/// How a triangle's surface normal is found: one normal for the whole face,
/// or one per vertex, blended across the face for smooth shading.
#[derive(Clone, Copy, Debug)]
pub enum Normal {
    Face(Vector3),
    Vertex(Vector3, Vector3, Vector3),
}

pub open spec fn normal_wf(n: Normal) -> bool {
    match n {
        Normal::Face(a) => vec_in_range(a@, SCALE as int),
        Normal::Vertex(a, b, c) => vec_in_range(a@, SCALE as int) && vec_in_range(b@, SCALE as int)
            && vec_in_range(c@, SCALE as int),
    }
}

/// A triangle with vertices `a`, `b`, `c`, its two edges from `a`, its normal,
/// optional texture coordinates per vertex, and the index of its material in
/// the scene's material table (materials are shared, not copied).
#[derive(Clone, Copy, Debug)]
pub struct Triangle {
    pub vertices: [Point3; 3],
    pub ab: Vector3,
    pub ac: Vector3,
    pub normal: Normal,
    pub texture_coords: Option<[Point2; 3]>,
    pub material: usize,
}

pub open spec fn texture_wf(t: Option<[Point2; 3]>) -> bool {
    match t {
        Some(c) => forall|i: int|
            0 <= i < 3 ==> abs(#[trigger] c[i].x as int) <= POINT_MAX && abs(c[i].y as int)
                <= POINT_MAX,
        None => true,
    }
}

/// Vertices of a triangle are kept within half the coordinate range so that
/// its edges are within range as points too.
pub open spec fn vertex_ok(p: Point3) -> bool {
    vec_in_range(p@, POINT_MAX as int / 2)
}

impl Triangle {
    pub open spec fn wf(&self) -> bool {
        &&& vertex_ok(self.vertices[0])
        &&& vertex_ok(self.vertices[1])
        &&& vertex_ok(self.vertices[2])
        &&& self.ab@ == vsub(self.vertices[1]@, self.vertices[0]@)
        &&& self.ac@ == vsub(self.vertices[2]@, self.vertices[0]@)
        &&& normal_wf(self.normal)
        &&& texture_wf(self.texture_coords)
    }

    /// A triangle with its edges precomputed.
    pub fn new(
        a: Point3,
        b: Point3,
        c: Point3,
        normal: Normal,
        texture_coords: Option<[Point2; 3]>,
        material: usize,
    ) -> (t: Triangle)
        requires
            vertex_ok(a),
            vertex_ok(b),
            vertex_ok(c),
            normal_wf(normal),
            texture_wf(texture_coords),
        ensures
            t.wf(),
            t.vertices == [a, b, c],
            t.normal == normal,
            t.texture_coords == texture_coords,
            t.material == material,
    {
        let ab = b.sub(&a);
        let ac = c.sub(&a);
        Triangle { vertices: [a, b, c], ab, ac, normal, texture_coords, material }
    }
}

pub open spec fn sgn(x: int) -> int {
    if x < 0 {
        -1
    } else {
        1
    }
}

/// Möller–Trumbore determinant: `ab . (d x ac)`; zero when the ray is
/// parallel to the triangle, negative when it meets the back face.
pub open spec fn mt_det(t: Triangle, d: (int, int, int)) -> int {
    dot(t.ab@, cross(d, t.ac@))
}

/// First barycentric coordinate, times the determinant.
pub open spec fn mt_u(t: Triangle, o: (int, int, int), d: (int, int, int)) -> int {
    dot(vsub(o, t.vertices[0]@), cross(d, t.ac@))
}

/// Second barycentric coordinate, times the determinant.
pub open spec fn mt_v(t: Triangle, o: (int, int, int), d: (int, int, int)) -> int {
    dot(d, cross(vsub(o, t.vertices[0]@), t.ab@))
}

/// Ray parameter of the hit, times the determinant.
pub open spec fn mt_t(t: Triangle, o: (int, int, int), d: (int, int, int)) -> int {
    dot(t.ac@, cross(vsub(o, t.vertices[0]@), t.ab@))
}

/// The ray meets the triangle: it is not parallel to it (nor, when culling,
/// facing its back), with `|det|` at least `DET_EPSILON`; both barycentric
/// coordinates and their sum lie in `0..=1`; and the hit lies more than
/// `1 / T_RATIO` direction lengths ahead of the origin.
pub open spec fn mt_hit(t: Triangle, o: (int, int, int), d: (int, int, int), cull: bool) -> bool {
    let det = mt_det(t, d);
    let s = sgn(det);
    let u = s * mt_u(t, o, d);
    let v = s * mt_v(t, o, d);
    &&& abs(det) >= DET_EPSILON
    &&& !(cull && det < DET_EPSILON)
    &&& 0 <= u && u <= s * det
    &&& 0 <= v && u + v <= s * det
    &&& T_RATIO * (s * mt_t(t, o, d)) > s * det
}

/// Determinants closer to zero than this (raw units cubed: 1e-7 for a unit
/// direction) count as parallel.
pub const DET_EPSILON: i128 = 100;

/// A hit must lie more than `1 / T_RATIO` of a direction length ahead.
pub const T_RATIO: i128 = 100000;

/// Ray parameter of a hit, as a fixed-point number rounded toward zero.
pub open spec fn tri_t(t: Triangle, o: (int, int, int), d: (int, int, int)) -> int {
    let det = mt_det(t, d);
    let s = sgn(det);
    div_trunc(s * mt_t(t, o, d) * SCALE, s * det)
}

/// `(w * a + u * b + v * c) / (w + u + v)`, rounded toward zero.
pub open spec fn blend(w: int, u: int, v: int, a: int, b: int, c: int) -> int {
    div_trunc(w * a + u * b + v * c, w + u + v)
}

pub open spec fn blend3(
    w: int,
    u: int,
    v: int,
    a: (int, int, int),
    b: (int, int, int),
    c: (int, int, int),
) -> (int, int, int) {
    (blend(w, u, v, a.0, b.0, c.0), blend(w, u, v, a.1, b.1, c.1), blend(w, u, v, a.2, b.2, c.2))
}

/// The normal at barycentric weights `(w, u, v)`: the face normal, or the
/// blended vertex normals renormalized.
pub open spec fn tri_normal(t: Triangle, w: int, u: int, v: int) -> Vector3 {
    match t.normal {
        Normal::Face(n) => n,
        Normal::Vertex(n0, n1, n2) => crate::math::vec_of(
            crate::math::normalized(blend3(w, u, v, n0@, n1@, n2@)),
        ),
    }
}

/// The texture coordinate at barycentric weights `(w, u, v)`.
pub open spec fn tri_texture(t: Triangle, w: int, u: int, v: int) -> Option<Point2> {
    match t.texture_coords {
        Some(tc) => Some(
            Point2 {
                x: blend(w, u, v, tc[0].x as int, tc[1].x as int, tc[2].x as int) as i64,
                y: blend(w, u, v, tc[0].y as int, tc[1].y as int, tc[2].y as int) as i64,
            },
        ),
        None => None,
    }
}

/// The hit record of the ray with the triangle.
pub open spec fn tri_hit(t: Triangle, ray: Ray, cull: bool) -> Option<Intersection> {
    let (o, d) = (ray.origin@, ray.direction@);
    let det = mt_det(t, d);
    let s = sgn(det);
    let u = s * mt_u(t, o, d);
    let v = s * mt_v(t, o, d);
    let w = s * det - u - v;
    if mt_hit(t, o, d, cull) {
        Some(
            Intersection {
                t: tri_t(t, o, d) as i128,
                point: crate::math::point_of(blend3(w, u, v, t.vertices[0]@, t.vertices[1]@, t.vertices[2]@)),
                ray,
                normal: tri_normal(t, w, u, v),
                inside: false,
                texture_coord: tri_texture(t, w, u, v),
                material: t.material,
            },
        )
    } else {
        None
    }
}

/// Twice the largest determinant, `3 * (2 * POINT_MAX) * (4 * POINT_MAX ^ 2)`.
pub const DET_MAX: i128 = 0xc000_0000_0000_0000_0000_0000;

fn blend_value(w: i128, u: i128, v: i128, a: i64, b: i64, c: i64, m: i64) -> (r: i64)
    requires
        0 <= w,
        0 <= u,
        0 <= v,
        0 < w + u + v <= DET_MAX,
        0 <= m <= POINT_MAX,
        abs(a as int) <= m,
        abs(b as int) <= m,
        abs(c as int) <= m,
    ensures
        r == blend(w as int, u as int, v as int, a as int, b as int, c as int),
        abs(r as int) <= m,
{
    let ghost d = w + u + v;
    proof {
        crate::math::lemma_mul_abs_bound(w as int, a as int, w as int, m as int);
        crate::math::lemma_mul_abs_bound(u as int, b as int, u as int, m as int);
        crate::math::lemma_mul_abs_bound(v as int, c as int, v as int, m as int);
        assert(w * m + u * m + v * m == d * m) by (nonlinear_arith)
            requires
                d == w + u + v,
        ;
        assert(w * m >= 0 && u * m >= 0 && v * m >= 0) by (nonlinear_arith)
            requires
                w >= 0,
                u >= 0,
                v >= 0,
                m >= 0,
        ;
        assert(d * m <= DET_MAX * POINT_MAX) by (nonlinear_arith)
            requires
                0 < d <= DET_MAX,
                0 <= m <= POINT_MAX,
        ;
        crate::math::lemma_quotient_bound(w * a + u * b + v * c, d, m as int);
    }
    let s = w * (a as i128) + u * (b as i128) + v * (c as i128);
    crate::math::div_toward_zero(s, w + u + v) as i64
}

impl Triangle {
    /// Möller–Trumbore intersection in exact integer arithmetic. On a hit the
    /// record holds the ray parameter as the exact ratio of the two
    /// determinants, the hit point and texture coordinate as blends of the
    /// vertices' by the barycentric coordinates, and the face normal or the
    /// blended and renormalized vertex normal.
    pub fn intersect(&self, ray: &Ray, cull: bool) -> (r: Option<Intersection>)
        requires
            self.wf(),
            ray.wf(),
        ensures
            r.is_some() == mt_hit(*self, ray.origin@, ray.direction@, cull),
            r == tri_hit(*self, *ray, cull),
            r matches Some(h) ==> {
                let det = mt_det(*self, ray.direction@);
                let s = sgn(det);
                let u = s * mt_u(*self, ray.origin@, ray.direction@);
                let v = s * mt_v(*self, ray.origin@, ray.direction@);
                let w = s * det - u - v;
                &&& h.t == tri_t(*self, ray.origin@, ray.direction@)
                &&& h.point@ == blend3(w, u, v, self.vertices[0]@, self.vertices[1]@, self.vertices[2]@)
                &&& h.point.wf()
                &&& !h.inside
                &&& h.material == self.material
                &&& h.ray == *ray
                &&& vec_in_range(h.normal@, SCALE as int)
                &&& (self.normal matches Normal::Face(n) ==> h.normal == n)
                &&& crate::material::uv_ok(h.texture_coord)
            },
    {
        let d = ray.direction;
        let v0 = self.vertices[0];
        let pvec = d.cross(&self.ac);
        let det = self.ab.dot_wide(&pvec);
        proof {
            lemma_det_bound(self.ab@, pvec@, d@, self.ac@);
        }
        if cull && det < DET_EPSILON {
            return None;
        }
        if det > -DET_EPSILON && det < DET_EPSILON {
            return None;
        }
        let tvec = ray.origin.sub(&v0);
        let u0 = tvec.dot_wide(&pvec);
        let qvec = tvec.cross(&self.ab);
        let v1 = d.dot_wide(&qvec);
        let t1 = self.ac.dot_wide(&qvec);
        proof {
            lemma_det_bound(tvec@, pvec@, d@, self.ac@);
            lemma_det_bound(d@, qvec@, tvec@, self.ab@);
            lemma_det_bound(self.ac@, qvec@, tvec@, self.ab@);
        }
        let (dd, u, v, t) = if det < 0 {
            (-det, -u0, -v1, -t1)
        } else {
            (det, u0, v1, t1)
        };
        if u < 0 || u > dd {
            return None;
        }
        if v < 0 || u + v > dd {
            return None;
        }
        if t * T_RATIO <= dd {
            return None;
        }
        let w = dd - u - v;
        let va = self.vertices[0];
        let vb = self.vertices[1];
        let vc = self.vertices[2];
        let half = POINT_MAX / 2;
        let point = Point3::new(
            blend_value(w, u, v, va.x, vb.x, vc.x, half),
            blend_value(w, u, v, va.y, vb.y, vc.y, half),
            blend_value(w, u, v, va.z, vb.z, vc.z, half),
        );
        let texture_coord = match self.texture_coords {
            Some(tc) => {
                let x = blend_value(w, u, v, tc[0].x, tc[1].x, tc[2].x, POINT_MAX);
                let y = blend_value(w, u, v, tc[0].y, tc[1].y, tc[2].y, POINT_MAX);
                Some(Point2::new(x, y))
            },
            None => None,
        };
        let normal = match self.normal {
            Normal::Face(n) => n,
            Normal::Vertex(n0, n1, n2) => {
                let blended = Vector3::new(
                    blend_value(w, u, v, n0.x, n1.x, n2.x, SCALE),
                    blend_value(w, u, v, n0.y, n1.y, n2.y, SCALE),
                    blend_value(w, u, v, n0.z, n1.z, n2.z, SCALE),
                );
                blended.normalize()
            },
        };
        proof {
            crate::math::lemma_mul_abs_bound(t as int, SCALE as int, DET_MAX as int, SCALE as int);
        }
        let t_fx = crate::math::div_toward_zero(t * (SCALE as i128), dd);
        Some(
            Intersection {
                t: t_fx,
                point,
                ray: *ray,
                normal,
                inside: false,
                texture_coord,
                material: self.material,
            },
        )
    }
}

/// `|a . (b)|` where `b = c x e` is at most `DET_MAX`, for the factors that
/// Möller–Trumbore multiplies.
proof fn lemma_det_bound(
    a: (int, int, int),
    b: (int, int, int),
    c: (int, int, int),
    e: (int, int, int),
)
    requires
        vec_in_range(a, 2 * POINT_MAX as int),
        vec_in_range(c, 2 * POINT_MAX as int),
        vec_in_range(e, POINT_MAX as int),
        b == cross(c, e),
    ensures
        abs(dot(a, b)) <= DET_MAX / 2,
{
    let m = POINT_MAX as int;
    crate::math::lemma_mul_abs_bound(c.1, e.2, 2 * m, m);
    crate::math::lemma_mul_abs_bound(c.2, e.1, 2 * m, m);
    crate::math::lemma_mul_abs_bound(c.2, e.0, 2 * m, m);
    crate::math::lemma_mul_abs_bound(c.0, e.2, 2 * m, m);
    crate::math::lemma_mul_abs_bound(c.0, e.1, 2 * m, m);
    crate::math::lemma_mul_abs_bound(c.1, e.0, 2 * m, m);
    let k = 4 * m * m;
    assert(vec_in_range(b, k));
    crate::math::lemma_mul_abs_bound(a.0, b.0, 2 * m, k);
    crate::math::lemma_mul_abs_bound(a.1, b.1, 2 * m, k);
    crate::math::lemma_mul_abs_bound(a.2, b.2, 2 * m, k);
    assert((2 * m) * k == 0x2000_0000_0000_0000_0000_0000);
}

} // verus!

verus! {

/// The face normal `ab x ac` of a triangle (not normalized).
pub open spec fn face_normal(t: Triangle) -> (int, int, int) {
    cross(t.ab@, t.ac@)
}

proof fn lemma_cross_neg(n: (int, int, int), c: (int, int, int))
    ensures
        cross(vscale(-1, n), c) == vscale(-1, cross(n, c)),
{
    assert((-1 * n.1) * c.2 - (-1 * n.2) * c.1 == -1 * (n.1 * c.2 - n.2 * c.1)) by (nonlinear_arith);
    assert((-1 * n.2) * c.0 - (-1 * n.0) * c.2 == -1 * (n.2 * c.0 - n.0 * c.2)) by (nonlinear_arith);
    assert((-1 * n.0) * c.1 - (-1 * n.1) * c.0 == -1 * (n.0 * c.1 - n.1 * c.0)) by (nonlinear_arith);
}

proof fn lemma_dot_scale(k: int, x: (int, int, int), p: (int, int, int))
    ensures
        dot(vscale(k, x), p) == k * dot(x, p),
        dot(p, vscale(k, x)) == k * dot(p, x),
{
    assert((k * x.0) * p.0 == k * (x.0 * p.0)) by (nonlinear_arith);
    assert((k * x.1) * p.1 == k * (x.1 * p.1)) by (nonlinear_arith);
    assert((k * x.2) * p.2 == k * (x.2 * p.2)) by (nonlinear_arith);
    assert(p.0 * (k * x.0) == k * (p.0 * x.0)) by (nonlinear_arith);
    assert(p.1 * (k * x.1) == k * (p.1 * x.1)) by (nonlinear_arith);
    assert(p.2 * (k * x.2) == k * (p.2 * x.2)) by (nonlinear_arith);
    assert(k * (x.0 * p.0) + k * (x.1 * p.1) + k * (x.2 * p.2) == k * (x.0 * p.0 + x.1 * p.1 + x.2
        * p.2)) by (nonlinear_arith);
    assert(k * (p.0 * x.0) + k * (p.1 * x.1) + k * (p.2 * x.2) == k * (p.0 * x.0 + p.1 * x.1 + p.2
        * x.2)) by (nonlinear_arith);
}

proof fn lemma_dot_add(x: (int, int, int), y: (int, int, int), p: (int, int, int))
    ensures
        dot(vadd(x, y), p) == dot(x, p) + dot(y, p),
        dot(p, vadd(x, y)) == dot(p, x) + dot(p, y),
{
    assert((x.0 + y.0) * p.0 == x.0 * p.0 + y.0 * p.0) by (nonlinear_arith);
    assert((x.1 + y.1) * p.1 == x.1 * p.1 + y.1 * p.1) by (nonlinear_arith);
    assert((x.2 + y.2) * p.2 == x.2 * p.2 + y.2 * p.2) by (nonlinear_arith);
    assert(p.0 * (x.0 + y.0) == p.0 * x.0 + p.0 * y.0) by (nonlinear_arith);
    assert(p.1 * (x.1 + y.1) == p.1 * x.1 + p.1 * y.1) by (nonlinear_arith);
    assert(p.2 * (x.2 + y.2) == p.2 * x.2 + p.2 * y.2) by (nonlinear_arith);
}

proof fn lemma_cross_add(x: (int, int, int), y: (int, int, int), a: (int, int, int))
    ensures
        cross(vadd(x, y), a) == vadd(cross(x, a), cross(y, a)),
{
    assert((x.1 + y.1) * a.2 - (x.2 + y.2) * a.1 == (x.1 * a.2 - x.2 * a.1) + (y.1 * a.2 - y.2 * a.1))
        by (nonlinear_arith);
    assert((x.2 + y.2) * a.0 - (x.0 + y.0) * a.2 == (x.2 * a.0 - x.0 * a.2) + (y.2 * a.0 - y.0 * a.2))
        by (nonlinear_arith);
    assert((x.0 + y.0) * a.1 - (x.1 + y.1) * a.0 == (x.0 * a.1 - x.1 * a.0) + (y.0 * a.1 - y.1 * a.0))
        by (nonlinear_arith);
}

proof fn lemma_cross_scale(k: int, x: (int, int, int), a: (int, int, int))
    ensures
        cross(vscale(k, x), a) == vscale(k, cross(x, a)),
{
    assert((k * x.1) * a.2 - (k * x.2) * a.1 == k * (x.1 * a.2 - x.2 * a.1)) by (nonlinear_arith);
    assert((k * x.2) * a.0 - (k * x.0) * a.2 == k * (x.2 * a.0 - x.0 * a.2)) by (nonlinear_arith);
    assert((k * x.0) * a.1 - (k * x.1) * a.0 == k * (x.0 * a.1 - x.1 * a.0)) by (nonlinear_arith);
}

proof fn lemma_cross_swap(a: (int, int, int), c: (int, int, int))
    ensures
        cross(c, a) == vscale(-1, cross(a, c)),
{
    assert(c.1 * a.2 - c.2 * a.1 == -1 * (a.1 * c.2 - a.2 * c.1)) by (nonlinear_arith);
    assert(c.2 * a.0 - c.0 * a.2 == -1 * (a.2 * c.0 - a.0 * c.2)) by (nonlinear_arith);
    assert(c.0 * a.1 - c.1 * a.0 == -1 * (a.0 * c.1 - a.1 * c.0)) by (nonlinear_arith);
}

proof fn lemma_cross_self(a: (int, int, int))
    ensures
        cross(a, a) == (0int, 0int, 0int),
{
    assert(a.1 * a.2 - a.2 * a.1 == 0) by (nonlinear_arith);
    assert(a.2 * a.0 - a.0 * a.2 == 0) by (nonlinear_arith);
    assert(a.0 * a.1 - a.1 * a.0 == 0) by (nonlinear_arith);
}

proof fn lemma_triple_cyclic(a: (int, int, int), b: (int, int, int), c: (int, int, int))
    ensures
        dot(a, cross(b, c)) == dot(b, cross(c, a)),
{
    let (a0, a1, a2) = a;
    let (b0, b1, b2) = b;
    let (c0, c1, c2) = c;
    assert(a0 * (b1 * c2 - b2 * c1) == a0 * b1 * c2 - a0 * b2 * c1) by (nonlinear_arith);
    assert(a1 * (b2 * c0 - b0 * c2) == a1 * b2 * c0 - a1 * b0 * c2) by (nonlinear_arith);
    assert(a2 * (b0 * c1 - b1 * c0) == a2 * b0 * c1 - a2 * b1 * c0) by (nonlinear_arith);
    assert(b0 * (c1 * a2 - c2 * a1) == a2 * b0 * c1 - a1 * b0 * c2) by (nonlinear_arith);
    assert(b1 * (c2 * a0 - c0 * a2) == a0 * b1 * c2 - a2 * b1 * c0) by (nonlinear_arith);
    assert(b2 * (c0 * a1 - c1 * a0) == a1 * b2 * c0 - a0 * b2 * c1) by (nonlinear_arith);
}

/// `x . (y x x) == 0`.
proof fn lemma_triple_repeat(x: (int, int, int), y: (int, int, int))
    ensures
        dot(x, cross(y, x)) == 0,
{
    lemma_triple_cyclic(x, y, x);
    lemma_cross_self(x);
}

/// `n . ((-n) x c) == 0` and `(-n) . (n x a) == 0`.
proof fn lemma_triple_neg_repeat(n: (int, int, int), c: (int, int, int))
    ensures
        dot(n, cross(vscale(-1, n), c)) == 0,
        dot(vscale(-1, n), cross(n, c)) == 0,
{
    lemma_cross_neg(n, c);
    lemma_dot_scale(-1, cross(n, c), n);
    lemma_triple_cyclic(n, n, c);
    lemma_cross_self(n);
    lemma_cross_swap(n, c);
    lemma_dot_scale(-1, n, cross(n, c));
    // n . (n x c) == c . (n x n) == 0
    lemma_triple_cyclic(c, n, n);
    assert(dot(n, cross(n, c)) == dot(c, cross(n, n)));
}

/// A ray aimed at a triangle's centroid against its face normal `n`, from a
/// point `k > 0` normals in front of the centroid, hits the triangle (also
/// when back faces are culled), with each barycentric coordinate exactly one
/// third of the determinant and the ray parameter exactly `k` normals.
pub proof fn lemma_centroid_ray_hits(t: Triangle, o: (int, int, int), k: int)
    requires
        face_normal(t) != (0int, 0int, 0int),
        dot(face_normal(t), face_normal(t)) >= DET_EPSILON,
        k > 0,
        vscale(3, vsub(o, t.vertices[0]@)) == vadd(
            vadd(t.ab@, t.ac@),
            vscale(3 * k, face_normal(t)),
        ),
    ensures
        ({
            let d = vscale(-1, face_normal(t));
            &&& mt_det(t, d) == dot(face_normal(t), face_normal(t))
            &&& mt_det(t, d) > 0
            &&& 3 * mt_u(t, o, d) == mt_det(t, d)
            &&& 3 * mt_v(t, o, d) == mt_det(t, d)
            &&& mt_t(t, o, d) == k * mt_det(t, d)
            &&& mt_hit(t, o, d, false)
            &&& mt_hit(t, o, d, true)
        }),
{
    let a = t.ab@;
    let c = t.ac@;
    let n = face_normal(t);
    let d = vscale(-1, n);
    let x = vsub(o, t.vertices[0]@);
    let nn = dot(n, n);
    let m = vscale(3 * k, n);
    // det = a . ((-n) x c) = -(a . (n x c)) = -(n . (c x a)) = n . (a x c)
    lemma_cross_neg(n, c);
    lemma_dot_scale(-1, cross(n, c), a);
    lemma_triple_cyclic(a, n, c);
    lemma_cross_swap(a, c);
    lemma_dot_scale(-1, cross(a, c), n);
    let det = mt_det(t, d);
    assert(det == nn);
    lemma_dot_self_pos(n);
    // 3 u = (a + c + 3k n) . (d x c)
    let pv = cross(d, c);
    lemma_dot_scale(3, x, pv);
    lemma_dot_add(vadd(a, c), m, pv);
    lemma_dot_add(a, c, pv);
    lemma_dot_scale(3 * k, n, pv);
    lemma_triple_repeat(c, d);
    lemma_triple_neg_repeat(n, c);
    assert(3 * mt_u(t, o, d) == det);
    // 3 v = d . ((a + c + 3k n) x a)
    lemma_cross_scale(3, x, a);
    lemma_dot_scale(3, cross(x, a), d);
    lemma_cross_add(vadd(a, c), m, a);
    lemma_cross_add(a, c, a);
    lemma_cross_scale(3 * k, n, a);
    lemma_cross_self(a);
    let q = cross(vscale(3, x), a);
    assert(q == vadd(vadd(cross(a, a), cross(c, a)), vscale(3 * k, cross(n, a))));
    lemma_dot_add(vadd(cross(a, a), cross(c, a)), vscale(3 * k, cross(n, a)), d);
    lemma_dot_add(cross(a, a), cross(c, a), d);
    lemma_dot_scale(3 * k, cross(n, a), d);
    lemma_triple_neg_repeat(n, a);
    lemma_dot_scale(-1, n, cross(c, a));
    lemma_dot_scale(-1, n, n);
    assert(dot(d, cross(c, a)) == nn);
    assert(dot(d, cross(a, a)) == 0);
    assert(3 * mt_v(t, o, d) == det);
    // 3 t = c . ((a + c + 3k n) x a) = 3k c . (n x a) = 3k n . (a x c)
    lemma_dot_scale(3, cross(x, a), c);
    lemma_dot_add(vadd(cross(a, a), cross(c, a)), vscale(3 * k, cross(n, a)), c);
    lemma_dot_add(cross(a, a), cross(c, a), c);
    lemma_dot_scale(3 * k, cross(n, a), c);
    lemma_triple_repeat(c, a);
    lemma_dot_scale(-1, cross(a, c), c);
    lemma_triple_cyclic(c, n, a);
    assert(dot(c, cross(c, a)) == 0);
    assert(dot(c, cross(a, a)) == 0);
    assert(3 * mt_t(t, o, d) == 3 * k * nn);
    let tt = mt_t(t, o, d);
    assert(tt == k * nn) by (nonlinear_arith)
        requires
            3 * tt == 3 * k * nn,
    ;
    assert(k * nn > 0) by (nonlinear_arith)
        requires
            k > 0,
            nn > 0,
    ;
    assert(sgn(det) == 1);
    assert(T_RATIO * (k * nn) > nn) by (nonlinear_arith)
        requires
            k >= 1,
            nn > 0,
    ;
    let u = mt_u(t, o, d);
    let v = mt_v(t, o, d);
    assert(1 * u == u && 1 * v == v && 1 * det == det && 1 * tt == tt);
    assert(mt_hit(t, o, d, false));
    assert(mt_hit(t, o, d, true));
}

proof fn lemma_dot_self_pos(n: (int, int, int))
    requires
        n != (0int, 0int, 0int),
    ensures
        dot(n, n) > 0,
{
    assert(n.0 * n.0 >= 0 && n.1 * n.1 >= 0 && n.2 * n.2 >= 0) by (nonlinear_arith);
    if n.0 != 0 {
        assert(n.0 * n.0 > 0) by (nonlinear_arith)
            requires
                n.0 != 0,
        ;
    } else if n.1 != 0 {
        assert(n.1 * n.1 > 0) by (nonlinear_arith)
            requires
                n.1 != 0,
        ;
    } else {
        assert(n.2 * n.2 > 0) by (nonlinear_arith)
            requires
                n.2 != 0,
        ;
    }
}

} // verus!

verus! {

proof fn lemma_distribute3(s0: int, s1: int, s2: int, k: int)
    ensures
        (s0 + s1 + s2) * k == s0 * k + s1 * k + s2 * k,
{
    assert((s0 + s1 + s2) * k == s0 * k + s1 * k + s2 * k) by (nonlinear_arith);
}

proof fn lemma_swap_last(a: int, b: int, c: int)
    ensures
        (a * b) * c == (a * c) * b,
        (a * b) * c == (c * b) * a,
{
    assert((a * b) * c == (a * c) * b) by (nonlinear_arith);
    assert((a * b) * c == (c * b) * a) by (nonlinear_arith);
}

proof fn lemma_difference_times(x: int, y: int, k: int)
    ensures
        (x - y) * k == x * k - y * k,
{
    assert((x - y) * k == x * k - y * k) by (nonlinear_arith);
}

proof fn lemma_regroup(x0: int, x1: int, x2: int, a0: int, a1: int, a2: int, pp0: int, pp1: int, pp2: int)
    ensures
        (x0 * pp0 + x1 * pp1 + x2 * pp2) * a0 - (a0 * pp0 + a1 * pp1 + a2 * pp2) * x0 == (x1 * a0 - a1
            * x0) * pp1 + (x2 * a0 - a2 * x0) * pp2,
{
    lemma_distribute3(x0 * pp0, x1 * pp1, x2 * pp2, a0);
    lemma_distribute3(a0 * pp0, a1 * pp1, a2 * pp2, x0);
    lemma_swap_last(x0, pp0, a0);
    lemma_swap_last(x1, pp1, a0);
    lemma_swap_last(x2, pp2, a0);
    lemma_swap_last(a1, pp1, x0);
    lemma_swap_last(a2, pp2, x0);
    lemma_difference_times(x1 * a0, a1 * x0, pp1);
    lemma_difference_times(x2 * a0, a2 * x0, pp2);
    // (x0 pp0) a0 == (a0 pp0) x0
    assert((x0 * pp0) * a0 == (a0 * pp0) * x0);
}

proof fn lemma_commute_difference(x: int, y: int, a: int, b: int)
    ensures
        x * a - y * b == x * a - b * y,
        y * a - x * b == -(x * b - a * y),
{
    assert(y * b == b * y) by (nonlinear_arith);
    assert(a * y == y * a) by (nonlinear_arith);
}

proof fn lemma_cancel(aa: int, bb: int, cc: int, ee: int)
    ensures
        aa * ee + bb * (-cc) + (cc * bb + ee * (-aa)) == 0,
{
    assert(aa * ee + bb * (-cc) + (cc * bb + ee * (-aa)) == 0) by (nonlinear_arith);
}

/// Cramer's rule for Möller–Trumbore, first coordinate: with `p = d x b`,
/// `q = x x a`, `det * x0 == (x . p) a0 + (d . q) b0 - (b . q) d0`.
proof fn lemma_cramer_first(
    a0: int,
    a1: int,
    a2: int,
    b0: int,
    b1: int,
    b2: int,
    c0: int,
    c1: int,
    c2: int,
    x0: int,
    x1: int,
    x2: int,
)
    ensures
        ({
            let (pp0, pp1, pp2) = (c1 * b2 - c2 * b1, c2 * b0 - c0 * b2, c0 * b1 - c1 * b0);
            let (q0, q1, q2) = (x1 * a2 - x2 * a1, x2 * a0 - x0 * a2, x0 * a1 - x1 * a0);
            let det = a0 * pp0 + a1 * pp1 + a2 * pp2;
            let u = x0 * pp0 + x1 * pp1 + x2 * pp2;
            let v = c0 * q0 + c1 * q1 + c2 * q2;
            let t = b0 * q0 + b1 * q1 + b2 * q2;
            det * x0 == u * a0 + v * b0 - t * c0
        }),
{
    let pp0 = c1 * b2 - c2 * b1;
    let pp1 = c2 * b0 - c0 * b2;
    let pp2 = c0 * b1 - c1 * b0;
    let q0 = x1 * a2 - x2 * a1;
    let q1 = x2 * a0 - x0 * a2;
    let q2 = x0 * a1 - x1 * a0;
    // u a0 - det x0 == aa pp1 + bb pp2, and v b0 - t c0 == cc q1 + ee q2
    lemma_regroup(x0, x1, x2, a0, a1, a2, pp0, pp1, pp2);
    lemma_regroup(c0, c1, c2, b0, b1, b2, q0, q1, q2);
    let aa = x1 * a0 - a1 * x0;
    let bb = x2 * a0 - a2 * x0;
    let cc = c1 * b0 - b1 * c0;
    let ee = c2 * b0 - b2 * c0;
    // q1 == bb, q2 == -aa, pp1 == ee, pp2 == -cc
    lemma_commute_difference(x2, x0, a0, a2);
    lemma_commute_difference(x1, x0, a0, a1);
    lemma_commute_difference(c2, c0, b0, b2);
    lemma_commute_difference(c1, c0, b0, b1);
    assert(q1 == bb);
    assert(q2 == -aa);
    assert(pp1 == ee);
    assert(pp2 == -cc);
    lemma_cancel(aa, bb, cc, ee);
}

/// Cramer's rule for Möller–Trumbore: `det (o - v0) == u ab + v ac - t d`,
/// with the scaled barycentric coordinates and parameter of `mt_u`, `mt_v`
/// and `mt_t`.
proof fn lemma_cramer(t: Triangle, o: (int, int, int), d: (int, int, int))
    ensures
        ({
            let x = vsub(o, t.vertices[0]@);
            let det = mt_det(t, d);
            let u = mt_u(t, o, d);
            let v = mt_v(t, o, d);
            let tt = mt_t(t, o, d);
            &&& det * x.0 == u * t.ab@.0 + v * t.ac@.0 - tt * d.0
            &&& det * x.1 == u * t.ab@.1 + v * t.ac@.1 - tt * d.1
            &&& det * x.2 == u * t.ab@.2 + v * t.ac@.2 - tt * d.2
        }),
{
    let a = t.ab@;
    let b = t.ac@;
    let x = vsub(o, t.vertices[0]@);
    lemma_cramer_first(a.0, a.1, a.2, b.0, b.1, b.2, d.0, d.1, d.2, x.0, x.1, x.2);
    lemma_cramer_first(a.1, a.2, a.0, b.1, b.2, b.0, d.1, d.2, d.0, x.1, x.2, x.0);
    lemma_cramer_first(a.2, a.0, a.1, b.2, b.0, b.1, d.2, d.0, d.1, x.2, x.0, x.1);
}

proof fn lemma_convex_bounds(w: int, u: int, v: int, p: int, q: int, r: int)
    requires
        w >= 0,
        u >= 0,
        v >= 0,
    ensures
        (w + u + v) * crate::aabb::min3(p, q, r) <= w * p + u * q + v * r,
        w * p + u * q + v * r <= (w + u + v) * crate::aabb::max3(p, q, r),
{
    let lo = crate::aabb::min3(p, q, r);
    let hi = crate::aabb::max3(p, q, r);
    assert(w * lo <= w * p && u * lo <= u * q && v * lo <= v * r) by (nonlinear_arith)
        requires
            w >= 0,
            u >= 0,
            v >= 0,
            lo <= p,
            lo <= q,
            lo <= r,
    ;
    assert(w * p <= w * hi && u * q <= u * hi && v * r <= v * hi) by (nonlinear_arith)
        requires
            w >= 0,
            u >= 0,
            v >= 0,
            hi >= p,
            hi >= q,
            hi >= r,
    ;
    assert((w + u + v) * lo == w * lo + u * lo + v * lo) by (nonlinear_arith);
    assert((w + u + v) * hi == w * hi + u * hi + v * hi) by (nonlinear_arith);
}

proof fn lemma_rearrange(det: int, u: int, v: int, tt: int, o: int, d: int, pp0: int, pp1: int, pp2: int)
    requires
        det * (o - pp0) == u * (pp1 - pp0) + v * (pp2 - pp0) - tt * d,
    ensures
        o * det + tt * d == (det - u - v) * pp0 + u * pp1 + v * pp2,
{
    assert(o * det + tt * d == (det - u - v) * pp0 + u * pp1 + v * pp2) by (nonlinear_arith)
        requires
            det * (o - pp0) == u * (pp1 - pp0) + v * (pp2 - pp0) - tt * d,
    ;
}

proof fn lemma_hit_axis(
    s: int,
    det: int,
    u: int,
    v: int,
    tt: int,
    o: int,
    d: int,
    pp0: int,
    pp1: int,
    pp2: int,
)
    requires
        s == 1 || s == -1,
        det * (o - pp0) == u * (pp1 - pp0) + v * (pp2 - pp0) - tt * d,
        s * u >= 0,
        s * v >= 0,
        s * det - s * u - s * v >= 0,
    ensures
        crate::aabb::min3(pp0, pp1, pp2) * (s * det) <= o * (s * det) + (s * tt) * d,
        o * (s * det) + (s * tt) * d <= crate::aabb::max3(pp0, pp1, pp2) * (s * det),
{
    if s == 1 {
        lemma_rearrange(det, u, v, tt, o, d, pp0, pp1, pp2);
        lemma_convex_bounds(det - u - v, u, v, pp0, pp1, pp2);
        assert((det - u - v) + u + v == det);
        assert(crate::aabb::min3(pp0, pp1, pp2) * det == det * crate::aabb::min3(pp0, pp1, pp2))
            by (nonlinear_arith);
        assert(crate::aabb::max3(pp0, pp1, pp2) * det == det * crate::aabb::max3(pp0, pp1, pp2))
            by (nonlinear_arith);
    } else {
        assert((-det) * (o - pp0) == (-u) * (pp1 - pp0) + (-v) * (pp2 - pp0) - (-tt) * d)
            by (nonlinear_arith)
            requires
                det * (o - pp0) == u * (pp1 - pp0) + v * (pp2 - pp0) - tt * d,
        ;
        lemma_rearrange(-det, -u, -v, -tt, o, d, pp0, pp1, pp2);
        lemma_convex_bounds(-det + u + v, -u, -v, pp0, pp1, pp2);
        assert(-1 * det == -det && -1 * u == -u && -1 * v == -v && -1 * tt == -tt);
        assert((-det + u + v) + (-u) + (-v) == -det);
        assert(crate::aabb::min3(pp0, pp1, pp2) * (-det) == (-det) * crate::aabb::min3(pp0, pp1, pp2))
            by (nonlinear_arith);
        assert(crate::aabb::max3(pp0, pp1, pp2) * (-det) == (-det) * crate::aabb::max3(pp0, pp1, pp2))
            by (nonlinear_arith);
    }
}

/// A ray that hits a triangle meets the triangle's bounding box: the hit
/// point, at the positive parameter `t / det`, lies in the box. So a box
/// test never rejects a ray that hits a triangle inside the box.
pub proof fn lemma_hit_in_bounding_box(t: Triangle, o: (int, int, int), d: (int, int, int), cull: bool)
    requires
        mt_hit(t, o, d, cull),
        t.ab@ == vsub(t.vertices[1]@, t.vertices[0]@),
        t.ac@ == vsub(t.vertices[2]@, t.vertices[0]@),
    ensures
        crate::aabb::ray_meets_box(crate::aabb::tri_min(t), crate::aabb::tri_max(t), o, d),
{
    let det = mt_det(t, d);
    let s = sgn(det);
    let u = mt_u(t, o, d);
    let v = mt_v(t, o, d);
    let tt = mt_t(t, o, d);
    lemma_cramer(t, o, d);
    let (v0, v1, v2) = (t.vertices[0]@, t.vertices[1]@, t.vertices[2]@);
    lemma_hit_axis(s, det, u, v, tt, o.0, d.0, v0.0, v1.0, v2.0);
    lemma_hit_axis(s, det, u, v, tt, o.1, d.1, v0.1, v1.1, v2.1);
    lemma_hit_axis(s, det, u, v, tt, o.2, d.2, v0.2, v1.2, v2.2);
    let num = s * tt;
    let den = s * det;
    assert(den > 0) by (nonlinear_arith)
        requires
            det != 0,
            s == (if det < 0 { -1int } else { 1int }),
            den == s * det,
    ;
    assert(crate::aabb::point_at_in_box(crate::aabb::tri_min(t), crate::aabb::tri_max(t), o, d, num, den));
}

} // verus!
