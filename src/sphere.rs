use vstd::prelude::*;

use crate::intersection::Intersection;
use crate::math::{
    abs, div_trunc, dot, normalized, sqrt_of, vec_in_range, vsub, Point3, Vector3, POINT_MAX,
    SCALE,
};
use crate::ray::Ray;

verus! {

/// Largest component of a ray direction that spheres and planes accept:
/// rays are built with directions of length `SCALE`, far below it.
pub const DIR_MAX: i64 = 65536;

/// A sphere with its material.
#[derive(Clone, Copy, Debug)]
pub struct Sphere {
    pub origin: Point3,
    pub radius: i64,
    pub material: usize,
}

/// `o + d * t`, with `t` fixed-point, rounded toward zero.
pub open spec fn point_at(o: (int, int, int), d: (int, int, int), t: int) -> (int, int, int) {
    (
        o.0 + div_trunc(d.0 * t, SCALE as int),
        o.1 + div_trunc(d.1 * t, SCALE as int),
        o.2 + div_trunc(d.2 * t, SCALE as int),
    )
}

/// The quadratic `|o + t d - c|^2 = r^2` in `t`: half its linear coefficient
/// `a = d . (o - c)` and its discriminant over four.
pub open spec fn sphere_a(s: Sphere, o: (int, int, int), d: (int, int, int)) -> int {
    dot(d, vsub(o, s.origin@))
}

pub open spec fn sphere_disc(s: Sphere, o: (int, int, int), d: (int, int, int)) -> int {
    let v = vsub(o, s.origin@);
    let a = sphere_a(s, o, d);
    a * a - dot(d, d) * (dot(v, v) - s.radius * s.radius)
}

/// The far root lies more than a hundredth of a direction length ahead.
pub open spec fn sphere_ahead(s: Sphere, o: (int, int, int), d: (int, int, int)) -> bool {
    let disc = sphere_disc(s, o, d);
    disc >= 0 && 100 * (-sphere_a(s, o, d) + sqrt_of(disc)) > dot(d, d)
}

/// The near root lies behind the origin: the ray starts inside.
pub open spec fn sphere_inside(s: Sphere, o: (int, int, int), d: (int, int, int)) -> bool {
    -sphere_a(s, o, d) - sqrt_of(sphere_disc(s, o, d)) < 0
}

/// The parameter of the hit: the near root, or the far one from inside.
pub open spec fn sphere_t(s: Sphere, o: (int, int, int), d: (int, int, int)) -> int {
    let root = if sphere_inside(s, o, d) {
        -sphere_a(s, o, d) + sqrt_of(sphere_disc(s, o, d))
    } else {
        -sphere_a(s, o, d) - sqrt_of(sphere_disc(s, o, d))
    };
    div_trunc(root * SCALE, dot(d, d))
}

/// The hit record of the ray with the sphere.
pub open spec fn sphere_hit(s: Sphere, ray: Ray) -> Option<Intersection> {
    let (o, d) = (ray.origin@, ray.direction@);
    let p = point_at(o, d, sphere_t(s, o, d));
    if dot(d, d) > 0 && sphere_ahead(s, o, d) && vec_in_range(p, POINT_MAX as int) {
        Some(
            Intersection {
                t: sphere_t(s, o, d) as i128,
                point: crate::math::point_of(p),
                ray,
                normal: crate::math::vec_of(normalized(vsub(p, s.origin@))),
                inside: sphere_inside(s, o, d),
                texture_coord: None,
                material: s.material,
            },
        )
    } else {
        None
    }
}

/// The hit record of the ray with the plane.
pub open spec fn plane_hit(pl: Plane, ray: Ray) -> Option<Intersection> {
    let (o, d) = (ray.origin@, ray.direction@);
    let denom = dot(pl.normal@, d);
    let num = dot(vsub(pl.origin@, o), pl.normal@);
    let p = point_at(o, d, plane_t(pl, o, d));
    if abs(denom) > PARALLEL_EPSILON && num * denom >= 0 && vec_in_range(p, POINT_MAX as int) {
        Some(
            Intersection {
                t: plane_t(pl, o, d) as i128,
                point: crate::math::point_of(p),
                ray,
                normal: pl.normal,
                inside: false,
                texture_coord: None,
                material: pl.material,
            },
        )
    } else {
        None
    }
}

impl Sphere {
    pub open spec fn wf(&self) -> bool {
        &&& vec_in_range(self.origin@, POINT_MAX as int / 2)
        &&& 0 <= self.radius <= POINT_MAX / 2
    }

    pub fn new(origin: Point3, radius: i64, material: usize) -> (s: Sphere)
        ensures
            s.origin == origin && s.radius == radius && s.material == material,
    {
        Sphere { origin, radius, material }
    }

    /// Solves the quadratic of the ray against the sphere, with the square
    /// root rounded down. There is a hit when the far root is ahead of the
    /// origin; it is the near root, or the far one when the near one is
    /// behind (the ray starts inside). The normal points from the center to
    /// the hit point. A hit point outside the coordinate range is no hit.
    /// The hit carries no texture coordinate: a spherical mapping needs an
    /// arc tangent, which this integer geometry does not compute, so a
    /// textured sphere shows its material's base colors.
    pub fn intersect(&self, ray: &Ray) -> (r: Option<Intersection>)
        requires
            self.wf(),
            ray.wf(),
            vec_in_range(ray.direction@, DIR_MAX as int),
        ensures
            ({
                let (o, d) = (ray.origin@, ray.direction@);
                let p = point_at(o, d, sphere_t(*self, o, d));
                &&& r == sphere_hit(*self, *ray)
                &&& r.is_some() == (dot(d, d) > 0 && sphere_ahead(*self, o, d) && vec_in_range(
                    p,
                    POINT_MAX as int,
                ))
                &&& r matches Some(h) ==> {
                    &&& h.t == sphere_t(*self, o, d)
                    &&& h.point@ == p
                    &&& h.point.wf()
                    &&& h.inside == sphere_inside(*self, o, d)
                    &&& h.normal@ == normalized(vsub(p, self.origin@))
                    &&& vec_in_range(h.normal@, SCALE as int)
                    &&& h.material == self.material
                    &&& h.ray == *ray
                    &&& h.texture_coord.is_none()
                }
            }),
    {
        let d = ray.direction;
        let v = ray.origin.sub(&self.origin);
        let ghost (og, dg) = (ray.origin@, ray.direction@);
        let dd = d.dot(&d);
        if dd == 0 {
            return None;
        }
        let a = d.dot(&v);
        let vv = v.dot(&v);
        proof {
            crate::math::lemma_mul_abs_bound(
                self.radius as int,
                self.radius as int,
                POINT_MAX as int,
                POINT_MAX as int,
            );
        }
        let rr = (self.radius as i128) * (self.radius as i128);
        proof {
            lemma_sphere_bounds(d@, v@, self.radius as int, a as int, dd as int, vv as int);
        }
        let disc = a * a - dd * (vv - rr);
        if disc < 0 {
            return None;
        }
        let s0 = crate::math::isqrt(disc as u128);
        proof {
            assert(s0 <= 0x10_0000_0000_0000) by (nonlinear_arith)
                requires
                    s0 * s0 <= disc,
                    disc <= 0x20_0000_0000_0000_0000_0000_0000,
            ;
        }
        let s = s0 as i128;
        proof {
            crate::math::lemma_sqrt_of(disc as int, s as int);
        }
        let far = -a + s;
        let near = -a - s;
        if !(100 * far > dd) {
            return None;
        }
        let inside = near < 0;
        let root = if inside { far } else { near };
        let t = crate::math::div_toward_zero(root * (SCALE as i128), dd);
        proof {
            crate::math::lemma_div_trunc_bound(root * SCALE, dd as int);
        }
        let p = offset_point(&ray.origin, &d, t);
        match p {
            None => None,
            Some(point) => {
                let normal = point.sub(&self.origin).normalize();
                Some(
                    Intersection {
                        t,
                        point,
                        ray: *ray,
                        normal,
                        inside,
                        texture_coord: None,
                        material: self.material,
                    },
                )
            },
        }
    }
}

proof fn lemma_sphere_bounds(d: (int, int, int), v: (int, int, int), r: int, a: int, dd: int, vv: int)
    requires
        vec_in_range(d, DIR_MAX as int),
        vec_in_range(v, 2 * POINT_MAX as int),
        0 <= r <= POINT_MAX / 2,
        a == dot(d, v),
        dd == dot(d, d),
        vv == dot(v, v),
    ensures
        abs(a) <= 3 * DIR_MAX * 2 * POINT_MAX,
        0 <= dd <= 3 * DIR_MAX * DIR_MAX,
        0 <= vv <= 12 * POINT_MAX * POINT_MAX,
        0 <= r * r <= POINT_MAX * POINT_MAX,
        0 <= a * a <= 0x10_0000_0000_0000_0000_0000_0000,
        abs(dd * (vv - r * r)) <= 0x10_0000_0000_0000_0000_0000_0000,
        a * a - dd * (vv - r * r) <= 0x20_0000_0000_0000_0000_0000_0000,
{
    let m = 2 * POINT_MAX as int;
    let k = DIR_MAX as int;
    crate::math::lemma_mul_abs_bound(d.0, v.0, k, m);
    crate::math::lemma_mul_abs_bound(d.1, v.1, k, m);
    crate::math::lemma_mul_abs_bound(d.2, v.2, k, m);
    crate::math::lemma_mul_abs_bound(d.0, d.0, k, k);
    crate::math::lemma_mul_abs_bound(d.1, d.1, k, k);
    crate::math::lemma_mul_abs_bound(d.2, d.2, k, k);
    crate::math::lemma_mul_abs_bound(v.0, v.0, m, m);
    crate::math::lemma_mul_abs_bound(v.1, v.1, m, m);
    crate::math::lemma_mul_abs_bound(v.2, v.2, m, m);
    assert(d.0 * d.0 >= 0 && d.1 * d.1 >= 0 && d.2 * d.2 >= 0) by (nonlinear_arith);
    assert(v.0 * v.0 >= 0 && v.1 * v.1 >= 0 && v.2 * v.2 >= 0) by (nonlinear_arith);
    assert(0 <= r * r <= POINT_MAX * POINT_MAX) by (nonlinear_arith)
        requires
            0 <= r <= POINT_MAX / 2,
    ;
    crate::math::lemma_mul_abs_bound(a, a, 3 * k * m, 3 * k * m);
    assert(a * a >= 0) by (nonlinear_arith);
    assert(3 * k * m == 0x1_8000_0000_0000);
    assert(0x1_8000_0000_0000int * 0x1_8000_0000_0000int <= 0x10_0000_0000_0000_0000_0000_0000int);
    crate::math::lemma_mul_abs_bound(dd, vv - r * r, 3 * k * k, 12 * POINT_MAX * POINT_MAX);
    assert((3 * k * k) * (12 * POINT_MAX * POINT_MAX) <= 0x10_0000_0000_0000_0000_0000_0000);
}

/// `o + d * t / SCALE` (rounded toward zero), or nothing when it leaves the
/// coordinate range.
pub fn offset_point(o: &Point3, d: &Vector3, t: i128) -> (r: Option<Point3>)
    requires
        o.wf(),
        vec_in_range(d@, DIR_MAX as int),
        abs(t as int) <= 0x1_0000_0000_0000_0000,
    ensures
        r.is_some() == vec_in_range(point_at(o@, d@, t as int), POINT_MAX as int),
        r matches Some(p) ==> p@ == point_at(o@, d@, t as int) && p.wf(),
{
    proof {
        let k = DIR_MAX as int;
        let m = 0x1_0000_0000_0000_0000int;
        crate::math::lemma_mul_abs_bound(d.x as int, t as int, k, m);
        crate::math::lemma_mul_abs_bound(d.y as int, t as int, k, m);
        crate::math::lemma_mul_abs_bound(d.z as int, t as int, k, m);
    }
    let x = (o.x as i128) + crate::math::div_toward_zero((d.x as i128) * t, SCALE as i128);
    let y = (o.y as i128) + crate::math::div_toward_zero((d.y as i128) * t, SCALE as i128);
    let z = (o.z as i128) + crate::math::div_toward_zero((d.z as i128) * t, SCALE as i128);
    let m = POINT_MAX as i128;
    if x < -m || x > m || y < -m || y > m || z < -m || z > m {
        None
    } else {
        Some(Point3::new(x as i64, y as i64, z as i64))
    }
}

/// A plane whose normal's dot product with the (unit) direction is at most
/// this in magnitude (1e-5 of the product of two unit lengths) counts as
/// parallel to the ray.
pub const PARALLEL_EPSILON: i128 = 10;

/// An infinite plane through `origin` with unit normal `normal`.
#[derive(Clone, Copy, Debug)]
pub struct Plane {
    pub origin: Point3,
    pub normal: Vector3,
    pub material: usize,
}

/// Ray parameter of the plane hit, fixed-point, rounded toward zero.
pub open spec fn plane_t(pl: Plane, o: (int, int, int), d: (int, int, int)) -> int {
    let denom = dot(pl.normal@, d);
    let num = dot(vsub(pl.origin@, o), pl.normal@);
    if denom < 0 {
        div_trunc(-num * SCALE, -denom)
    } else {
        div_trunc(num * SCALE, denom)
    }
}

impl Plane {
    pub open spec fn wf(&self) -> bool {
        &&& self.origin.wf()
        &&& vec_in_range(self.normal@, SCALE as int)
    }

    /// A plane; its normal is normalized.
    pub fn new(origin: Point3, normal: Vector3, material: usize) -> (p: Plane)
        requires
            origin.wf(),
            normal.wf(),
        ensures
            p.wf(),
            p.origin == origin,
            p.normal@ == normalized(normal@),
            p.material == material,
    {
        Plane { origin, normal: normal.normalize(), material }
    }

    /// The ray meets the plane when it is not parallel to it (the dot product
    /// of normal and direction exceeds `PARALLEL_EPSILON` in magnitude) and
    /// the hit is not behind the origin. A hit point outside the coordinate range is no
    /// hit.
    pub fn intersect(&self, ray: &Ray) -> (r: Option<Intersection>)
        requires
            self.wf(),
            ray.wf(),
            vec_in_range(ray.direction@, DIR_MAX as int),
        ensures
            ({
                let (o, d) = (ray.origin@, ray.direction@);
                let denom = dot(self.normal@, d);
                let num = dot(vsub(self.origin@, o), self.normal@);
                let p = point_at(o, d, plane_t(*self, o, d));
                &&& r == plane_hit(*self, *ray)
                &&& r.is_some() == (abs(denom) > PARALLEL_EPSILON && num * denom >= 0 && vec_in_range(
                    p,
                    POINT_MAX as int,
                ))
                &&& r matches Some(h) ==> {
                    &&& h.t == plane_t(*self, o, d)
                    &&& h.point@ == p
                    &&& h.point.wf()
                    &&& !h.inside
                    &&& h.normal == self.normal
                    &&& h.material == self.material
                    &&& h.ray == *ray
                    &&& h.texture_coord.is_none()
                }
            }),
    {
        let denom = self.normal.dot(&ray.direction);
        if denom >= -PARALLEL_EPSILON && denom <= PARALLEL_EPSILON {
            return None;
        }
        let w = self.origin.sub(&ray.origin);
        let num = w.dot(&self.normal);
        proof {
            let m = 2 * POINT_MAX as int;
            let k = SCALE as int;
            crate::math::lemma_mul_abs_bound(w.x as int, self.normal.x as int, m, k);
            crate::math::lemma_mul_abs_bound(w.y as int, self.normal.y as int, m, k);
            crate::math::lemma_mul_abs_bound(w.z as int, self.normal.z as int, m, k);
            let j = DIR_MAX as int;
            crate::math::lemma_mul_abs_bound(self.normal.x as int, ray.direction.x as int, k, j);
            crate::math::lemma_mul_abs_bound(self.normal.y as int, ray.direction.y as int, k, j);
            crate::math::lemma_mul_abs_bound(self.normal.z as int, ray.direction.z as int, k, j);
            crate::math::lemma_mul_abs_bound(num as int, denom as int, 6 * m * k, 3 * k * j);
            assert((num * denom >= 0) == ((denom < 0 && -num >= 0) || (denom > 0 && num >= 0)))
                by (nonlinear_arith)
                requires
                    denom != 0,
            ;
        }
        let (n2, d2) = if denom < 0 {
            (-num, -denom)
        } else {
            (num, denom)
        };
        if n2 < 0 {
            return None;
        }
        let t = crate::math::div_toward_zero(n2 * (SCALE as i128), d2);
        proof {
            crate::math::lemma_div_trunc_bound(n2 * SCALE, d2 as int);
        }
        match offset_point(&ray.origin, &ray.direction, t) {
            None => None,
            Some(point) => Some(
                Intersection {
                    t,
                    point,
                    ray: *ray,
                    normal: self.normal,
                    inside: false,
                    texture_coord: None,
                    material: self.material,
                },
            ),
        }
    }
}

} // verus!
