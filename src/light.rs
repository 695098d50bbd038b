use vstd::prelude::*;

use crate::color::Color;
use crate::intersection::Intersection;
use crate::material::{textured, uv_ok, Material};
use crate::math::{dot, is_isqrt, normalized, vec_in_range, vsub, Point3, Vector3, POINT_MAX, SCALE, VEC_MAX};
use crate::ray::Ray;
use crate::sphere::offset_point;

verus! {

/// Offset of a secondary ray's origin along its direction, as a fixed-point
/// ray parameter: a hundredth of a unit, so that the ray does not meet the
/// surface it leaves.
pub const RAY_OFFSET: i128 = 10;

/// Largest light intensity (fixed-point).
pub const INTENSITY_MAX: i64 = 1000000000;

/// How a point light dims with distance.
#[derive(Clone, Copy, Debug, PartialEq, Eq, Structural)]
pub enum Falloff {
    /// With the inverse square of the distance.
    InverseSquare,
    /// With the inverse of the distance.
    InverseLinear,
}

/// A light at a point.
#[derive(Clone, Copy, Debug)]
pub struct Point {
    pub origin: Point3,
    pub color: Color,
    pub intensity: i64,
    pub falloff: Falloff,
    pub diffuse: bool,
    pub specular: bool,
}

/// Intensity `i` of a point light at distance `d` raw units (at least one).
pub open spec fn falloff_intensity(f: Falloff, i: int, d: int) -> int {
    let dd = if d < 1 {
        1
    } else {
        d
    };
    match f {
        Falloff::InverseSquare => i * SCALE * SCALE / (dd * dd),
        Falloff::InverseLinear => i * SCALE / dd,
    }
}

impl Point {
    pub fn new(
        origin: Point3,
        color: Color,
        intensity: i64,
        falloff: Falloff,
        diffuse: bool,
        specular: bool,
    ) -> (p: Point)
        ensures
            p.origin == origin && p.color == color && p.intensity == intensity && p.falloff
                == falloff && p.diffuse == diffuse && p.specular == specular,
    {
        Point { origin, color, intensity, falloff, diffuse, specular }
    }

    /// The intensity at `distance_to_light` raw units, fixed-point; a
    /// distance below one raw unit counts as one.
    pub fn intensity(&self, distance_to_light: i64) -> (r: i128)
        requires
            0 <= self.intensity <= INTENSITY_MAX,
            distance_to_light <= VEC_MAX,
        ensures
            r == falloff_intensity(self.falloff, self.intensity as int, distance_to_light as int),
            r >= 0,
    {
        let d: i128 = if distance_to_light < 1 {
            1
        } else {
            distance_to_light as i128
        };
        let i = self.intensity as i128;
        proof {
            assert(0 <= i * SCALE * SCALE <= INTENSITY_MAX * SCALE * SCALE) by (nonlinear_arith)
                requires
                    0 <= i <= INTENSITY_MAX,
            ;
            assert(1 <= d * d <= VEC_MAX * VEC_MAX) by (nonlinear_arith)
                requires
                    1 <= d <= VEC_MAX,
            ;
        }
        match self.falloff {
            Falloff::InverseSquare => i * (SCALE as i128) * (SCALE as i128) / (d * d),
            Falloff::InverseLinear => i * (SCALE as i128) / d,
        }
    }
}

/// A light from one direction, infinitely far away.
#[derive(Clone, Copy, Debug)]
pub struct Directional {
    pub direction: Vector3,
    pub inverse_direction: Vector3,
    pub color: Color,
    pub intensity: i64,
    pub diffuse: bool,
    pub specular: bool,
}

impl Directional {
    /// A directional light; the direction is normalized.
    pub fn new(direction: Vector3, color: Color, intensity: i64, diffuse: bool, specular: bool) -> (d: Directional)
        requires
            direction.wf(),
        ensures
            d.direction@ == normalized(direction@),
            d.inverse_direction@ == crate::math::vscale(-1, normalized(direction@)),
            d.color == color && d.intensity == intensity && d.diffuse == diffuse && d.specular
                == specular,
    {
        let n = direction.normalize();
        Directional {
            direction: n,
            inverse_direction: n.neg(),
            color,
            intensity,
            diffuse,
            specular,
        }
    }

    /// The same at every distance.
    pub fn intensity(&self, distance_to_light: Option<i64>) -> (r: i128)
        ensures
            r == self.intensity,
    {
        self.intensity as i128
    }
}

/// A light of the scene.
#[derive(Clone, Copy, Debug)]
pub enum Light {
    Point(Point),
    Directional(Directional),
}

/// `v` limited to `0..=VEC_MAX`.
pub open spec fn factor(v: int) -> i64 {
    if v < 0 {
        0
    } else if v > VEC_MAX {
        VEC_MAX
    } else {
        v as i64
    }
}

fn clamp_factor(v: i128) -> (r: i64)
    ensures
        r == factor(v as int),
        0 <= r <= VEC_MAX,
{
    if v < 0 {
        0
    } else if v > VEC_MAX as i128 {
        VEC_MAX
    } else {
        v as i64
    }
}

/// `base` raised to `e`, in fixed-point, rounding down at each step.
pub open spec fn fixed_pow(base: int, e: nat) -> int
    decreases e,
{
    if e == 0 {
        SCALE as int
    } else {
        fixed_pow(base, (e - 1) as nat) * base / SCALE as int
    }
}

/// `base^e` for `0 <= base <= SCALE` (a cosine), fixed-point.
pub fn pow_fixed(base: i64, e: u32) -> (r: i64)
    requires
        0 <= base <= SCALE,
    ensures
        r == fixed_pow(base as int, e as nat),
        0 <= r <= SCALE,
{
    let mut r: i64 = SCALE;
    let mut k: u32 = 0;
    while k < e
        invariant
            0 <= k <= e,
            0 <= base <= SCALE,
            r == fixed_pow(base as int, k as nat),
            0 <= r <= SCALE,
        decreases e - k,
    {
        proof {
            assert(0 <= r * base <= SCALE * SCALE) by (nonlinear_arith)
                requires
                    0 <= r <= SCALE,
                    0 <= base <= SCALE,
            ;
        }
        r = r * base / SCALE;
        k = k + 1;
    }
    r
}

impl Light {
    pub open spec fn wf(&self) -> bool {
        match self {
            Light::Point(p) => vec_in_range(p.origin@, POINT_MAX as int / 2) && 0 <= p.intensity
                <= INTENSITY_MAX,
            Light::Directional(d) => vec_in_range(d.inverse_direction@, SCALE as int) && 0
                <= d.intensity <= INTENSITY_MAX,
        }
    }

    /// The unit direction from the hit point toward the light.
    pub fn light_direction(&self, hit: &Intersection) -> (r: Vector3)
        requires
            self.wf(),
            hit.point.wf(),
        ensures
            vec_in_range(r@, SCALE as int),
            self matches Light::Point(p) ==> r@ == normalized(vsub(p.origin@, hit.point@)),
            self matches Light::Directional(d) ==> r == d.inverse_direction,
    {
        match self {
            Light::Point(p) => p.origin.sub(&hit.point).normalize(),
            Light::Directional(d) => d.inverse_direction,
        }
    }

    /// A ray from the hit point toward the light, its origin moved off the
    /// surface by `RAY_OFFSET`; nothing if that leaves the coordinate range.
    pub fn create_shadow_ray(&self, hit: &Intersection, medium_refraction: Option<i64>) -> (r: Option<Ray>)
        requires
            self.wf(),
            hit.point.wf(),
            medium_refraction matches Some(m) ==> 0 < m <= POINT_MAX,
        ensures
            r matches Some(ray) ==> ray.wf() && vec_in_range(ray.direction@, SCALE as int)
                && ray.direction@ == self.light_direction_spec(*hit)
                && ray.origin@ == crate::sphere::point_at(hit.point@, ray.direction@, RAY_OFFSET as int),
            r == self.shadow_ray_spec(*hit, medium_refraction),
    {
        let dir = self.light_direction(hit);
        match offset_point(&hit.point, &dir, RAY_OFFSET) {
            Some(o) => Some(Ray::new(o, dir, medium_refraction)),
            None => None,
        }
    }

    /// The shadow ray from the hit toward the light, if its offset origin
    /// is in range.
    pub open spec fn shadow_ray_spec(&self, hit: Intersection, medium_refraction: Option<i64>) -> Option<Ray> {
        let dir = self.light_direction_spec(hit);
        let p = crate::sphere::point_at(hit.point@, dir, RAY_OFFSET as int);
        if vec_in_range(p, POINT_MAX as int) {
            Some(
                Ray::make(
                    crate::math::point_of(p),
                    crate::math::vec_of(dir),
                    match medium_refraction {
                        Some(m) => m,
                        None => SCALE,
                    },
                ),
            )
        } else {
            None
        }
    }

    /// The distance to the light: rounded down for a point light, none
    /// (infinite) for a directional one.
    pub open spec fn distance_spec(&self, hit: Intersection) -> Option<i64> {
        match self {
            Light::Point(p) => Some(
                crate::math::sqrt_of(dot(vsub(hit.point@, p.origin@), vsub(hit.point@, p.origin@))) as i64,
            ),
            Light::Directional(_) => None,
        }
    }

    /// The Lambertian term, as `diffuse_color` computes it.
    pub open spec fn diffuse_spec(&self, hit: Intersection, material: Material, distance_to_light: Option<i64>) -> Option<Color> {
        let cos = dot(self.light_direction_spec(hit), hit.normal@);
        if self.gives_diffuse_spec() && cos > 0 {
            Some(
                self.color_spec().mul_spec(
                    textured(material.diffuse_color, material.diffuse_texture, hit.texture_coord),
                ).scale_spec(cos / SCALE as int).scale_spec(self.intensity_spec(distance_to_light) as int),
            )
        } else {
            None
        }
    }

    /// The specular term, as `specular_color` computes it.
    pub open spec fn specular_spec(&self, hit: Intersection, material: Material, ray: Ray, distance_to_light: Option<i64>) -> Option<Color> {
        let n = hit.normal@;
        let nn = dot(n, n);
        let mirrored = crate::math::div_vec(crate::math::reflect_exact(self.light_direction_spec(hit), n), nn);
        let cos = dot(ray.direction@, mirrored);
        let c = cos / SCALE as int;
        let c1 = if c > SCALE { SCALE as int } else { c };
        if self.gives_specular_spec() && nn != 0 && cos > 0 {
            Some(
                self.color_spec().mul_spec(
                    textured(material.specular_color, material.specular_texture, hit.texture_coord),
                ).scale_spec(fixed_pow(c1, material.specular_exponent as nat)).scale_spec(
                    self.intensity_spec(distance_to_light) as int,
                ),
            )
        } else {
            None
        }
    }

    pub open spec fn light_direction_spec(&self, hit: Intersection) -> (int, int, int) {
        match self {
            Light::Point(p) => normalized(vsub(p.origin@, hit.point@)),
            Light::Directional(d) => d.inverse_direction@,
        }
    }

    /// The distance from the hit point to the light in raw units, rounded
    /// down; none for a directional light, which is infinitely far.
    pub fn distance_to_light(&self, hit: &Intersection) -> (r: Option<i64>)
        requires
            self.wf(),
            hit.point.wf(),
        ensures
            self is Directional ==> r is None,
            r == self.distance_spec(*hit),
            self matches Light::Point(p) ==> r matches Some(d) && is_isqrt(
                dot(vsub(hit.point@, p.origin@), vsub(hit.point@, p.origin@)),
                d as int,
            ) && 0 <= d <= VEC_MAX,
    {
        match self {
            Light::Point(p) => {
                let v = hit.point.sub(&p.origin);
                let l = v.length();
                proof {
                    let m = 2 * POINT_MAX as int;
                    crate::math::lemma_mul_abs_bound(v.x as int, v.x as int, m, m);
                    crate::math::lemma_mul_abs_bound(v.y as int, v.y as int, m, m);
                    crate::math::lemma_mul_abs_bound(v.z as int, v.z as int, m, m);
                    assert(l <= VEC_MAX) by (nonlinear_arith)
                        requires
                            l * l <= dot(v@, v@),
                            dot(v@, v@) <= 3 * m * m,
                            m == 2 * POINT_MAX,
                            l >= 0,
                    ;
                    crate::math::lemma_sqrt_of(dot(v@, v@), l as int);
                }
                Some(l)
            },
            Light::Directional(_) => None,
        }
    }

    /// The light's intensity at that distance (a point light at an unknown
    /// distance counts as `VEC_MAX` away), limited to `0..=VEC_MAX`.
    pub open spec fn intensity_spec(&self, distance_to_light: Option<i64>) -> i64 {
        match self {
            Light::Point(p) => factor(
                falloff_intensity(
                    p.falloff,
                    p.intensity as int,
                    match distance_to_light {
                        Some(d) => d as int,
                        None => VEC_MAX as int,
                    },
                ),
            ),
            Light::Directional(d) => factor(d.intensity as int),
        }
    }

    pub open spec fn color_spec(&self) -> Color {
        match self {
            Light::Point(p) => p.color,
            Light::Directional(d) => d.color,
        }
    }

    fn intensity_at(&self, distance_to_light: Option<i64>) -> (r: i64)
        requires
            self.wf(),
            distance_to_light matches Some(d) ==> d <= VEC_MAX,
        ensures
            0 <= r <= VEC_MAX,
            r == self.intensity_spec(distance_to_light),
    {
        match self {
            Light::Point(p) => {
                let d = match distance_to_light {
                    Some(d) => d,
                    None => VEC_MAX,
                };
                clamp_factor(p.intensity(d))
            },
            Light::Directional(d) => clamp_factor(d.intensity(distance_to_light)),
        }
    }

    fn color(&self) -> (c: Color)
        ensures
            c == self.color_spec(),
    {
        match self {
            Light::Point(p) => p.color,
            Light::Directional(d) => d.color,
        }
    }

    pub open spec fn gives_diffuse_spec(&self) -> bool {
        match self {
            Light::Point(p) => p.diffuse,
            Light::Directional(d) => d.diffuse,
        }
    }

    fn gives_diffuse(&self) -> (r: bool)
        ensures
            r == self.gives_diffuse_spec(),
    {
        match self {
            Light::Point(p) => p.diffuse,
            Light::Directional(d) => d.diffuse,
        }
    }

    fn gives_specular(&self) -> (r: bool)
        ensures
            r == self.gives_specular_spec(),
    {
        match self {
            Light::Point(p) => p.specular,
            Light::Directional(d) => d.specular,
        }
    }

    /// Lambertian term: the light's color times the material's diffuse
    /// color, scaled by the cosine between normal and light direction and by
    /// the intensity; none when the light is off for diffuse shading or lies
    /// behind the surface.
    pub fn diffuse_color(&self, hit: &Intersection, material: &Material, distance_to_light: Option<i64>) -> (r: Option<Color>)
        requires
            self.wf(),
            hit.point.wf(),
            vec_in_range(hit.normal@, SCALE as int),
            uv_ok(hit.texture_coord),
            distance_to_light matches Some(d) ==> d <= VEC_MAX,
        ensures
            r is Some <==> (self.gives_diffuse_spec() && dot(self.light_direction_spec(*hit), hit.normal@) > 0),
            r matches Some(c) ==> c == self.color_spec().mul_spec(
                textured(material.diffuse_color, material.diffuse_texture, hit.texture_coord),
            ).scale_spec(dot(self.light_direction_spec(*hit), hit.normal@) / SCALE as int).scale_spec(
                self.intensity_spec(distance_to_light) as int,
            ),
            r == self.diffuse_spec(*hit, *material, distance_to_light),
    {
        if !self.gives_diffuse() {
            return None;
        }
        let dir = self.light_direction(hit);
        let cos = dir.dot(&hit.normal);
        if cos > 0 {
            proof {
                crate::math::lemma_mul_abs_bound(dir.x as int, hit.normal.x as int, SCALE as int, SCALE as int);
                crate::math::lemma_mul_abs_bound(dir.y as int, hit.normal.y as int, SCALE as int, SCALE as int);
                crate::math::lemma_mul_abs_bound(dir.z as int, hit.normal.z as int, SCALE as int, SCALE as int);
            }
            let base = self.color().mul(material.diffuse_color(hit.texture_coord));
            let k = (cos / (SCALE as i128)) as i64;
            Some(base.scale(k).scale(self.intensity_at(distance_to_light)))
        } else {
            None
        }
    }

    /// Blinn-Phong-style term: the light's color times the material's
    /// specular color, scaled by the cosine between the view direction and
    /// the light direction mirrored about the normal, raised to the specular
    /// exponent, and by the intensity; none when the light is off for
    /// specular shading or the cosine is not positive.
    pub fn specular_color(
        &self,
        hit: &Intersection,
        material: &Material,
        ray: &Ray,
        distance_to_light: Option<i64>,
    ) -> (r: Option<Color>)
        requires
            self.wf(),
            hit.point.wf(),
            vec_in_range(hit.normal@, SCALE as int),
            vec_in_range(ray.direction@, SCALE as int),
            uv_ok(hit.texture_coord),
            distance_to_light matches Some(d) ==> d <= VEC_MAX,
        ensures
            r == self.specular_spec(*hit, *material, *ray, distance_to_light),
    {
        if !self.gives_specular() {
            return None;
        }
        let dir = self.light_direction(hit);
        let nn = hit.normal.dot(&hit.normal);
        if nn == 0 {
            return None;
        }
        proof {
            let n = hit.normal@;
            assert(n.0 * n.0 >= 0 && n.1 * n.1 >= 0 && n.2 * n.2 >= 0) by (nonlinear_arith);
        }
        let mirrored = dir.reflect(&hit.normal);
        let cos = ray.direction.dot(&mirrored);
        if cos > 0 {
            proof {
                crate::math::lemma_mul_abs_bound(ray.direction.x as int, mirrored.x as int, SCALE as int, VEC_MAX as int);
                crate::math::lemma_mul_abs_bound(ray.direction.y as int, mirrored.y as int, SCALE as int, VEC_MAX as int);
                crate::math::lemma_mul_abs_bound(ray.direction.z as int, mirrored.z as int, SCALE as int, VEC_MAX as int);
            }
            let c = cos / (SCALE as i128);
            let c1 = if c > SCALE as i128 { SCALE } else { c as i64 };
            let spec = pow_fixed(c1, material.specular_exponent);
            let base = self.color().mul(material.specular_color(hit.texture_coord));
            Some(base.scale(spec).scale(self.intensity_at(distance_to_light)))
        } else {
            None
        }
    }

    pub open spec fn gives_specular_spec(&self) -> bool {
        match self {
            Light::Point(p) => p.specular,
            Light::Directional(d) => d.specular,
        }
    }
}

} // verus!
