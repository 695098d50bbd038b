use vstd::prelude::*;

use crate::camera::{Camera, SAMPLES_MAX, SIDE_MAX};
use crate::color::Color;
use crate::intersection::Intersection;
use crate::light::RAY_OFFSET;
use crate::material::{textured, IllumninationModel, Material, COEFFICIENT_MAX};
use crate::math::{
    abs, dot, normalized, sqrt_of, vadd, vec_in_range, vscale, Point3, Vector3, NORM_MAX, SCALE,
};
use crate::ray::Ray;
use crate::scene::{hit_ok, shape_t, Scene};
use crate::sphere::offset_point;

verus! {

/// `SCALE` squared: a dot product of two unit vectors is at most this.
pub const SCALE2: i128 = 1000000;

/// `SCALE` to the fourth power.
pub const SCALE4: i128 = 1000000000000;

/// `SCALE` to the sixth power.
pub const SCALE6: i128 = 1000000000000000000;

/// Bound on `|c2|` for indices up to `COEFFICIENT_MAX`.
pub const C2_MAX: i128 = 0x10_0000_0000_0000_0000_0000_0000;

/// Samples per pixel side: one at the pixel's center, or `n` by `n`.
#[derive(Clone, Copy, Debug, PartialEq, Eq, Structural)]
pub enum SuperSampling {
    Off,
    On(u32),
}

/// Index ratio `n1 / n2`, fixed-point, rounded down.
pub open spec fn index_ratio(n1: int, n2: int) -> int {
    n1 * SCALE / n2
}

/// `1 - n^2 (1 - cos^2)` times `SCALE^6`, for the ratio `n` (fixed-point)
/// and the cosine times `SCALE^2` (a dot product of unit vectors).
pub open spec fn refraction_c2(n: int, c: int) -> int {
    SCALE6 - n * n * (SCALE4 - c * c)
}

/// The refracted direction `n d + (n cos - sqrt(c2)) normal`, times
/// `SCALE^4` (before normalizing).
pub open spec fn refracted_numerator(
    d: (int, int, int),
    normal: (int, int, int),
    n: int,
    c: int,
    c2: int,
) -> (int, int, int) {
    vadd(vscale(n * SCALE2, d), vscale(n * c - sqrt_of(c2), normal))
}

/// One polarized reflectance `((a - b) / (a + b))^2`, fixed-point; full
/// reflection where both terms vanish.
pub open spec fn polarized(a: int, b: int) -> int {
    if a + b == 0 {
        SCALE as int
    } else {
        (a - b) * (a - b) * SCALE / ((a + b) * (a + b))
    }
}

/// Fresnel reflectance (fixed-point) from the two indices, the cosine of
/// incidence times `SCALE^2` and `c2` (both cosines kept at `SCALE^2`
/// precision): the average of the s-polarized reflectance
/// `((n1 cos_i - n2 cos_t) / (n1 cos_i + n2 cos_t))^2` and the p-polarized
/// reflectance `((n2 cos_i - n1 cos_t) / (n2 cos_i + n1 cos_t))^2`.
pub open spec fn fresnel_kr(n1: int, n2: int, c: int, c2: int) -> int {
    let cos_i = abs(c);
    let cos_t = if c2 > 0 {
        sqrt_of(c2) / SCALE as int
    } else {
        0
    };
    (polarized(n1 * cos_i, n2 * cos_t) + polarized(n2 * cos_i, n1 * cos_t)) / 2
}

/// `polarized(p * ci, q * ct)` for indices `p`, `q` and cosines `ci`, `ct`
/// (at `SCALE^2` precision).
fn polarized_exec(p: i64, q: i64, ci: i128, ct: i128) -> (r: i64)
    requires
        0 < p <= COEFFICIENT_MAX,
        0 < q <= COEFFICIENT_MAX,
        0 <= ci <= 3 * SCALE2,
        0 <= ct <= 0x200_0000_0000,
    ensures
        r == polarized(p * ci, q * ct),
        0 <= r <= SCALE,
{
    proof {
        assert(0 <= p * ci <= COEFFICIENT_MAX * 3 * SCALE2) by (nonlinear_arith)
            requires
                0 < p <= COEFFICIENT_MAX,
                0 <= ci <= 3 * SCALE2,
        ;
        assert(0 <= q * ct <= COEFFICIENT_MAX * 0x200_0000_0000) by (nonlinear_arith)
            requires
                0 < q <= COEFFICIENT_MAX,
                0 <= ct <= 0x200_0000_0000,
        ;
    }
    let a = (p as i128) * ci;
    let b = (q as i128) * ct;
    proof {
        crate::math::lemma_mul_abs_bound(a - b, a - b, 0x400_0000_0000_0000, 0x400_0000_0000_0000);
        crate::math::lemma_mul_abs_bound(a + b, a + b, 0x400_0000_0000_0000, 0x400_0000_0000_0000);
    }
    if a + b == 0 {
        return SCALE;
    }
    proof {
        lemma_kr_range(a as int, b as int);
    }
    let r = (a - b) * (a - b) * (SCALE as i128) / ((a + b) * (a + b));
    r as i64
}

/// What refraction at a hit needs: the indices on both sides (the one
/// beyond is vacuum when the ray leaves the surface from inside), their
/// ratio, the cosine of incidence, `c2`, and the normal facing the ray's
/// side.
#[derive(Clone, Copy, Debug)]
pub struct RefractionProperties {
    pub n1: i64,
    pub n2: i64,
    pub n: i64,
    pub cos_i: i128,
    pub c2: i128,
    pub normal: Vector3,
}

/// The refraction properties at a hit, as `RefractionProperties::new`
/// computes them.
pub open spec fn props_spec(hit: Intersection, ray: Ray, material: Material) -> RefractionProperties {
    let n2: i64 = if hit.inside {
        SCALE
    } else {
        match material.refraction_coefficient {
            Some(k) => k,
            None => SCALE,
        }
    };
    let normal = if hit.inside {
        crate::math::vec_of(vscale(-1, hit.normal@))
    } else {
        hit.normal
    };
    let n = index_ratio(ray.medium_refraction as int, n2 as int);
    let c = dot(normal@, ray.direction@);
    RefractionProperties {
        n1: ray.medium_refraction,
        n2,
        n: n as i64,
        cos_i: c as i128,
        c2: refraction_c2(n, c) as i128,
        normal,
    }
}

/// The absorption coefficient, fixed-point: 0.15 per unit of distance and
/// per unit of ambient color.
pub const ABSORPTION: i64 = 150;

/// Distances beyond this (raw) absorb as much as this one.
pub const ABSORPTION_DISTANCE_MAX: i128 = 0x100_0000_0000;

/// Fixed-point unit of the absorption computation, finer than `SCALE`.
pub const FINE: i128 = 1000000000;

/// `b` squared `k` times, in `FINE` fixed point, rounding down each time:
/// `b^(2^k)`.
pub open spec fn squared_times(b: int, k: nat) -> int
    decreases k,
{
    if k == 0 {
        b
    } else {
        squared_times(b * b / FINE as int, (k - 1) as nat)
    }
}

/// Beer–Lambert-style transmission of one channel over distance `t`:
/// `exp(-0.15 t a)` for the ambient channel `a` (as a fraction of 255),
/// approximated by `(1 - x / 1024)^1024` at `FINE` precision, as a channel
/// value.
pub open spec fn transmission(ambient: u8, t: int) -> u8 {
    let tt = if t < 0 {
        0
    } else if t > ABSORPTION_DISTANCE_MAX {
        ABSORPTION_DISTANCE_MAX as int
    } else {
        t
    };
    let x = ABSORPTION * tt * ambient * 1000000 / (255 * SCALE);
    let base = if x / 1024 >= FINE {
        0
    } else {
        FINE - x / 1024
    };
    (255 * squared_times(base, 10) / FINE as int) as u8
}

pub open spec fn transparency_spec(ambient: Color, t: int) -> Color {
    Color {
        r: transmission(ambient.r, t),
        g: transmission(ambient.g, t),
        b: transmission(ambient.b, t),
    }
}

fn transmission_exec(a: u8, t: i128) -> (r: u8)
    ensures
        r == transmission(a, t as int),
{
    let tt: i128 = if t < 0 {
        0
    } else if t > ABSORPTION_DISTANCE_MAX {
        ABSORPTION_DISTANCE_MAX
    } else {
        t
    };
    proof {
        assert(0 <= (ABSORPTION as int) * tt * (a as int) * 1000000 <= 150 * 0x100_0000_0000 * 255 * 1000000)
            by (nonlinear_arith)
            requires
                0 <= tt <= 0x100_0000_0000,
                0 <= a <= 255,
        ;
    }
    let x = (ABSORPTION as i128) * tt * (a as i128) * 1000000 / (255 * (SCALE as i128));
    let base: i128 = if x / 1024 >= FINE {
        0
    } else {
        FINE - x / 1024
    };
    let mut e = base;
    let mut k: usize = 0;
    while k < 10
        invariant
            0 <= k <= 10,
            0 <= e <= FINE,
            0 <= base <= FINE,
            squared_times(e as int, (10 - k) as nat) == squared_times(base as int, 10),
        decreases 10 - k,
    {
        proof {
            assert(0 <= e * e <= FINE * FINE) by (nonlinear_arith)
                requires
                    0 <= e <= FINE,
            ;
            assert(0 <= (e * e) / (FINE as int) <= FINE) by (nonlinear_arith)
                requires
                    0 <= e <= FINE,
            ;
        }
        e = e * e / FINE;
        k = k + 1;
    }
    proof {
        assert(0 <= (255 * e) / (FINE as int) <= 255) by (nonlinear_arith)
            requires
                0 <= e <= FINE,
        ;
    }
    ((255 * e) / FINE) as u8
}

/// The transparency of a refracting medium of ambient color `ambient`
/// after a distance `t`.
pub fn transparency(ambient: Color, t: i128) -> (c: Color)
    ensures
        c == transparency_spec(ambient, t as int),
{
    Color {
        r: transmission_exec(ambient.r, t),
        g: transmission_exec(ambient.g, t),
        b: transmission_exec(ambient.b, t),
    }
}

impl RefractionProperties {
    pub open spec fn wf(&self) -> bool {
        &&& 0 < self.n1 <= COEFFICIENT_MAX
        &&& 0 < self.n2 <= COEFFICIENT_MAX
        &&& self.n == index_ratio(self.n1 as int, self.n2 as int)
        &&& self.c2 == refraction_c2(self.n as int, self.cos_i as int)
        &&& vec_in_range(self.normal@, SCALE as int)
        &&& abs(self.cos_i as int) <= 3 * SCALE2
        &&& 0 <= self.n <= COEFFICIENT_MAX * SCALE
        &&& abs(self.c2 as int) <= C2_MAX
    }

    pub fn new(hit: &Intersection, ray: &Ray, material: &Material) -> (p: RefractionProperties)
        requires
            vec_in_range(hit.normal@, SCALE as int),
            vec_in_range(ray.direction@, SCALE as int),
            0 < ray.medium_refraction <= COEFFICIENT_MAX,
            material.wf(),
        ensures
            p.wf(),
            p.n1 == ray.medium_refraction,
            p.n2 == (if hit.inside {
                SCALE
            } else {
                match material.refraction_coefficient {
                    Some(k) => k,
                    None => SCALE,
                }
            }),
            p.normal@ == (if hit.inside {
                vscale(-1, hit.normal@)
            } else {
                hit.normal@
            }),
            p.cos_i == dot(p.normal@, ray.direction@),
            p == props_spec(*hit, *ray, *material),
    {
        let n2 = if hit.inside {
            SCALE
        } else {
            match material.refraction_coefficient {
                Some(k) => k,
                None => SCALE,
            }
        };
        let n1 = ray.medium_refraction;
        let n = n1 * SCALE / n2;
        let normal = if hit.inside {
            hit.normal.neg()
        } else {
            hit.normal
        };
        let cos_i = normal.dot(&ray.direction);
        proof {
            let s = SCALE as int;
            crate::math::lemma_mul_abs_bound(normal.x as int, ray.direction.x as int, s, s);
            crate::math::lemma_mul_abs_bound(normal.y as int, ray.direction.y as int, s, s);
            crate::math::lemma_mul_abs_bound(normal.z as int, ray.direction.z as int, s, s);
            crate::math::lemma_mul_abs_bound(cos_i as int, cos_i as int, 3 * SCALE2, 3 * SCALE2);
            assert(0 <= n <= COEFFICIENT_MAX * SCALE) by (nonlinear_arith)
                requires
                    n as int == (n1 as int) * (SCALE as int) / (n2 as int),
                    0 < n1 <= COEFFICIENT_MAX,
                    0 < n2,
            ;
            crate::math::lemma_mul_abs_bound(n as int, n as int, COEFFICIENT_MAX * SCALE, COEFFICIENT_MAX * SCALE);
            assert((3 * SCALE2) * (3 * SCALE2) == 9 * SCALE4);
            assert((COEFFICIENT_MAX * SCALE) * (COEFFICIENT_MAX * SCALE) == 10000000000000000);
            crate::math::lemma_mul_abs_bound(
                n * n,
                SCALE4 - cos_i * cos_i,
                10000000000000000,
                10 * SCALE4,
            );
            assert(10000000000000000 * (10 * SCALE4) == 100000000000000000000000000000);
        }
        let nn = (n as i128) * (n as i128);
        let c2 = SCALE6 - nn * (SCALE4 - cos_i * cos_i);
        RefractionProperties { n1, n2, n, cos_i, c2, normal }
    }

    /// Refraction is impossible: `sin(theta_t)` would exceed one.
    pub fn total_internal_reflection(&self) -> (r: bool)
        ensures
            r == (self.c2 < 0),
    {
        self.c2 < 0
    }
}

/// A renderer over a scene and a camera.
pub struct Renderer {
    pub scene: Scene,
    pub camera: Camera,
    pub super_sampling: SuperSampling,
}

/// What a traced ray must satisfy.
pub open spec fn ray_ok(ray: Ray) -> bool {
    &&& ray.wf()
    &&& vec_in_range(ray.direction@, SCALE as int)
    &&& ray.medium_refraction <= COEFFICIENT_MAX
}

/// The channel-wise average of the colors, rounded down.
pub open spec fn average_channel(s: Seq<Color>, ch: int) -> int
    decreases s.len(),
{
    if s.len() == 0 {
        0
    } else {
        channel_sum(s, ch) / s.len() as int
    }
}

pub open spec fn channel(c: Color, ch: int) -> int {
    if ch == 0 {
        c.r as int
    } else if ch == 1 {
        c.g as int
    } else {
        c.b as int
    }
}

pub open spec fn channel_sum(s: Seq<Color>, ch: int) -> int
    decreases s.len(),
{
    if s.len() == 0 {
        0
    } else {
        channel_sum(s.drop_last(), ch) + channel(s.last(), ch)
    }
}

proof fn lemma_channel_sum_bound(s: Seq<Color>, ch: int)
    ensures
        0 <= channel_sum(s, ch) <= 255 * s.len(),
    decreases s.len(),
{
    if s.len() > 0 {
        lemma_channel_sum_bound(s.drop_last(), ch);
    }
}

/// The average of a non-empty list of colors, channel by channel, in
/// linear space, rounded down.
pub fn average_colors(colors: &Vec<Color>) -> (c: Color)
    requires
        0 < colors@.len() <= 0x1_0000_0000,
    ensures
        c.r == average_channel(colors@, 0),
        c.g == average_channel(colors@, 1),
        c.b == average_channel(colors@, 2),
{
    let mut r: u64 = 0;
    let mut g: u64 = 0;
    let mut b: u64 = 0;
    let mut i: usize = 0;
    while i < colors.len()
        invariant
            0 <= i <= colors@.len(),
            colors@.len() <= 0x1_0000_0000,
            r == channel_sum(colors@.subrange(0, i as int), 0),
            g == channel_sum(colors@.subrange(0, i as int), 1),
            b == channel_sum(colors@.subrange(0, i as int), 2),
        decreases colors@.len() - i,
    {
        proof {
            let sub = colors@.subrange(0, i + 1);
            assert(sub.drop_last() == colors@.subrange(0, i as int));
            lemma_channel_sum_bound(colors@.subrange(0, i as int), 0);
            lemma_channel_sum_bound(colors@.subrange(0, i as int), 1);
            lemma_channel_sum_bound(colors@.subrange(0, i as int), 2);
        }
        let c = colors[i];
        r = r + c.r as u64;
        g = g + c.g as u64;
        b = b + c.b as u64;
        i = i + 1;
    }
    proof {
        assert(colors@.subrange(0, colors@.len() as int) == colors@);
        lemma_channel_sum_bound(colors@, 0);
        lemma_channel_sum_bound(colors@, 1);
        lemma_channel_sum_bound(colors@, 2);
        let n = colors@.len() as int;
        assert(channel_sum(colors@, 0) / n <= 255) by (nonlinear_arith)
            requires
                0 <= channel_sum(colors@, 0) <= 255 * n,
                n > 0,
        ;
        assert(channel_sum(colors@, 1) / n <= 255) by (nonlinear_arith)
            requires
                0 <= channel_sum(colors@, 1) <= 255 * n,
                n > 0,
        ;
        assert(channel_sum(colors@, 2) / n <= 255) by (nonlinear_arith)
            requires
                0 <= channel_sum(colors@, 2) <= 255 * n,
                n > 0,
        ;
    }
    let n = colors.len() as u64;
    Color::new((r / n) as u8, (g / n) as u8, (b / n) as u8)
}

/// The refracted direction at normal incidence is the incoming one, for
/// every index ratio: a ray along `-normal` (with `normal` of unit length)
/// goes on along `-normal`.
pub proof fn lemma_normal_incidence(normal: (int, int, int), n: int)
    requires
        dot(normal, normal) == SCALE2,
        n >= 0,
    ensures
        ({
            let d = vscale(-1, normal);
            let c = dot(normal, d);
            normalized(refracted_numerator(d, normal, n, c, refraction_c2(n, c))) == d
        }),
{
    let d = vscale(-1, normal);
    let c = dot(normal, d);
    assert(c == -SCALE2) by (nonlinear_arith)
        requires
            d == vscale(-1, normal),
            c == dot(normal, d),
            dot(normal, normal) == SCALE2,
    ;
    let c2 = refraction_c2(n, c);
    assert(c2 == SCALE6) by (nonlinear_arith)
        requires
            c == -SCALE2,
            c2 == SCALE6 - n * n * (SCALE4 - c * c),
    ;
    let s3: int = 1000000000;
    assert(crate::math::is_isqrt(c2, s3));
    crate::math::lemma_sqrt_of(c2, s3);
    let k = 2 * n * SCALE2 + s3;
    let num = refracted_numerator(d, normal, n, c, c2);
    assert(num == vscale(-k, normal)) by (nonlinear_arith)
        requires
            num == vadd(vscale(n * SCALE2, d), vscale(n * c - s3, normal)),
            d == vscale(-1, normal),
            c == -SCALE2,
            k == 2 * n * SCALE2 + s3,
    ;
    let ks = k * (SCALE as int);
    let kk = -k;
    assert((kk * normal.0) * (kk * normal.0) == kk * kk * (normal.0 * normal.0)) by (nonlinear_arith);
    assert((kk * normal.1) * (kk * normal.1) == kk * kk * (normal.1 * normal.1)) by (nonlinear_arith);
    assert((kk * normal.2) * (kk * normal.2) == kk * kk * (normal.2 * normal.2)) by (nonlinear_arith);
    assert(kk * kk * (normal.0 * normal.0) + kk * kk * (normal.1 * normal.1) + kk * kk * (normal.2
        * normal.2) == kk * kk * dot(normal, normal)) by (nonlinear_arith);
    assert(ks * ks == kk * kk * SCALE2) by (nonlinear_arith)
        requires
            ks == k * SCALE,
            kk == -k,
    ;
    assert(dot(num, num) == ks * ks);
    assert(ks > 0) by (nonlinear_arith)
        requires
            ks == k * SCALE,
            k > 0,
    ;
    assert(crate::math::is_isqrt(ks * ks, ks)) by (nonlinear_arith)
        requires
            ks > 0,
    ;
    crate::math::lemma_sqrt_of(ks * ks, ks);
    assert(SCALE * (kk * normal.0) == ks * (-normal.0)) by (nonlinear_arith)
        requires
            ks == k * SCALE,
            kk == -k,
    ;
    assert(SCALE * (kk * normal.1) == ks * (-normal.1)) by (nonlinear_arith)
        requires
            ks == k * SCALE,
            kk == -k,
    ;
    assert(SCALE * (kk * normal.2) == ks * (-normal.2)) by (nonlinear_arith)
        requires
            ks == k * SCALE,
            kk == -k,
    ;
    lemma_exact_quotient(SCALE * (kk * normal.0), ks, -normal.0);
    lemma_exact_quotient(SCALE * (kk * normal.1), ks, -normal.1);
    lemma_exact_quotient(SCALE * (kk * normal.2), ks, -normal.2);
}

proof fn lemma_exact_quotient(a: int, q: int, b: int)
    requires
        q > 0,
        a == q * b,
    ensures
        crate::math::div_round(a, q) == b,
{
    let h = q / 2;
    assert(0 <= h < q);
    if b >= 0 {
        assert(a >= 0) by (nonlinear_arith)
            requires
                a == q * b,
                q > 0,
                b >= 0,
        ;
        vstd::arithmetic::div_mod::lemma_div_multiples_vanish_fancy(b, h, q);
        assert(q * b == b * q) by (nonlinear_arith);
    } else {
        assert(-a == q * (-b)) by (nonlinear_arith)
            requires
                a == q * b,
        ;
        assert(a < 0) by (nonlinear_arith)
            requires
                a == q * b,
                q > 0,
                b < 0,
        ;
        vstd::arithmetic::div_mod::lemma_div_multiples_vanish_fancy(-b, h, q);
        assert(q * (-b) == (-b) * q) by (nonlinear_arith);
    }
}

/// Under total internal reflection the Fresnel reflectance is one: the
/// reflected term carries all the energy.
pub proof fn lemma_total_internal_reflection(n1: int, n2: int, c: int, c2: int)
    requires
        c2 < 0,
        n1 > 0,
        n2 > 0,
    ensures
        fresnel_kr(n1, n2, c, c2) == SCALE,
{
    lemma_polarized_full(n1 * abs(c));
    lemma_polarized_full(n2 * abs(c));
    assert(n2 * 0int == 0 && n1 * 0int == 0);
}

/// With no transmitted term a polarized reflectance is full.
proof fn lemma_polarized_full(a: int)
    ensures
        polarized(a, 0) == SCALE,
{
    if a != 0 {
        assert(a * a > 0) by (nonlinear_arith)
            requires
                a != 0,
        ;
        vstd::arithmetic::div_mod::lemma_div_multiples_vanish(SCALE as int, a * a);
        assert((a - 0) * (a - 0) * SCALE == (a * a) * SCALE) by (nonlinear_arith);
        assert((a + 0) * (a + 0) == a * a);
    }
}

/// Between identical media nothing is reflected, at every angle of
/// incidence but the grazing one.
pub proof fn lemma_fresnel_same_media(n1: int, c: int)
    requires
        n1 > 0,
        c != 0,
    ensures
        fresnel_kr(n1, n1, c, refraction_c2(index_ratio(n1, n1), c)) == 0,
{
    let n = index_ratio(n1, n1);
    vstd::arithmetic::div_mod::lemma_div_multiples_vanish(SCALE as int, n1);
    assert(n1 * SCALE == SCALE * n1) by (nonlinear_arith);
    assert(n == SCALE);
    let c2 = refraction_c2(n, c);
    let ac = abs(c);
    assert(c2 == (SCALE * ac) * (SCALE * ac)) by (nonlinear_arith)
        requires
            c2 == SCALE6 - n * n * (SCALE4 - c * c),
            n == SCALE,
            ac == abs(c),
    ;
    assert(SCALE * ac > 0) by (nonlinear_arith)
        requires
            ac > 0,
    ;
    assert(crate::math::is_isqrt(c2, SCALE * ac)) by (nonlinear_arith)
        requires
            c2 == (SCALE * ac) * (SCALE * ac),
            SCALE * ac > 0,
    ;
    crate::math::lemma_sqrt_of(c2, SCALE * ac);
    vstd::arithmetic::div_mod::lemma_div_multiples_vanish(ac, SCALE as int);
    assert(sqrt_of(c2) / SCALE as int == ac);
    let a = n1 * ac;
    assert(a > 0) by (nonlinear_arith)
        requires
            n1 > 0,
            ac > 0,
            a == n1 * ac,
    ;
    assert((a - a) * (a - a) * SCALE == 0);
    assert((a + a) * (a + a) > 0) by (nonlinear_arith)
        requires
            a > 0,
    ;
    assert(0int / ((a + a) * (a + a)) == 0);
    assert(polarized(a, a) == 0);
}

proof fn lemma_kr_range(a: int, b: int)
    requires
        a >= 0,
        b >= 0,
        a + b > 0,
    ensures
        0 <= (a - b) * (a - b) * SCALE / ((a + b) * (a + b)) <= SCALE,
        (a + b) * (a + b) > 0,
        (a - b) * (a - b) * SCALE >= 0,
{
    assert((a - b) * (a - b) <= (a + b) * (a + b)) by (nonlinear_arith)
        requires
            a >= 0,
            b >= 0,
    ;
    assert((a - b) * (a - b) >= 0) by (nonlinear_arith);
    assert((a + b) * (a + b) > 0) by (nonlinear_arith)
        requires
            a + b > 0,
    ;
    let p = (a - b) * (a - b);
    let q = (a + b) * (a + b);
    assert(p * SCALE / q <= SCALE) by (nonlinear_arith)
        requires
            0 <= p <= q,
            q > 0,
    ;
    assert(p * SCALE / q >= 0) by (nonlinear_arith)
        requires
            0 <= p,
            q > 0,
    ;
}

/// The refracted direction `n d + (n cos_i - sqrt(c2)) normal`, normalized
/// (for `c2 > 0`).
pub fn refracted_direction(direction: &Vector3, props: &RefractionProperties) -> (r: Vector3)
    requires
        props.wf(),
        props.c2 > 0,
        vec_in_range(direction@, SCALE as int),
    ensures
        r@ == normalized(
            refracted_numerator(direction@, props.normal@, props.n as int, props.cos_i as int, props.c2 as int),
        ),
        vec_in_range(r@, SCALE as int),
{
    let s0 = crate::math::isqrt(props.c2 as u128);
    proof {
        crate::math::lemma_sqrt_of(props.c2 as int, s0 as int);
        assert(s0 <= 0x4_0000_0000_0000) by (nonlinear_arith)
            requires
                s0 * s0 <= props.c2,
                props.c2 <= C2_MAX,
        ;
        crate::math::lemma_mul_abs_bound(props.n as int, props.cos_i as int, COEFFICIENT_MAX * SCALE, 3 * SCALE2);
    }
    let s = s0 as i128;
    let n = props.n as i128;
    let k = n * props.cos_i - s;
    let nd = n * SCALE2;
    proof {
        assert(abs(k as int) <= 0x8_0000_0000_0000);
        let d = direction@;
        let m = props.normal@;
        let big = 0x8_0000_0000_0000int;
        crate::math::lemma_mul_abs_bound(nd as int, d.0, COEFFICIENT_MAX * SCALE * SCALE2, SCALE as int);
        crate::math::lemma_mul_abs_bound(nd as int, d.1, COEFFICIENT_MAX * SCALE * SCALE2, SCALE as int);
        crate::math::lemma_mul_abs_bound(nd as int, d.2, COEFFICIENT_MAX * SCALE * SCALE2, SCALE as int);
        crate::math::lemma_mul_abs_bound(k as int, m.0, big, SCALE as int);
        crate::math::lemma_mul_abs_bound(k as int, m.1, big, SCALE as int);
        crate::math::lemma_mul_abs_bound(k as int, m.2, big, SCALE as int);
    }
    let d = *direction;
    let m = props.normal;
    let num = Vector3::new(
        (nd * (d.x as i128) + k * (m.x as i128)) as i64,
        (nd * (d.y as i128) + k * (m.y as i128)) as i64,
        (nd * (d.z as i128) + k * (m.z as i128)) as i64,
    );
    proof {
        crate::math::lemma_sqrt_of(props.c2 as int, s as int);
    }
    num.normalize()
}

impl Renderer {
    pub open spec fn wf(&self) -> bool {
        self.scene.wf() && self.camera.wf() && match self.super_sampling {
            SuperSampling::Off => true,
            SuperSampling::On(n) => 1 <= n <= SAMPLES_MAX,
        }
    }

    /// Local shading over the first `n` lights: the ambient color times the
    /// scene's ambient light, plus, for each light whose shadow ray meets
    /// nothing before the light, its diffuse term and, when asked for, its
    /// specular term.
    pub open spec fn shade_upto(&self, hit: Intersection, ray: Ray, specular: bool, n: nat) -> Color
        decreases n,
    {
        let m = self.scene.materials@[hit.material as int];
        if n == 0 {
            textured(m.ambient_color, m.ambient_texture, hit.texture_coord).mul_spec(self.scene.ambient_color)
        } else {
            let prev = self.shade_upto(hit, ray, specular, (n - 1) as nat);
            let light = self.scene.lights@[n - 1];
            let dist = light.distance_spec(hit);
            let limit: Option<int> = match dist {
                Some(d) => Some(d as int),
                None => None,
            };
            let blocked = match light.shadow_ray_spec(hit, Some(ray.medium_refraction)) {
                Some(sr) => self.scene.first_hit(sr, false, limit) is Some,
                None => false,
            };
            if blocked {
                prev
            } else {
                let c1 = match light.diffuse_spec(hit, m, dist) {
                    Some(c) => prev.add_spec(c),
                    None => prev,
                };
                if specular {
                    match light.specular_spec(hit, m, ray, dist) {
                        Some(c) => c1.add_spec(c),
                        None => c1,
                    }
                } else {
                    c1
                }
            }
        }
    }

    pub open spec fn shade_spec(&self, hit: Intersection, ray: Ray, specular: bool) -> Color {
        self.shade_upto(hit, ray, specular, self.scene.lights@.len())
    }

    /// The color seen along the ray mirrored at the hit, scaled by the
    /// reflection coefficient.
    pub open spec fn reflect_spec(&self, hit: Intersection, ray: Ray, depth: nat) -> Color
        decreases depth, 0int,
    {
        let n = hit.normal@;
        let nn = dot(n, n);
        let dir = normalized(crate::math::div_vec(crate::math::reflect_exact(ray.direction@, n), nn));
        let p = crate::sphere::point_at(hit.point@, dir, RAY_OFFSET as int);
        let k = match self.scene.materials@[hit.material as int].reflection_coefficient {
            Some(k) => k as int,
            None => 0,
        };
        if depth == 0 || nn == 0 || !vec_in_range(p, crate::math::POINT_MAX as int) {
            Color::black_spec()
        } else {
            self.traced(
                Ray::make(crate::math::point_of(p), crate::math::vec_of(dir), ray.medium_refraction),
                (depth - 1) as nat,
                false,
            ).scale_spec(k)
        }
    }

    /// The color seen along the refracted ray, attenuated by the medium's
    /// transparency over the distance to the hit; black when refraction is
    /// impossible.
    pub open spec fn refract_spec(&self, hit: Intersection, ray: Ray, depth: nat, props: RefractionProperties) -> Color
        decreases depth, 0int,
    {
        let dir = normalized(
            refracted_numerator(ray.direction@, props.normal@, props.n as int, props.cos_i as int, props.c2 as int),
        );
        let p = crate::sphere::point_at(hit.point@, dir, RAY_OFFSET as int);
        let m = self.scene.materials@[hit.material as int];
        if depth == 0 || props.c2 <= 0 || !vec_in_range(p, crate::math::POINT_MAX as int) {
            Color::black_spec()
        } else {
            self.traced(
                Ray::make(crate::math::point_of(p), crate::math::vec_of(dir), props.n2),
                (depth - 1) as nat,
                false,
            ).mul_spec(transparency_spec(textured(m.ambient_color, m.ambient_texture, hit.texture_coord), hit.t as int))
        }
    }

    /// The integrator: black when no depth is left, the background color
    /// when the ray hits nothing, else the color of the nearest hit under
    /// its material's illumination model.
    pub open spec fn traced(&self, ray: Ray, depth: nat, cull: bool) -> Color
        decreases depth, 1int,
    {
        if depth == 0 {
            Color::black_spec()
        } else {
            match self.scene.scene_hit(ray, cull) {
                None => self.scene.clear_color,
                Some(h) => {
                    let m = self.scene.materials@[h.material as int];
                    let props = props_spec(h, ray, m);
                    let refractive = m.refraction_coefficient is Some;
                    match m.illumination_model {
                        IllumninationModel::Constant => textured(m.diffuse_color, m.diffuse_texture, h.texture_coord),
                        IllumninationModel::Diffuse => self.shade_spec(h, ray, false),
                        IllumninationModel::DiffuseSpecular => self.shade_spec(h, ray, true),
                        IllumninationModel::DiffuseSpecularReflective
                        | IllumninationModel::DiffuseSpecularReflectiveGlass
                        | IllumninationModel::DiffuseSpecularFresnel => self.shade_spec(h, ray, true).add_spec(
                            self.reflect_spec(h, ray, depth),
                        ),
                        IllumninationModel::DiffuseSpecularRefracted => {
                            let base = self.shade_spec(h, ray, true).add_spec(self.reflect_spec(h, ray, depth));
                            if props.c2 < 0 || !refractive {
                                base
                            } else {
                                base.add_spec(self.refract_spec(h, ray, depth, props))
                            }
                        },
                        IllumninationModel::DiffuseSpecularRefractedFresnel => {
                            let kr = fresnel_kr(props.n1 as int, props.n2 as int, props.cos_i as int, props.c2 as int);
                            let base = self.shade_spec(h, ray, true).add_spec(
                                self.reflect_spec(h, ray, depth).scale_spec(kr),
                            );
                            if props.c2 < 0 || !refractive {
                                base
                            } else {
                                base.add_spec(self.refract_spec(h, ray, depth, props).scale_spec(SCALE - kr))
                            }
                        },
                    }
                },
            }
        }
    }

    /// Samples along each side of a pixel.
    pub open spec fn sample_count(&self) -> int {
        match self.super_sampling {
            SuperSampling::Off => 1,
            SuperSampling::On(n) => n as int,
        }
    }

    /// The primary ray of sample `i` of pixel `(x, y)` (row `y` from the
    /// top): sub-pixel position `(i / s, i % s)` with `s` samples a side.
    pub open spec fn sample_ray(&self, x: int, y: int, i: int) -> Ray {
        let s = self.sample_count();
        let c = self.camera;
        let px = crate::camera::screen_coord(x, i / s, s, c.width as int, c.height as int, c.scale as int);
        let py = crate::camera::screen_coord(c.height - y, i % s, s, c.height as int, c.height as int, c.scale as int);
        Ray::make(c.position, crate::math::vec_of(normalized(c.view_direction(px, py))), SCALE)
    }

    /// The traced colors of the samples of pixel `(x, y)`.
    pub open spec fn samples(&self, max_depth: nat, x: int, y: int) -> Seq<Color> {
        let s = self.sample_count();
        Seq::new((s * s) as nat, |i: int| self.traced(self.sample_ray(x, y, i), max_depth, true))
    }

    /// The color of pixel `(x, y)`: the channel-wise average of its samples.
    pub open spec fn pixel(&self, max_depth: nat, x: int, y: int) -> Color {
        let cs = self.samples(max_depth, x, y);
        Color {
            r: average_channel(cs, 0) as u8,
            g: average_channel(cs, 1) as u8,
            b: average_channel(cs, 2) as u8,
        }
    }

    pub fn new(scene: Scene, camera: Camera, super_sampling: SuperSampling) -> (r: Renderer)
        ensures
            r.scene == scene && r.camera == camera && r.super_sampling == super_sampling,
    {
        Renderer { scene, camera, super_sampling }
    }

    /// The Fresnel reflectance for a refraction, fixed-point in `0..=SCALE`.
    pub fn fresnel(&self, props: &RefractionProperties) -> (kr: i64)
        requires
            props.wf(),
        ensures
            kr == fresnel_kr(props.n1 as int, props.n2 as int, props.cos_i as int, props.c2 as int),
            0 <= kr <= SCALE,
    {
        let abs_cos: i128 = if props.cos_i < 0 {
            -props.cos_i
        } else {
            props.cos_i
        };
        let ci = abs_cos;
        let ct = if props.c2 > 0 {
            let s = crate::math::isqrt(props.c2 as u128);
            proof {
                crate::math::lemma_sqrt_of(props.c2 as int, s as int);
                assert(s <= 0x4_0000_0000_0000) by (nonlinear_arith)
                    requires
                        s * s <= props.c2,
                        props.c2 <= C2_MAX,
                ;
            }
            (s as i128) / (SCALE as i128)
        } else {
            0
        };
        proof {
            assert(0 <= ci <= 3 * SCALE2);
            assert(0 <= ct <= 0x200_0000_0000);
            assert(0 <= props.n2 * ci <= COEFFICIENT_MAX * 3 * SCALE2) by (nonlinear_arith)
                requires
                    0 < props.n2 <= COEFFICIENT_MAX,
                    0 <= ci <= 3 * SCALE2,
            ;
            assert(0 <= props.n1 * ct <= COEFFICIENT_MAX * 0x200_0000_0000) by (nonlinear_arith)
                requires
                    0 < props.n1 <= COEFFICIENT_MAX,
                    0 <= ct <= 0x200_0000_0000,
            ;
        }
        let rs = polarized_exec(props.n1, props.n2, ci, ct);
        let rp = polarized_exec(props.n2, props.n1, ci, ct);
        proof {
            assert(ci == abs(props.cos_i as int));
            assert(ct == (if props.c2 > 0 {
                sqrt_of(props.c2 as int) / SCALE as int
            } else {
                0
            }));
        }
        (rs + rp) / 2
    }

    /// Traces a ray: black when no depth is left, the background color when
    /// the ray hits nothing, else the color of the nearest hit under its
    /// material's illumination model.
    pub fn trace(&self, ray: &Ray, depth: u32, cull: bool) -> (c: Color)
        requires
            self.wf(),
            ray_ok(*ray),
        ensures
            depth == 0 ==> c == Color::black_spec(),
            depth > 0 && (forall|k: int|
                0 <= k < self.scene.objects@.len() ==> (#[trigger] shape_t(self.scene.objects@[k], self.scene.meshes@, *ray, cull)) is None)
                ==> c == self.scene.clear_color,
            depth > 0 && (exists|k: int|
                0 <= k < self.scene.objects@.len() && (#[trigger] shape_t(self.scene.objects@[k], self.scene.meshes@, *ray, cull)) is Some)
                ==> exists|h: Intersection|
                #[trigger] self.scene.is_nearest_hit(*ray, cull, h) && ({
                    let m = self.scene.materials@[h.material as int];
                    m.illumination_model == IllumninationModel::Constant ==> c == textured(
                        m.diffuse_color,
                        m.diffuse_texture,
                        h.texture_coord,
                    )
                }),
            c == self.traced(*ray, depth as nat, cull),
        decreases depth,
    {
        if depth == 0 {
            return Color::black();
        }
        let possible_hit = self.scene.intersect(ray, cull);
        match possible_hit {
            None => self.scene.clear_color,
            Some(hit) => {
                let material = &self.scene.materials[hit.material];
                proof {
                    assert(material.wf());
                    assert(self.scene.is_nearest_hit(*ray, cull, hit));
                }
                match material.illumination_model {
                    IllumninationModel::Constant => material.diffuse_color(hit.texture_coord),
                    IllumninationModel::Diffuse => self.shade(&hit, ray, false),
                    IllumninationModel::DiffuseSpecular => self.shade(&hit, ray, true),
                    IllumninationModel::DiffuseSpecularReflective
                    | IllumninationModel::DiffuseSpecularReflectiveGlass
                    | IllumninationModel::DiffuseSpecularFresnel => {
                        self.shade(&hit, ray, true).add(self.reflect(&hit, ray, depth))
                    },
                    IllumninationModel::DiffuseSpecularRefracted => {
                        let props = RefractionProperties::new(&hit, ray, material);
                        let color = self.shade(&hit, ray, true).add(self.reflect(&hit, ray, depth));
                        if !props.total_internal_reflection() && material.refraction_coefficient.is_some() {
                            color.add(self.refract(&hit, ray, depth, &props))
                        } else {
                            color
                        }
                    },
                    IllumninationModel::DiffuseSpecularRefractedFresnel => {
                        let props = RefractionProperties::new(&hit, ray, material);
                        let kr = self.fresnel(&props);
                        let kt = SCALE - kr;
                        let color = self.shade(&hit, ray, true).add(
                            self.reflect(&hit, ray, depth).scale(kr),
                        );
                        if !props.total_internal_reflection() && material.refraction_coefficient.is_some() {
                            color.add(self.refract(&hit, ray, depth, &props).scale(kt))
                        } else {
                            color
                        }
                    },
                }
            },
        }
    }

    /// Local shading: the ambient color times the scene's ambient light,
    /// plus, for each light that no shape shadows, its diffuse term and (when
    /// asked for) its specular term.
    pub fn shade(&self, hit: &Intersection, ray: &Ray, specular: bool) -> (c: Color)
        requires
            self.wf(),
            ray_ok(*ray),
            hit_ok(*hit, self.scene.materials@.len() as int),
        ensures
            ({
                let m = self.scene.materials@[hit.material as int];
                self.scene.lights@.len() == 0 ==> c == textured(m.ambient_color, m.ambient_texture, hit.texture_coord).mul_spec(
                    self.scene.ambient_color,
                )
            }),
            c == self.shade_spec(*hit, *ray, specular),
    {
        let material = &self.scene.materials[hit.material];
        let mut result = material.ambient_color(hit.texture_coord).mul(self.scene.ambient_color);
        let mut i: usize = 0;
        while i < self.scene.lights.len()
            invariant
                self.wf(),
                ray_ok(*ray),
                hit_ok(*hit, self.scene.materials@.len() as int),
                material == &self.scene.materials@[hit.material as int],
                0 <= i <= self.scene.lights@.len(),
                self.scene.lights@.len() == 0 ==> result == textured(
                    material.ambient_color,
                    material.ambient_texture,
                    hit.texture_coord,
                ).mul_spec(self.scene.ambient_color),
                result == self.shade_upto(*hit, *ray, specular, i as nat),
            decreases self.scene.lights@.len() - i,
        {
            let light = &self.scene.lights[i];
            proof {
                assert(light.wf());
            }
            let shadow = light.create_shadow_ray(hit, Some(ray.medium_refraction));
            let distance = light.distance_to_light(hit);
            let blocked = match shadow {
                None => false,
                Some(sr) => {
                    let limit: Option<i128> = match distance {
                        Some(d) => Some(d as i128),
                        None => None,
                    };
                    self.scene.first_intersection(&sr, false, limit).is_some()
                },
            };
            if !blocked {
                match light.diffuse_color(hit, material, distance) {
                    Some(c) => {
                        result = result.add(c);
                    },
                    None => {},
                }
                if specular {
                    match light.specular_color(hit, material, ray, distance) {
                        Some(c) => {
                            result = result.add(c);
                        },
                        None => {},
                    }
                }
            }
            i = i + 1;
        }
        result
    }

    /// The color seen along the ray mirrored at the hit, scaled by the
    /// material's reflection coefficient (zero without one).
    pub fn reflect(&self, hit: &Intersection, ray: &Ray, depth: u32) -> (c: Color)
        requires
            self.wf(),
            ray_ok(*ray),
            hit_ok(*hit, self.scene.materials@.len() as int),
            depth >= 1,
        ensures
            (self.scene.materials@[hit.material as int].reflection_coefficient is None || dot(
                hit.normal@,
                hit.normal@,
            ) == 0) ==> c == Color::black_spec(),
            c == self.reflect_spec(*hit, *ray, depth as nat),
        decreases depth, 0int,
    {
        let nn = hit.normal.dot(&hit.normal);
        if nn == 0 {
            return Color::black();
        }
        proof {
            let n = hit.normal@;
            assert(n.0 * n.0 >= 0 && n.1 * n.1 >= 0 && n.2 * n.2 >= 0) by (nonlinear_arith);
        }
        let direction = ray.direction.reflect(&hit.normal).normalize();
        let origin = offset_point(&hit.point, &direction, RAY_OFFSET);
        match origin {
            None => Color::black(),
            Some(o) => {
                let new_ray = Ray::new(o, direction, Some(ray.medium_refraction));
                let reflected = self.trace(&new_ray, depth - 1, false);
                let k = match self.scene.materials[hit.material].reflection_coefficient {
                    Some(k) => k,
                    None => 0,
                };
                proof {
                    assert(self.scene.materials@[hit.material as int].wf());
                }
                let c = reflected.scale(k);
                proof {
                    assert(new_ray == Ray::make(
                        crate::math::point_of(o@),
                        crate::math::vec_of(direction@),
                        ray.medium_refraction,
                    ));
                }
                c
            },
        }
    }

    /// The color seen along the refracted ray, attenuated by the
    /// transparency of the medium over the distance to the hit, unless
    /// refraction is impossible (black then). The material must refract.
    pub fn refract(&self, hit: &Intersection, ray: &Ray, depth: u32, props: &RefractionProperties) -> (c: Color)
        requires
            self.wf(),
            ray_ok(*ray),
            hit_ok(*hit, self.scene.materials@.len() as int),
            self.scene.materials@[hit.material as int].refraction_coefficient is Some,
            props.wf(),
            props.cos_i == dot(props.normal@, ray.direction@),
            depth >= 1,
        ensures
            props.c2 <= 0 ==> c == Color::black_spec(),
            c == self.refract_spec(*hit, *ray, depth as nat, *props),
        decreases depth, 0int,
    {
        if props.c2 > 0 {
            let direction = refracted_direction(&ray.direction, props);
            let origin = offset_point(&hit.point, &direction, RAY_OFFSET);
            match origin {
                None => Color::black(),
                Some(o) => {
                    let new_ray = Ray::new(o, direction, Some(props.n2));
                    let refracted = self.trace(&new_ray, depth - 1, false);
                    let ambient = self.scene.materials[hit.material].ambient_color(hit.texture_coord);
                    proof {
                        assert(new_ray == Ray::make(
                            crate::math::point_of(o@),
                            crate::math::vec_of(direction@),
                            props.n2,
                        ));
                    }
                    refracted.mul(transparency(ambient, hit.t))
                },
            }
        } else {
            Color::black()
        }
    }

    /// The color of pixel `(x, y)`: the average of its samples' traced
    /// colors. Row `y` counts from the top of the image.
    pub fn render_point(&self, max_depth: u32, x: u32, y: u32) -> (c: Color)
        requires
            self.wf(),
            x < self.camera.width,
            y < self.camera.height,
        ensures
            c == self.pixel(max_depth as nat, x as int, y as int),
    {
        let samples: u32 = match self.super_sampling {
            SuperSampling::Off => 1,
            SuperSampling::On(n) => n,
        };
        let mut colors: Vec<Color> = Vec::new();
        let mut xs: u32 = 0;
        while xs < samples
            invariant
                self.wf(),
                x < self.camera.width,
                y < self.camera.height,
                1 <= samples <= SAMPLES_MAX,
                0 <= xs <= samples,
                colors@.len() == xs * samples,
                samples == self.sample_count(),
                forall|j: int| 0 <= j < colors@.len() ==> #[trigger] colors@[j] == self.traced(self.sample_ray(x as int, y as int, j), max_depth as nat, true),
            decreases samples - xs,
        {
            let mut ys: u32 = 0;
            while ys < samples
                invariant
                    self.wf(),
                    x < self.camera.width,
                    y < self.camera.height,
                    1 <= samples <= SAMPLES_MAX,
                    0 <= xs < samples,
                    0 <= ys <= samples,
                    colors@.len() == xs * samples + ys,
                    samples == self.sample_count(),
                    forall|j: int| 0 <= j < colors@.len() ==> #[trigger] colors@[j] == self.traced(self.sample_ray(x as int, y as int, j), max_depth as nat, true),
                decreases samples - ys,
            {
                let ray = self.camera.create_ray(x, self.camera.height - y, xs, ys, samples);
                proof {
                    let j = xs * samples + ys;
                    vstd::arithmetic::div_mod::lemma_fundamental_div_mod_converse_div(j as int, samples as int, xs as int, ys as int);
                    vstd::arithmetic::div_mod::lemma_fundamental_div_mod_converse_mod(j as int, samples as int, xs as int, ys as int);
                    assert(ray == self.sample_ray(x as int, y as int, j as int));
                }
                let ghost before = colors@;
                colors.push(self.trace(&ray, max_depth, true));
                proof {
                    assert forall|j: int| 0 <= j < colors@.len() implies #[trigger] colors@[j] == self.traced(self.sample_ray(x as int, y as int, j), max_depth as nat, true) by {
                        if j < before.len() {
                            assert(colors@[j] == before[j]);
                        }
                    }
                }
                ys = ys + 1;
            }
            proof {
                assert((xs + 1) * samples == xs * samples + samples) by (nonlinear_arith);
            }
            xs = xs + 1;
        }
        proof {
            assert(1 <= samples * samples <= SAMPLES_MAX * SAMPLES_MAX) by (nonlinear_arith)
                requires
                    1 <= samples <= SAMPLES_MAX,
            ;
        }
        proof {
            assert(colors@ =~= self.samples(max_depth as nat, x as int, y as int));
        }
        average_colors(&colors)
    }

    /// The interleaved red, green and blue bytes of row `y`, left to right.
    pub fn render_row(&self, max_depth: u32, y: u32) -> (bytes: Vec<u8>)
        requires
            self.wf(),
            y < self.camera.height,
        ensures
            bytes@.len() == 3 * self.camera.width,
            forall|x: int, ch: int|
                0 <= x < self.camera.width && 0 <= ch < 3 ==> #[trigger] bytes@[3 * x + ch] as int
                    == channel(self.pixel(max_depth as nat, x, y as int), ch),
    {
        let mut bytes: Vec<u8> = Vec::new();
        let mut x: u32 = 0;
        while x < self.camera.width
            invariant
                self.wf(),
                y < self.camera.height,
                0 <= x <= self.camera.width,
                bytes@.len() == 3 * x,
                forall|x2: int, ch: int|
                    0 <= x2 < x && 0 <= ch < 3 ==> #[trigger] bytes@[3 * x2 + ch] as int
                        == channel(self.pixel(max_depth as nat, x2, y as int), ch),
            decreases self.camera.width - x,
        {
            let c = self.render_point(max_depth, x, y);
            let ghost before = bytes@;
            bytes.push(c.r);
            bytes.push(c.g);
            bytes.push(c.b);
            proof {
                assert forall|x2: int, ch: int|
                    0 <= x2 < x + 1 && 0 <= ch < 3 implies #[trigger] bytes@[3 * x2 + ch] as int
                        == channel(self.pixel(max_depth as nat, x2, y as int), ch) by {
                    if x2 < x {
                        assert(bytes@[3 * x2 + ch] == before[3 * x2 + ch]);
                    }
                }
            }
            x = x + 1;
        }
        bytes
    }

    /// The whole image, rows top to bottom, each as `render_row` gives it:
    /// `width * height * 3` bytes.
    pub fn render(&self, max_depth: u32) -> (bytes: Vec<u8>)
        requires
            self.wf(),
        ensures
            bytes@.len() == 3 * self.camera.width * self.camera.height,
            forall|x: int, y: int, ch: int|
                0 <= x < self.camera.width && 0 <= y < self.camera.height && 0 <= ch < 3
                    ==> #[trigger] bytes@[3 * (y * self.camera.width + x) + ch] as int == channel(
                    self.pixel(max_depth as nat, x, y),
                    ch,
                ),
    {
        let mut bytes: Vec<u8> = Vec::new();
        let mut y: u32 = 0;
        while y < self.camera.height
            invariant
                self.wf(),
                0 <= y <= self.camera.height,
                bytes@.len() == 3 * self.camera.width * y,
                forall|x2: int, y2: int, ch: int|
                    0 <= x2 < self.camera.width && 0 <= y2 < y && 0 <= ch < 3
                        ==> #[trigger] bytes@[3 * (y2 * self.camera.width + x2) + ch] as int == channel(
                        self.pixel(max_depth as nat, x2, y2),
                        ch,
                    ),
            decreases self.camera.height - y,
        {
            let mut row = self.render_row(max_depth, y);
            let ghost before = bytes@;
            let ghost r = row@;
            bytes.append(&mut row);
            proof {
                let w = self.camera.width as int;
                assert forall|x2: int, y2: int, ch: int|
                    0 <= x2 < w && 0 <= y2 < y + 1 && 0 <= ch < 3
                        implies #[trigger] bytes@[3 * (y2 * w + x2) + ch] as int == channel(
                        self.pixel(max_depth as nat, x2, y2),
                        ch,
                    ) by {
                    assert(3 * (y2 * w + x2) + ch == 3 * w * y2 + (3 * x2 + ch)) by (nonlinear_arith);
                    if y2 < y {
                        assert(3 * w * y2 + (3 * x2 + ch) < 3 * w * y) by (nonlinear_arith)
                            requires
                                y2 < y,
                                0 <= x2 < w,
                                0 <= ch < 3,
                        ;
                        assert(bytes@[3 * (y2 * w + x2) + ch] == before[3 * (y2 * w + x2) + ch]);
                    } else {
                        assert(y2 == y);
                        assert(bytes@[3 * w * y + (3 * x2 + ch)] == r[3 * x2 + ch]);
                    }
                }
            }
            proof {
                assert(3 * self.camera.width * (y + 1) == 3 * self.camera.width * y + 3 * self.camera.width)
                    by (nonlinear_arith);
            }
            y = y + 1;
        }
        bytes
    }
}

} // verus!

verus! {

/// At normal incidence refraction does not bend the ray, whatever the ratio
/// of indices: the color refraction contributes is the color traced straight
/// on from the hit, attenuated by the medium.
pub proof fn lemma_refract_normal_incidence(
    r: Renderer,
    hit: Intersection,
    ray: Ray,
    depth: nat,
    props: RefractionProperties,
)
    requires
        depth >= 1,
        dot(props.normal@, props.normal@) == SCALE2,
        ray.direction@ == vscale(-1, props.normal@),
        props.n >= 0,
        props.cos_i == dot(props.normal@, ray.direction@),
        props.c2 == refraction_c2(props.n as int, props.cos_i as int),
    ensures
        ({
            let p = crate::sphere::point_at(hit.point@, ray.direction@, RAY_OFFSET as int);
            let m = r.scene.materials@[hit.material as int];
            r.refract_spec(hit, ray, depth, props) == if vec_in_range(p, crate::math::POINT_MAX as int) {
                r.traced(Ray::make(crate::math::point_of(p), ray.direction, props.n2), (depth - 1) as nat, false).mul_spec(
                    transparency_spec(textured(m.ambient_color, m.ambient_texture, hit.texture_coord), hit.t as int),
                )
            } else {
                Color::black_spec()
            }
        }),
{
    let nrm = props.normal@;
    lemma_normal_incidence(nrm, props.n as int);
    let c = props.cos_i as int;
    assert(c == -SCALE2) by (nonlinear_arith)
        requires
            ray.direction@ == vscale(-1, nrm),
            c == dot(nrm, ray.direction@),
            dot(nrm, nrm) == SCALE2,
    ;
    assert(props.c2 == SCALE6) by (nonlinear_arith)
        requires
            c == -SCALE2,
            props.c2 == SCALE6 - props.n * props.n * (SCALE4 - c * c),
    ;
    assert(crate::math::vec_of(ray.direction@) == ray.direction);
}

/// Without supersampling a pixel is exactly the color traced through its
/// center: no blending, so a hard edge stays hard.
pub proof fn lemma_single_sample_pixel(r: Renderer, max_depth: nat, x: int, y: int)
    requires
        r.super_sampling == SuperSampling::Off,
    ensures
        r.pixel(max_depth, x, y) == r.traced(r.sample_ray(x, y, 0), max_depth, true),
{
    let cs = r.samples(max_depth, x, y);
    assert(r.sample_count() == 1);
    assert(cs.len() == 1);
    let c = cs[0];
    assert(cs.drop_last().len() == 0);
    assert(cs.last() == c);
    assert(channel_sum(cs.drop_last(), 0) == 0);
    assert(channel_sum(cs.drop_last(), 1) == 0);
    assert(channel_sum(cs.drop_last(), 2) == 0);
    assert(channel_sum(cs, 0) == c.r as int);
    assert(channel_sum(cs, 1) == c.g as int);
    assert(channel_sum(cs, 2) == c.b as int);
}

/// With `n` by `n` supersampling every channel of a pixel is the rounded
/// down mean of that channel over its `n * n` samples.
pub proof fn lemma_supersampled_pixel(r: Renderer, max_depth: nat, x: int, y: int, n: u32)
    requires
        r.super_sampling == SuperSampling::On(n),
        n >= 1,
    ensures
        r.pixel(max_depth, x, y).r == channel_sum(r.samples(max_depth, x, y), 0) / (n * n),
        r.pixel(max_depth, x, y).g == channel_sum(r.samples(max_depth, x, y), 1) / (n * n),
        r.pixel(max_depth, x, y).b == channel_sum(r.samples(max_depth, x, y), 2) / (n * n),
{
    let cs = r.samples(max_depth, x, y);
    assert(n * n >= 1) by (nonlinear_arith)
        requires
            n >= 1,
    ;
    assert(cs.len() == n * n);
    lemma_channel_sum_bound(cs, 0);
    lemma_channel_sum_bound(cs, 1);
    lemma_channel_sum_bound(cs, 2);
    let k = (n * n) as int;
    assert(channel_sum(cs, 0) / k <= 255) by (nonlinear_arith)
        requires
            0 <= channel_sum(cs, 0) <= 255 * k,
            k >= 1,
    ;
    assert(channel_sum(cs, 1) / k <= 255) by (nonlinear_arith)
        requires
            0 <= channel_sum(cs, 1) <= 255 * k,
            k >= 1,
    ;
    assert(channel_sum(cs, 2) / k <= 255) by (nonlinear_arith)
        requires
            0 <= channel_sum(cs, 2) <= 255 * k,
            k >= 1,
    ;
    assert(channel_sum(cs, 0) / k >= 0 && channel_sum(cs, 1) / k >= 0 && channel_sum(cs, 2) / k >= 0)
        by (nonlinear_arith)
        requires
            channel_sum(cs, 0) >= 0,
            channel_sum(cs, 1) >= 0,
            channel_sum(cs, 2) >= 0,
            k >= 1,
    ;
}

/// Under total internal reflection a refracting material shows its local
/// shading and its reflection only: refraction adds nothing, and with
/// Fresnel weighting the reflection keeps its full weight.
pub proof fn lemma_total_internal_reflection_trace(r: Renderer, ray: Ray, depth: nat, cull: bool, h: Intersection)
    requires
        depth >= 1,
        r.scene.scene_hit(ray, cull) == Some(h),
        props_spec(h, ray, r.scene.materials@[h.material as int]).c2 < 0,
        props_spec(h, ray, r.scene.materials@[h.material as int]).n1 > 0,
        props_spec(h, ray, r.scene.materials@[h.material as int]).n2 > 0,
    ensures
        ({
            let m = r.scene.materials@[h.material as int];
            &&& m.illumination_model == IllumninationModel::DiffuseSpecularRefracted ==> r.traced(ray, depth, cull)
                == r.shade_spec(h, ray, true).add_spec(r.reflect_spec(h, ray, depth))
            &&& m.illumination_model == IllumninationModel::DiffuseSpecularRefractedFresnel ==> r.traced(
                ray,
                depth,
                cull,
            ) == r.shade_spec(h, ray, true).add_spec(r.reflect_spec(h, ray, depth))
        }),
{
    let m = r.scene.materials@[h.material as int];
    let props = props_spec(h, ray, m);
    lemma_total_internal_reflection(props.n1 as int, props.n2 as int, props.cos_i as int, props.c2 as int);
    let c = r.reflect_spec(h, ray, depth);
    assert(c.scale_spec(SCALE as int) == c) by {
        assert((c.r * SCALE) / (SCALE as int) == c.r) by (nonlinear_arith);
        assert((c.g * SCALE) / (SCALE as int) == c.g) by (nonlinear_arith);
        assert((c.b * SCALE) / (SCALE as int) == c.b) by (nonlinear_arith);
    }
}

} // verus!
