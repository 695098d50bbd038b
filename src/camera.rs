use vstd::prelude::*;

use crate::math::{abs, cross, normalized, vec_in_range, vsub, Point3, Vector3, POINT_MAX, SCALE};
use crate::ray::Ray;

verus! {

/// Largest image side, in pixels.
pub const SIDE_MAX: u32 = 65536;

/// Largest number of samples along each side of a pixel.
pub const SAMPLES_MAX: u32 = 256;

/// Largest field-of-view scale, `tan(fov / 2)` as a fixed-point number.
pub const FOV_SCALE_MAX: i64 = 1000000;

/// A pinhole camera: image size, field-of-view scale `tan(fov / 2)`
/// (fixed-point), and its orthonormal basis and position in the world.
#[derive(Clone, Copy, Debug)]
pub struct Camera {
    pub width: u32,
    pub height: u32,
    pub scale: i64,
    pub right: Vector3,
    pub up: Vector3,
    pub direction: Vector3,
    pub position: Point3,
}

/// The position of sample `s` of pixel `p` along a side of `size` pixels
/// with `samples` samples each, times two: the pixel's center with one
/// sample, else the sample's index.
pub open spec fn sample_offset2(samples: int, s: int) -> int {
    if samples == 1 {
        1
    } else {
        2 * s
    }
}

/// The camera-space coordinate of a sample, fixed-point: `-1..1` across the
/// image side scaled by `scale`, over `height` pixels for both axes so that
/// the aspect ratio is kept.
pub open spec fn screen_coord(p: int, s: int, samples: int, side: int, height: int, scale: int) -> int {
    crate::math::div_trunc(
        (2 * p * samples + sample_offset2(samples, s) - side * samples) * scale,
        samples * height,
    )
}

impl Camera {
    pub open spec fn wf(&self) -> bool {
        &&& 1 <= self.width <= SIDE_MAX
        &&& 1 <= self.height <= SIDE_MAX
        &&& 0 <= self.scale <= FOV_SCALE_MAX
        &&& vec_in_range(self.right@, SCALE as int)
        &&& vec_in_range(self.up@, SCALE as int)
        &&& vec_in_range(self.direction@, SCALE as int)
        &&& self.position.wf()
    }

    /// A camera at `position` looking at `look_at`, with `tmp_up` giving the
    /// up side; `scale` is `tan(fov / 2)`.
    pub fn new(
        scale: i64,
        width: u32,
        height: u32,
        position: Point3,
        look_at: Point3,
        tmp_up: Vector3,
    ) -> (c: Camera)
        requires
            1 <= width <= SIDE_MAX,
            1 <= height <= SIDE_MAX,
            0 <= scale <= FOV_SCALE_MAX,
            position.wf(),
            look_at.wf(),
            tmp_up.wf(),
        ensures
            c.wf(),
            c.width == width && c.height == height && c.scale == scale && c.position == position,
            c.direction@ == normalized(vsub(position@, look_at@)),
            c.right@ == normalized(cross(normalized(tmp_up@), c.direction@)),
            c.up@ == normalized(cross(c.direction@, c.right@)),
    {
        let direction = position.sub(&look_at).normalize();
        let right = tmp_up.normalize().cross(&direction).normalize();
        let up = direction.cross(&right).normalize();
        Camera { width, height, scale, right, up, direction, position }
    }

    /// The primary ray through sample `(x_sample, y_sample)` of pixel
    /// `(x, y)`, with `samples` samples along each side of a pixel.
    pub fn create_ray(&self, x: u32, y: u32, x_sample: u32, y_sample: u32, samples: u32) -> (r: Ray)
        requires
            self.wf(),
            x <= SIDE_MAX,
            y <= SIDE_MAX,
            1 <= samples <= SAMPLES_MAX,
            x_sample < samples,
            y_sample < samples,
        ensures
            r.wf(),
            r.origin == self.position,
            vec_in_range(r.direction@, SCALE as int),
            r.medium_refraction == SCALE,
            ({
                let px = screen_coord(x as int, x_sample as int, samples as int, self.width as int, self.height as int, self.scale as int);
                let py = screen_coord(y as int, y_sample as int, samples as int, self.height as int, self.height as int, self.scale as int);
                &&& r.direction@ == normalized(self.view_direction(px, py))
                &&& r == Ray::make(self.position, crate::math::vec_of(normalized(self.view_direction(px, py))), SCALE)
            }),
    {
        let px = screen(x, x_sample, samples, self.width, self.height, self.scale);
        let py = screen(y, y_sample, samples, self.height, self.height, self.scale);
        let d = self.to_world(px, py);
        Ray::new(self.position, d.normalize(), None)
    }

    /// The world direction of camera-space `(px, py, -1)`, fixed-point.
    pub open spec fn view_direction(&self, px: int, py: int) -> (int, int, int) {
        let s = SCALE as int;
        (
            crate::math::div_trunc(self.right.x * px + self.up.x * py - self.direction.x * s, s),
            crate::math::div_trunc(self.right.y * px + self.up.y * py - self.direction.y * s, s),
            crate::math::div_trunc(self.right.z * px + self.up.z * py - self.direction.z * s, s),
        )
    }

    fn to_world(&self, px: i64, py: i64) -> (v: Vector3)
        requires
            self.wf(),
            abs(px as int) <= 0x1_0000_0000_0000,
            abs(py as int) <= 0x1_0000_0000_0000,
        ensures
            v@ == self.view_direction(px as int, py as int),
            vec_in_range(v@, crate::math::NORM_MAX as int),
    {
        let x = world_component(self.right.x, self.up.x, self.direction.x, px, py);
        let y = world_component(self.right.y, self.up.y, self.direction.y, px, py);
        let z = world_component(self.right.z, self.up.z, self.direction.z, px, py);
        Vector3::new(x, y, z)
    }
}

fn world_component(r: i64, u: i64, d: i64, px: i64, py: i64) -> (v: i64)
    requires
        abs(r as int) <= SCALE,
        abs(u as int) <= SCALE,
        abs(d as int) <= SCALE,
        abs(px as int) <= 0x1_0000_0000_0000,
        abs(py as int) <= 0x1_0000_0000_0000,
    ensures
        v == crate::math::div_trunc(r * px + u * py - d * SCALE, SCALE as int),
        abs(v as int) <= crate::math::NORM_MAX,
{
    proof {
        crate::math::lemma_mul_abs_bound(r as int, px as int, SCALE as int, 0x1_0000_0000_0000);
        crate::math::lemma_mul_abs_bound(u as int, py as int, SCALE as int, 0x1_0000_0000_0000);
        crate::math::lemma_mul_abs_bound(d as int, SCALE as int, SCALE as int, SCALE as int);
        crate::math::lemma_div_trunc_bound(r * px + u * py - d * SCALE, SCALE as int);
    }
    crate::math::div_toward_zero(
        (r as i128) * (px as i128) + (u as i128) * (py as i128) - (d as i128) * (SCALE as i128),
        SCALE as i128,
    ) as i64
}

fn screen(p: u32, s: u32, samples: u32, side: u32, height: u32, scale: i64) -> (v: i64)
    requires
        p <= SIDE_MAX,
        1 <= samples <= SAMPLES_MAX,
        s < samples,
        1 <= side <= SIDE_MAX,
        1 <= height <= SIDE_MAX,
        0 <= scale <= FOV_SCALE_MAX,
    ensures
        v == screen_coord(p as int, s as int, samples as int, side as int, height as int, scale as int),
        abs(v as int) <= 0x1_0000_0000_0000,
{
    let off: i64 = if samples == 1 { 1 } else { 2 * (s as i64) };
    proof {
        assert(0 <= 2 * p * samples <= 2 * SIDE_MAX * SAMPLES_MAX) by (nonlinear_arith)
            requires
                0 <= p <= SIDE_MAX,
                1 <= samples <= SAMPLES_MAX,
        ;
        assert(0 <= side * samples <= SIDE_MAX * SAMPLES_MAX) by (nonlinear_arith)
            requires
                1 <= side <= SIDE_MAX,
                1 <= samples <= SAMPLES_MAX,
        ;
    }
    let num = 2 * (p as i64) * (samples as i64) + off - (side as i64) * (samples as i64);
    proof {
        assert(0 <= 2 * p * samples <= 2 * SIDE_MAX * SAMPLES_MAX) by (nonlinear_arith)
            requires
                0 <= p <= SIDE_MAX,
                1 <= samples <= SAMPLES_MAX,
        ;
        assert(0 <= side * samples <= SIDE_MAX * SAMPLES_MAX) by (nonlinear_arith)
            requires
                1 <= side <= SIDE_MAX,
                1 <= samples <= SAMPLES_MAX,
        ;
        assert(1 <= samples * height <= SAMPLES_MAX * SIDE_MAX) by (nonlinear_arith)
            requires
                1 <= height <= SIDE_MAX,
                1 <= samples <= SAMPLES_MAX,
        ;
        crate::math::lemma_mul_abs_bound(num as int, scale as int, 0x400_0000, FOV_SCALE_MAX as int);
        crate::math::lemma_div_trunc_bound(num * scale, samples * height);
    }
    crate::math::div_toward_zero(
        (num as i128) * (scale as i128),
        (samples as i128) * (height as i128),
    ) as i64
}

} // verus!
