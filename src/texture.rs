use vstd::prelude::*;

use crate::color::Color;
use crate::math::{Point2, SCALE};

verus! {

/// A texture of one color.
#[derive(Clone, Copy, Debug)]
pub struct Solid {
    pub color: Color,
}

impl Solid {
    pub fn new(color: Color) -> (s: Solid)
        ensures
            s.color == color,
    {
        Solid { color }
    }

    /// The color, wherever it is looked up.
    pub fn lookup(&self, uv: &Point2) -> (c: Color)
        ensures
            c == self.color,
    {
        self.color
    }
}

/// A texture computed by a function of the texture coordinate.
pub struct Procedural<F> {
    pub callback: F,
}

impl<F: Fn(Point2) -> Color> Procedural<F> {
    pub fn new(callback: F) -> (p: Procedural<F>)
        ensures
            p.callback == callback,
    {
        Procedural { callback }
    }

    /// The function's value at `uv`.
    pub fn lookup(&self, uv: &Point2) -> (c: Color)
        requires
            self.callback.requires((*uv,)),
        ensures
            self.callback.ensures((*uv,), c),
    {
        (self.callback)(*uv)
    }
}

/// `cos(pi / 4)` (and `sin(pi / 4)`) as a fixed-point number.
pub const DIAGONAL: i64 = 707;

/// Number of squares per unit of texture space along each diagonal axis.
pub const CHECKER_SCALE: i64 = 5;

/// The fractional part of the fixed-point number `v`, in `0..SCALE`.
pub open spec fn frac(v: int) -> int {
    v % (SCALE as int)
}

/// Coordinates of the checkerboard: texture space turned by a quarter of a
/// right angle and scaled.
pub open spec fn checker_s(x: int, y: int) -> int {
    CHECKER_SCALE * ((x * DIAGONAL - y * DIAGONAL) / SCALE as int)
}

pub open spec fn checker_t(x: int, y: int) -> int {
    CHECKER_SCALE * ((y * DIAGONAL + x * DIAGONAL) / SCALE as int)
}

/// Black where exactly one of the two turned coordinates lies in the lower
/// half of its square, white elsewhere.
pub open spec fn checker_black(x: int, y: int) -> bool {
    (frac(checker_s(x, y)) < SCALE / 2) != (frac(checker_t(x, y)) < SCALE / 2)
}

fn fractional(v: i64) -> (r: i64)
    ensures
        r == frac(v as int),
        0 <= r < SCALE,
{
    if v >= 0 {
        v % SCALE
    } else {
        let q = (-(v as i128)) % (SCALE as i128);
        if q == 0 {
            0
        } else {
            (SCALE as i128 - q) as i64
        }
    }
}

fn floor_div(v: i64) -> (r: i64)
    requires
        crate::math::abs(v as int) <= 0x1000_0000_0000_0000,
    ensures
        r == (v as int) / (SCALE as int),
{
    if v >= 0 {
        v / SCALE
    } else {
        let q = (-v) / SCALE;
        if (-v) % SCALE == 0 {
            -q
        } else {
            -q - 1
        }
    }
}

/// A black and white checkerboard turned by 45 degrees.
pub fn checkerboard(coord: Point2) -> (c: Color)
    requires
        crate::math::abs(coord.x as int) <= crate::math::POINT_MAX,
        crate::math::abs(coord.y as int) <= crate::math::POINT_MAX,
    ensures
        c == (if checker_black(coord.x as int, coord.y as int) {
            Color { r: 0, g: 0, b: 0 }
        } else {
            Color { r: 255, g: 255, b: 255 }
        }),
{
    let s = CHECKER_SCALE * floor_div(coord.x * DIAGONAL - coord.y * DIAGONAL);
    let t = CHECKER_SCALE * floor_div(coord.y * DIAGONAL + coord.x * DIAGONAL);
    let s_v = fractional(s) < SCALE / 2;
    let t_v = fractional(t) < SCALE / 2;
    if s_v != t_v {
        Color::black()
    } else {
        Color::white()
    }
}

/// The textures a material can carry.
#[derive(Clone, Copy, Debug)]
pub enum Texture {
    Solid(Solid),
    Checkerboard,
}

pub open spec fn texture_value(t: Texture, uv: Point2) -> Color {
    match t {
        Texture::Solid(s) => s.color,
        Texture::Checkerboard => if checker_black(uv.x as int, uv.y as int) {
            Color { r: 0, g: 0, b: 0 }
        } else {
            Color { r: 255, g: 255, b: 255 }
        },
    }
}

impl Texture {
    pub fn lookup(&self, uv: &Point2) -> (c: Color)
        requires
            crate::math::abs(uv.x as int) <= crate::math::POINT_MAX,
            crate::math::abs(uv.y as int) <= crate::math::POINT_MAX,
        ensures
            c == texture_value(*self, *uv),
    {
        match self {
            Texture::Solid(s) => s.lookup(uv),
            Texture::Checkerboard => checkerboard(*uv),
        }
    }
}

} // verus!
