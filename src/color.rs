use vstd::prelude::*;

use crate::math::SCALE;

verus! {

/// Which channel of a color comes next when the channels are read in turn.
#[derive(Clone, Copy, Debug, PartialEq, Eq, Structural)]
pub enum NextColor {
    Red,
    Green,
    Blue,
    Done,
}

/// An 8-bit RGB color.
#[derive(Clone, Copy, Debug, PartialEq, Eq, Structural)]
pub struct Color {
    pub r: u8,
    pub g: u8,
    pub b: u8,
}

/// `v` limited to the range of a channel.
pub open spec fn clamp_spec(v: int) -> u8 {
    if v < 0 {
        0
    } else if v > 255 {
        255
    } else {
        v as u8
    }
}

/// A fixed-point intensity (one unit is `SCALE`) as a channel value.
pub open spec fn channel_of(v: int) -> u8 {
    clamp_spec(crate::math::div_trunc(v * 255, SCALE as int))
}

impl Color {
    pub fn new(r: u8, g: u8, b: u8) -> (c: Color)
        ensures
            c.r == r && c.g == g && c.b == b,
    {
        Color { r, g, b }
    }

    /// A color from three fixed-point intensities, where `SCALE` is full
    /// intensity; each is scaled to 255, rounded toward zero and clamped.
    pub fn from_intensities(r: i64, g: i64, b: i64) -> (c: Color)
        requires
            crate::math::abs(r as int) <= crate::math::VEC_MAX,
            crate::math::abs(g as int) <= crate::math::VEC_MAX,
            crate::math::abs(b as int) <= crate::math::VEC_MAX,
        ensures
            c.r == channel_of(r as int),
            c.g == channel_of(g as int),
            c.b == channel_of(b as int),
    {
        Color { r: intensity_to_channel(r), g: intensity_to_channel(g), b: intensity_to_channel(b) }
    }

    pub fn r(self) -> (v: u8)
        ensures
            v == self.r,
    {
        self.r
    }

    pub fn g(self) -> (v: u8)
        ensures
            v == self.g,
    {
        self.g
    }

    pub fn b(self) -> (v: u8)
        ensures
            v == self.b,
    {
        self.b
    }

    /// The color packed into 32 bits with an opaque alpha: alpha in the top
    /// byte, then blue, green, and red in the lowest byte.
    pub fn as_u32(self) -> (v: u32)
        ensures
            v == 0xFF00_0000 + self.r + self.g * 256 + self.b * 65536,
    {
        let r = self.r as u32;
        let g = self.g as u32;
        let b = self.b as u32;
        let v = 0xFF00_0000u32 | r | (g << 8u32) | (b << 16u32);
        assert(v == 0xFF00_0000u32 + r + g * 256 + b * 65536) by (bit_vector)
            requires
                r < 256,
                g < 256,
                b < 256,
                v == 0xFF00_0000u32 | r | (g << 8u32) | (b << 16u32),
        ;
        v
    }

    /// Limits `value` to the range of a channel.
    pub fn clamp(value: i32) -> (c: u8)
        ensures
            c == clamp_spec(value as int),
    {
        if value < 0 {
            0
        } else if value > 255 {
            255
        } else {
            value as u8
        }
    }

    /// Reads the channel that `state` names, with the state that follows it:
    /// red, green, blue, then nothing.
    pub fn next_channel(self, state: NextColor) -> (r: (Option<u8>, NextColor))
        ensures
            state == NextColor::Red ==> r == (Some(self.r), NextColor::Green),
            state == NextColor::Green ==> r == (Some(self.g), NextColor::Blue),
            state == NextColor::Blue ==> r == (Some(self.b), NextColor::Done),
            state == NextColor::Done ==> r == (None::<u8>, NextColor::Done),
    {
        match state {
            NextColor::Red => (Some(self.r), NextColor::Green),
            NextColor::Green => (Some(self.g), NextColor::Blue),
            NextColor::Blue => (Some(self.b), NextColor::Done),
            NextColor::Done => (None, NextColor::Done),
        }
    }

    /// The channels in order red, green, blue.
    pub fn channels(self) -> (v: Vec<u8>)
        ensures
            v@ == seq![self.r, self.g, self.b],
    {
        let mut v: Vec<u8> = Vec::new();
        let state = NextColor::Red;
        let (a, s1) = self.next_channel(state);
        let (b, s2) = self.next_channel(s1);
        let (c, _) = self.next_channel(s2);
        if let Some(x) = a {
            v.push(x);
        }
        if let Some(x) = b {
            v.push(x);
        }
        if let Some(x) = c {
            v.push(x);
        }
        assert(v@ =~= seq![self.r, self.g, self.b]);
        v
    }

    /// Channel-wise sum, saturating at 255.
    pub open spec fn add_spec(self, o: Color) -> Color {
        Color {
            r: clamp_spec(self.r + o.r),
            g: clamp_spec(self.g + o.g),
            b: clamp_spec(self.b + o.b),
        }
    }

    /// Channel-wise sum, saturating at 255.
    pub fn add(self, o: Color) -> (c: Color)
        ensures
            c == self.add_spec(o),
            c.r == clamp_spec(self.r + o.r),
            c.g == clamp_spec(self.g + o.g),
            c.b == clamp_spec(self.b + o.b),
    {
        Color {
            r: Color::clamp(self.r as i32 + o.r as i32),
            g: Color::clamp(self.g as i32 + o.g as i32),
            b: Color::clamp(self.b as i32 + o.b as i32),
        }
    }

    /// Channel-wise difference, saturating at 0.
    pub fn sub(self, o: Color) -> (c: Color)
        ensures
            c.r == clamp_spec(self.r - o.r),
            c.g == clamp_spec(self.g - o.g),
            c.b == clamp_spec(self.b - o.b),
    {
        Color {
            r: Color::clamp(self.r as i32 - o.r as i32),
            g: Color::clamp(self.g as i32 - o.g as i32),
            b: Color::clamp(self.b as i32 - o.b as i32),
        }
    }

    /// Channel-wise product, as if both channels were fractions of 255.
    pub open spec fn mul_spec(self, o: Color) -> Color {
        Color {
            r: ((self.r * o.r) / 255) as u8,
            g: ((self.g * o.g) / 255) as u8,
            b: ((self.b * o.b) / 255) as u8,
        }
    }

    /// Channel-wise product, as if both channels were fractions of 255.
    pub fn mul(self, o: Color) -> (c: Color)
        ensures
            c == self.mul_spec(o),
            c.r == (self.r * o.r) / 255,
            c.g == (self.g * o.g) / 255,
            c.b == (self.b * o.b) / 255,
    {
        Color { r: mul_channel(self.r, o.r), g: mul_channel(self.g, o.g), b: mul_channel(self.b, o.b) }
    }

    /// Every channel scaled by a non-negative fixed-point factor (`SCALE` is
    /// one), rounded down and saturating at 255.
    pub open spec fn scale_spec(self, k: int) -> Color {
        Color {
            r: clamp_spec((self.r * k) / SCALE as int),
            g: clamp_spec((self.g * k) / SCALE as int),
            b: clamp_spec((self.b * k) / SCALE as int),
        }
    }

    /// Every channel scaled by a non-negative fixed-point factor (`SCALE` is
    /// one), rounded down and saturating at 255.
    pub fn scale(self, k: i64) -> (c: Color)
        requires
            0 <= k <= crate::math::VEC_MAX,
        ensures
            c == self.scale_spec(k as int),
            c.r == clamp_spec((self.r * k) / SCALE as int),
            c.g == clamp_spec((self.g * k) / SCALE as int),
            c.b == clamp_spec((self.b * k) / SCALE as int),
    {
        Color { r: scale_channel(self.r, k), g: scale_channel(self.g, k), b: scale_channel(self.b, k) }
    }

    pub open spec fn black_spec() -> Color {
        Color { r: 0, g: 0, b: 0 }
    }

    pub fn black() -> (c: Color)
        ensures
            c == (Color { r: 0, g: 0, b: 0 }),
    {
        Color::new(0, 0, 0)
    }

    pub fn white() -> (c: Color)
        ensures
            c == (Color { r: 255, g: 255, b: 255 }),
    {
        Color::new(0xFF, 0xFF, 0xFF)
    }

    pub fn red() -> (c: Color)
        ensures
            c == (Color { r: 255, g: 0, b: 0 }),
    {
        Color::new(0xFF, 0, 0)
    }

    pub fn green() -> (c: Color)
        ensures
            c == (Color { r: 0, g: 255, b: 0 }),
    {
        Color::new(0, 0xFF, 0)
    }

    pub fn blue() -> (c: Color)
        ensures
            c == (Color { r: 0, g: 0, b: 255 }),
    {
        Color::new(0, 0, 0xFF)
    }
}

fn clamp_wide(v: i64) -> (c: u8)
    ensures
        c == clamp_spec(v as int),
{
    if v < 0 {
        0
    } else if v > 255 {
        255
    } else {
        v as u8
    }
}

fn intensity_to_channel(v: i64) -> (c: u8)
    requires
        crate::math::abs(v as int) <= crate::math::VEC_MAX,
    ensures
        c == channel_of(v as int),
{
    let q = crate::math::div_toward_zero((v as i128) * 255, SCALE as i128);
    proof {
        crate::math::lemma_div_trunc_bound(v * 255, SCALE as int);
    }
    clamp_wide(q as i64)
}

fn mul_channel(a: u8, b: u8) -> (c: u8)
    ensures
        c == (a * b) / 255,
{
    assert(a * b <= 255 * 255) by (nonlinear_arith)
        requires
            a <= 255,
            b <= 255,
    ;
    let p = (a as u32) * (b as u32);
    (p / 255) as u8
}

fn scale_channel(a: u8, k: i64) -> (c: u8)
    requires
        0 <= k <= crate::math::VEC_MAX,
    ensures
        c == clamp_spec((a * k) / SCALE as int),
{
    assert(0 <= a * k <= 255 * crate::math::VEC_MAX) by (nonlinear_arith)
        requires
            0 <= a <= 255,
            0 <= k <= crate::math::VEC_MAX,
    ;
    let p = (a as i64) * k;
    clamp_wide(p / SCALE)
}

} // verus!
