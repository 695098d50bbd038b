use vstd::prelude::*;

verus! {

/// Raw units per unit length: every coordinate is a fixed-point number with
/// three decimal places.
pub const SCALE: i64 = 1000;

/// Largest magnitude of a point coordinate, in raw units.
pub const POINT_MAX: i64 = 1073741824;

/// Largest magnitude of a component of a vector that can be normalized.
pub const NORM_MAX: i64 = 0x4000_0000_0000_0000;

/// Largest magnitude of a vector component, in raw units.
pub const VEC_MAX: i64 = 4294967296;

pub open spec fn abs(a: int) -> int {
    if a < 0 { -a } else { a }
}

/// Quotient rounded toward zero, as machine division does.
pub open spec fn div_trunc(a: int, b: int) -> int {
    if a >= 0 { a / b } else { -((-a) / b) }
}

/// Quotient rounded to the nearest integer, halves away from zero.
pub open spec fn div_round(a: int, b: int) -> int {
    if a >= 0 { (a + b / 2) / b } else { -((-a + b / 2) / b) }
}

pub open spec fn div_vec_round(a: (int, int, int), k: int) -> (int, int, int) {
    (div_round(a.0, k), div_round(a.1, k), div_round(a.2, k))
}

/// Product of two fixed-point numbers, rounded toward zero.
pub open spec fn fx_mul(a: int, b: int) -> int {
    div_trunc(a * b, SCALE as int)
}

pub open spec fn dot(a: (int, int, int), b: (int, int, int)) -> int {
    a.0 * b.0 + a.1 * b.1 + a.2 * b.2
}

pub open spec fn cross(a: (int, int, int), b: (int, int, int)) -> (int, int, int) {
    (a.1 * b.2 - a.2 * b.1, a.2 * b.0 - a.0 * b.2, a.0 * b.1 - a.1 * b.0)
}

pub open spec fn vadd(a: (int, int, int), b: (int, int, int)) -> (int, int, int) {
    (a.0 + b.0, a.1 + b.1, a.2 + b.2)
}

pub open spec fn vsub(a: (int, int, int), b: (int, int, int)) -> (int, int, int) {
    (a.0 - b.0, a.1 - b.1, a.2 - b.2)
}

pub open spec fn vscale(k: int, a: (int, int, int)) -> (int, int, int) {
    (k * a.0, k * a.1, k * a.2)
}

pub open spec fn div_vec(a: (int, int, int), k: int) -> (int, int, int) {
    (div_trunc(a.0, k), div_trunc(a.1, k), div_trunc(a.2, k))
}

/// Mirror image of `d` about the plane with normal `n`, scaled by `n . n` so
/// that it stays in the integers.
pub open spec fn reflect_exact(d: (int, int, int), n: (int, int, int)) -> (int, int, int) {
    vsub(vscale(dot(n, n), d), vscale(2 * dot(d, n), n))
}

/// Largest `r` with `r * r <= n`.
pub open spec fn is_isqrt(n: int, r: int) -> bool {
    0 <= r && r * r <= n && n < (r + 1) * (r + 1)
}

pub proof fn lemma_mul_abs_bound(a: int, b: int, x: int, y: int)
    requires
        abs(a) <= x,
        abs(b) <= y,
    ensures
        abs(a * b) <= x * y,
        -(x * y) <= a * b <= x * y,
{
    assert(abs(a * b) == abs(a) * abs(b)) by (nonlinear_arith);
    assert(abs(a) * abs(b) <= x * y) by (nonlinear_arith)
        requires
            0 <= abs(a) <= x,
            0 <= abs(b) <= y,
    ;
}

pub proof fn lemma_div_trunc_bound(a: int, b: int)
    requires
        b >= 1,
    ensures
        abs(div_trunc(a, b)) <= abs(a),
        abs(div_trunc(a, b)) * b <= abs(a),
{
    if a >= 0 {
        assert((a / b) * b <= a) by (nonlinear_arith)
            requires
                a >= 0,
                b >= 1,
        ;
        assert(a / b <= a) by (nonlinear_arith)
            requires
                a >= 0,
                b >= 1,
        ;
    } else {
        let p = -a;
        assert((p / b) * b <= p) by (nonlinear_arith)
            requires
                p >= 0,
                b >= 1,
        ;
        assert(p / b <= p) by (nonlinear_arith)
            requires
                p >= 0,
                b >= 1,
        ;
    }
}

/// Divides toward zero.
pub fn div_toward_zero(a: i128, b: i128) -> (r: i128)
    requires
        b > 0,
        a > i128::MIN,
    ensures
        r == div_trunc(a as int, b as int),
{
    proof {
        lemma_div_trunc_bound(a as int, b as int);
    }
    if a >= 0 {
        a / b
    } else {
        -((-a) / b)
    }
}

/// Integer square root: the largest `r` with `r * r <= n`.
pub fn isqrt(n: u128) -> (r: u128)
    ensures
        is_isqrt(n as int, r as int),
{
    let mut lo: u128 = 0;
    let mut hi: u128 = 0x1_0000_0000_0000_0000;
    assert(n < hi * hi) by (nonlinear_arith)
        requires
            n <= 0xFFFF_FFFF_FFFF_FFFF_FFFF_FFFF_FFFF_FFFF,
            hi == 0x1_0000_0000_0000_0000,
    ;
    while hi - lo > 1
        invariant
            lo < hi <= 0x1_0000_0000_0000_0000,
            lo * lo <= n,
            n < hi * hi,
        decreases hi - lo,
    {
        let mid = lo + (hi - lo) / 2;
        assert(mid * mid <= 0xFFFF_FFFF_FFFF_FFFF * 0xFFFF_FFFF_FFFF_FFFF) by (nonlinear_arith)
            requires
                0 <= mid <= 0xFFFF_FFFF_FFFF_FFFF,
        ;
        if mid * mid <= n {
            lo = mid;
        } else {
            hi = mid;
        }
    }
    assert(hi == lo + 1);
    lo
}

pub open spec fn vec_in_range(v: (int, int, int), m: int) -> bool {
    abs(v.0) <= m && abs(v.1) <= m && abs(v.2) <= m
}

/// The vector with components `v` (which must fit).
pub open spec fn vec_of(v: (int, int, int)) -> Vector3 {
    Vector3 { x: v.0 as i64, y: v.1 as i64, z: v.2 as i64 }
}

/// The point with coordinates `v` (which must fit).
pub open spec fn point_of(v: (int, int, int)) -> Point3 {
    Point3 { x: v.0 as i64, y: v.1 as i64, z: v.2 as i64 }
}

/// A direction or displacement in space, in raw fixed-point units.
#[derive(Clone, Copy, Debug, PartialEq, Eq, Structural)]
pub struct Vector3 {
    pub x: i64,
    pub y: i64,
    pub z: i64,
}

/// A position in space, in raw fixed-point units.
#[derive(Clone, Copy, Debug, PartialEq, Eq, Structural)]
pub struct Point3 {
    pub x: i64,
    pub y: i64,
    pub z: i64,
}

impl View for Vector3 {
    type V = (int, int, int);

    open spec fn view(&self) -> (int, int, int) {
        (self.x as int, self.y as int, self.z as int)
    }
}

impl View for Point3 {
    type V = (int, int, int);

    open spec fn view(&self) -> (int, int, int) {
        (self.x as int, self.y as int, self.z as int)
    }
}

impl Vector3 {
    pub open spec fn wf(&self) -> bool {
        vec_in_range(self@, VEC_MAX as int)
    }

    pub fn new(x: i64, y: i64, z: i64) -> (r: Vector3)
        ensures
            r@ == (x as int, y as int, z as int),
    {
        Vector3 { x, y, z }
    }

    pub fn zero() -> (r: Vector3)
        ensures
            r@ == (0int, 0int, 0int),
    {
        Vector3 { x: 0, y: 0, z: 0 }
    }

    /// Exact dot product, in raw units squared.
    pub fn dot(&self, o: &Vector3) -> (r: i128)
        requires
            self.wf(),
            o.wf(),
        ensures
            r == dot(self@, o@),
    {
        proof {
            lemma_mul_abs_bound(self.x as int, o.x as int, VEC_MAX as int, VEC_MAX as int);
            lemma_mul_abs_bound(self.y as int, o.y as int, VEC_MAX as int, VEC_MAX as int);
            lemma_mul_abs_bound(self.z as int, o.z as int, VEC_MAX as int, VEC_MAX as int);
        }
        (self.x as i128) * (o.x as i128) + (self.y as i128) * (o.y as i128) + (self.z as i128) * (
        o.z as i128)
    }

    /// Exact cross product, in raw units squared; the factors must be at
    /// most `2 * POINT_MAX` and `POINT_MAX` in magnitude so that the result
    /// fits.
    pub fn cross(&self, o: &Vector3) -> (r: Vector3)
        requires
            vec_in_range(self@, 2 * POINT_MAX as int),
            vec_in_range(o@, POINT_MAX as int),
        ensures
            r@ == cross(self@, o@),
            vec_in_range(r@, NORM_MAX as int),
    {
        proof {
            let m = POINT_MAX as int;
            lemma_mul_abs_bound(self.x as int, o.y as int, 2 * m, m);
            lemma_mul_abs_bound(self.x as int, o.z as int, 2 * m, m);
            lemma_mul_abs_bound(self.y as int, o.x as int, 2 * m, m);
            lemma_mul_abs_bound(self.y as int, o.z as int, 2 * m, m);
            lemma_mul_abs_bound(self.z as int, o.x as int, 2 * m, m);
            lemma_mul_abs_bound(self.z as int, o.y as int, 2 * m, m);
        }
        Vector3 {
            x: self.y * o.z - self.z * o.y,
            y: self.z * o.x - self.x * o.z,
            z: self.x * o.y - self.y * o.x,
        }
    }

    /// Exact dot product with a vector of any size, in raw units squared.
    pub fn dot_wide(&self, o: &Vector3) -> (r: i128)
        requires
            self.wf(),
        ensures
            r == dot(self@, o@),
    {
        proof {
            let m = 0x8000_0000_0000_0000int;
            lemma_mul_abs_bound(self.x as int, o.x as int, VEC_MAX as int, m);
            lemma_mul_abs_bound(self.y as int, o.y as int, VEC_MAX as int, m);
            lemma_mul_abs_bound(self.z as int, o.z as int, VEC_MAX as int, m);
        }
        (self.x as i128) * (o.x as i128) + (self.y as i128) * (o.y as i128) + (self.z as i128) * (
        o.z as i128)
    }

    /// Euclidean length, rounded down, in raw units.
    pub fn length(&self) -> (r: i64)
        requires
            self.wf(),
        ensures
            is_isqrt(dot(self@, self@), r as int),
    {
        let d = self.dot(self);
        proof {
            let m = VEC_MAX as int;
            lemma_mul_abs_bound(self.x as int, self.x as int, m, m);
            lemma_mul_abs_bound(self.y as int, self.y as int, m, m);
            lemma_mul_abs_bound(self.z as int, self.z as int, m, m);
            assert(self.x * self.x >= 0 && self.y * self.y >= 0 && self.z * self.z >= 0)
                by (nonlinear_arith);
        }
        let s = isqrt(d as u128);
        proof {
            assert(s * s <= d);
            assert(s <= 0x100_0000_0000) by (nonlinear_arith)
                requires
                    s * s <= d,
                    d <= 3 * 4294967296 * 4294967296,
            ;
        }
        s as i64
    }

    /// The vector scaled to length `SCALE` (one unit), each component
    /// rounded to the nearest integer; the zero vector stays zero.
    pub fn normalize(&self) -> (r: Vector3)
        requires
            vec_in_range(self@, NORM_MAX as int),
        ensures
            r@ == normalized(self@),
            vec_in_range(r@, SCALE as int),
    {
        proof {
            let m = NORM_MAX as int;
            lemma_mul_abs_bound(self.x as int, self.x as int, m, m);
            lemma_mul_abs_bound(self.y as int, self.y as int, m, m);
            lemma_mul_abs_bound(self.z as int, self.z as int, m, m);
            assert(self.x * self.x >= 0 && self.y * self.y >= 0 && self.z * self.z >= 0)
                by (nonlinear_arith);
        }
        assert(NORM_MAX as int * NORM_MAX as int == 0x1000_0000_0000_0000_0000_0000_0000_0000);
        let d = (self.x as i128) * (self.x as i128) + (self.y as i128) * (self.y as i128) + (
        self.z as i128) * (self.z as i128);
        assert(0 <= d <= 0x3000_0000_0000_0000_0000_0000_0000_0000);
        let s = isqrt(d as u128);
        proof {
            assert(s <= 0x1_0000_0000_0000_0000) by (nonlinear_arith)
                requires
                    s * s <= d,
                    d <= 0x3000_0000_0000_0000_0000_0000_0000_0000,
            ;
        }
        let l = s as i128;
        proof {
            lemma_sqrt_of(dot(self@, self@), l as int);
        }
        if l == 0 {
            proof {
                lemma_zero_length(self@);
            }
            return Vector3::zero();
        }
        let x = normalize_component(self.x, l, Ghost(self@));
        let y = normalize_component(self.y, l, Ghost(self@));
        let z = normalize_component(self.z, l, Ghost(self@));
        Vector3 { x, y, z }
    }

    /// Mirror image of this direction about a surface with normal `n`.
    /// The length is kept (up to rounding toward zero); `n` need not have
    /// unit length.
    pub fn reflect(&self, n: &Vector3) -> (r: Vector3)
        requires
            vec_in_range(self@, VEC_MAX as int / 8),
            vec_in_range(n@, POINT_MAX as int),
            dot(n@, n@) > 0,
        ensures
            r@ == div_vec(reflect_exact(self@, n@), dot(n@, n@)),
            r.wf(),
    {
        let nn = n.dot(n);
        let dn = self.dot(n);
        let ghost big = reflect_exact(self@, n@);
        proof {
            lemma_reflect_bound(self@, n@, VEC_MAX as int / 8, POINT_MAX as int);
            let nnb = 3 * (POINT_MAX as int) * (POINT_MAX as int);
            let dnb = 3 * (VEC_MAX as int / 8) * (POINT_MAX as int);
            lemma_mul_abs_bound(nn as int, self.x as int, nnb, VEC_MAX as int);
            lemma_mul_abs_bound(nn as int, self.y as int, nnb, VEC_MAX as int);
            lemma_mul_abs_bound(nn as int, self.z as int, nnb, VEC_MAX as int);
            lemma_mul_abs_bound(2 * dn as int, n.x as int, 2 * dnb, POINT_MAX as int);
            lemma_mul_abs_bound(2 * dn as int, n.y as int, 2 * dnb, POINT_MAX as int);
            lemma_mul_abs_bound(2 * dn as int, n.z as int, 2 * dnb, POINT_MAX as int);
        }
        let rx = nn * (self.x as i128) - 2 * dn * (n.x as i128);
        let ry = nn * (self.y as i128) - 2 * dn * (n.y as i128);
        let rz = nn * (self.z as i128) - 2 * dn * (n.z as i128);
        let qx = div_toward_zero(rx, nn);
        let qy = div_toward_zero(ry, nn);
        let qz = div_toward_zero(rz, nn);
        proof {
            lemma_div_trunc_bound(rx as int, nn as int);
            lemma_div_trunc_bound(ry as int, nn as int);
            lemma_div_trunc_bound(rz as int, nn as int);
            lemma_quotient_bound(rx as int, nn as int, 7 * (VEC_MAX as int / 8));
            lemma_quotient_bound(ry as int, nn as int, 7 * (VEC_MAX as int / 8));
            lemma_quotient_bound(rz as int, nn as int, 7 * (VEC_MAX as int / 8));
        }
        Vector3 { x: qx as i64, y: qy as i64, z: qz as i64 }
    }

    pub fn add(&self, o: &Vector3) -> (r: Vector3)
        requires
            vec_in_range(vadd(self@, o@), VEC_MAX as int),
        ensures
            r@ == vadd(self@, o@),
    {
        Vector3 { x: self.x + o.x, y: self.y + o.y, z: self.z + o.z }
    }

    pub fn sub(&self, o: &Vector3) -> (r: Vector3)
        requires
            vec_in_range(vsub(self@, o@), VEC_MAX as int),
        ensures
            r@ == vsub(self@, o@),
    {
        Vector3 { x: self.x - o.x, y: self.y - o.y, z: self.z - o.z }
    }

    pub fn neg(&self) -> (r: Vector3)
        requires
            self.wf(),
        ensures
            r@ == vscale(-1, self@),
    {
        Vector3 { x: -self.x, y: -self.y, z: -self.z }
    }

    /// Multiplies by a fixed-point factor, rounding toward zero.
    pub fn scale(&self, k: i64) -> (r: Vector3)
        requires
            self.wf(),
            abs(k as int) <= VEC_MAX,
            vec_in_range(div_vec(vscale(k as int, self@), SCALE as int), VEC_MAX as int),
        ensures
            r@ == div_vec(vscale(k as int, self@), SCALE as int),
    {
        proof {
            let m = VEC_MAX as int;
            lemma_mul_abs_bound(k as int, self.x as int, m, m);
            lemma_mul_abs_bound(k as int, self.y as int, m, m);
            lemma_mul_abs_bound(k as int, self.z as int, m, m);
        }
        let x = div_toward_zero((k as i128) * (self.x as i128), SCALE as i128);
        let y = div_toward_zero((k as i128) * (self.y as i128), SCALE as i128);
        let z = div_toward_zero((k as i128) * (self.z as i128), SCALE as i128);
        Vector3 { x: x as i64, y: y as i64, z: z as i64 }
    }

    /// Builds a vector from three components; the slice must hold exactly
    /// three.
    pub fn from_slice(values: &[i64]) -> (r: Vector3)
        requires
            values@.len() == 3,
        ensures
            r@ == (values@[0] as int, values@[1] as int, values@[2] as int),
    {
        Vector3 { x: values[0], y: values[1], z: values[2] }
    }

    /// Component-wise fixed-point product, rounded toward zero.
    pub fn mul(&self, o: &Vector3) -> (r: Vector3)
        requires
            vec_in_range(self@, POINT_MAX as int),
            vec_in_range(o@, POINT_MAX as int),
            in_range2(fx_mul(self.x as int, o.x as int)),
            in_range2(fx_mul(self.y as int, o.y as int)),
            in_range2(fx_mul(self.z as int, o.z as int)),
        ensures
            r@ == (fx_mul(self.x as int, o.x as int), fx_mul(self.y as int, o.y as int), fx_mul(
                self.z as int,
                o.z as int,
            )),
    {
        Vector3 { x: fixed_mul(self.x, o.x), y: fixed_mul(self.y, o.y), z: fixed_mul(self.z, o.z) }
    }

    /// Adds the fixed-point number `k` to every component.
    pub fn add_scalar(&self, k: i64) -> (r: Vector3)
        requires
            vec_in_range(vadd(self@, (k as int, k as int, k as int)), VEC_MAX as int),
        ensures
            r@ == vadd(self@, (k as int, k as int, k as int)),
    {
        Vector3 { x: self.x + k, y: self.y + k, z: self.z + k }
    }

    /// Subtracts the fixed-point number `k` from every component.
    pub fn sub_scalar(&self, k: i64) -> (r: Vector3)
        requires
            vec_in_range(vsub(self@, (k as int, k as int, k as int)), VEC_MAX as int),
        ensures
            r@ == vsub(self@, (k as int, k as int, k as int)),
    {
        Vector3 { x: self.x - k, y: self.y - k, z: self.z - k }
    }

    pub fn as_point(&self) -> (r: Point3)
        ensures
            r@ == self@,
    {
        Point3 { x: self.x, y: self.y, z: self.z }
    }
}

/// `v` scaled to length `SCALE`, each component rounded to the nearest
/// integer, with the length itself rounded down; the zero vector for the
/// zero vector.
pub open spec fn normalized(v: (int, int, int)) -> (int, int, int) {
    let l = sqrt_of(dot(v, v));
    if l == 0 {
        (0, 0, 0)
    } else {
        div_vec_round(vscale(SCALE as int, v), l)
    }
}

/// The square root of `n`, rounded down.
pub open spec fn sqrt_of(n: int) -> int {
    if n <= 0 {
        0
    } else {
        choose|r: int| is_isqrt(n, r)
    }
}

pub proof fn lemma_isqrt_unique(n: int, r: int, s: int)
    requires
        is_isqrt(n, r),
        is_isqrt(n, s),
    ensures
        r == s,
{
    if r < s {
        assert((r + 1) * (r + 1) <= s * s) by (nonlinear_arith)
            requires
                0 <= r < s,
        ;
    } else if s < r {
        assert((s + 1) * (s + 1) <= r * r) by (nonlinear_arith)
            requires
                0 <= s < r,
        ;
    }
}

pub proof fn lemma_sqrt_of(n: int, r: int)
    requires
        is_isqrt(n, r),
    ensures
        sqrt_of(n) == r,
{
    if n <= 0 {
        assert(r == 0) by (nonlinear_arith)
            requires
                0 <= r,
                r * r <= n,
                n <= 0,
        ;
    } else {
        let s = choose|s: int| is_isqrt(n, s);
        lemma_isqrt_unique(n, r, s);
    }
}

proof fn lemma_zero_length(v: (int, int, int))
    requires
        is_isqrt(dot(v, v), 0),
    ensures
        v == (0int, 0int, 0int),
{
    assert(v.0 * v.0 >= 0 && v.1 * v.1 >= 0 && v.2 * v.2 >= 0) by (nonlinear_arith);
    assert(v.0 == 0) by (nonlinear_arith)
        requires
            v.0 * v.0 < 1,
    ;
    assert(v.1 == 0) by (nonlinear_arith)
        requires
            v.1 * v.1 < 1,
    ;
    assert(v.2 == 0) by (nonlinear_arith)
        requires
            v.2 * v.2 < 1,
    ;
}

/// A component is at most the length: `c * c <= n` and `r` is the root of
/// `n`, so `|c| <= r`.
proof fn lemma_component_le_length(c: int, n: int, r: int)
    requires
        c * c <= n,
        is_isqrt(n, r),
    ensures
        abs(c) <= r,
{
    let a = abs(c);
    assert(a * a == c * c) by (nonlinear_arith)
        requires
            a == abs(c),
    ;
    if a > r {
        assert((r + 1) * (r + 1) <= a * a) by (nonlinear_arith)
            requires
                a >= r + 1,
                r >= 0,
        ;
    }
}

fn normalize_component(c: i64, l: i128, v: Ghost<(int, int, int)>) -> (r: i64)
    requires
        l > 0,
        is_isqrt(dot(v@, v@), l as int),
        c == v@.0 || c == v@.1 || c == v@.2,
        vec_in_range(v@, NORM_MAX as int),
    ensures
        r == div_round(SCALE * c, l as int),
        abs(r as int) <= SCALE,
{
    proof {
        let w = v@;
        assert(w.0 * w.0 >= 0 && w.1 * w.1 >= 0 && w.2 * w.2 >= 0) by (nonlinear_arith);
        lemma_component_le_length(c as int, dot(w, w), l as int);
        lemma_mul_abs_bound(SCALE as int, c as int, SCALE as int, NORM_MAX as int);
        lemma_mul_abs_bound(SCALE as int, c as int, SCALE as int, l as int);
        lemma_round_bound(SCALE * c, l as int, SCALE as int);
    }
    let p = (SCALE as i128) * (c as i128);
    let h = l / 2;
    if p >= 0 {
        ((p + h) / l) as i64
    } else {
        (-((-p + h) / l)) as i64
    }
}

/// If `|a| <= k * b` then the rounded quotient of `a` by `b` is at most `k`.
pub proof fn lemma_round_bound(a: int, b: int, k: int)
    requires
        b >= 1,
        k >= 0,
        abs(a) <= k * b,
    ensures
        abs(div_round(a, b)) <= k,
{
    let p = abs(a);
    let h = b / 2;
    assert(0 <= h < b);
    assert((p + h) / b <= k) by (nonlinear_arith)
        requires
            0 <= p <= k * b,
            0 <= h < b,
            b >= 1,
            k >= 0,
    ;
    assert((p + h) / b >= 0) by (nonlinear_arith)
        requires
            0 <= p,
            0 <= h,
            b >= 1,
    ;
}

/// If `|a| <= k * b` then the quotient of `a` by `b` is at most `k`.
pub proof fn lemma_quotient_bound(a: int, b: int, k: int)
    requires
        b >= 1,
        k >= 0,
        abs(a) <= k * b,
    ensures
        abs(div_trunc(a, b)) <= k,
{
    let p = abs(a);
    assert(p / b <= k) by (nonlinear_arith)
        requires
            0 <= p <= k * b,
            b >= 1,
            k >= 0,
    ;
}

/// Bound of the scaled reflection: each component is at most `7 * dm * (n . n)`.
proof fn lemma_reflect_bound(d: (int, int, int), n: (int, int, int), dm: int, nm: int)
    requires
        vec_in_range(d, dm),
        vec_in_range(n, nm),
        dm == VEC_MAX / 8,
        nm == POINT_MAX,
        dot(n, n) > 0,
    ensures
        vec_in_range(reflect_exact(d, n), 7 * dm * dot(n, n)),
        abs(dot(d, n)) <= 3 * dm * nm,
        dot(n, n) <= 3 * nm * nm,
{
    let nn = dot(n, n);
    let dn = dot(d, n);
    lemma_mul_abs_bound(n.0, n.0, nm, nm);
    lemma_mul_abs_bound(n.1, n.1, nm, nm);
    lemma_mul_abs_bound(n.2, n.2, nm, nm);
    // |n_i|^2 <= nn and |d . n| <= 3 dm max|n_i|
    let a0 = abs(n.0);
    let a1 = abs(n.1);
    let a2 = abs(n.2);
    assert(a0 * a0 == n.0 * n.0 && a1 * a1 == n.1 * n.1 && a2 * a2 == n.2 * n.2)
        by (nonlinear_arith)
        requires
            a0 == abs(n.0),
            a1 == abs(n.1),
            a2 == abs(n.2),
    ;
    assert(n.0 * n.0 >= 0 && n.1 * n.1 >= 0 && n.2 * n.2 >= 0) by (nonlinear_arith);
    let m = if a0 >= a1 && a0 >= a2 {
        a0
    } else if a1 >= a2 {
        a1
    } else {
        a2
    };
    assert(m * m <= nn);
    lemma_mul_abs_bound(d.0, n.0, dm, m);
    lemma_mul_abs_bound(d.1, n.1, dm, m);
    lemma_mul_abs_bound(d.2, n.2, dm, m);
    assert(abs(dn) <= 3 * dm * m) by (nonlinear_arith)
        requires
            dn == d.0 * n.0 + d.1 * n.1 + d.2 * n.2,
            abs(d.0 * n.0) <= dm * m,
            abs(d.1 * n.1) <= dm * m,
            abs(d.2 * n.2) <= dm * m,
    ;
    assert(m <= nm);
    assert(dm * m <= dm * nm) by (nonlinear_arith)
        requires
            0 <= m <= nm,
            dm >= 0,
    ;
    assert(m * m <= nm * nm) by (nonlinear_arith)
        requires
            0 <= m <= nm,
    ;
    lemma_reflect_component(d.0, n.0, nn, dn, dm, m);
    lemma_reflect_component(d.1, n.1, nn, dn, dm, m);
    lemma_reflect_component(d.2, n.2, nn, dn, dm, m);
    assert(abs(n.0) <= m && abs(n.1) <= m && abs(n.2) <= m);
}

proof fn lemma_reflect_component(di: int, ni: int, nn: int, dn: int, dm: int, m: int)
    requires
        abs(di) <= dm,
        abs(ni) <= m,
        abs(dn) <= 3 * dm * m,
        m * m <= nn,
        dm >= 0,
        m >= 0,
    ensures
        abs(nn * di - 2 * dn * ni) <= 7 * dm * nn,
{
    lemma_mul_abs_bound(nn, di, nn, dm);
    lemma_mul_abs_bound(dn, ni, 3 * dm * m, m);
    assert((3 * dm * m) * m <= 3 * dm * nn) by (nonlinear_arith)
        requires
            m * m <= nn,
            dm >= 0,
    ;
    assert(nn * dm == dm * nn) by (nonlinear_arith);
    assert(abs(nn * di - 2 * (dn * ni)) <= abs(nn * di) + 2 * abs(dn * ni));
    assert(2 * dn * ni == 2 * (dn * ni)) by (nonlinear_arith);
    assert(7 * dm * nn == nn * dm + 2 * (3 * dm * nn)) by (nonlinear_arith);
}

impl Point3 {
    pub open spec fn wf(&self) -> bool {
        vec_in_range(self@, POINT_MAX as int)
    }

    pub fn new(x: i64, y: i64, z: i64) -> (r: Point3)
        ensures
            r@ == (x as int, y as int, z as int),
    {
        Point3 { x, y, z }
    }

    /// Builds a point from three coordinates; the slice must hold exactly
    /// three.
    pub fn from_slice(values: &[i64]) -> (r: Point3)
        requires
            values@.len() == 3,
        ensures
            r@ == (values@[0] as int, values@[1] as int, values@[2] as int),
    {
        Point3 { x: values[0], y: values[1], z: values[2] }
    }

    pub fn at_origin() -> (r: Point3)
        ensures
            r@ == (0int, 0int, 0int),
    {
        Point3 { x: 0, y: 0, z: 0 }
    }

    pub fn as_vector(&self) -> (r: Vector3)
        ensures
            r@ == self@,
    {
        Vector3 { x: self.x, y: self.y, z: self.z }
    }

    /// The displacement from `o` to this point.
    pub fn sub(&self, o: &Point3) -> (r: Vector3)
        requires
            self.wf(),
            o.wf(),
        ensures
            r@ == vsub(self@, o@),
            vec_in_range(r@, 2 * POINT_MAX),
            r.wf(),
    {
        Vector3 { x: self.x - o.x, y: self.y - o.y, z: self.z - o.z }
    }

    /// This point moved by `v`.
    pub fn add(&self, v: &Vector3) -> (r: Point3)
        requires
            vec_in_range(vadd(self@, v@), POINT_MAX as int),
        ensures
            r@ == vadd(self@, v@),
            r.wf(),
    {
        Point3 { x: self.x + v.x, y: self.y + v.y, z: self.z + v.z }
    }
}

/// A two-dimensional vector in raw fixed-point units (texture space).
#[derive(Clone, Copy, Debug, PartialEq, Eq, Structural)]
pub struct Vector2 {
    pub x: i64,
    pub y: i64,
}

/// A two-dimensional point in raw fixed-point units (texture space).
#[derive(Clone, Copy, Debug, PartialEq, Eq, Structural)]
pub struct Point2 {
    pub x: i64,
    pub y: i64,
}

pub open spec fn in_range2(a: int) -> bool {
    abs(a) <= POINT_MAX
}

impl Vector2 {
    pub open spec fn wf(&self) -> bool {
        in_range2(self.x as int) && in_range2(self.y as int)
    }

    pub fn new(x: i64, y: i64) -> (r: Vector2)
        ensures
            r.x == x && r.y == y,
    {
        Vector2 { x, y }
    }

    /// Builds a vector from two components; the slice must hold exactly two.
    pub fn from_slice(values: &[i64]) -> (r: Vector2)
        requires
            values@.len() == 2,
        ensures
            r.x == values@[0] && r.y == values@[1],
    {
        Vector2 { x: values[0], y: values[1] }
    }

    /// Exact dot product, in raw units squared.
    pub fn dot(&self, o: &Vector2) -> (r: i128)
        requires
            self.wf(),
            o.wf(),
        ensures
            r == self.x * o.x + self.y * o.y,
    {
        proof {
            let m = POINT_MAX as int;
            lemma_mul_abs_bound(self.x as int, o.x as int, m, m);
            lemma_mul_abs_bound(self.y as int, o.y as int, m, m);
        }
        (self.x as i128) * (o.x as i128) + (self.y as i128) * (o.y as i128)
    }

    /// Euclidean length, rounded down, in raw units.
    pub fn length(&self) -> (r: i64)
        requires
            self.wf(),
        ensures
            is_isqrt(self.x * self.x + self.y * self.y, r as int),
    {
        let d = self.dot(self);
        proof {
            let m = POINT_MAX as int;
            lemma_mul_abs_bound(self.x as int, self.x as int, m, m);
            lemma_mul_abs_bound(self.y as int, self.y as int, m, m);
            assert(self.x * self.x >= 0 && self.y * self.y >= 0) by (nonlinear_arith);
        }
        let s = isqrt(d as u128);
        proof {
            assert(s <= 0x100_0000_0000) by (nonlinear_arith)
                requires
                    s * s <= d,
                    d <= 2 * 1073741824 * 1073741824,
            ;
        }
        s as i64
    }

    /// The vector scaled to length `SCALE`, each component rounded to the
    /// nearest integer; the zero vector stays zero.
    pub fn normalize(&self) -> (r: Vector2)
        requires
            self.wf(),
        ensures
            ({
                let l = sqrt_of(self.x * self.x + self.y * self.y);
                &&& l == 0 ==> r.x == 0 && r.y == 0
                &&& l > 0 ==> r.x == div_round(SCALE * self.x, l) && r.y == div_round(
                    SCALE * self.y,
                    l,
                )
            }),
    {
        let l = self.length();
        let ghost v = (self.x as int, self.y as int, 0int);
        proof {
            lemma_sqrt_of(self.x * self.x + self.y * self.y, l as int);
            assert(dot(v, v) == self.x * self.x + self.y * self.y);
        }
        if l == 0 {
            return Vector2 { x: 0, y: 0 };
        }
        let x = normalize_component(self.x, l as i128, Ghost(v));
        let y = normalize_component(self.y, l as i128, Ghost(v));
        Vector2 { x, y }
    }

    pub fn as_point(&self) -> (r: Point2)
        ensures
            r.x == self.x && r.y == self.y,
    {
        Point2 { x: self.x, y: self.y }
    }

    pub fn add(&self, o: &Vector2) -> (r: Vector2)
        requires
            in_range2(self.x + o.x),
            in_range2(self.y + o.y),
        ensures
            r.x == self.x + o.x && r.y == self.y + o.y,
    {
        Vector2 { x: self.x + o.x, y: self.y + o.y }
    }

    pub fn sub(&self, o: &Vector2) -> (r: Vector2)
        requires
            in_range2(self.x - o.x),
            in_range2(self.y - o.y),
        ensures
            r.x == self.x - o.x && r.y == self.y - o.y,
    {
        Vector2 { x: self.x - o.x, y: self.y - o.y }
    }

    /// Adds a whole number of units to both components.
    pub fn add_units(&self, k: u16) -> (r: Vector2)
        requires
            in_range2(self.x + k * SCALE),
            in_range2(self.y + k * SCALE),
        ensures
            r.x == self.x + k * SCALE && r.y == self.y + k * SCALE,
    {
        Vector2 { x: self.x + (k as i64) * SCALE, y: self.y + (k as i64) * SCALE }
    }

    /// Subtracts a whole number of units from both components.
    pub fn sub_units(&self, k: u16) -> (r: Vector2)
        requires
            in_range2(self.x - k * SCALE),
            in_range2(self.y - k * SCALE),
        ensures
            r.x == self.x - k * SCALE && r.y == self.y - k * SCALE,
    {
        Vector2 { x: self.x - (k as i64) * SCALE, y: self.y - (k as i64) * SCALE }
    }

    /// Component-wise fixed-point product, rounded toward zero.
    pub fn mul(&self, o: &Vector2) -> (r: Vector2)
        requires
            self.wf(),
            o.wf(),
            in_range2(fx_mul(self.x as int, o.x as int)),
            in_range2(fx_mul(self.y as int, o.y as int)),
        ensures
            r.x == fx_mul(self.x as int, o.x as int),
            r.y == fx_mul(self.y as int, o.y as int),
    {
        let x = fixed_mul(self.x, o.x);
        let y = fixed_mul(self.y, o.y);
        Vector2 { x, y }
    }

    /// Multiplies both components by a fixed-point factor, rounding toward zero.
    pub fn scale(&self, k: i64) -> (r: Vector2)
        requires
            self.wf(),
            in_range2(k as int),
            in_range2(fx_mul(self.x as int, k as int)),
            in_range2(fx_mul(self.y as int, k as int)),
        ensures
            r.x == fx_mul(self.x as int, k as int),
            r.y == fx_mul(self.y as int, k as int),
    {
        let x = fixed_mul(self.x, k);
        let y = fixed_mul(self.y, k);
        Vector2 { x, y }
    }

    pub fn neg(&self) -> (r: Vector2)
        requires
            self.wf(),
        ensures
            r.x == -self.x && r.y == -self.y,
    {
        Vector2 { x: -self.x, y: -self.y }
    }
}

/// Fixed-point product of two numbers of magnitude at most `POINT_MAX`.
pub fn fixed_mul(a: i64, b: i64) -> (r: i64)
    requires
        in_range2(a as int),
        in_range2(b as int),
        in_range2(fx_mul(a as int, b as int)),
    ensures
        r == fx_mul(a as int, b as int),
{
    proof {
        let m = POINT_MAX as int;
        lemma_mul_abs_bound(a as int, b as int, m, m);
    }
    div_toward_zero((a as i128) * (b as i128), SCALE as i128) as i64
}

impl Point2 {
    pub fn new(x: i64, y: i64) -> (r: Point2)
        ensures
            r.x == x && r.y == y,
    {
        Point2 { x, y }
    }

    /// Builds a point from two coordinates; the slice must hold exactly two.
    pub fn from_slice(values: &[i64]) -> (r: Point2)
        requires
            values@.len() == 2,
        ensures
            r.x == values@[0] && r.y == values@[1],
    {
        Point2 { x: values[0], y: values[1] }
    }

    pub fn at_origin() -> (r: Point2)
        ensures
            r.x == 0 && r.y == 0,
    {
        Point2 { x: 0, y: 0 }
    }

    pub fn as_vector(&self) -> (r: Vector2)
        ensures
            r.x == self.x && r.y == self.y,
    {
        Vector2 { x: self.x, y: self.y }
    }

    /// This point moved by `v`.
    pub fn add(&self, v: &Vector2) -> (r: Point2)
        requires
            in_range2(self.x + v.x),
            in_range2(self.y + v.y),
        ensures
            r.x == self.x + v.x && r.y == self.y + v.y,
    {
        Point2 { x: self.x + v.x, y: self.y + v.y }
    }
}

} // verus!

verus! {

proof fn lemma_reflect_component_twice(nn: int, dn: int, di: int, ni: int)
    ensures
        nn * (nn * di - 2 * dn * ni) - 2 * (-(nn * dn)) * ni == nn * nn * di,
{
    assert(nn * (nn * di - 2 * dn * ni) - 2 * (-(nn * dn)) * ni == nn * nn * di)
        by (nonlinear_arith);
}

proof fn lemma_dot_combination(a: int, b: int, d: (int, int, int), n: (int, int, int))
    ensures
        dot(vsub(vscale(a, d), vscale(b, n)), n) == a * dot(d, n) - b * dot(n, n),
{
    assert((a * d.0 - b * n.0) * n.0 == a * (d.0 * n.0) - b * (n.0 * n.0)) by (nonlinear_arith);
    assert((a * d.1 - b * n.1) * n.1 == a * (d.1 * n.1) - b * (n.1 * n.1)) by (nonlinear_arith);
    assert((a * d.2 - b * n.2) * n.2 == a * (d.2 * n.2) - b * (n.2 * n.2)) by (nonlinear_arith);
    assert(a * (d.0 * n.0) + a * (d.1 * n.1) + a * (d.2 * n.2) == a * dot(d, n))
        by (nonlinear_arith);
    assert(b * (n.0 * n.0) + b * (n.1 * n.1) + b * (n.2 * n.2) == b * dot(n, n))
        by (nonlinear_arith);
}

/// Reflecting a direction twice about the same normal gives the direction
/// back, scaled by `(n . n)^2` (the exact reflection keeps integers by
/// scaling with `n . n` each time).
pub proof fn lemma_reflect_twice(d: (int, int, int), n: (int, int, int))
    ensures
        reflect_exact(reflect_exact(d, n), n) == vscale(dot(n, n) * dot(n, n), d),
{
    let nn = dot(n, n);
    let dn = dot(d, n);
    let r = reflect_exact(d, n);
    lemma_dot_combination(nn, 2 * dn, d, n);
    assert(nn * dn - 2 * dn * nn == -(nn * dn)) by (nonlinear_arith);
    assert(dot(r, n) == -(nn * dn));
    lemma_reflect_component_twice(nn, dn, d.0, n.0);
    lemma_reflect_component_twice(nn, dn, d.1, n.1);
    lemma_reflect_component_twice(nn, dn, d.2, n.2);
    assert(2 * dn * n.0 == 2 * dn * n.0);
}

/// The reflection is linear in the direction.
proof fn lemma_reflect_scale(k: int, v: (int, int, int), n: (int, int, int))
    ensures
        reflect_exact(vscale(k, v), n) == vscale(k, reflect_exact(v, n)),
{
    let nn = dot(n, n);
    assert((k * v.0) * n.0 == k * (v.0 * n.0)) by (nonlinear_arith);
    assert((k * v.1) * n.1 == k * (v.1 * n.1)) by (nonlinear_arith);
    assert((k * v.2) * n.2 == k * (v.2 * n.2)) by (nonlinear_arith);
    assert(k * (v.0 * n.0) + k * (v.1 * n.1) + k * (v.2 * n.2) == k * dot(v, n)) by (nonlinear_arith);
    let vn = dot(v, n);
    assert(nn * (k * v.0) - 2 * (k * vn) * n.0 == k * (nn * v.0 - 2 * vn * n.0)) by (nonlinear_arith);
    assert(nn * (k * v.1) - 2 * (k * vn) * n.1 == k * (nn * v.1 - 2 * vn * n.1)) by (nonlinear_arith);
    assert(nn * (k * v.2) - 2 * (k * vn) * n.2 == k * (nn * v.2 - 2 * vn * n.2)) by (nonlinear_arith);
}

/// A mirror pair: when the first reflection (divided by `n . n`) is exact,
/// as it is for an axis-aligned normal, reflecting twice with
/// `Vector3::reflect` restores the incoming direction exactly.
pub proof fn lemma_reflect_twice_restores(d: (int, int, int), n: (int, int, int))
    requires
        dot(n, n) > 0,
        reflect_exact(d, n) == vscale(dot(n, n), div_vec(reflect_exact(d, n), dot(n, n))),
    ensures
        div_vec(reflect_exact(div_vec(reflect_exact(d, n), dot(n, n)), n), dot(n, n)) == d,
{
    let nn = dot(n, n);
    let r = div_vec(reflect_exact(d, n), nn);
    lemma_reflect_twice(d, n);
    lemma_reflect_scale(nn, r, n);
    let q = reflect_exact(r, n);
    // nn * q == nn * nn * d, so q == nn * d
    assert(q.0 == nn * d.0) by (nonlinear_arith)
        requires
            nn * q.0 == nn * nn * d.0,
            nn > 0,
    ;
    assert(q.1 == nn * d.1) by (nonlinear_arith)
        requires
            nn * q.1 == nn * nn * d.1,
            nn > 0,
    ;
    assert(q.2 == nn * d.2) by (nonlinear_arith)
        requires
            nn * q.2 == nn * nn * d.2,
            nn > 0,
    ;
    lemma_div_exact(d.0, nn);
    lemma_div_exact(d.1, nn);
    lemma_div_exact(d.2, nn);
}

proof fn lemma_div_exact(x: int, k: int)
    requires
        k > 0,
    ensures
        div_trunc(k * x, k) == x,
{
    if x >= 0 {
        assert(k * x >= 0) by (nonlinear_arith)
            requires
                k > 0,
                x >= 0,
        ;
        vstd::arithmetic::div_mod::lemma_div_multiples_vanish(x, k);
    } else {
        assert(k * x < 0) by (nonlinear_arith)
            requires
                k > 0,
                x < 0,
        ;
        assert(-(k * x) == k * (-x)) by (nonlinear_arith);
        vstd::arithmetic::div_mod::lemma_div_multiples_vanish(-x, k);
    }
}

} // verus!
