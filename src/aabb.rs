use vstd::prelude::*;

use crate::math::{abs, div_trunc, div_vec, vadd, vec_in_range, vsub, Point3, Vector3, POINT_MAX};
use crate::ray::Ray;
use crate::triangle::{vertex_ok, Triangle};

verus! {

/// A rational number `n / d`; every one used here has `d > 0`.
pub type Ratio = (int, int);

pub open spec fn rle(a: Ratio, b: Ratio) -> bool {
    a.0 * b.1 <= b.0 * a.1
}

pub open spec fn rmax(a: Ratio, b: Ratio) -> Ratio {
    if rle(a, b) {
        b
    } else {
        a
    }
}

pub open spec fn rmin(a: Ratio, b: Ratio) -> Ratio {
    if rle(a, b) {
        a
    } else {
        b
    }
}

/// Exceeds every finite exit parameter of a ray from a point in range.
pub const T_LIMIT: i64 = 4294967296;

/// Parameter at which the ray enters the slab `lo..hi` of one axis.
pub open spec fn slab_enter(lo: int, hi: int, o: int, d: int) -> Ratio {
    if d > 0 {
        (lo - o, d)
    } else if d < 0 {
        (o - hi, -d)
    } else {
        (0, 1)
    }
}

/// Parameter at which the ray leaves the slab `lo..hi` of one axis.
pub open spec fn slab_exit(lo: int, hi: int, o: int, d: int) -> Ratio {
    if d > 0 {
        (hi - o, d)
    } else if d < 0 {
        (o - lo, -d)
    } else {
        (T_LIMIT as int, 1)
    }
}

/// A ray parallel to the slab that starts outside it.
pub open spec fn slab_blocked(lo: int, hi: int, o: int, d: int) -> bool {
    d == 0 && !(lo <= o && o <= hi)
}

/// The slab method: the ray meets the box when no slab blocks it, the
/// latest entry is no later than the earliest exit, and that exit lies
/// ahead of the origin.
pub open spec fn slab_test(
    lo: (int, int, int),
    hi: (int, int, int),
    o: (int, int, int),
    d: (int, int, int),
) -> bool {
    let enter = rmax(
        rmax(slab_enter(lo.0, hi.0, o.0, d.0), slab_enter(lo.1, hi.1, o.1, d.1)),
        slab_enter(lo.2, hi.2, o.2, d.2),
    );
    let exit = rmin(
        rmin(slab_exit(lo.0, hi.0, o.0, d.0), slab_exit(lo.1, hi.1, o.1, d.1)),
        slab_exit(lo.2, hi.2, o.2, d.2),
    );
    &&& !slab_blocked(lo.0, hi.0, o.0, d.0)
    &&& !slab_blocked(lo.1, hi.1, o.1, d.1)
    &&& !slab_blocked(lo.2, hi.2, o.2, d.2)
    &&& rle(enter, exit)
    &&& exit.0 > 0
}

/// Coordinate `o + (num / den) * d` lies in `lo..hi`, with both sides
/// multiplied by `den > 0`.
pub open spec fn axis_within(lo: int, hi: int, o: int, d: int, num: int, den: int) -> bool {
    lo * den <= o * den + num * d && o * den + num * d <= hi * den
}

/// The point at parameter `num / den` along the ray lies in the box.
pub open spec fn point_at_in_box(
    lo: (int, int, int),
    hi: (int, int, int),
    o: (int, int, int),
    d: (int, int, int),
    num: int,
    den: int,
) -> bool {
    &&& axis_within(lo.0, hi.0, o.0, d.0, num, den)
    &&& axis_within(lo.1, hi.1, o.1, d.1, num, den)
    &&& axis_within(lo.2, hi.2, o.2, d.2, num, den)
}

/// Some point of the ray strictly ahead of its origin lies in the closed box.
pub open spec fn ray_meets_box(
    lo: (int, int, int),
    hi: (int, int, int),
    o: (int, int, int),
    d: (int, int, int),
) -> bool {
    exists|num: int, den: int| num > 0 && den > 0 && #[trigger] point_at_in_box(lo, hi, o, d, num, den)
}

pub open spec fn min3(a: int, b: int, c: int) -> int {
    if a <= b && a <= c {
        a
    } else if b <= c {
        b
    } else {
        c
    }
}

pub open spec fn max3(a: int, b: int, c: int) -> int {
    if a >= b && a >= c {
        a
    } else if b >= c {
        b
    } else {
        c
    }
}

/// Component-wise minimum of a triangle's vertices.
pub open spec fn tri_min(t: Triangle) -> (int, int, int) {
    let (a, b, c) = (t.vertices[0]@, t.vertices[1]@, t.vertices[2]@);
    (min3(a.0, b.0, c.0), min3(a.1, b.1, c.1), min3(a.2, b.2, c.2))
}

/// Component-wise maximum of a triangle's vertices.
pub open spec fn tri_max(t: Triangle) -> (int, int, int) {
    let (a, b, c) = (t.vertices[0]@, t.vertices[1]@, t.vertices[2]@);
    (max3(a.0, b.0, c.0), max3(a.1, b.1, c.1), max3(a.2, b.2, c.2))
}

/// Two closed boxes share a point.
pub open spec fn boxes_overlap(
    lo: (int, int, int),
    hi: (int, int, int),
    blo: (int, int, int),
    bhi: (int, int, int),
) -> bool {
    &&& lo.0 <= bhi.0 && hi.0 >= blo.0
    &&& lo.1 <= bhi.1 && hi.1 >= blo.1
    &&& lo.2 <= bhi.2 && hi.2 >= blo.2
}

pub open spec fn le3(a: (int, int, int), b: (int, int, int)) -> bool {
    a.0 <= b.0 && a.1 <= b.1 && a.2 <= b.2
}

/// An axis-aligned box, `bounds[0]` its minimum corner and `bounds[1]` its
/// maximum corner.
#[derive(Clone, Copy, Debug)]
pub struct AABB {
    pub bounds: [Point3; 2],
}

impl AABB {
    pub open spec fn lo(&self) -> (int, int, int) {
        self.bounds[0]@
    }

    pub open spec fn hi(&self) -> (int, int, int) {
        self.bounds[1]@
    }

    /// Both corners are in range.
    pub open spec fn wf(&self) -> bool {
        self.bounds[0].wf() && self.bounds[1].wf()
    }

    /// A box from its two corners; `min` must not exceed `max` on any axis.
    pub fn new(min: Point3, max: Point3) -> (b: AABB)
        requires
            min.x <= max.x,
            min.y <= max.y,
            min.z <= max.z,
        ensures
            b.lo() == min@,
            b.hi() == max@,
    {
        AABB { bounds: [min, max] }
    }

    /// The empty box: its minimum corner at the top of the range and its
    /// maximum corner at the bottom, so that growing it by any point gives
    /// that point.
    pub fn empty() -> (b: AABB)
        ensures
            b.wf(),
            b.lo() == (POINT_MAX as int, POINT_MAX as int, POINT_MAX as int),
            b.hi() == (-POINT_MAX as int, -POINT_MAX as int, -POINT_MAX as int),
    {
        AABB {
            bounds: [
                Point3::new(POINT_MAX, POINT_MAX, POINT_MAX),
                Point3::new(-POINT_MAX, -POINT_MAX, -POINT_MAX),
            ],
        }
    }

    pub fn min(&self) -> (p: Point3)
        ensures
            p@ == self.lo(),
    {
        self.bounds[0]
    }

    pub fn max(&self) -> (p: Point3)
        ensures
            p@ == self.hi(),
    {
        self.bounds[1]
    }

    /// The extent of the box on each axis.
    pub fn dimensions(&self) -> (v: Vector3)
        requires
            self.wf(),
        ensures
            v@ == vsub(self.hi(), self.lo()),
    {
        self.bounds[1].sub(&self.bounds[0])
    }

    /// Half the extent of the box on each axis, rounded toward zero.
    pub fn half(&self) -> (p: Point3)
        requires
            self.wf(),
        ensures
            p@ == div_vec(vsub(self.hi(), self.lo()), 2),
    {
        let d = self.bounds[1].sub(&self.bounds[0]);
        Point3::new(half_of(d.x), half_of(d.y), half_of(d.z))
    }

    /// The minimum corner moved by half the extent.
    pub fn center(&self) -> (p: Point3)
        requires
            self.wf(),
        ensures
            p@ == vadd(self.lo(), div_vec(vsub(self.hi(), self.lo()), 2)),
            le3(self.lo(), self.hi()) ==> le3(self.lo(), p@) && le3(p@, self.hi()),
    {
        let h = self.half();
        proof {
            crate::math::lemma_div_trunc_bound(self.hi().0 - self.lo().0, 2);
            crate::math::lemma_div_trunc_bound(self.hi().1 - self.lo().1, 2);
            crate::math::lemma_div_trunc_bound(self.hi().2 - self.lo().2, 2);
        }
        self.bounds[0].add(&h.as_vector())
    }

    /// The smallest box holding the triangle.
    pub fn from_triangle(t: &Triangle) -> (b: AABB)
        requires
            t.wf(),
        ensures
            b.wf(),
            b.lo() == tri_min(*t),
            b.hi() == tri_max(*t),
    {
        let a = t.vertices[0];
        let bb = t.vertices[1];
        let c = t.vertices[2];
        let lo = Point3::new(min_of3(a.x, bb.x, c.x), min_of3(a.y, bb.y, c.y), min_of3(a.z, bb.z, c.z));
        let hi = Point3::new(max_of3(a.x, bb.x, c.x), max_of3(a.y, bb.y, c.y), max_of3(a.z, bb.z, c.z));
        AABB { bounds: [lo, hi] }
    }

    /// The smallest box holding every vertex of the triangles: each corner
    /// coordinate is one of the vertices'; the empty box when there are none.
    pub fn from_triangles(ts: &Vec<Triangle>) -> (b: AABB)
        requires
            forall|i: int| 0 <= i < ts@.len() ==> (#[trigger] ts@[i]).wf(),
        ensures
            b.wf(),
            forall|i: int|
                0 <= i < ts@.len() ==> le3(b.lo(), tri_min(#[trigger] ts@[i])) && le3(
                    tri_max(ts@[i]),
                    b.hi(),
                ),
            ts@.len() > 0 ==> le3(b.lo(), b.hi()),
            ts@.len() == 0 ==> b.lo() == (POINT_MAX as int, POINT_MAX as int, POINT_MAX as int)
                && b.hi() == (-POINT_MAX as int, -POINT_MAX as int, -POINT_MAX as int),
    {
        let mut b = AABB::empty();
        let mut i: usize = 0;
        while i < ts.len()
            invariant
                0 <= i <= ts@.len(),
                forall|i: int| 0 <= i < ts@.len() ==> (#[trigger] ts@[i]).wf(),
                b.wf(),
                forall|j: int|
                    0 <= j < i ==> le3(b.lo(), tri_min(#[trigger] ts@[j])) && le3(
                        tri_max(ts@[j]),
                        b.hi(),
                    ),
                i > 0 ==> le3(b.lo(), b.hi()),
                i == 0 ==> b.lo() == (POINT_MAX as int, POINT_MAX as int, POINT_MAX as int)
                    && b.hi() == (-POINT_MAX as int, -POINT_MAX as int, -POINT_MAX as int),
            decreases ts@.len() - i,
        {
            let t = AABB::from_triangle(&ts[i]);
            let lo = b.bounds[0];
            let hi = b.bounds[1];
            let tl = t.bounds[0];
            let th = t.bounds[1];
            proof {
                assert(le3(t.lo(), t.hi()));
            }
            b = AABB {
                bounds: [
                    Point3::new(
                        if tl.x < lo.x { tl.x } else { lo.x },
                        if tl.y < lo.y { tl.y } else { lo.y },
                        if tl.z < lo.z { tl.z } else { lo.z },
                    ),
                    Point3::new(
                        if th.x > hi.x { th.x } else { hi.x },
                        if th.y > hi.y { th.y } else { hi.y },
                        if th.z > hi.z { th.z } else { hi.z },
                    ),
                ],
            };
            i = i + 1;
        }
        b
    }

    /// Whether the box overlaps the bounding box of the triangle: a
    /// conservative stand-in for overlap with the triangle itself.
    pub fn intersects_triangle_aabb(&self, t: &Triangle) -> (r: bool)
        requires
            t.wf(),
        ensures
            r == boxes_overlap(self.lo(), self.hi(), tri_min(*t), tri_max(*t)),
    {
        let b = AABB::from_triangle(t);
        let min = self.bounds[0];
        let max = self.bounds[1];
        let b_min = b.bounds[0];
        let b_max = b.bounds[1];
        min.x <= b_max.x && max.x >= b_min.x && min.y <= b_max.y && max.y >= b_min.y && min.z
            <= b_max.z && max.z >= b_min.z
    }

    /// Whether some point of the ray ahead of its origin lies in the box,
    /// by the slab method.
    pub fn intersect(&self, ray: &Ray) -> (r: bool)
        requires
            self.wf(),
            ray.wf(),
        ensures
            r == ray_meets_box(self.lo(), self.hi(), ray.origin@, ray.direction@),
    {
        let o = ray.origin;
        let d = ray.direction;
        let (ex, xx, bx) = slab(
            self.bounds[ray.sign[0]].x,
            self.bounds[1 - ray.sign[0]].x,
            o.x,
            d.x,
            ray.sign[0],
        );
        let (ey, xy, by) = slab(
            self.bounds[ray.sign[1]].y,
            self.bounds[1 - ray.sign[1]].y,
            o.y,
            d.y,
            ray.sign[1],
        );
        let (ez, xz, bz) = slab(
            self.bounds[ray.sign[2]].z,
            self.bounds[1 - ray.sign[2]].z,
            o.z,
            d.z,
            ray.sign[2],
        );
        let tmin = ratio_max(ratio_max(ex, ey), ez);
        let tmax = ratio_min(ratio_min(xx, xy), xz);
        let r = !bx && !by && !bz && ratio_le(tmin, tmax) && tmax.0 > 0;
        proof {
            assert(r == slab_test(self.lo(), self.hi(), o@, d@));
            lemma_slab_test_iff(self.lo(), self.hi(), o@, d@);
        }
        r
    }
}

fn half_of(v: i64) -> (r: i64)
    requires
        abs(v as int) <= 2 * POINT_MAX,
    ensures
        r == div_trunc(v as int, 2),
{
    if v >= 0 {
        v / 2
    } else {
        -((-v) / 2)
    }
}

fn min_of3(a: i64, b: i64, c: i64) -> (r: i64)
    ensures
        r == min3(a as int, b as int, c as int),
{
    if a <= b && a <= c {
        a
    } else if b <= c {
        b
    } else {
        c
    }
}

fn max_of3(a: i64, b: i64, c: i64) -> (r: i64)
    ensures
        r == max3(a as int, b as int, c as int),
{
    if a >= b && a >= c {
        a
    } else if b >= c {
        b
    } else {
        c
    }
}

pub open spec fn ratio_view(r: (i64, i64)) -> Ratio {
    (r.0 as int, r.1 as int)
}

/// Bound on the numerator and denominator of the ratios compared here.
pub const RATIO_MAX: i64 = 0x100_0000_0000;

pub open spec fn ratio_ok(r: (i64, i64)) -> bool {
    abs(r.0 as int) <= RATIO_MAX && 1 <= r.1 <= RATIO_MAX
}

pub fn ratio_le(a: (i64, i64), b: (i64, i64)) -> (r: bool)
    requires
        ratio_ok(a),
        ratio_ok(b),
    ensures
        r == rle(ratio_view(a), ratio_view(b)),
{
    proof {
        crate::math::lemma_mul_abs_bound(a.0 as int, b.1 as int, RATIO_MAX as int, RATIO_MAX as int);
        crate::math::lemma_mul_abs_bound(b.0 as int, a.1 as int, RATIO_MAX as int, RATIO_MAX as int);
    }
    (a.0 as i128) * (b.1 as i128) <= (b.0 as i128) * (a.1 as i128)
}

pub fn ratio_max(a: (i64, i64), b: (i64, i64)) -> (r: (i64, i64))
    requires
        ratio_ok(a),
        ratio_ok(b),
    ensures
        ratio_view(r) == rmax(ratio_view(a), ratio_view(b)),
        ratio_ok(r),
{
    if ratio_le(a, b) {
        b
    } else {
        a
    }
}

pub fn ratio_min(a: (i64, i64), b: (i64, i64)) -> (r: (i64, i64))
    requires
        ratio_ok(a),
        ratio_ok(b),
    ensures
        ratio_view(r) == rmin(ratio_view(a), ratio_view(b)),
        ratio_ok(r),
{
    if ratio_le(a, b) {
        a
    } else {
        b
    }
}

/// Entry and exit parameters of a ray for the slab of one axis, given the
/// near and the far face as the ray's sign bit picks them, and whether a
/// ray parallel to the slab starts outside it.
fn slab(near: i64, far: i64, o: i64, d: i64, sign: usize) -> (r: ((i64, i64), (i64, i64), bool))
    requires
        abs(near as int) <= POINT_MAX,
        abs(far as int) <= POINT_MAX,
        abs(o as int) <= POINT_MAX,
        abs(d as int) <= POINT_MAX,
        sign == crate::ray::sign_of(d as int),
    ensures
        ({
            let (lo, hi) = if sign == 0 {
                (near as int, far as int)
            } else {
                (far as int, near as int)
            };
            &&& ratio_view(r.0) == slab_enter(lo, hi, o as int, d as int)
            &&& ratio_view(r.1) == slab_exit(lo, hi, o as int, d as int)
            &&& r.2 == slab_blocked(lo, hi, o as int, d as int)
        }),
        ratio_ok(r.0),
        ratio_ok(r.1),
{
    if d > 0 {
        ((near - o, d), (far - o, d), false)
    } else if d < 0 {
        ((o - near, -d), (o - far, -d), false)
    } else {
        ((0, 1), (T_LIMIT, 1), !(near <= o && o <= far))
    }
}

pub proof fn lemma_rle_trans(a: Ratio, b: Ratio, c: Ratio)
    requires
        a.1 > 0,
        b.1 > 0,
        c.1 > 0,
        rle(a, b),
        rle(b, c),
    ensures
        rle(a, c),
{
    assert(a.0 * b.1 * c.1 <= b.0 * a.1 * c.1) by (nonlinear_arith)
        requires
            a.0 * b.1 <= b.0 * a.1,
            c.1 > 0,
    ;
    assert(b.0 * c.1 * a.1 <= c.0 * b.1 * a.1) by (nonlinear_arith)
        requires
            b.0 * c.1 <= c.0 * b.1,
            a.1 > 0,
    ;
    assert(a.0 * c.1 <= c.0 * a.1) by (nonlinear_arith)
        requires
            a.0 * b.1 * c.1 <= b.0 * a.1 * c.1,
            b.0 * c.1 * a.1 <= c.0 * b.1 * a.1,
            b.1 > 0,
    ;
}

proof fn lemma_rle_refl(a: Ratio)
    ensures
        rle(a, a),
{
}

/// Per axis: a point at a positive parameter lies in the slab exactly when
/// the slab does not block the ray and the parameter lies between entry and
/// exit (for a slab parallel to the ray, below `T_LIMIT`).
proof fn lemma_axis(lo: int, hi: int, o: int, d: int, num: int, den: int)
    requires
        den > 0,
        num > 0,
    ensures
        axis_within(lo, hi, o, d, num, den) <==> (!slab_blocked(lo, hi, o, d) && rle(
            slab_enter(lo, hi, o, d),
            (num, den),
        ) && (d != 0 ==> rle((num, den), slab_exit(lo, hi, o, d)))),
        d == 0 && !slab_blocked(lo, hi, o, d) ==> axis_within(lo, hi, o, d, num, den),
{
    assert((lo - o) * den == lo * den - o * den) by (nonlinear_arith);
    assert((hi - o) * den == hi * den - o * den) by (nonlinear_arith);
    assert((o - hi) * den == o * den - hi * den) by (nonlinear_arith);
    assert((o - lo) * den == o * den - lo * den) by (nonlinear_arith);
    assert(num * (-d) == -(num * d)) by (nonlinear_arith);
    assert(num * d == d * num) by (nonlinear_arith);
    if d == 0 {
        assert(num * d == 0) by (nonlinear_arith)
            requires
                d == 0,
        ;
        assert((lo <= o) <==> (lo * den <= o * den)) by (nonlinear_arith)
            requires
                den > 0,
        ;
        assert((o <= hi) <==> (o * den <= hi * den)) by (nonlinear_arith)
            requires
                den > 0,
        ;
        assert(0 * den <= num * 1);
    }
}

/// An exit parameter of a moving axis is at most `2 * POINT_MAX`.
proof fn lemma_exit_small(lo: int, hi: int, o: int, d: int, num: int, den: int)
    requires
        abs(lo) <= POINT_MAX,
        abs(hi) <= POINT_MAX,
        abs(o) <= POINT_MAX,
        d != 0,
        den > 0,
        num > 0,
        rle((num, den), slab_exit(lo, hi, o, d)),
    ensures
        rle((num, den), (T_LIMIT as int, 1)),
{
    let e = slab_exit(lo, hi, o, d);
    assert(e.1 >= 1);
    assert(e.0 <= 2 * POINT_MAX);
    assert(num <= num * e.1) by (nonlinear_arith)
        requires
            num > 0,
            e.1 >= 1,
    ;
    assert(e.0 * den <= T_LIMIT * den) by (nonlinear_arith)
        requires
            e.0 <= 2 * POINT_MAX,
            den > 0,
    ;
}

proof fn lemma_rmax_bounds(a: Ratio, b: Ratio)
    ensures
        rle(a, rmax(a, b)),
        rle(b, rmax(a, b)),
        rmax(a, b) == a || rmax(a, b) == b,
{
}

proof fn lemma_rmin_bounds(a: Ratio, b: Ratio)
    ensures
        rle(rmin(a, b), a),
        rle(rmin(a, b), b),
        rmin(a, b) == a || rmin(a, b) == b,
{
}

/// The slab method decides exactly whether the ray meets the box.
pub proof fn lemma_slab_test_iff(
    lo: (int, int, int),
    hi: (int, int, int),
    o: (int, int, int),
    d: (int, int, int),
)
    requires
        vec_in_range(lo, POINT_MAX as int),
        vec_in_range(hi, POINT_MAX as int),
        vec_in_range(o, POINT_MAX as int),
        vec_in_range(d, POINT_MAX as int),
    ensures
        slab_test(lo, hi, o, d) == ray_meets_box(lo, hi, o, d),
{
    let e0 = slab_enter(lo.0, hi.0, o.0, d.0);
    let e1 = slab_enter(lo.1, hi.1, o.1, d.1);
    let e2 = slab_enter(lo.2, hi.2, o.2, d.2);
    let x0 = slab_exit(lo.0, hi.0, o.0, d.0);
    let x1 = slab_exit(lo.1, hi.1, o.1, d.1);
    let x2 = slab_exit(lo.2, hi.2, o.2, d.2);
    let enter = rmax(rmax(e0, e1), e2);
    let exit = rmin(rmin(x0, x1), x2);
    lemma_rmax_bounds(e0, e1);
    lemma_rmax_bounds(rmax(e0, e1), e2);
    lemma_rmin_bounds(x0, x1);
    lemma_rmin_bounds(rmin(x0, x1), x2);
    assert(enter.1 > 0 && exit.1 > 0);
    if slab_test(lo, hi, o, d) {
        let t: Ratio = if enter.0 > 0 {
            enter
        } else {
            exit
        };
        assert(t.0 > 0 && t.1 > 0);
        lemma_rle_refl(t);
        assert(rle(enter, t));
        assert(rle(t, exit));
        lemma_rle_trans(e0, rmax(e0, e1), enter);
        lemma_rle_trans(e1, rmax(e0, e1), enter);
        lemma_rle_trans(e0, enter, t);
        lemma_rle_trans(e1, enter, t);
        lemma_rle_trans(e2, enter, t);
        lemma_rle_trans(exit, rmin(x0, x1), x0);
        lemma_rle_trans(exit, rmin(x0, x1), x1);
        lemma_rle_trans(t, exit, x0);
        lemma_rle_trans(t, exit, x1);
        lemma_rle_trans(t, exit, x2);
        lemma_axis(lo.0, hi.0, o.0, d.0, t.0, t.1);
        lemma_axis(lo.1, hi.1, o.1, d.1, t.0, t.1);
        lemma_axis(lo.2, hi.2, o.2, d.2, t.0, t.1);
        assert(point_at_in_box(lo, hi, o, d, t.0, t.1));
    }
    if ray_meets_box(lo, hi, o, d) {
        let (num, den) = choose|num: int, den: int|
            num > 0 && den > 0 && #[trigger] point_at_in_box(lo, hi, o, d, num, den);
        let t: Ratio = (num, den);
        lemma_axis(lo.0, hi.0, o.0, d.0, num, den);
        lemma_axis(lo.1, hi.1, o.1, d.1, num, den);
        lemma_axis(lo.2, hi.2, o.2, d.2, num, den);
        if d.0 == 0 && d.1 == 0 && d.2 == 0 {
            assert(enter == (0int, 1int));
            assert(exit == (T_LIMIT as int, 1int));
        } else {
            // some moving axis bounds the parameter, so the parallel axes'
            // exit `T_LIMIT` does too
            if d.0 != 0 {
                lemma_exit_small(lo.0, hi.0, o.0, d.0, num, den);
            } else if d.1 != 0 {
                lemma_exit_small(lo.1, hi.1, o.1, d.1, num, den);
            } else {
                lemma_exit_small(lo.2, hi.2, o.2, d.2, num, den);
            }
            assert(rle(t, x0) && rle(t, x1) && rle(t, x2));
            assert(rle(e0, t) && rle(e1, t) && rle(e2, t));
            let m01 = rmax(e0, e1);
            assert(rle(m01, t));
            assert(rle(enter, t));
            let n01 = rmin(x0, x1);
            assert(rle(t, n01));
            assert(rle(t, exit));
            lemma_rle_trans(enter, t, exit);
            assert(num * exit.1 <= exit.0 * den);
            assert(num * exit.1 > 0) by (nonlinear_arith)
                requires
                    num > 0,
                    exit.1 > 0,
            ;
            assert(exit.0 > 0) by (nonlinear_arith)
                requires
                    exit.0 * den > 0,
                    den > 0,
            ;
        }
    }
}

} // verus!
