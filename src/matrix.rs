use vstd::prelude::*;

use crate::math::{abs, div_round, div_trunc, Point3, POINT_MAX, SCALE};

verus! {

/// Largest magnitude of a matrix entry (fixed-point).
pub const ENTRY_MAX: i64 = 16777216;

/// The matrix could not be inverted: it is singular, or an entry of its
/// inverse is out of range.
#[derive(Clone, Copy, Debug, PartialEq, Eq, Structural)]
pub enum InverseError {
    Singular,
    OutOfRange,
}

/// A 4x4 matrix of fixed-point entries, rows outside and columns inside.
/// Points are row vectors multiplied on the left, so the translation sits in
/// the last row.
#[derive(Clone, Copy, Debug, PartialEq, Eq)]
pub struct Matrix4 {
    pub data: [[i64; 4]; 4],
}

/// The `k`-th of the three indices other than `skip`.
pub open spec fn other(skip: int, k: int) -> int {
    if k < skip {
        k
    } else {
        k + 1
    }
}

pub open spec fn det3(
    a: int,
    b: int,
    c: int,
    d: int,
    e: int,
    f: int,
    g: int,
    h: int,
    i: int,
) -> int {
    a * (e * i - f * h) - b * (d * i - f * g) + c * (d * h - e * g)
}

pub open spec fn entry(m: [[i64; 4]; 4], r: int, c: int) -> int {
    m[r][c] as int
}

/// The determinant of `m` without row `r` and column `c`.
pub open spec fn minor(m: [[i64; 4]; 4], r: int, c: int) -> int {
    let (r0, r1, r2) = (other(r, 0), other(r, 1), other(r, 2));
    let (c0, c1, c2) = (other(c, 0), other(c, 1), other(c, 2));
    det3(
        entry(m, r0, c0),
        entry(m, r0, c1),
        entry(m, r0, c2),
        entry(m, r1, c0),
        entry(m, r1, c1),
        entry(m, r1, c2),
        entry(m, r2, c0),
        entry(m, r2, c1),
        entry(m, r2, c2),
    )
}

pub open spec fn cofactor(m: [[i64; 4]; 4], r: int, c: int) -> int {
    if (r + c) % 2 == 0 {
        minor(m, r, c)
    } else {
        -minor(m, r, c)
    }
}

/// The determinant, by expansion along the first row (raw entries).
pub open spec fn determinant(m: [[i64; 4]; 4]) -> int {
    entry(m, 0, 0) * cofactor(m, 0, 0) + entry(m, 0, 1) * cofactor(m, 0, 1) + entry(m, 0, 2)
        * cofactor(m, 0, 2) + entry(m, 0, 3) * cofactor(m, 0, 3)
}

/// Entry `(r, c)` of the inverse, fixed-point: the cofactor of `(c, r)` over
/// the determinant, rounded to the nearest.
pub open spec fn inverse_entry(m: [[i64; 4]; 4], r: int, c: int) -> int {
    let d = determinant(m);
    if d > 0 {
        div_round(cofactor(m, c, r) * SCALE * SCALE, d)
    } else {
        div_round(-cofactor(m, c, r) * SCALE * SCALE, -d)
    }
}

pub open spec fn entries_in(m: [[i64; 4]; 4], bound: int) -> bool {
    forall|r: int, c: int| 0 <= r < 4 && 0 <= c < 4 ==> abs(#[trigger] entry(m, r, c)) <= bound
}

fn det3_exec(a: i64, b: i64, c: i64, d: i64, e: i64, f: i64, g: i64, h: i64, i: i64) -> (r: i128)
    requires
        abs(a as int) <= ENTRY_MAX,
        abs(b as int) <= ENTRY_MAX,
        abs(c as int) <= ENTRY_MAX,
        abs(d as int) <= ENTRY_MAX,
        abs(e as int) <= ENTRY_MAX,
        abs(f as int) <= ENTRY_MAX,
        abs(g as int) <= ENTRY_MAX,
        abs(h as int) <= ENTRY_MAX,
        abs(i as int) <= ENTRY_MAX,
    ensures
        r == det3(a as int, b as int, c as int, d as int, e as int, f as int, g as int, h as int, i as int),
        abs(r as int) <= 6 * ENTRY_MAX * ENTRY_MAX * ENTRY_MAX,
{
    let ghost m = ENTRY_MAX as int;
    proof {
        crate::math::lemma_mul_abs_bound(e as int, i as int, m, m);
        crate::math::lemma_mul_abs_bound(f as int, h as int, m, m);
        crate::math::lemma_mul_abs_bound(d as int, i as int, m, m);
        crate::math::lemma_mul_abs_bound(f as int, g as int, m, m);
        crate::math::lemma_mul_abs_bound(d as int, h as int, m, m);
        crate::math::lemma_mul_abs_bound(e as int, g as int, m, m);
        crate::math::lemma_mul_abs_bound(a as int, e * i - f * h, m, 2 * m * m);
        crate::math::lemma_mul_abs_bound(b as int, d * i - f * g, m, 2 * m * m);
        crate::math::lemma_mul_abs_bound(c as int, d * h - e * g, m, 2 * m * m);
        assert(m * (2 * m * m) == 2 * m * m * m) by (nonlinear_arith);
    }
    let (a, b, c, d, e, f, g, h, i) = (
        a as i128,
        b as i128,
        c as i128,
        d as i128,
        e as i128,
        f as i128,
        g as i128,
        h as i128,
        i as i128,
    );
    a * (e * i - f * h) - b * (d * i - f * g) + c * (d * h - e * g)
}

impl Matrix4 {
    pub open spec fn wf(&self) -> bool {
        entries_in(self.data, ENTRY_MAX as int)
    }

    pub fn new(data: [[i64; 4]; 4]) -> (m: Matrix4)
        ensures
            m.data == data,
    {
        Matrix4 { data }
    }

    pub fn identity() -> (m: Matrix4)
        ensures
            forall|r: int, c: int|
                0 <= r < 4 && 0 <= c < 4 ==> #[trigger] entry(m.data, r, c) == if r == c {
                    SCALE as int
                } else {
                    0
                },
            m.wf(),
    {
        let s = SCALE;
        Matrix4 { data: [[s, 0, 0, 0], [0, s, 0, 0], [0, 0, s, 0], [0, 0, 0, s]] }
    }

    /// Moves points by `(x, y, z)`.
    pub fn translate(x: i64, y: i64, z: i64) -> (m: Matrix4)
        ensures
            m.data == [[SCALE, 0, 0, 0], [0, SCALE, 0, 0], [0, 0, SCALE, 0], [x, y, z, SCALE]],
    {
        let s = SCALE;
        Matrix4 { data: [[s, 0, 0, 0], [0, s, 0, 0], [0, 0, s, 0], [x, y, z, s]] }
    }

    /// Scales points by `(x, y, z)` about the origin.
    pub fn scale(x: i64, y: i64, z: i64) -> (m: Matrix4)
        ensures
            m.data == [[x, 0, 0, 0], [0, y, 0, 0], [0, 0, z, 0], [0, 0, 0, SCALE]],
    {
        Matrix4 { data: [[x, 0, 0, 0], [0, y, 0, 0], [0, 0, z, 0], [0, 0, 0, SCALE]] }
    }

    /// Scales points by `s` about the origin on every axis.
    pub fn scale_uniform(s: i64) -> (m: Matrix4)
        ensures
            m.data == [[s, 0, 0, 0], [0, s, 0, 0], [0, 0, s, 0], [0, 0, 0, SCALE]],
    {
        Matrix4::scale(s, s, s)
    }

    pub fn at(&self, r: usize, c: usize) -> (v: i64)
        requires
            r < 4,
            c < 4,
        ensures
            v == entry(self.data, r as int, c as int),
    {
        self.data[r][c]
    }

    /// Row `r`.
    pub fn row(&self, r: usize) -> (v: [i64; 4])
        requires
            r < 4,
        ensures
            v == self.data[r as int],
    {
        self.data[r]
    }

    /// Sets entry `(r, c)` to `v`.
    pub fn set(&mut self, r: usize, c: usize, v: i64)
        requires
            r < 4,
            c < 4,
        ensures
            forall|i: int, j: int|
                0 <= i < 4 && 0 <= j < 4 ==> #[trigger] entry(final(self).data, i, j) == if i == r
                    && j == c {
                    v as int
                } else {
                    entry(old(self).data, i, j)
                },
    {
        let mut row = self.data[r];
        row[c] = v;
        self.data[r] = row;
    }

    pub fn transpose(&self) -> (m: Matrix4)
        ensures
            forall|r: int, c: int|
                0 <= r < 4 && 0 <= c < 4 ==> #[trigger] entry(m.data, r, c) == entry(self.data, c, r),
            self.wf() ==> m.wf(),
    {
        let d = self.data;
        let m = Matrix4 {
            data: [
                [d[0][0], d[1][0], d[2][0], d[3][0]],
                [d[0][1], d[1][1], d[2][1], d[3][1]],
                [d[0][2], d[1][2], d[2][2], d[3][2]],
                [d[0][3], d[1][3], d[2][3], d[3][3]],
            ],
        };
        proof {
            if self.wf() {
                assert forall|r: int, c: int| 0 <= r < 4 && 0 <= c < 4 implies abs(#[trigger] entry(m.data, r, c))
                    <= ENTRY_MAX by {
                    assert(abs(entry(self.data, c, r)) <= ENTRY_MAX);
                }
            }
        }
        m
    }

    /// The fixed-point product, each entry rounded toward zero.
    pub fn mul(&self, o: &Matrix4) -> (m: Matrix4)
        requires
            self.wf(),
            o.wf(),
        ensures
            forall|r: int, c: int|
                0 <= r < 4 && 0 <= c < 4 ==> #[trigger] entry(m.data, r, c) == div_trunc(
                    entry(self.data, r, 0) * entry(o.data, 0, c) + entry(self.data, r, 1) * entry(
                        o.data,
                        1,
                        c,
                    ) + entry(self.data, r, 2) * entry(o.data, 2, c) + entry(self.data, r, 3)
                        * entry(o.data, 3, c),
                    SCALE as int,
                ),
    {
        let mut data = [[0i64; 4]; 4];
        let mut r: usize = 0;
        while r < 4
            invariant
                0 <= r <= 4,
                self.wf(),
                o.wf(),
                forall|i: int, c: int|
                    0 <= i < r && 0 <= c < 4 ==> #[trigger] entry(data, i, c) == div_trunc(
                        entry(self.data, i, 0) * entry(o.data, 0, c) + entry(self.data, i, 1)
                            * entry(o.data, 1, c) + entry(self.data, i, 2) * entry(o.data, 2, c)
                            + entry(self.data, i, 3) * entry(o.data, 3, c),
                        SCALE as int,
                    ),
            decreases 4 - r,
        {
            let mut row = [0i64; 4];
            let mut c: usize = 0;
            while c < 4
                invariant
                    0 <= c <= 4,
                    r < 4,
                    self.wf(),
                    o.wf(),
                    forall|i: int, c: int|
                        0 <= i < r && 0 <= c < 4 ==> #[trigger] entry(data, i, c) == div_trunc(
                            entry(self.data, i, 0) * entry(o.data, 0, c) + entry(self.data, i, 1)
                                * entry(o.data, 1, c) + entry(self.data, i, 2) * entry(o.data, 2, c)
                                + entry(self.data, i, 3) * entry(o.data, 3, c),
                            SCALE as int,
                        ),
                    forall|j: int|
                        0 <= j < c ==> #[trigger] row[j] as int == div_trunc(
                            entry(self.data, r as int, 0) * entry(o.data, 0, j) + entry(
                                self.data,
                                r as int,
                                1,
                            ) * entry(o.data, 1, j) + entry(self.data, r as int, 2) * entry(
                                o.data,
                                2,
                                j,
                            ) + entry(self.data, r as int, 3) * entry(o.data, 3, j),
                            SCALE as int,
                        ),
                decreases 4 - c,
            {
                let ghost e = ENTRY_MAX as int;
                proof {
                    assert(abs(entry(self.data, r as int, 0)) <= e);
                    assert(abs(entry(self.data, r as int, 1)) <= e);
                    assert(abs(entry(self.data, r as int, 2)) <= e);
                    assert(abs(entry(self.data, r as int, 3)) <= e);
                    assert(abs(entry(o.data, 0, c as int)) <= e);
                    assert(abs(entry(o.data, 1, c as int)) <= e);
                    assert(abs(entry(o.data, 2, c as int)) <= e);
                    assert(abs(entry(o.data, 3, c as int)) <= e);
                    crate::math::lemma_mul_abs_bound(entry(self.data, r as int, 0), entry(o.data, 0, c as int), e, e);
                    crate::math::lemma_mul_abs_bound(entry(self.data, r as int, 1), entry(o.data, 1, c as int), e, e);
                    crate::math::lemma_mul_abs_bound(entry(self.data, r as int, 2), entry(o.data, 2, c as int), e, e);
                    crate::math::lemma_mul_abs_bound(entry(self.data, r as int, 3), entry(o.data, 3, c as int), e, e);
                    crate::math::lemma_div_trunc_bound(
                        entry(self.data, r as int, 0) * entry(o.data, 0, c as int) + entry(self.data, r as int, 1)
                            * entry(o.data, 1, c as int) + entry(self.data, r as int, 2) * entry(o.data, 2, c as int)
                            + entry(self.data, r as int, 3) * entry(o.data, 3, c as int),
                        SCALE as int,
                    );
                }
                let sum = (self.data[r][0] as i128) * (o.data[0][c] as i128) + (self.data[r][1] as i128)
                    * (o.data[1][c] as i128) + (self.data[r][2] as i128) * (o.data[2][c] as i128)
                    + (self.data[r][3] as i128) * (o.data[3][c] as i128);
                row[c] = crate::math::div_toward_zero(sum, SCALE as i128) as i64;
                c = c + 1;
            }
            let ghost before = data;
            data[r] = row;
            proof {
                assert forall|i: int, c: int|
                    0 <= i < r + 1 && 0 <= c < 4 implies #[trigger] entry(data, i, c) == div_trunc(
                        entry(self.data, i, 0) * entry(o.data, 0, c) + entry(self.data, i, 1)
                            * entry(o.data, 1, c) + entry(self.data, i, 2) * entry(o.data, 2, c)
                            + entry(self.data, i, 3) * entry(o.data, 3, c),
                        SCALE as int,
                    ) by {
                    if i == r {
                        assert(data[i] == row);
                        assert(row[c] as int == entry(data, i, c));
                    } else {
                        assert(data[i] == before[i]);
                        assert(entry(data, i, c) == entry(before, i, c));
                    }
                }
            }
            r = r + 1;
        }
        Matrix4 { data }
    }

    fn minor_exec(&self, r: usize, c: usize) -> (v: i128)
        requires
            self.wf(),
            r < 4,
            c < 4,
        ensures
            v == minor(self.data, r as int, c as int),
            abs(v as int) <= 6 * ENTRY_MAX * ENTRY_MAX * ENTRY_MAX,
    {
        let r0: usize = if 0 < r { 0 } else { 1 };
        let r1: usize = if 1 < r { 1 } else { 2 };
        let r2: usize = if 2 < r { 2 } else { 3 };
        let c0: usize = if 0 < c { 0 } else { 1 };
        let c1: usize = if 1 < c { 1 } else { 2 };
        let c2: usize = if 2 < c { 2 } else { 3 };
        let d = &self.data;
        proof {
            assert(abs(entry(self.data, r0 as int, c0 as int)) <= ENTRY_MAX);
            assert(abs(entry(self.data, r0 as int, c1 as int)) <= ENTRY_MAX);
            assert(abs(entry(self.data, r0 as int, c2 as int)) <= ENTRY_MAX);
            assert(abs(entry(self.data, r1 as int, c0 as int)) <= ENTRY_MAX);
            assert(abs(entry(self.data, r1 as int, c1 as int)) <= ENTRY_MAX);
            assert(abs(entry(self.data, r1 as int, c2 as int)) <= ENTRY_MAX);
            assert(abs(entry(self.data, r2 as int, c0 as int)) <= ENTRY_MAX);
            assert(abs(entry(self.data, r2 as int, c1 as int)) <= ENTRY_MAX);
            assert(abs(entry(self.data, r2 as int, c2 as int)) <= ENTRY_MAX);
        }
        det3_exec(
            d[r0][c0],
            d[r0][c1],
            d[r0][c2],
            d[r1][c0],
            d[r1][c1],
            d[r1][c2],
            d[r2][c0],
            d[r2][c1],
            d[r2][c2],
        )
    }

    fn cofactor_exec(&self, r: usize, c: usize) -> (v: i128)
        requires
            self.wf(),
            r < 4,
            c < 4,
        ensures
            v == cofactor(self.data, r as int, c as int),
            abs(v as int) <= 6 * ENTRY_MAX * ENTRY_MAX * ENTRY_MAX,
    {
        let m = self.minor_exec(r, c);
        if (r + c) % 2 == 0 {
            m
        } else {
            -m
        }
    }

    /// The inverse, by cofactors over the exact determinant; an error when
    /// the matrix is singular, or when an entry of the inverse exceeds
    /// `ENTRY_MAX`.
    pub fn inverse(&self) -> (r: Result<Matrix4, InverseError>)
        requires
            self.wf(),
        ensures
            r == Err::<Matrix4, InverseError>(InverseError::Singular) <==> determinant(self.data) == 0,
            r matches Ok(m) ==> forall|i: int, j: int|
                0 <= i < 4 && 0 <= j < 4 ==> #[trigger] entry(m.data, i, j) == inverse_entry(self.data, i, j),
            r matches Ok(m) ==> m.wf(),
            r == Err::<Matrix4, InverseError>(InverseError::OutOfRange) ==> exists|i: int, j: int|
                0 <= i < 4 && 0 <= j < 4 && abs(#[trigger] inverse_entry(self.data, i, j)) > ENTRY_MAX,
    {
        let ghost e = ENTRY_MAX as int;
        let c00 = self.cofactor_exec(0, 0);
        let c01 = self.cofactor_exec(0, 1);
        let c02 = self.cofactor_exec(0, 2);
        let c03 = self.cofactor_exec(0, 3);
        proof {
            let k = 6 * e * e * e;
            assert(abs(entry(self.data, 0, 0)) <= e);
            assert(abs(entry(self.data, 0, 1)) <= e);
            assert(abs(entry(self.data, 0, 2)) <= e);
            assert(abs(entry(self.data, 0, 3)) <= e);
            crate::math::lemma_mul_abs_bound(entry(self.data, 0, 0), c00 as int, e, k);
            crate::math::lemma_mul_abs_bound(entry(self.data, 0, 1), c01 as int, e, k);
            crate::math::lemma_mul_abs_bound(entry(self.data, 0, 2), c02 as int, e, k);
            crate::math::lemma_mul_abs_bound(entry(self.data, 0, 3), c03 as int, e, k);
            assert(e * k == 6 * e * e * e * e) by (nonlinear_arith)
                requires
                    k == 6 * e * e * e,
            ;
        }
        let det = (self.data[0][0] as i128) * c00 + (self.data[0][1] as i128) * c01 + (
        self.data[0][2] as i128) * c02 + (self.data[0][3] as i128) * c03;
        if det == 0 {
            return Err(InverseError::Singular);
        }
        let (sign, dpos): (i128, i128) = if det > 0 {
            (1, det)
        } else {
            (-1, -det)
        };
        let mut data = [[0i64; 4]; 4];
        let mut i: usize = 0;
        while i < 4
            invariant
                0 <= i <= 4,
                self.wf(),
                det == determinant(self.data),
                det != 0,
                dpos == abs(det as int),
                sign == (if det > 0 { 1int } else { -1int }),
                abs(det as int) <= 24 * ENTRY_MAX * ENTRY_MAX * ENTRY_MAX * ENTRY_MAX,
                forall|a: int, b: int|
                    0 <= a < i && 0 <= b < 4 ==> #[trigger] entry(data, a, b) == inverse_entry(self.data, a, b),
                forall|a: int, b: int|
                    0 <= a < i && 0 <= b < 4 ==> abs(#[trigger] entry(data, a, b)) <= ENTRY_MAX,
            decreases 4 - i,
        {
            let mut row = [0i64; 4];
            let mut j: usize = 0;
            while j < 4
                invariant
                    0 <= j <= 4,
                    i < 4,
                    self.wf(),
                    det == determinant(self.data),
                    det != 0,
                    dpos == abs(det as int),
                    sign == (if det > 0 { 1int } else { -1int }),
                    forall|a: int, b: int|
                        0 <= a < i && 0 <= b < 4 ==> #[trigger] entry(data, a, b) == inverse_entry(self.data, a, b),
                    forall|b: int| 0 <= b < j ==> #[trigger] row[b] as int == inverse_entry(self.data, i as int, b),
                    forall|a: int, b: int|
                        0 <= a < i && 0 <= b < 4 ==> abs(#[trigger] entry(data, a, b)) <= ENTRY_MAX,
                    forall|b: int| 0 <= b < j ==> abs(#[trigger] row[b] as int) <= ENTRY_MAX,
                decreases 4 - j,
            {
                let cof = self.cofactor_exec(j, i);
                proof {
                    assert(abs(cof * SCALE * SCALE) <= 6 * ENTRY_MAX * ENTRY_MAX * ENTRY_MAX * SCALE
                        * SCALE) by (nonlinear_arith)
                        requires
                            abs(cof as int) <= 6 * ENTRY_MAX * ENTRY_MAX * ENTRY_MAX,
                    ;
                }
                let num0 = cof * (SCALE as i128) * (SCALE as i128);
                let num = if sign > 0 {
                    num0
                } else {
                    -num0
                };
                let h = dpos / 2;
                let q = if num >= 0 {
                    (num + h) / dpos
                } else {
                    -((-num + h) / dpos)
                };
                proof {
                    assert(abs(num as int) <= abs(num as int) * dpos) by (nonlinear_arith)
                        requires
                            dpos >= 1,
                    ;
                    crate::math::lemma_round_bound(num as int, dpos as int, abs(num as int));
                }
                proof {
                    assert(q == inverse_entry(self.data, i as int, j as int));
                }
                if q > ENTRY_MAX as i128 || q < -(ENTRY_MAX as i128) {
                    proof {
                        assert(abs(inverse_entry(self.data, i as int, j as int)) > ENTRY_MAX);
                    }
                    return Err(InverseError::OutOfRange);
                }
                row[j] = q as i64;
                j = j + 1;
            }
            let ghost before = data;
            data[i] = row;
            proof {
                assert forall|a: int, b: int|
                    0 <= a < i + 1 && 0 <= b < 4 implies #[trigger] entry(data, a, b) == inverse_entry(self.data, a, b) by {
                    if a == i {
                        assert(data[a] == row);
                        assert(row[b] as int == inverse_entry(self.data, i as int, b));
                        assert(row[b] as int == entry(data, a, b));
                    } else {
                        assert(data[a] == before[a]);
                        assert(entry(before, a, b) == inverse_entry(self.data, a, b));
                        assert(entry(data, a, b) == entry(before, a, b));
                    }
                }
                assert forall|a: int, b: int|
                    0 <= a < i + 1 && 0 <= b < 4 implies abs(#[trigger] entry(data, a, b)) <= ENTRY_MAX by {
                    if a == i {
                        assert(data[a] == row);
                        assert(abs(row[b] as int) <= ENTRY_MAX);
                    } else {
                        assert(data[a] == before[a]);
                        assert(entry(data, a, b) == entry(before, a, b));
                    }
                }
            }
            i = i + 1;
        }
        Ok(Matrix4 { data })
    }

    /// The point `p` (as a row vector with a fourth coordinate of one)
    /// times the matrix, rounded toward zero; nothing when it leaves the
    /// coordinate range.
    pub fn transform_point(&self, p: &Point3) -> (r: Option<Point3>)
        requires
            self.wf(),
            p.wf(),
        ensures
            ({
                let x = p.x as int;
                let y = p.y as int;
                let z = p.z as int;
                let s = SCALE as int;
                let m = self.data;
                let t = (
                    div_trunc(x * entry(m, 0, 0) + y * entry(m, 1, 0) + z * entry(m, 2, 0) + s * entry(m, 3, 0), s),
                    div_trunc(x * entry(m, 0, 1) + y * entry(m, 1, 1) + z * entry(m, 2, 1) + s * entry(m, 3, 1), s),
                    div_trunc(x * entry(m, 0, 2) + y * entry(m, 1, 2) + z * entry(m, 2, 2) + s * entry(m, 3, 2), s),
                );
                &&& t == self.point_image(p@)
                &&& r.is_some() == crate::math::vec_in_range(t, POINT_MAX as int)
                &&& r matches Some(q) ==> q@ == t
            }),
    {
        let x = self.column_value(p, 0);
        let y = self.column_value(p, 1);
        let z = self.column_value(p, 2);
        let b = POINT_MAX as i128;
        if x < -b || x > b || y < -b || y > b || z < -b || z > b {
            None
        } else {
            Some(Point3::new(x as i64, y as i64, z as i64))
        }
    }

    /// The point transformed as `transform_point` does, in spec form.
    pub open spec fn point_image(&self, p: (int, int, int)) -> (int, int, int) {
        let s = SCALE as int;
        let m = self.data;
        (
            div_trunc(p.0 * entry(m, 0, 0) + p.1 * entry(m, 1, 0) + p.2 * entry(m, 2, 0) + s * entry(m, 3, 0), s),
            div_trunc(p.0 * entry(m, 0, 1) + p.1 * entry(m, 1, 1) + p.2 * entry(m, 2, 1) + s * entry(m, 3, 1), s),
            div_trunc(p.0 * entry(m, 0, 2) + p.1 * entry(m, 1, 2) + p.2 * entry(m, 2, 2) + s * entry(m, 3, 2), s),
        )
    }

    /// The direction `v` times the matrix without its translation, rounded
    /// toward zero, in spec form.
    pub open spec fn vector_image(&self, v: (int, int, int)) -> (int, int, int) {
        let s = SCALE as int;
        let m = self.data;
        (
            div_trunc(v.0 * entry(m, 0, 0) + v.1 * entry(m, 1, 0) + v.2 * entry(m, 2, 0), s),
            div_trunc(v.0 * entry(m, 0, 1) + v.1 * entry(m, 1, 1) + v.2 * entry(m, 2, 1), s),
            div_trunc(v.0 * entry(m, 0, 2) + v.1 * entry(m, 1, 2) + v.2 * entry(m, 2, 2), s),
        )
    }

    /// The direction `v` (a row vector with a fourth coordinate of zero)
    /// times the matrix, rounded toward zero.
    pub fn transform_vector(&self, v: &crate::math::Vector3) -> (r: crate::math::Vector3)
        requires
            self.wf(),
            crate::math::vec_in_range(v@, POINT_MAX as int),
        ensures
            r@ == self.vector_image(v@),
            crate::math::vec_in_range(r@, crate::math::NORM_MAX as int),
            crate::math::vec_in_range(v@, SCALE as int) ==> crate::math::vec_in_range(r@, 3 * ENTRY_MAX),
    {
        let x = self.column_vector(v, 0);
        let y = self.column_vector(v, 1);
        let z = self.column_vector(v, 2);
        crate::math::Vector3::new(x, y, z)
    }

    fn column_vector(&self, v: &crate::math::Vector3, c: usize) -> (r: i64)
        requires
            self.wf(),
            crate::math::vec_in_range(v@, POINT_MAX as int),
            c < 3,
        ensures
            r == div_trunc(
                v.x * entry(self.data, 0, c as int) + v.y * entry(self.data, 1, c as int) + v.z
                    * entry(self.data, 2, c as int),
                SCALE as int,
            ),
            abs(r as int) <= crate::math::NORM_MAX,
            crate::math::vec_in_range(v@, SCALE as int) ==> abs(r as int) <= 3 * ENTRY_MAX,
    {
        let ghost e = ENTRY_MAX as int;
        let ghost s = POINT_MAX as int;
        proof {
            if crate::math::vec_in_range(v@, SCALE as int) {
                let u = SCALE as int;
                assert(abs(entry(self.data, 0, c as int)) <= e);
                assert(abs(entry(self.data, 1, c as int)) <= e);
                assert(abs(entry(self.data, 2, c as int)) <= e);
                crate::math::lemma_mul_abs_bound(v.x as int, entry(self.data, 0, c as int), u, e);
                crate::math::lemma_mul_abs_bound(v.y as int, entry(self.data, 1, c as int), u, e);
                crate::math::lemma_mul_abs_bound(v.z as int, entry(self.data, 2, c as int), u, e);
                crate::math::lemma_quotient_bound(
                    v.x * entry(self.data, 0, c as int) + v.y * entry(self.data, 1, c as int) + v.z
                        * entry(self.data, 2, c as int),
                    u,
                    3 * e,
                );
            }
            assert(abs(entry(self.data, 0, c as int)) <= e);
            assert(abs(entry(self.data, 1, c as int)) <= e);
            assert(abs(entry(self.data, 2, c as int)) <= e);
            crate::math::lemma_mul_abs_bound(v.x as int, entry(self.data, 0, c as int), s, e);
            crate::math::lemma_mul_abs_bound(v.y as int, entry(self.data, 1, c as int), s, e);
            crate::math::lemma_mul_abs_bound(v.z as int, entry(self.data, 2, c as int), s, e);
            crate::math::lemma_div_trunc_bound(
                v.x * entry(self.data, 0, c as int) + v.y * entry(self.data, 1, c as int) + v.z
                    * entry(self.data, 2, c as int),
                SCALE as int,
            );
        }
        let d = &self.data;
        let sum = (v.x as i128) * (d[0][c] as i128) + (v.y as i128) * (d[1][c] as i128) + (
        v.z as i128) * (d[2][c] as i128);
        crate::math::div_toward_zero(sum, SCALE as i128) as i64
    }

    fn column_value(&self, p: &Point3, c: usize) -> (v: i128)
        requires
            self.wf(),
            p.wf(),
            c < 3,
        ensures
            v == div_trunc(
                p.x * entry(self.data, 0, c as int) + p.y * entry(self.data, 1, c as int) + p.z
                    * entry(self.data, 2, c as int) + SCALE * entry(self.data, 3, c as int),
                SCALE as int,
            ),
    {
        let ghost e = ENTRY_MAX as int;
        let ghost pm = POINT_MAX as int;
        proof {
            assert(abs(entry(self.data, 0, c as int)) <= e);
            assert(abs(entry(self.data, 1, c as int)) <= e);
            assert(abs(entry(self.data, 2, c as int)) <= e);
            assert(abs(entry(self.data, 3, c as int)) <= e);
            crate::math::lemma_mul_abs_bound(p.x as int, entry(self.data, 0, c as int), pm, e);
            crate::math::lemma_mul_abs_bound(p.y as int, entry(self.data, 1, c as int), pm, e);
            crate::math::lemma_mul_abs_bound(p.z as int, entry(self.data, 2, c as int), pm, e);
            crate::math::lemma_mul_abs_bound(SCALE as int, entry(self.data, 3, c as int), pm, e);
        }
        let d = &self.data;
        let sum = (p.x as i128) * (d[0][c] as i128) + (p.y as i128) * (d[1][c] as i128) + (
        p.z as i128) * (d[2][c] as i128) + (SCALE as i128) * (d[3][c] as i128);
        crate::math::div_toward_zero(sum, SCALE as i128)
    }
}

} // verus!
