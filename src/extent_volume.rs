use vstd::prelude::*;

use crate::aabb::{ratio_le, ratio_max, ratio_min, ratio_ok, ratio_view, rle, rmax, rmin, Ratio};
use crate::math::{abs, dot, vec_in_range, POINT_MAX};
use crate::ray::Ray;
use crate::triangle::{vertex_ok, Triangle};

verus! {

/// Number of slabs of an extent volume.
pub const NUM_PLANES: usize = 7;

/// Bounds every distance of a vertex along a plane normal; also the start
/// of an empty volume.
pub const EXTENT_LIMIT: i64 = 1610612736;

/// Exceeds every finite entry or exit parameter of a slab.
pub const PARAMETER_LIMIT: i64 = 17179869184;

/// The seven slab normals of Kay and Kajiya: the three axes and the four
/// diagonals (not normalized: a slab test does not need unit normals).
pub open spec fn plane_normal(i: int) -> (int, int, int) {
    if i == 0 {
        (1, 0, 0)
    } else if i == 1 {
        (0, 1, 0)
    } else if i == 2 {
        (0, 0, 1)
    } else if i == 3 {
        (1, 1, 1)
    } else if i == 4 {
        (-1, 1, 1)
    } else if i == 5 {
        (-1, -1, 1)
    } else {
        (1, -1, 1)
    }
}

fn plane_normal_exec(i: usize) -> (r: (i64, i64, i64))
    requires
        i < NUM_PLANES,
    ensures
        (r.0 as int, r.1 as int, r.2 as int) == plane_normal(i as int),
{
    if i == 0 {
        (1, 0, 0)
    } else if i == 1 {
        (0, 1, 0)
    } else if i == 2 {
        (0, 0, 1)
    } else if i == 3 {
        (1, 1, 1)
    } else if i == 4 {
        (-1, 1, 1)
    } else if i == 5 {
        (-1, -1, 1)
    } else {
        (1, -1, 1)
    }
}

proof fn lemma_along(i: int, v: (int, int, int))
    requires
        0 <= i < 7,
    ensures
        dot(plane_normal(i), v) == (if i == 0 {
            v.0
        } else if i == 1 {
            v.1
        } else if i == 2 {
            v.2
        } else if i == 3 {
            v.0 + v.1 + v.2
        } else if i == 4 {
            -v.0 + v.1 + v.2
        } else if i == 5 {
            -v.0 - v.1 + v.2
        } else {
            v.0 - v.1 + v.2
        }),
{
    let n = plane_normal(i);
    assert(n.0 == 1 || n.0 == 0 || n.0 == -1);
    assert(1 * v.0 == v.0 && 0 * v.0 == 0 && -1 * v.0 == -v.0) by (nonlinear_arith);
    assert(1 * v.1 == v.1 && 0 * v.1 == 0 && -1 * v.1 == -v.1) by (nonlinear_arith);
    assert(1 * v.2 == v.2 && 0 * v.2 == 0 && -1 * v.2 == -v.2) by (nonlinear_arith);
}

/// The distance of `v` along plane normal `i`.
fn along(i: usize, v: (i64, i64, i64)) -> (r: i64)
    requires
        i < NUM_PLANES,
        abs(v.0 as int) <= POINT_MAX,
        abs(v.1 as int) <= POINT_MAX,
        abs(v.2 as int) <= POINT_MAX,
    ensures
        r == dot(plane_normal(i as int), (v.0 as int, v.1 as int, v.2 as int)),
        abs(r as int) <= abs(v.0 as int) + abs(v.1 as int) + abs(v.2 as int),
{
    proof {
        lemma_along(i as int, (v.0 as int, v.1 as int, v.2 as int));
    }
    if i == 0 {
        v.0
    } else if i == 1 {
        v.1
    } else if i == 2 {
        v.2
    } else if i == 3 {
        v.0 + v.1 + v.2
    } else if i == 4 {
        -v.0 + v.1 + v.2
    } else if i == 5 {
        -v.0 - v.1 + v.2
    } else {
        v.0 - v.1 + v.2
    }
}

/// The extent of a set of triangles along seven plane normals: for each,
/// the least and the greatest distance of a vertex.
#[derive(Clone, Copy, Debug)]
pub struct ExtentVolume {
    pub near: [i64; 7],
    pub far: [i64; 7],
}

/// Slab `i` of `(near, far)` against the ray: its entry and exit parameters
/// (the whole line for a ray parallel to it) and whether a parallel ray
/// starts outside it.
pub open spec fn ev_enter(near: int, far: int, num: int, den: int) -> Ratio {
    if den > 0 {
        (near - num, den)
    } else if den < 0 {
        (num - far, -den)
    } else {
        (-PARAMETER_LIMIT as int, 1)
    }
}

pub open spec fn ev_exit(near: int, far: int, num: int, den: int) -> Ratio {
    if den > 0 {
        (far - num, den)
    } else if den < 0 {
        (num - near, -den)
    } else {
        (PARAMETER_LIMIT as int, 1)
    }
}

pub open spec fn ev_blocked(near: int, far: int, num: int, den: int) -> bool {
    den == 0 && !(near <= num && num <= far)
}

impl ExtentVolume {
    pub open spec fn wf(&self) -> bool {
        forall|i: int|
            0 <= i < 7 ==> abs(#[trigger] self.near[i] as int) <= EXTENT_LIMIT && abs(
                self.far[i] as int,
            ) <= EXTENT_LIMIT
    }

    pub open spec fn enter(&self, ray: Ray, i: int) -> Ratio {
        ev_enter(
            self.near[i] as int,
            self.far[i] as int,
            dot(plane_normal(i), ray.origin@),
            dot(plane_normal(i), ray.direction@),
        )
    }

    pub open spec fn exit(&self, ray: Ray, i: int) -> Ratio {
        ev_exit(
            self.near[i] as int,
            self.far[i] as int,
            dot(plane_normal(i), ray.origin@),
            dot(plane_normal(i), ray.direction@),
        )
    }

    pub open spec fn blocked(&self, ray: Ray, i: int) -> bool {
        ev_blocked(
            self.near[i] as int,
            self.far[i] as int,
            dot(plane_normal(i), ray.origin@),
            dot(plane_normal(i), ray.direction@),
        )
    }

    /// The latest entry over the first `k` slabs.
    pub open spec fn latest_enter(&self, ray: Ray, k: nat) -> Ratio
        decreases k,
    {
        if k == 0 {
            (-PARAMETER_LIMIT as int, 1)
        } else {
            rmax(self.latest_enter(ray, (k - 1) as nat), self.enter(ray, k - 1))
        }
    }

    /// The earliest exit over the first `k` slabs.
    pub open spec fn earliest_exit(&self, ray: Ray, k: nat) -> Ratio
        decreases k,
    {
        if k == 0 {
            (PARAMETER_LIMIT as int, 1)
        } else {
            rmin(self.earliest_exit(ray, (k - 1) as nat), self.exit(ray, k - 1))
        }
    }

    /// The extent of the triangles' vertices; with no triangles every slab
    /// is empty (its near side beyond its far side).
    pub fn from_triangles(ts: &Vec<Triangle>) -> (ev: ExtentVolume)
        requires
            forall|i: int| 0 <= i < ts@.len() ==> (#[trigger] ts@[i]).wf(),
        ensures
            ev.wf(),
            forall|t: int, v: int, i: int|
                0 <= t < ts@.len() && 0 <= v < 3 && 0 <= i < 7 ==> ev.near[i] <= #[trigger] dot(
                    plane_normal(i),
                    ts@[t].vertices[v]@,
                ) <= ev.far[i],
    {
        let mut near = [EXTENT_LIMIT; 7];
        let mut far = [-EXTENT_LIMIT; 7];
        let mut t: usize = 0;
        while t < ts.len()
            invariant
                0 <= t <= ts@.len(),
                forall|i: int| 0 <= i < ts@.len() ==> (#[trigger] ts@[i]).wf(),
                forall|i: int|
                    0 <= i < 7 ==> abs(#[trigger] near[i] as int) <= EXTENT_LIMIT && abs(
                        far[i] as int,
                    ) <= EXTENT_LIMIT,
                forall|a: int, v: int, i: int|
                    0 <= a < t && 0 <= v < 3 && 0 <= i < 7 ==> near[i] <= #[trigger] dot(
                        plane_normal(i),
                        ts@[a].vertices[v]@,
                    ) <= far[i],
            decreases ts@.len() - t,
        {
            let tri = &ts[t];
            let mut v: usize = 0;
            while v < 3
                invariant
                    0 <= v <= 3,
                    t < ts@.len(),
                    tri == &ts@[t as int],
                    tri.wf(),
                    forall|i: int|
                        0 <= i < 7 ==> abs(#[trigger] near[i] as int) <= EXTENT_LIMIT && abs(
                            far[i] as int,
                        ) <= EXTENT_LIMIT,
                    forall|a: int, w: int, i: int|
                        0 <= a < t && 0 <= w < 3 && 0 <= i < 7 ==> near[i] <= #[trigger] dot(
                            plane_normal(i),
                            ts@[a].vertices[w]@,
                        ) <= far[i],
                    forall|w: int, i: int|
                        0 <= w < v && 0 <= i < 7 ==> near[i] <= #[trigger] dot(
                            plane_normal(i),
                            tri.vertices[w]@,
                        ) <= far[i],
                decreases 3 - v,
            {
                let p = tri.vertices[v];
                proof {
                    assert(vertex_ok(tri.vertices[v as int]));
                }
                let mut i: usize = 0;
                while i < NUM_PLANES
                    invariant
                        0 <= i <= 7,
                        v < 3,
                        t < ts@.len(),
                        tri == &ts@[t as int],
                        p == tri.vertices[v as int],
                        vec_in_range(p@, POINT_MAX as int / 2),
                        forall|j: int|
                            0 <= j < 7 ==> abs(#[trigger] near[j] as int) <= EXTENT_LIMIT && abs(
                                far[j] as int,
                            ) <= EXTENT_LIMIT,
                        forall|a: int, w: int, j: int|
                            0 <= a < t && 0 <= w < 3 && 0 <= j < 7 ==> near[j] <= #[trigger] dot(
                                plane_normal(j),
                                ts@[a].vertices[w]@,
                            ) <= far[j],
                        forall|w: int, j: int|
                            0 <= w < v && 0 <= j < 7 ==> near[j] <= #[trigger] dot(
                                plane_normal(j),
                                tri.vertices[w]@,
                            ) <= far[j],
                        forall|j: int|
                            0 <= j < i ==> near[j] <= #[trigger] dot(plane_normal(j), p@) <= far[j],
                    decreases 7 - i,
                {
                    let dist = along(i, (p.x, p.y, p.z));
                    let ghost n0 = near;
                    let ghost f0 = far;
                    if dist < near[i] {
                        near[i] = dist;
                    }
                    if dist > far[i] {
                        far[i] = dist;
                    }
                    proof {
                        assert forall|j: int| 0 <= j < 7 implies abs(#[trigger] near[j] as int)
                            <= EXTENT_LIMIT && abs(far[j] as int) <= EXTENT_LIMIT by {
                            if j != i {
                                assert(near[j] == n0[j] && far[j] == f0[j]);
                            }
                        }
                    }
                    i = i + 1;
                }
                v = v + 1;
            }
            t = t + 1;
        }
        ExtentVolume { near, far }
    }

    /// Whether the ray's line may meet the volume: no slab parallel to the
    /// ray leaves it outside, and the latest entry into a slab comes no
    /// later than the earliest exit.
    pub fn intersect(&self, ray: &Ray) -> (r: bool)
        requires
            self.wf(),
            ray.wf(),
        ensures
            r == ((forall|i: int| 0 <= i < 7 ==> !#[trigger] self.blocked(*ray, i)) && rle(
                self.latest_enter(*ray, 7),
                self.earliest_exit(*ray, 7),
            )),
    {
        let o = ray.origin;
        let d = ray.direction;
        let mut tmin: (i64, i64) = (-PARAMETER_LIMIT, 1);
        let mut tmax: (i64, i64) = (PARAMETER_LIMIT, 1);
        let mut blocked = false;
        let mut i: usize = 0;
        while i < NUM_PLANES
            invariant
                0 <= i <= 7,
                self.wf(),
                ray.wf(),
                o == ray.origin,
                d == ray.direction,
                ratio_ok(tmin),
                ratio_ok(tmax),
                ratio_view(tmin) == self.latest_enter(*ray, i as nat),
                ratio_view(tmax) == self.earliest_exit(*ray, i as nat),
                blocked == exists|j: int| 0 <= j < i && #[trigger] self.blocked(*ray, j),
            decreases 7 - i,
        {
            let num = along(i, (o.x, o.y, o.z));
            let den = along(i, (d.x, d.y, d.z));
            let near = self.near[i];
            let far = self.far[i];
            proof {
                assert(abs(self.near[i as int] as int) <= EXTENT_LIMIT);
            }
            let ghost was_blocked = blocked;
            if den == 0 && !(near <= num && num <= far) {
                blocked = true;
            }
            let (enter, exit): ((i64, i64), (i64, i64)) = if den > 0 {
                ((near - num, den), (far - num, den))
            } else if den < 0 {
                ((num - far, -den), (num - near, -den))
            } else {
                ((-PARAMETER_LIMIT, 1), (PARAMETER_LIMIT, 1))
            };
            proof {
                assert(self.blocked(*ray, i as int) == (den == 0 && !(near <= num && num <= far)));
                if self.blocked(*ray, i as int) {
                    assert(exists|j: int| 0 <= j < i + 1 && #[trigger] self.blocked(*ray, j));
                }
                if blocked && was_blocked {
                    let j = choose|j: int| 0 <= j < i && #[trigger] self.blocked(*ray, j);
                    assert(0 <= j < i + 1);
                }
            }
            tmin = ratio_max(tmin, enter);
            tmax = ratio_min(tmax, exit);
            i = i + 1;
        }
        proof {
            if !blocked {
                assert forall|i: int| 0 <= i < 7 implies !#[trigger] self.blocked(*ray, i) by {}
            }
        }
        !blocked && ratio_le(tmin, tmax)
    }
}

} // verus!
