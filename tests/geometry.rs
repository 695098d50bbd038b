use raytracer::aabb::AABB;
use raytracer::math::{Point3, Vector3, SCALE};
use raytracer::extent_volume::ExtentVolume;
use raytracer::matrix::Matrix4;
use raytracer::mesh::{Mesh, TransformError};
use raytracer::octree::Octree;
use raytracer::ray::Ray;
use raytracer::sphere::{Plane, Sphere};
use raytracer::triangle::{Normal, Triangle};

fn fx(v: f64) -> i64 {
    (v * SCALE as f64).round() as i64
}

fn point(x: f64, y: f64, z: f64) -> Point3 {
    Point3::new(fx(x), fx(y), fx(z))
}

fn v3(x: f64, y: f64, z: f64) -> Vector3 {
    Vector3::new(fx(x), fx(y), fx(z))
}

fn fuzzy_equal(a: Point3, b: Point3) -> bool {
    (a.x - b.x).abs() <= 1 && (a.y - b.y).abs() <= 1 && (a.z - b.z).abs() <= 1
}

fn triangle(a: Point3, b: Point3, c: Point3, normal: Normal) -> Triangle {
    Triangle::new(a, b, c, normal, None, 0)
}

#[test]
fn test_intersects_triangle_aabb_vertex_inside() {
    let aabb = AABB::new(point(-2.0, -2.0, -2.0), point(2.0, 2.0, 2.0));

    let t = triangle(
        Point3::at_origin(),
        point(3.0, 0.0, 0.0),
        point(0.0, 0.0, 3.0),
        Normal::Face(v3(0.0, 1.0, 0.0)),
    );

    assert!(aabb.intersects_triangle_aabb(&t));
}

#[test]
fn test_intersects_triangle_aabb_edge() {
    let aabb = AABB::new(point(-2.0, -2.0, -2.0), point(2.0, 2.0, 2.0));

    let t = triangle(
        point(3.0, 0.0, 0.0),
        point(0.0, 0.0, 3.0),
        point(3.0, 0.0, 3.0),
        Normal::Face(v3(0.0, 1.0, 0.0)),
    );

    assert!(aabb.intersects_triangle_aabb(&t));
}

#[test]
fn test_intersects_triangle_aabb_realistic_trivial() {
    let aabb = AABB::new(point(-0.23978, -0.282958, -0.472247), point(0.207395, 0.422022, 0.527753));

    let t = triangle(
        point(-0.0148929, -0.270744, 0.213293),
        point(-0.0132528, -0.270767, 0.213397),
        point(-0.0146446, -0.270253, 0.214432),
        Normal::Vertex(
            v3(-0.0331532, -0.915051, 0.401972),
            v3(-0.056424, -0.938723, 0.340022),
            v3(-0.114637, -0.897883, 0.425047),
        ),
    );

    assert!(aabb.intersects_triangle_aabb(&t));
}

#[test]
fn test_intersects_triangle_aabb_realistic_1() {
    let aabb = AABB::new(point(-0.23978, -0.282958, -0.472247), point(0.207395, 0.422022, 0.527753));

    let t = triangle(
        point(-0.219407, -0.248815, -0.229673),
        point(-0.218334, -0.252232, -0.224549),
        point(-0.219816, -0.248815, -0.219424),
        Normal::Vertex(
            v3(-0.93934, -0.338087, -0.0577654),
            v3(-0.935684, -0.351144, -0.0345402),
            v3(-0.943101, -0.331952, -0.019191),
        ),
    );

    assert!(aabb.intersects_triangle_aabb(&t));
}

#[test]
fn test_intersects_triangle_aabb_realistic_2() {
    let aabb = AABB::new(point(-0.23978, -0.282958, -0.472247), point(0.207395, 0.422022, 0.527753));

    let t = triangle(
        point(0.136228, 0.217532, -0.149386),
        point(0.135274, 0.217532, -0.150971),
        point(0.136983, 0.21924, -0.149388),
        Normal::Vertex(
            v3(0.85279, -0.201127, -0.481972),
            v3(0.820284, -0.230435, -0.523482),
            v3(0.732158, -0.430477, -0.527859),
        ),
    );

    assert!(aabb.intersects_triangle_aabb(&t));
}

#[test]
fn triangle_aabb_far_away_does_not_overlap() {
    let aabb = AABB::new(point(-1.0, -1.0, -1.0), point(1.0, 1.0, 1.0));
    let t = triangle(point(5.0, 5.0, 5.0), point(6.0, 5.0, 5.0), point(5.0, 6.0, 5.0), Normal::Face(v3(0.0, 0.0, 1.0)));

    assert!(!aabb.intersects_triangle_aabb(&t));
}

#[test]
fn test_build_octants() {
    let aabb = AABB::new(Point3::at_origin(), point(1.0, 1.0, 1.0));
    let expected: [(Point3, Point3); 8] = [
        (Point3::at_origin(), point(0.5, 0.5, 0.5)),
        (point(0.0, 0.0, 0.5), point(0.5, 0.5, 1.0)),
        (point(0.5, 0.0, 0.0), point(1.0, 0.5, 0.5)),
        (point(0.5, 0.0, 0.5), point(1.0, 0.5, 1.0)),
        (point(0.0, 0.5, 0.0), point(0.5, 1.0, 0.5)),
        (point(0.0, 0.5, 0.5), point(0.5, 1.0, 1.0)),
        (point(0.5, 0.5, 0.0), point(1.0, 1.0, 0.5)),
        (point(0.5, 0.5, 0.5), point(1.0, 1.0, 1.0)),
    ];

    let result = Octree::build_octants(&aabb);

    for r in &result {
        let equal = expected
            .iter()
            .map(|(min, max)| fuzzy_equal(r.min(), *min) && fuzzy_equal(r.max(), *max))
            .filter(|x| *x)
            .count()
            == 1;

        assert!(equal, "Unexpected bounding box {:?}", r);
    }
}

#[test]
fn aabb_ray_through_interior_hits() {
    let aabb = AABB::new(point(-1.0, -1.0, -1.0), point(1.0, 1.0, 1.0));
    let points = [(0.0, 0.0), (0.5, -0.5), (0.99, 0.99), (-0.7, 0.2)];
    for (x, y) in points {
        let ray = Ray::new(point(x, y, 5.0), v3(0.0, 0.0, -1.0), None);
        assert!(aabb.intersect(&ray));
    }
    // diagonal through the center
    let ray = Ray::new(point(-3.0, -2.0, 4.0), v3(0.6, 0.4, -0.8), None);
    assert!(aabb.intersect(&ray));
    // from inside
    let ray = Ray::new(point(0.2, 0.1, 0.0), v3(0.0, 1.0, 0.0), None);
    assert!(aabb.intersect(&ray));
}

#[test]
fn aabb_ray_missing_planes_misses() {
    let aabb = AABB::new(point(-1.0, -1.0, -1.0), point(1.0, 1.0, 1.0));
    let points = [(1.5, 0.0), (0.0, -1.01), (3.0, 3.0), (-1.2, 0.9)];
    for (x, y) in points {
        let ray = Ray::new(point(x, y, 5.0), v3(0.0, 0.0, -1.0), None);
        assert!(!aabb.intersect(&ray));
    }
    // pointing away
    let ray = Ray::new(point(0.0, 0.0, 5.0), v3(0.0, 0.0, 1.0), None);
    assert!(!aabb.intersect(&ray));
    // passing beside along a diagonal
    let ray = Ray::new(point(-3.0, 2.5, 0.0), v3(0.7, 0.0, 0.7), None);
    assert!(!aabb.intersect(&ray));
}

#[test]
fn aabb_empty_and_center() {
    let e = AABB::empty();
    assert!(e.min().x > e.max().x);
    let b = AABB::new(point(-1.0, 0.0, 2.0), point(3.0, 1.0, 2.5));
    assert_eq!(b.center(), point(1.0, 0.5, 2.25));
    assert_eq!(b.half(), point(2.0, 0.5, 0.25));
    assert_eq!(b.dimensions(), v3(4.0, 1.0, 0.5));
}

#[test]
fn test_intersection_miss() {
    let sphere = Sphere::new(Point3::at_origin(), fx(1.0), 0);
    let ray = Ray::new(point(0.0, 0.0, 2.0), v3(0.0, 0.0, 1.0), None);

    let intersection = sphere.intersect(&ray);

    assert!(intersection.is_none());
}

#[test]
fn test_intersection() {
    let sphere = Sphere::new(Point3::at_origin(), fx(1.0), 0);
    let ray = Ray::new(point(0.0, 0.0, 2.0), v3(0.0, 0.0, -1.0), None);

    let i = sphere.intersect(&ray);
    assert!(i.is_some());

    let intersection = i.unwrap();

    assert_eq!(intersection.t, fx(1.0) as i128);
    assert_eq!(intersection.point, point(0.0, 0.0, 1.0));
    assert_eq!(intersection.normal, v3(0.0, 0.0, 1.0));
    assert!(!intersection.inside);
}

#[test]
fn sphere_from_inside_takes_far_root() {
    let sphere = Sphere::new(Point3::at_origin(), fx(1.0), 0);
    let ray = Ray::new(Point3::at_origin(), v3(1.0, 0.0, 0.0), None);

    let h = sphere.intersect(&ray).unwrap();
    assert!(h.inside);
    assert_eq!(h.t, fx(1.0) as i128);
    assert_eq!(h.point, point(1.0, 0.0, 0.0));
}

#[test]
fn plane_hit_and_parallel_miss() {
    let plane = Plane::new(point(0.0, -1.0, 0.0), v3(0.0, 2.0, 0.0), 0);
    assert_eq!(plane.normal, v3(0.0, 1.0, 0.0));

    let down = Ray::new(point(0.0, 1.0, 0.0), v3(0.0, -1.0, 0.0), None);
    let h = plane.intersect(&down).unwrap();
    assert_eq!(h.t, fx(2.0) as i128);
    assert_eq!(h.point, point(0.0, -1.0, 0.0));

    let parallel = Ray::new(point(0.0, 1.0, 0.0), v3(1.0, 0.0, 0.0), None);
    assert!(plane.intersect(&parallel).is_none());

    let away = Ray::new(point(0.0, 1.0, 0.0), v3(0.0, 1.0, 0.0), None);
    assert!(plane.intersect(&away).is_none());
}

#[test]
fn triangle_centroid_ray_hits_with_equal_barycentrics() {
    // vertices summing to a multiple of three so the centroid is on the grid
    let a = point(0.0, 0.0, 0.0);
    let b = point(3.0, 0.0, 0.0);
    let c = point(0.0, 3.0, 0.0);
    let t = triangle(a, b, c, Normal::Face(v3(0.0, 0.0, 1.0)));
    // centroid (1, 1, 0), face normal +z; aim against the normal
    let ray = Ray::new(point(1.0, 1.0, 2.0), v3(0.0, 0.0, -1.0), None);

    let h = t.intersect(&ray, true).unwrap();
    assert_eq!(h.t, fx(2.0) as i128);
    assert_eq!(h.point, point(1.0, 1.0, 0.0));
    assert_eq!(h.normal, v3(0.0, 0.0, 1.0));

    // from behind, with culling, there is no hit
    let back = Ray::new(point(1.0, 1.0, -2.0), v3(0.0, 0.0, 1.0), None);
    assert!(t.intersect(&back, true).is_none());
    assert!(t.intersect(&back, false).is_some());
}

#[test]
fn triangle_miss_outside_edges() {
    let t = triangle(point(0.0, 0.0, 0.0), point(1.0, 0.0, 0.0), point(0.0, 1.0, 0.0), Normal::Face(v3(0.0, 0.0, 1.0)));
    let ray = Ray::new(point(0.8, 0.8, 1.0), v3(0.0, 0.0, -1.0), None);
    assert!(t.intersect(&ray, false).is_none());
}

fn linear_nearest(tris: &[Triangle], ray: &Ray) -> Option<i128> {
    let mut best: Option<i128> = None;
    for t in tris {
        if let Some(h) = t.intersect(ray, false) {
            best = match best {
                Some(b) if b <= h.t => Some(b),
                _ => Some(h.t),
            };
        }
    }
    best
}

#[test]
fn octree_nearest_matches_linear_scan() {
    // a grid of small triangles at several depths, enough to split the tree
    let mut tris = Vec::new();
    for i in 0..6 {
        for j in 0..6 {
            let x = -3.0 + i as f64;
            let y = -3.0 + j as f64;
            let z = -((i + j) % 4) as f64;
            tris.push(triangle(
                point(x, y, z),
                point(x + 0.9, y, z),
                point(x, y + 0.9, z),
                Normal::Face(v3(0.0, 0.0, 1.0)),
            ));
        }
    }
    let mesh = Mesh::new(tris.clone());
    assert!(mesh.storage.arena.num_nodes() > 1);
    let mut state: u64 = 12345;
    for _ in 0..200 {
        state = state.wrapping_mul(6364136223846793005).wrapping_add(1442695040888963407);
        let ox = ((state >> 33) % 7000) as f64 / 1000.0 - 3.5;
        state = state.wrapping_mul(6364136223846793005).wrapping_add(1442695040888963407);
        let oy = ((state >> 33) % 7000) as f64 / 1000.0 - 3.5;
        let ray = Ray::new(point(ox, oy, 5.0), v3(0.0, 0.0, -1.0), None);
        let via_tree = mesh.intersect(&ray, false).map(|h| h.t);
        assert_eq!(via_tree, linear_nearest(&tris, &ray));
    }
}

#[test]
fn cube_mesh_is_hit_on_near_face() {
    let cube = Mesh::cube(fx(1.0), 0);
    let ray = Ray::new(point(0.2, 0.3, 5.0), v3(0.0, 0.0, -1.0), None);
    let h = cube.intersect(&ray, false).unwrap();
    assert_eq!(h.t, fx(4.0) as i128);
    assert_eq!(h.point.z, fx(1.0));
}

#[test]
fn extent_volume_bounds_a_cube() {
    let cube = Mesh::cube(fx(1.0), 0);
    let ev = ExtentVolume::from_triangles(&cube.storage.triangles);
    // along x the cube spans -1..1; along (1, 1, 1) it spans -3..3
    assert_eq!((ev.near[0], ev.far[0]), (fx(-1.0), fx(1.0)));
    assert_eq!((ev.near[3], ev.far[3]), (fx(-3.0), fx(3.0)));

    let through = Ray::new(point(0.0, 0.0, 5.0), v3(0.0, 0.0, -1.0), None);
    assert!(ev.intersect(&through));
    let beside = Ray::new(point(3.0, 0.0, 5.0), v3(0.0, 0.0, -1.0), None);
    assert!(!ev.intersect(&beside));
    // misses the corner that the box would still hold
    let corner = Ray::new(point(1.0, 1.0, 5.0), v3(0.0, 0.0, -1.0), None);
    assert!(ev.intersect(&corner));
    let diagonal_miss = Ray::new(point(2.0, -2.0, 0.0), v3(0.6, 0.8, 0.0), None);
    assert!(!ev.intersect(&diagonal_miss));
}

#[test]
fn transformed_mesh_is_rebuilt_where_it_moved() {
    let mut cube = Mesh::cube(fx(1.0), 0);
    cube.transform(&Matrix4::translate(0, 0, fx(-2.0))).unwrap();
    let ray = Ray::new(point(0.2, 0.3, 5.0), v3(0.0, 0.0, -1.0), None);
    let h = cube.intersect(&ray, false).unwrap();
    assert_eq!(h.t, fx(6.0) as i128);
    assert_eq!(cube.bounding_volume.max().z, fx(-1.0));

    let mut big = Mesh::cube(fx(530000.0), 0);
    let before: Vec<_> = big.storage.triangles.iter().map(|t| t.vertices).collect();
    let too_far = Matrix4::translate(fx(16000.0), 0, 0);
    assert_eq!(big.transform(&too_far), Err(TransformError::OutOfRange));
    let after: Vec<_> = big.storage.triangles.iter().map(|t| t.vertices).collect();
    assert_eq!(before, after);
}

fn next(state: &mut u64) -> u64 {
    *state = state.wrapping_mul(6364136223846793005).wrapping_add(1442695040888963407);
    *state >> 33
}

#[test]
fn aabb_random_rays_inside_hit_and_outside_miss() {
    let aabb = AABB::new(point(-1.0, -2.0, 0.5), point(2.0, 1.0, 3.0));
    let mut state: u64 = 7;
    for _ in 0..500 {
        // a target strictly inside the box, and an origin outside it
        let tx = -1.0 + 0.001 * (1 + next(&mut state) % 2998) as f64;
        let ty = -2.0 + 0.001 * (1 + next(&mut state) % 2998) as f64;
        let tz = 0.5 + 0.001 * (1 + next(&mut state) % 2498) as f64;
        let o = point(-6.0 + (next(&mut state) % 3) as f64, 5.0, -4.0);
        let target = point(tx, ty, tz);
        let d = Vector3::new(target.x - o.x, target.y - o.y, target.z - o.z);
        assert!(aabb.intersect(&Ray::new(o, d, None)));
        // the same line pointing away from the box misses it
        let away = Vector3::new(-d.x, -d.y, -d.z);
        assert!(!aabb.intersect(&Ray::new(o, away, None)));
        // a ray parallel to x beyond the box's y range misses it
        let side = point(tx, 1.0 + 0.001 * (1 + next(&mut state) % 1000) as f64, tz);
        assert!(!aabb.intersect(&Ray::new(side, v3(1.0, 0.0, 0.0), None)));
        assert!(!aabb.intersect(&Ray::new(side, v3(-1.0, 0.0, 0.0), None)));
    }
}
