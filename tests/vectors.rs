use raytracer::math::{Point2, Point3, Vector2, Vector3, SCALE};

/// Tolerance of the two-dimensional tests and of the older vector tests.
const EPSILON: f64 = 1e-5;
/// Tolerance of the three-dimensional vector tests.
const EPSILON3: f64 = 1e-3;

fn fx(v: f64) -> i64 {
    (v * SCALE as f64).round() as i64
}

fn un(v: i64) -> f64 {
    v as f64 / SCALE as f64
}

fn within(x: f64, y: f64, bound: f64) {
    assert!(x >= y - bound && x <= y + bound, "{} is not equal to {} within bound {}", x, y, bound);
}

fn within_v2(x: Vector2, y: (f64, f64), bound: f64) {
    within(un(x.x), y.0, bound);
    within(un(x.y), y.1, bound);
}

fn within_point2(x: Point2, y: (f64, f64), bound: f64) {
    within(un(x.x), y.0, bound);
    within(un(x.y), y.1, bound);
}

fn within_v3(x: Vector3, y: (f64, f64, f64), bound: f64) {
    within(un(x.x), y.0, bound);
    within(un(x.y), y.1, bound);
    within(un(x.z), y.2, bound);
}

fn v2(x: f64, y: f64) -> Vector2 {
    Vector2::new(fx(x), fx(y))
}

fn point2(x: f64, y: f64) -> Point2 {
    Point2::new(fx(x), fx(y))
}

fn v3(x: f64, y: f64, z: f64) -> Vector3 {
    Vector3::new(fx(x), fx(y), fx(z))
}

#[test]
fn two_dimensions_test_new() {
    let v = v2(2.0, 1.0);
    let p = point2(2.0, 1.0);

    within(un(v.x), 2.0, EPSILON);
    within(un(v.y), 1.0, EPSILON);

    within(un(p.x), 2.0, EPSILON);
    within(un(p.y), 1.0, EPSILON);
}

#[test]
fn test_vector2_as_point() {
    let v = v2(3.0, 1.5);

    within_point2(v.as_point(), (3.0, 1.5), EPSILON);
}

#[test]
fn test_vector2_dot() {
    let v1 = v2(29.2, 12.0);
    let v2_ = v2(2.5, 0.0);

    // the dot product is exact, in raw units squared
    within(v1.dot(&v2_) as f64 / (SCALE * SCALE) as f64, 73.0, EPSILON);
}

#[test]
fn test_vector2_addition() {
    let v1 = v2(2.0, 3.0);
    let v2_ = v2(1.5, 9.0);

    within_v2(v1.add(&v2_), (3.5, 12.0), EPSILON);
    within_v2(v1.add_units(10u16), (12.0, 13.0), EPSILON);
}

#[test]
fn test_vector2_substraction() {
    let v1 = v2(2.0, 3.0);
    let v2_ = v2(1.5, 9.0);

    within_v2(v1.sub(&v2_), (0.5, -6.0), EPSILON);
    within_v2(v1.sub_units(10u16), (-8.0, -7.0), EPSILON);
}

#[test]
fn test_vector2_multiplication() {
    let v1 = v2(2.0, 3.0);
    let v2_ = v2(1.5, 9.0);

    within_v2(v1.mul(&v2_), (3.0, 27.0), EPSILON);
    within_v2(v1.scale(fx(3.0)), (6.0, 9.0), EPSILON);
}

#[test]
fn test_vector2_negation() {
    let v = v2(29.2, 12.0);

    within_v2(v.neg(), (-29.2, -12.0), EPSILON);
}

#[test]
fn test_point2_at_origin() {
    let p = Point2::at_origin();

    within_point2(p, (0.0, 0.0), EPSILON);
}

#[test]
fn test_point2_as_vector() {
    let p = point2(3.0, 1.5);

    within_v2(p.as_vector(), (3.0, 1.5), EPSILON);
}

#[test]
fn test_point2_addition() {
    let p = point2(3.0, 1.5);
    let v = v2(2.0, 3.0);

    within_point2(p.add(&v), (5.0, 4.5), EPSILON);
}

#[test]
fn two_dimensions_test_from() {
    let p = point2(3.0, 1.5);
    let v = v2(2.0, 3.0);

    assert_eq!(Vector2::from_slice(&[fx(2.0), fx(3.0)]), v);
    assert_eq!(Vector2::from_slice(&vec![fx(2.0), fx(3.0)]), v);

    assert_eq!(Point2::from_slice(&[fx(3.0), fx(1.5)]), p);
    assert_eq!(Point2::from_slice(&vec![fx(3.0), fx(1.5)]), p);
}

#[test]
fn three_dimensions_test_constructor() {
    let vec = v3(2.0, 1.0, 0.0);

    within(un(vec.x), 2.0, EPSILON3);
    within(un(vec.y), 1.0, EPSILON3);
    within(un(vec.z), 0.0, EPSILON3);
}

#[test]
fn three_dimensions_test_at_origin() {
    let p = Point3::at_origin();

    within(un(p.x), 0.0, EPSILON3);
    within(un(p.y), 0.0, EPSILON3);
    within(un(p.z), 0.0, EPSILON3);
}

#[test]
fn three_dimensions_test_dot() {
    let vec1 = v3(3.52, 8.23, 29.0);
    let vec2 = v3(0.0, 1.3, -3.23);

    let sq = (SCALE * SCALE) as f64;
    within(vec1.dot(&vec2) as f64 / sq, -82.971, EPSILON3);
    within(vec2.dot(&vec1) as f64 / sq, -82.971, EPSILON3);
}

#[test]
fn three_dimensions_test_cross() {
    let vec1 = v3(2.4, 9.3, -1.3);
    let vec2 = v3(-2.3, 2.5, -3.5);

    // the cross product is exact, in raw units squared
    let result1 = vec1.cross(&vec2);
    let result2 = vec2.cross(&vec1);
    let sq = (SCALE * SCALE) as f64;

    within(result1.x as f64 / sq, -29.3, EPSILON3);
    within(result1.y as f64 / sq, 11.39, EPSILON3);
    within(result1.z as f64 / sq, 27.39, EPSILON3);
    within(result2.x as f64 / sq, 29.3, EPSILON3);
    within(result2.y as f64 / sq, -11.39, EPSILON3);
    within(result2.z as f64 / sq, -27.39, EPSILON3);
}

#[test]
fn three_dimensions_test_length() {
    let vectors = vec![
        (v3(0.0, 0.0, 0.0), 0.0),
        (v3(2.3, -2.1, 2.1), 3.756_328),
        (v3(1.0, 0.0, 0.0), 1.0),
        (v3(0.80181, 0.26921, 0.53351), 1.0),
    ];

    for (vec, length) in vectors {
        within(un(vec.length()), length, EPSILON3);
    }
}

#[test]
fn three_dimensions_test_normalize_zero_length() {
    let vec = v3(0.0, 0.0, 0.0);

    assert_eq!(vec.normalize(), vec);
}

#[test]
fn three_dimensions_test_normalize() {
    let vec = v3(4.0, 63.0, 0.5);

    let result = vec.normalize();

    within_v3(result, (0.063_362_49, 0.99795915, 0.007920311), EPSILON3);
    within(un(result.length()), 1.0, EPSILON3);
}

#[test]
fn three_dimensions_test_addition() {
    let vec1 = v3(1.0, 5.0, 3.0);
    let vec2 = v3(3.2, 3.1, 2.1);

    within_v3(vec1.add(&vec2), (4.2, 8.1, 5.1), EPSILON3);
    within_v3(vec1.add_scalar(fx(10.0)), (11.0, 15.0, 13.0), EPSILON3);
}

#[test]
fn three_dimensions_test_subtraction() {
    let vec1 = v3(1.0, 5.0, 3.0);
    let vec2 = v3(3.2, 3.1, 2.1);

    within_v3(vec1.sub(&vec2), (-2.2, 1.9, 0.9), EPSILON3);
    within_v3(vec1.sub_scalar(fx(20.0)), (-19.0, -15.0, -17.0), EPSILON3);
}

#[test]
fn three_dimensions_test_multiplication() {
    let vec1 = v3(1.0, 5.0, 3.0);
    let vec2 = v3(3.2, 3.1, 2.1);

    within_v3(vec1.mul(&vec2), (3.2, 15.5, 6.3), EPSILON3);
    within_v3(vec1.scale(fx(20.0)), (20.0, 100.0, 60.0), EPSILON3);
}

#[test]
fn three_dimensions_test_from() {
    let v = v3(1.0, 2.0, 3.0);
    let p = Point3::new(fx(1.0), fx(2.0), fx(3.0));

    assert_eq!(Vector3::from_slice(&[fx(1.0), fx(2.0), fx(3.0)]), v);
    assert_eq!(Vector3::from_slice(&vec![fx(1.0), fx(2.0), fx(3.0)]), v);

    assert_eq!(Point3::from_slice(&[fx(1.0), fx(2.0), fx(3.0)]), p);
    assert_eq!(Point3::from_slice(&vec![fx(1.0), fx(2.0), fx(3.0)]), p);
}

#[test]
fn reflect_twice_about_axis_normal_restores_direction() {
    let d = v3(0.3, -0.8, 0.52);
    let n = v3(0.0, 1.0, 0.0);

    let once = d.reflect(&n);
    assert_eq!(once, v3(0.3, 0.8, 0.52));
    assert_eq!(once.reflect(&n), d);
}

#[test]
fn reflect_keeps_length_and_mirrors() {
    let d = v3(1.0, -1.0, 0.0);
    let n = v3(0.0, 2.0, 0.0);

    assert_eq!(d.reflect(&n), v3(1.0, 1.0, 0.0));
}

#[test]
fn normalize_rounds_to_nearest() {
    // 3-4-5 triangle: exact
    assert_eq!(v3(3.0, 4.0, 0.0).normalize(), v3(0.6, 0.8, 0.0));
    assert_eq!(v3(0.0, 0.0, -7.5).normalize(), v3(0.0, 0.0, -1.0));
}

#[test]
fn isqrt_is_floor_of_root() {
    assert_eq!(raytracer::math::isqrt(0), 0);
    assert_eq!(raytracer::math::isqrt(15), 3);
    assert_eq!(raytracer::math::isqrt(16), 4);
    assert_eq!(raytracer::math::isqrt(u128::MAX), u64::MAX as u128);
}

#[test]
fn math_test_constructor() {
    let vec = Vector3 { x: fx(2.0), y: fx(1.0), z: fx(0.0) };

    within(un(vec.x), 2.0, EPSILON);
    within(un(vec.y), 1.0, EPSILON);
    within(un(vec.z), 0.0, EPSILON);
}

#[test]
fn math_test_at_origin() {
    let vec = Point3::at_origin().as_vector();

    within_v3(vec, (0.0, 0.0, 0.0), EPSILON);
}

#[test]
fn math_test_dot() {
    let vec1 = v3(3.52, 8.23, 29.0);
    let vec2 = v3(0.0, 1.3, -3.23);

    let sq = (SCALE * SCALE) as f64;
    within(vec1.dot(&vec2) as f64 / sq, -82.971, EPSILON);
    within(vec2.dot(&vec1) as f64 / sq, -82.971, EPSILON);
}

#[test]
fn math_test_cross() {
    let vec1 = v3(2.4, 9.3, -1.3);
    let vec2 = v3(-2.3, 2.5, -3.5);
    let sq = (SCALE * SCALE) as f64;

    let result1 = vec1.cross(&vec2);
    let result2 = vec2.cross(&vec1);

    within(result1.x as f64 / sq, -29.3, EPSILON);
    within(result1.y as f64 / sq, 11.39, EPSILON);
    within(result1.z as f64 / sq, 27.39, EPSILON);
    within(result2.x as f64 / sq, 29.3, EPSILON);
    within(result2.y as f64 / sq, -11.39, EPSILON);
    within(result2.z as f64 / sq, -27.39, EPSILON);
}

#[test]
fn math_test_normalize_zero_length() {
    let vec = v3(0.0, 0.0, 0.0);

    within_v3(vec.normalize(), (0.0, 0.0, 0.0), EPSILON);
}

#[test]
fn math_test_addition() {
    let vec1 = v3(1.0, 5.0, 3.0);
    let vec2 = v3(3.2, 3.1, 2.1);

    within_v3(vec1.add(&vec2), (4.2, 8.1, 5.1), EPSILON);
    within_v3(vec1.add_scalar(fx(10.0)), (11.0, 15.0, 13.0), EPSILON);
}

#[test]
fn math_test_subtraction() {
    let vec1 = v3(1.0, 5.0, 3.0);
    let vec2 = v3(3.2, 3.1, 2.1);

    within_v3(vec1.sub(&vec2), (-2.2, 1.9, 0.9), EPSILON);
    within_v3(vec1.sub_scalar(fx(20.0)), (-19.0, -15.0, -17.0), EPSILON);
}

#[test]
fn math_test_multiplication() {
    let vec1 = v3(1.0, 5.0, 3.0);
    let vec2 = v3(3.2, 3.1, 2.1);

    within_v3(vec1.mul(&vec2), (3.2, 15.5, 6.3), EPSILON);
    within_v3(vec1.scale(fx(20.0)), (20.0, 100.0, 60.0), EPSILON);
}
