use raytracer::math::{Point3, SCALE};
use raytracer::matrix::{InverseError, Matrix4};

const EPSILON: f64 = 1e-3;

fn fx(v: f64) -> i64 {
    (v * SCALE as f64).round() as i64
}

fn m4(rows: [[f64; 4]; 4]) -> Matrix4 {
    let mut data = [[0i64; 4]; 4];
    for r in 0..4 {
        for c in 0..4 {
            data[r][c] = fx(rows[r][c]);
        }
    }
    Matrix4::new(data)
}

fn close(a: &Matrix4, b: &Matrix4, bound: f64) {
    for r in 0..4 {
        for c in 0..4 {
            let x = a.at(r, c) as f64 / SCALE as f64;
            let y = b.at(r, c) as f64 / SCALE as f64;
            assert!(x >= y - bound && x <= y + bound, "entry ({}, {}): {} is not {}", r, c, x, y);
        }
    }
}

const IDENTITY: [[f64; 4]; 4] = [
    [1.0, 0.0, 0.0, 0.0],
    [0.0, 1.0, 0.0, 0.0],
    [0.0, 0.0, 1.0, 0.0],
    [0.0, 0.0, 0.0, 1.0],
];

#[test]
fn matrix4_test_identity() {
    close(&Matrix4::identity(), &m4(IDENTITY), EPSILON);
}

#[test]
fn matrix4_test_new() {
    let m = Matrix4 { data: m4(IDENTITY).data };
    close(&m, &m4(IDENTITY), EPSILON);
}

#[test]
fn transpose_identity() {
    close(&Matrix4::identity().transpose(), &Matrix4::identity(), EPSILON);
}

#[test]
fn transpose_complex() {
    let m = m4([
        [1.0, 2.0, 3.0, 4.0],
        [5.0, 6.0, 7.0, 8.0],
        [9.0, 10.0, 11.0, 12.0],
        [13.0, 14.0, 15.0, 16.0],
    ]);
    let expected = m4([
        [1.0, 5.0, 9.0, 13.0],
        [2.0, 6.0, 10.0, 14.0],
        [3.0, 7.0, 11.0, 15.0],
        [4.0, 8.0, 12.0, 16.0],
    ]);
    close(&m.transpose(), &expected, EPSILON);
}

#[test]
fn inverse_identity() {
    let m = Matrix4::identity();
    let inverse = m.inverse().expect("Identity matrix should be invertible");
    close(&inverse, &m, EPSILON);
}

#[test]
fn inverse_moderate() {
    let m = m4([
        [2.0, 3.0, 1.0, 5.0],
        [1.0, 0.0, 3.0, 1.0],
        [0.0, 2.0, -3.0, 2.0],
        [0.0, 2.0, 3.0, 1.0],
    ]);
    let expected = m4([
        [18.0, -35.0, -28.0, 1.0],
        [9.0, -18.0, -14.0, 1.0],
        [-2.0, 4.0, 3.0, 0.0],
        [-12.0, 24.0, 19.0, -1.0],
    ]);

    close(&m.mul(&expected), &Matrix4::identity(), 1e-4);

    let inverse = m.inverse().unwrap_or_else(|e| panic!("{:?} should be invertible: {:?}", m, e));

    close(&inverse, &expected, 1e-4);
}

#[test]
fn inverse_complex() {
    // the rotations by a right angle about x and y, written out (cos = 0,
    // sin = 1)
    let matrices = [
        m4([
            [2.0, 3.0, 1.0, 5.0],
            [1.0, 0.0, 3.0, 1.0],
            [0.0, 2.0, -3.0, 2.0],
            [0.0, 2.0, 3.0, 1.0],
        ]),
        m4([[1.0, 0.0, 0.0, 0.0], [0.0, 0.0, 1.0, 0.0], [0.0, -1.0, 0.0, 0.0], [0.0, 0.0, 0.0, 1.0]]),
        m4([[0.0, 0.0, -1.0, 0.0], [0.0, 1.0, 0.0, 0.0], [1.0, 0.0, 0.0, 0.0], [0.0, 0.0, 0.0, 1.0]]),
        m4([
            [1.0, 1.0, 1.0, 0.0],
            [0.0, 3.0, 1.0, 2.0],
            [2.0, 3.0, 1.0, 0.0],
            [1.0, 0.0, 2.0, 1.0],
        ]),
    ];
    let identity = Matrix4::identity();

    for matrix in matrices.iter() {
        let inverse = matrix
            .inverse()
            .unwrap_or_else(|e| panic!("{:?} should be invertible: {:?}", matrix, e));
        println!("Testing {:?}", matrix);

        close(&inverse.mul(matrix), &identity, EPSILON);
    }
}

#[test]
fn singular_matrix_is_an_error() {
    let m = m4([
        [1.0, 2.0, 3.0, 4.0],
        [2.0, 4.0, 6.0, 8.0],
        [0.0, 1.0, 0.0, 0.0],
        [0.0, 0.0, 0.0, 1.0],
    ]);
    assert_eq!(m.inverse().unwrap_err(), InverseError::Singular);
}

#[test]
fn index_row() {
    let m = Matrix4::identity();

    let rows = [m.row(0), m.row(1), m.row(2), m.row(3)];

    for (i, item) in rows.iter().enumerate() {
        assert_eq!(item[i], fx(1.0));
    }
}

#[test]
fn index() {
    let m = Matrix4::identity();

    for i in 0..4 {
        assert_eq!(m.at(i, i), fx(1.0));
    }
}

#[test]
fn index_mut() {
    let mut m = Matrix4::identity();

    for i in 0..4 {
        m.set(3, i, fx(4.5));
    }

    for i in 0..4 {
        assert_eq!(m.at(3, i), fx(4.5));
    }
}

#[test]
fn test_translate() {
    let m = Matrix4::translate(fx(-2.0), fx(3.0), fx(5.0));
    let expected = m4([
        [1.0, 0.0, 0.0, 0.0],
        [0.0, 1.0, 0.0, 0.0],
        [0.0, 0.0, 1.0, 0.0],
        [-2.0, 3.0, 5.0, 1.0],
    ]);
    close(&m, &expected, EPSILON);
    let p = m.transform_point(&Point3::new(fx(1.0), fx(1.0), fx(1.0))).unwrap();
    assert_eq!(p, Point3::new(fx(-1.0), fx(4.0), fx(6.0)));
}

#[test]
fn matrix4_test_scale() {
    let m = Matrix4::scale(fx(5.0), fx(3.0), fx(-1.0));
    let expected = m4([
        [5.0, 0.0, 0.0, 0.0],
        [0.0, 3.0, 0.0, 0.0],
        [0.0, 0.0, -1.0, 0.0],
        [0.0, 0.0, 0.0, 1.0],
    ]);
    close(&m, &expected, EPSILON);
    assert_eq!(Matrix4::scale_uniform(fx(2.0)), Matrix4::scale(fx(2.0), fx(2.0), fx(2.0)));
}

fn vec3(x: f64, y: f64, z: f64) -> raytracer::math::Vector3 {
    raytracer::math::Vector3::new(fx(x), fx(y), fx(z))
}

fn close_v3(v: raytracer::math::Vector3, e: (f64, f64, f64), bound: f64) {
    let s = SCALE as f64;
    for (x, y) in [(v.x, e.0), (v.y, e.1), (v.z, e.2)] {
        let x = x as f64 / s;
        assert!(x >= y - bound && x <= y + bound, "{} is not {}", x, y);
    }
}

#[test]
fn test_vector3_mul_simple() {
    let m = Matrix4::identity();
    let result = m.transform_vector(&vec3(2.4, 3.1, 9.0));
    close_v3(result, (2.4, 3.1, 9.0), EPSILON);
}

#[test]
fn test_vector3_mul_complex() {
    let m = m4([
        [15.0, 1.3, -2.8, 0.0],
        [-1.4, 7.8, 3.5, 0.0],
        [5.0, -3.6, 1.0, 0.0],
        [12.3, 9.1, -1.2, 1.0],
    ]);
    let result = m.transform_vector(&vec3(2.4, 3.2, -1.0));
    close_v3(result, (26.52, 31.68, 3.48), EPSILON);
}

#[test]
fn test_translation() {
    let v = Point3::new(fx(1.5), fx(9.9), fx(-5.6));
    let m = Matrix4::translate(fx(-2.0), fx(3.0), fx(5.0));
    let expected = Point3::new(v.x - fx(2.0), v.y + fx(3.0), v.z + fx(5.0));
    assert_eq!(m.transform_point(&v).unwrap(), expected);
}

#[test]
fn test_vector_translation() {
    let v = vec3(0.0, 0.0, -1.0);
    let m = Matrix4::translate(fx(10.0), 0, 0);
    close_v3(m.transform_vector(&v), (0.0, 0.0, -1.0), EPSILON);
}

#[test]
fn three_dimensions_test_scale() {
    let v = vec3(1.0, 1.0, 1.0);
    let m = Matrix4::scale(fx(-2.0), fx(3.0), fx(5.0));
    close_v3(m.transform_vector(&v), (-2.0, 3.0, 5.0), EPSILON);
}
