use raytracer::camera::Camera;
use raytracer::color::Color;
use raytracer::light::{Falloff, Light, Point};
use raytracer::material::{IllumninationModel, Material};
use raytracer::math::{Point3, Vector3, SCALE};
use raytracer::ray::Ray;
use raytracer::renderer::{refracted_direction, transparency, RefractionProperties, Renderer, SuperSampling};
use raytracer::scene::{Scene, Shape};
use raytracer::sphere::{Plane, Sphere};
use raytracer::intersection::Intersection;

fn fx(v: f64) -> i64 {
    (v * SCALE as f64).round() as i64
}

fn point(x: f64, y: f64, z: f64) -> Point3 {
    Point3::new(fx(x), fx(y), fx(z))
}

fn v3(x: f64, y: f64, z: f64) -> Vector3 {
    Vector3::new(fx(x), fx(y), fx(z))
}

fn constant(c: Color) -> Material {
    Material::new(Color::black(), c, Color::black(), 1, IllumninationModel::Constant, None, None)
}

fn pixel(buf: &[u8], width: usize, x: usize, y: usize) -> Color {
    let i = 3 * (y * width + x);
    Color::new(buf[i], buf[i + 1], buf[i + 2])
}

const SIDE: u32 = 41;

fn camera_at(position: Point3, look_at: Point3) -> Camera {
    Camera::new(fx(1.0), SIDE, SIDE, position, look_at, v3(0.0, 1.0, 0.0))
}

fn empty_renderer() -> Renderer {
    let scene = Scene::new(vec![], vec![], vec![], vec![], Color::black(), Color::black());
    Renderer::new(scene, camera_at(point(0.0, 0.0, 5.0), Point3::at_origin()), SuperSampling::Off)
}

#[test]
fn matte_sphere_lit_from_one_side() {
    let matte = Material::new(
        Color::black(),
        Color::white(),
        Color::black(),
        1,
        IllumninationModel::Diffuse,
        None,
        None,
    );
    let sphere = Shape::Sphere(Sphere::new(Point3::at_origin(), fx(1.0), 0));
    let light = Light::Point(Point::new(
        point(3.0, 0.0, 3.0),
        Color::white(),
        fx(8.0),
        Falloff::InverseSquare,
        true,
        false,
    ));
    let scene = Scene::new(vec![sphere], vec![light], vec![matte], vec![], Color::black(), Color::black());
    let renderer = Renderer::new(scene, camera_at(point(0.0, 0.0, 3.0), Point3::at_origin()), SuperSampling::Off);
    let buf = renderer.render(3);
    assert_eq!(buf.len(), (SIDE * SIDE * 3) as usize);

    // the brightest pixel sees the point whose normal points at the light,
    // (0.707, 0, 0.707), which projects to column 26 of the middle row (row
    // 21, as rows count down from the top)
    let w = SIDE as usize;
    let brightness = |x: usize, y: usize| {
        let c = pixel(&buf, w, x, y);
        c.r as u32 + c.g as u32 + c.b as u32
    };
    let mut best = (0usize, 0usize, 0u32);
    for y in 0..w {
        for x in 0..w {
            if brightness(x, y) > best.2 {
                best = (x, y, brightness(x, y));
            }
        }
    }
    assert!(best.2 > 0 && best.2 < 3 * 255);
    assert!(best.0 >= 24 && best.0 <= 28, "brightest column {}", best.0);
    assert!(best.1 >= 19 && best.1 <= 23, "brightest row {}", best.1);
    assert!(brightness(26, 21) + 6 >= best.2);

    // the far side from the light: the left edge of the sphere is black
    for x in 14..16 {
        assert_eq!(pixel(&buf, w, x, 21), Color::black());
    }
}

#[test]
fn mirror_shows_sphere_in_its_own_color() {
    let red = constant(Color::new(200, 30, 40));
    let mirror = Material::new(
        Color::black(),
        Color::black(),
        Color::black(),
        1,
        IllumninationModel::DiffuseSpecularReflective,
        Some(fx(1.0)),
        None,
    );
    let sphere = Shape::Sphere(Sphere::new(point(0.0, 1.0, 0.0), fx(0.8), 0));
    let plane = Shape::Plane(Plane::new(point(0.0, -0.5, 0.0), v3(0.0, 1.0, 0.0), 1));
    let scene = Scene::new(vec![sphere, plane], vec![], vec![red, mirror], vec![], Color::black(), Color::new(0, 0, 255));
    let renderer = Renderer::new(scene, camera_at(point(0.0, 0.0, 6.0), Point3::at_origin()), SuperSampling::Off);
    let buf = renderer.render(4);

    let direct = pixel(&buf, SIDE as usize, 20, 17);
    let mirrored = pixel(&buf, SIDE as usize, 20, 28);
    assert_eq!(direct, Color::new(200, 30, 40));
    assert_eq!(mirrored, direct);
}

#[test]
fn supersampling_blends_only_at_the_silhouette() {
    let white = constant(Color::white());
    let make = |ss: SuperSampling| {
        let sphere = Shape::Sphere(Sphere::new(Point3::at_origin(), fx(1.0), 0));
        let scene = Scene::new(vec![sphere], vec![], vec![white], vec![], Color::black(), Color::black());
        Renderer::new(scene, camera_at(point(0.0, 0.0, 4.0), Point3::at_origin()), ss)
    };
    let one = make(SuperSampling::Off).render(2);
    let two = make(SuperSampling::On(2)).render(2);
    let w = SIDE as usize;

    let is_binary = |c: Color| c == Color::black() || c == Color::white();
    for y in 0..w {
        for x in 0..w {
            assert!(is_binary(pixel(&one, w, x, y)));
        }
    }
    let mut blended = 0;
    for y in 1..w - 1 {
        for x in 1..w - 1 {
            let c = pixel(&two, w, x, y);
            if !is_binary(c) {
                blended += 1;
                // a silhouette pixel: its neighbourhood without supersampling
                // holds both colors
                let mut seen_black = false;
                let mut seen_white = false;
                for dy in 0..3 {
                    for dx in 0..3 {
                        let n = pixel(&one, w, x + dx - 1, y + dy - 1);
                        seen_black |= n == Color::black();
                        seen_white |= n == Color::white();
                    }
                }
                assert!(seen_black && seen_white, "blended pixel ({}, {}) away from the edge", x, y);
            }
        }
    }
    assert!(blended > 0);
}

#[test]
fn trace_without_depth_is_black_and_miss_is_clear() {
    let scene = Scene::new(vec![], vec![], vec![], vec![], Color::black(), Color::new(1, 2, 3));
    let renderer = Renderer::new(scene, camera_at(point(0.0, 0.0, 5.0), Point3::at_origin()), SuperSampling::Off);
    let ray = Ray::new(Point3::at_origin(), v3(0.0, 0.0, -1.0), None);
    assert_eq!(renderer.trace(&ray, 0, true), Color::black());
    assert_eq!(renderer.trace(&ray, 3, true), Color::new(1, 2, 3));
}

fn hit_with_normal(normal: Vector3, ray: Ray) -> Intersection {
    Intersection {
        t: 0,
        point: Point3::at_origin(),
        ray,
        normal,
        inside: false,
        texture_coord: None,
        material: 0,
    }
}

#[test]
fn refraction_at_normal_incidence_does_not_bend() {
    for index in [1.0, 1.33, 1.5, 2.4] {
        let glass = Material::new(
            Color::black(),
            Color::black(),
            Color::black(),
            1,
            IllumninationModel::DiffuseSpecularRefracted,
            None,
            Some(fx(index)),
        );
        let normal = v3(0.6, 0.0, 0.8);
        let d = v3(-0.6, 0.0, -0.8);
        let ray = Ray::new(Point3::at_origin(), d, None);
        let props = RefractionProperties::new(&hit_with_normal(normal, ray), &ray, &glass);
        assert!(!props.total_internal_reflection());
        assert_eq!(refracted_direction(&d, &props), d);
    }
}

#[test]
fn total_internal_reflection_gives_full_reflectance() {
    let renderer = empty_renderer();
    let glass = Material::new(
        Color::black(),
        Color::black(),
        Color::black(),
        1,
        IllumninationModel::DiffuseSpecularRefractedFresnel,
        Some(fx(1.0)),
        Some(fx(1.5)),
    );
    // leaving glass (index 1.5) at 60 degrees from the normal: sin 60 * 1.5 > 1
    let normal = v3(0.0, 0.0, 1.0);
    let d = v3(0.866, 0.0, 0.5);
    let ray = Ray::new(Point3::at_origin(), d, Some(fx(1.5)));
    let mut hit = hit_with_normal(normal, ray);
    hit.inside = true;
    let props = RefractionProperties::new(&hit, &ray, &glass);
    assert!(props.total_internal_reflection());
    assert_eq!(renderer.fresnel(&props), fx(1.0));

    // at a shallow angle refraction is possible and reflectance is partial
    let d2 = v3(0.2, 0.0, 0.98);
    let ray2 = Ray::new(Point3::at_origin(), d2, Some(fx(1.5)));
    let mut hit2 = hit_with_normal(normal, ray2);
    hit2.inside = true;
    let props2 = RefractionProperties::new(&hit2, &ray2, &glass);
    assert!(!props2.total_internal_reflection());
    let kr = renderer.fresnel(&props2);
    assert!(kr > 0 && kr < fx(1.0));
}

#[test]
fn renders_a_full_buffer_row_by_row() {
    let renderer = empty_renderer();
    let row = renderer.render_row(1, 0);
    assert_eq!(row.len(), (SIDE * 3) as usize);
    let all = renderer.render(1);
    assert_eq!(all.len(), (SIDE * SIDE * 3) as usize);
    assert_eq!(&all[0..row.len()], &row[..]);
}

#[test]
fn camera_center_ray_looks_at_target() {
    let cam = camera_at(point(0.0, 0.0, 5.0), Point3::at_origin());
    let ray = cam.create_ray(20, 20, 0, 0, 1);
    assert_eq!(ray.origin, point(0.0, 0.0, 5.0));
    assert_eq!(ray.direction, v3(0.0, 0.0, -1.0));
}

#[test]
fn instance_places_a_shared_mesh() {
    use_instance();
}

fn use_instance() {
    let white = constant(Color::white());
    let mut placed = raytracer::instance::Instance::new(0, 0);
    placed
        .set_model_matrix(raytracer::matrix::Matrix4::translate(fx(3.0), 0, 0))
        .unwrap();
    let mesh = raytracer::mesh::Mesh::cube(fx(1.0), 0);
    let scene = Scene::new(vec![Shape::Instance(placed)], vec![], vec![white], vec![mesh], Color::black(), Color::black());

    // the cube now spans x in 2..4; a ray down the z axis at x = 3 hits
    // its near face at z = 1
    let hit_ray = Ray::new(point(3.0, 0.0, 5.0), v3(0.0, 0.0, -1.0), None);
    let h = scene.intersect(&hit_ray, false).unwrap();
    assert_eq!(h.t, fx(4.0) as i128);
    assert_eq!(h.point, point(3.0, 0.0, 1.0));
    assert_eq!(h.material, 0);
    // the unplaced cube's spot is empty
    let miss_ray = Ray::new(point(0.0, 0.0, 5.0), v3(0.0, 0.0, -1.0), None);
    assert!(scene.intersect(&miss_ray, false).is_none());

    // a singular placement is refused and leaves the instance unchanged
    let mut other = raytracer::instance::Instance::new(0, 0);
    let flat = raytracer::matrix::Matrix4::scale(fx(1.0), 0, fx(1.0));
    assert!(other.set_model_matrix(flat).is_err());
    assert_eq!(other.model_matrix, raytracer::matrix::Matrix4::identity());
}

#[test]
fn absorption_attenuates_with_distance() {
    // no ambient color, or no distance: nothing is absorbed
    assert_eq!(transparency(Color::black(), fx(10.0) as i128), Color::white());
    assert_eq!(transparency(Color::white(), 0), Color::white());
    // exp(-0.15 * 2) = 0.741 of full transmission after two units
    let t = transparency(Color::new(255, 0, 255), fx(2.0) as i128);
    assert!(t.r >= 186 && t.r <= 190, "{:?}", t);
    assert_eq!(t.g, 255);
    let far = transparency(Color::white(), fx(40.0) as i128);
    assert!(far.r < t.r);
}

#[test]
fn fresnel_between_identical_media_reflects_nothing() {
    let renderer = empty_renderer();
    let glass = Material::new(
        Color::black(),
        Color::black(),
        Color::black(),
        1,
        IllumninationModel::DiffuseSpecularRefractedFresnel,
        Some(fx(1.0)),
        Some(fx(1.5)),
    );
    // a ray in glass meeting glass, nearly grazing
    let normal = v3(0.0, 0.0, 1.0);
    let d = v3(0.9999, 0.0, -0.0005);
    let ray = Ray::new(Point3::at_origin(), d, Some(fx(1.5)));
    let hit = hit_with_normal(normal, ray);
    let props = RefractionProperties::new(&hit, &ray, &glass);
    assert_eq!(renderer.fresnel(&props), 0);
}
