use raytracer::color::{Color, NextColor};
use raytracer::material::{IllumninationModel, Material, MaterialTemplate};
use raytracer::math::{Point2, SCALE};
use raytracer::texture::{checkerboard, Procedural, Solid, Texture};

fn fx(v: f64) -> i64 {
    (v * SCALE as f64).round() as i64
}

#[test]
fn solid_test_lookup() {
    let c = Color::new(255, 127, 53);
    let t = Solid::new(c);
    let c1 = Point2::new(fx(0.0), fx(1.0));
    let c2 = Point2::new(fx(1.0), fx(0.0));
    let c3 = Point2::new(fx(0.0), fx(0.0));

    assert_eq!(t.lookup(&c1), c);
    assert_eq!(t.lookup(&c2), c);
    assert_eq!(t.lookup(&c3), c);
}

#[test]
fn procedural_test_lookup() {
    let t = Procedural::new(|uv: Point2| Color::from_intensities(uv.x, uv.y, 0));
    let c1 = Point2::new(fx(0.0), fx(1.0));
    let c2 = Point2::new(fx(1.0), fx(0.0));
    let c3 = Point2::new(fx(0.0), fx(0.0));

    assert_eq!(t.lookup(&c1), Color::new(0, 255, 0));
    assert_eq!(t.lookup(&c2), Color::new(255, 0, 0));
    assert_eq!(t.lookup(&c3), Color::new(0, 0, 0));
}

#[test]
fn mod_test_lookup() {
    let t = Procedural::new(|uv: Point2| Color::from_intensities(uv.x, uv.y, 0));
    let c1 = Point2::new(fx(0.0), fx(1.0));
    let c2 = Point2::new(fx(1.0), fx(0.0));
    let c3 = Point2::new(fx(0.0), fx(0.0));

    assert_eq!(t.lookup(&c1), Color::new(0, 255, 0));
    assert_eq!(t.lookup(&c2), Color::new(255, 0, 0));
    assert_eq!(t.lookup(&c3), Color::new(0, 0, 0));
}

#[test]
fn checkerboard_alternates() {
    let origin = checkerboard(Point2::new(0, 0));
    assert_eq!(origin, Color::white());
    // a tenth of a unit along the first turned axis flips one coordinate
    let c = checkerboard(Point2::new(fx(0.1), 0));
    assert!(c == Color::black() || c == Color::white());
    let t = Texture::Checkerboard;
    assert_eq!(t.lookup(&Point2::new(fx(0.1), 0)), c);
}

#[test]
fn color_arithmetic_saturates() {
    let a = Color::new(200, 100, 10);
    let b = Color::new(100, 100, 20);
    assert_eq!(a.add(b), Color::new(255, 200, 30));
    assert_eq!(b.sub(a), Color::new(0, 0, 10));
    assert_eq!(a.mul(Color::white()), a);
    assert_eq!(a.mul(Color::new(128, 0, 255)), Color::new(100, 0, 10));
    assert_eq!(a.scale(fx(0.5)), Color::new(100, 50, 5));
    assert_eq!(a.scale(fx(2.0)), Color::new(255, 200, 20));
}

#[test]
fn color_clamp_and_intensities() {
    assert_eq!(Color::clamp(-5), 0);
    assert_eq!(Color::clamp(300), 255);
    assert_eq!(Color::clamp(77), 77);
    assert_eq!(Color::from_intensities(fx(1.0), fx(0.5), fx(-1.0)), Color::new(255, 127, 0));
    assert_eq!(Color::from_intensities(fx(2.0), 0, 0), Color::new(255, 0, 0));
}

#[test]
fn color_channels_in_order() {
    let c = Color::new(1, 2, 3);
    assert_eq!(c.channels(), vec![1, 2, 3]);
    assert_eq!(c.next_channel(NextColor::Red), (Some(1), NextColor::Green));
    assert_eq!(c.next_channel(NextColor::Blue), (Some(3), NextColor::Done));
    assert_eq!(c.next_channel(NextColor::Done), (None, NextColor::Done));
    assert_eq!(c.r(), 1);
    assert_eq!(c.g(), 2);
    assert_eq!(c.b(), 3);
    assert_eq!(c.as_u32(), 0xFF03_0201);
    assert_eq!(Color::red(), Color::new(255, 0, 0));
    assert_eq!(Color::green(), Color::new(0, 255, 0));
    assert_eq!(Color::blue(), Color::new(0, 0, 255));
    assert_eq!(Color::black(), Color::new(0, 0, 0));
}

#[test]
fn illumination_model_from_number() {
    assert_eq!(IllumninationModel::try_from(0).unwrap(), IllumninationModel::Constant);
    assert_eq!(IllumninationModel::try_from(7).unwrap(), IllumninationModel::DiffuseSpecularRefractedFresnel);
    let e = IllumninationModel::try_from(8).unwrap_err();
    assert_eq!(e.invalid_model, 8);
}

#[test]
fn material_colors_and_kinds() {
    let m = Material::new(
        Color::new(10, 20, 30),
        Color::new(200, 200, 200),
        Color::white(),
        8,
        IllumninationModel::DiffuseSpecularRefractedFresnel,
        Some(fx(0.5)),
        Some(fx(1.5)),
    );
    assert!(m.is_reflective());
    assert!(m.is_refractive());
    assert_eq!(m.diffuse_color(None), Color::new(200, 200, 200));

    let t = MaterialTemplate::new(
        Color::black(),
        Color::new(200, 100, 50),
        Color::black(),
        1,
        IllumninationModel::Diffuse,
        None,
        None,
    );
    let textured = t.build_material(None, Some(Texture::Solid(Solid::new(Color::new(255, 0, 128)))), None);
    assert!(!textured.is_reflective());
    assert!(!textured.is_refractive());
    let uv = Some(Point2::new(0, 0));
    assert_eq!(textured.diffuse_color(uv), Color::new(200, 0, 25));
    assert_eq!(textured.diffuse_color(None), Color::new(200, 100, 50));
}
