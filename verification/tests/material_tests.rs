use raytrace::arithmetic::Arithmetic;
use raytrace::material::{reflectance, Material, MaterialKind, Scatter};
use raytrace::ray::Ray;
use raytrace::scalar::Scalar;
use raytrace::scene::HitRecord;
use raytrace::vec3::Vec3;
use std::cell::Cell;
use std::sync::Arc;

struct Ieee;

impl Arithmetic for Ieee {
    fn add(&self, a: Scalar, b: Scalar) -> Scalar {
        s(f(a) + f(b))
    }

    fn sub(&self, a: Scalar, b: Scalar) -> Scalar {
        s(f(a) - f(b))
    }

    fn mul(&self, a: Scalar, b: Scalar) -> Scalar {
        s(f(a) * f(b))
    }

    fn div(&self, a: Scalar, b: Scalar) -> Scalar {
        s(f(a) / f(b))
    }

    fn sqrt(&self, a: Scalar) -> Scalar {
        s(f(a).sqrt())
    }

    fn tan(&self, a: Scalar) -> Scalar {
        s(f(a).tan())
    }
}

fn s(x: f64) -> Scalar {
    Scalar::from_bits(x.to_bits())
}

fn f(x: Scalar) -> f64 {
    f64::from_bits(x.to_bits())
}

fn v(x: f64, y: f64, z: f64) -> Vec3 {
    Vec3::new(s(x), s(y), s(z))
}

fn material(kind: MaterialKind) -> Material {
    Material { kind, albedo: v(0.8, 0.6, 0.2) }
}

/// A ray that comes down on the plane at the height two, or up from below it.
fn incoming(from_above: bool) -> Ray {
    if from_above {
        Ray::new(v(-2.0, 6.0, 3.0), v(3.0, -4.0, 0.0))
    } else {
        Ray::new(v(-2.0, -2.0, 3.0), v(3.0, 4.0, 0.0))
    }
}

fn hit_with(material: Material, from_above: bool) -> HitRecord {
    HitRecord::new(&Ieee, &incoming(from_above), v(1.0, 2.0, 3.0), v(0.0, 1.0, 0.0), s(1.0), Arc::new(material))
}

fn scatter_with(kind: MaterialKind, unit: Vec3, draw: f64) -> Scatter {
    let m = material(kind);
    let hit = hit_with(m, true);
    m.scatter_with(&Ieee, &incoming(true), &hit, unit, s(draw)).unwrap()
}

fn glass() -> MaterialKind {
    MaterialKind::Dielectric { ref_idx: s(1.5) }
}

#[test]
fn schlick_reflectance() {
    assert_eq!(reflectance(&Ieee, s(1.0), s(1.0)), s(0.0));
    assert_eq!(reflectance(&Ieee, s(1.0), s(1.5)), s((0.5f64 / 2.5) * (0.5 / 2.5)));
    let r0 = ((1.0f64 - 1.5) / (1.0 + 1.5)) * ((1.0 - 1.5) / (1.0 + 1.5));
    assert_eq!(reflectance(&Ieee, s(0.0), s(1.5)), s(r0 + (1.0 - r0) * 1.0));
    assert!((f(reflectance(&Ieee, s(0.0), s(1.5))) - 1.0).abs() < 1e-15);
    let base = 1.0f64 - 0.3;
    let fifth = base * ((base * base) * (base * base));
    assert_eq!(reflectance(&Ieee, s(0.3), s(1.5)), s(r0 + (1.0 - r0) * fifth));
    assert!((f(reflectance(&Ieee, s(0.3), s(1.5))) - (r0 + (1.0 - r0) * 0.7f64.powi(5))).abs() < 1e-15);
}

#[test]
fn lambertian_weighs_by_the_albedo() {
    let out = scatter_with(MaterialKind::Lambertian, v(0.6, 0.0, 0.8), 0.5);
    assert_eq!(out.attenuation, v(0.8, 0.6, 0.2));
}

#[test]
fn lambertian_scatters_about_the_normal() {
    let out = scatter_with(MaterialKind::Lambertian, v(0.6, 0.0, 0.8), 0.5);
    assert_eq!(out.scattered.origin, v(1.0, 2.0, 3.0));
    assert_eq!(out.scattered.direction, v(0.6, 1.0, 0.8));
    let out = scatter_with(MaterialKind::Lambertian, v(0.1, 0.2, -0.3), 0.5);
    assert_eq!(out.scattered.direction, v(0.0 + 0.1, 1.0 + 0.2, 0.0 + -0.3));
}

#[test]
fn lambertian_falls_back_to_the_normal() {
    let out = scatter_with(MaterialKind::Lambertian, v(0.0, -1.0, 0.0), 0.5);
    assert_eq!(out.scattered, Ray::new(v(1.0, 2.0, 3.0), v(0.0, 1.0, 0.0)));
    assert_eq!(out.attenuation, v(0.8, 0.6, 0.2));
    let out = scatter_with(MaterialKind::Lambertian, v(1e-9, -1.0, -1e-9), 0.5);
    assert_eq!(out.scattered.direction, v(0.0, 1.0, 0.0));
}

fn is_zero(d: Vec3) -> bool {
    f(d.x) == 0.0 && f(d.y) == 0.0 && f(d.z) == 0.0
}

fn random_unit() -> Vec3 {
    loop {
        if let Some(unit) = Vec3::try_random_unit(&Ieee) {
            return unit;
        }
    }
}

#[test]
fn lambertian_scatters_somewhere_for_ten_thousand_random_hits() {
    let m = material(MaterialKind::Lambertian);
    for k in 0..10_000 {
        let ray = Ray::new(Vec3::random(), random_unit());
        let normal = random_unit();
        let hit = HitRecord::new(&Ieee, &ray, Vec3::random_in_cube(), normal, s(1.0), Arc::new(m));
        let unit = if k % 100 == 0 { hit.normal.neg() } else { random_unit() };
        let out = m.scatter_with(&Ieee, &ray, &hit, unit, s(0.0)).unwrap();
        assert!(!is_zero(out.scattered.direction));
        assert_eq!(out.attenuation, m.albedo);
        assert_eq!(out.scattered.origin, hit.p);
        let through_chance = m.scatter(&Ieee, &ray, &hit, &random_unit).unwrap();
        assert!(!is_zero(through_chance.scattered.direction));
        assert_eq!(through_chance.attenuation, m.albedo);
    }
}

#[test]
fn a_metal_without_fuzz_mirrors_the_ray() {
    let out = scatter_with(MaterialKind::Metal { fuzz: s(0.0) }, v(0.6, 0.0, -0.8), 0.5);
    assert_eq!(out.attenuation, v(0.8, 0.6, 0.2));
    assert_eq!(out.scattered.origin, v(1.0, 2.0, 3.0));
    assert_eq!(out.scattered.direction, v(3.0, 4.0, 0.0));
}

#[test]
fn a_metal_without_fuzz_keeps_the_length_of_the_ray() {
    let m = material(MaterialKind::Metal { fuzz: s(0.0) });
    let ray = Ray::new(v(0.0, 1.0, 0.0), v(1.0, -1.0, 0.0));
    let hit = HitRecord::new(&Ieee, &ray, v(1.0, 0.0, 0.0), v(0.0, 1.0, 0.0), s(1.0), Arc::new(m));
    for unit in [v(0.0, 0.0, 1.0), v(0.6, -0.8, 0.0), v(-1.0, 0.0, 0.0)] {
        let out = m.scatter_with(&Ieee, &ray, &hit, unit, s(0.5)).unwrap();
        assert_eq!(out.scattered.direction, v(1.0, 1.0, 0.0));
        assert_eq!(out.scattered.origin, hit.p);
        assert_eq!(out.attenuation, m.albedo);
    }
    let out = m.scatter(&Ieee, &ray, &hit, &random_unit).unwrap();
    assert_eq!(out.scattered.direction, v(1.0, 1.0, 0.0));
    assert_eq!(f(out.scattered.direction.length_squared(&Ieee)), f(ray.direction.length_squared(&Ieee)));
    assert_eq!(f(out.scattered.direction.dot(hit.normal, &Ieee)), -f(ray.direction.dot(hit.normal, &Ieee)));
}

#[test]
fn a_metal_without_fuzz_mirrors_ten_thousand_random_rays() {
    let m = material(MaterialKind::Metal { fuzz: s(0.0) });
    for _ in 0..10_000 {
        let ray = Ray::new(Vec3::random(), Vec3::random_in_cube());
        let hit = HitRecord::new(&Ieee, &ray, Vec3::random(), random_unit(), s(1.0), Arc::new(m));
        let out = m.scatter(&Ieee, &ray, &hit, &random_unit).unwrap();
        let mirrored = ray.direction.reflect(hit.normal, &Ieee);
        let d = out.scattered.direction;
        assert_eq!(f(d.x), f(mirrored.x));
        assert_eq!(f(d.y), f(mirrored.y));
        assert_eq!(f(d.z), f(mirrored.z));
        let along = f(d.dot(hit.normal, &Ieee));
        assert!((along + f(ray.direction.dot(hit.normal, &Ieee))).abs() < 1e-12);
        assert!(along >= -1e-12);
    }
}

#[test]
fn a_metal_spreads_the_mirrored_ray_by_its_fuzz() {
    let out = scatter_with(MaterialKind::Metal { fuzz: s(0.5) }, v(0.0, 0.0, 1.0), 0.5);
    assert_eq!(out.scattered.direction, v(3.0 + 0.0 * 0.5, 4.0 + 0.0 * 0.5, 0.0 + 1.0 * 0.5));
    assert_eq!(out.scattered.direction, v(3.0, 4.0, 0.5));
    let out = scatter_with(MaterialKind::Metal { fuzz: s(0.25) }, v(0.6, -0.8, 0.0), 0.5);
    assert_eq!(out.scattered.direction, v(3.0 + 0.6 * 0.25, 4.0 + -0.8 * 0.25, 0.0 + 0.0 * 0.25));
}

#[test]
fn a_metal_stays_within_its_fuzz_of_the_mirrored_ray() {
    for fuzz in [0.0, 0.1, 0.5, 1.0] {
        let m = material(MaterialKind::Metal { fuzz: s(fuzz) });
        for _ in 0..1_000 {
            let ray = Ray::new(Vec3::random(), Vec3::random_in_cube());
            let hit = HitRecord::new(&Ieee, &ray, Vec3::random(), random_unit(), s(1.0), Arc::new(m));
            let out = m.scatter(&Ieee, &ray, &hit, &random_unit).unwrap();
            let mirrored = ray.direction.reflect(hit.normal, &Ieee);
            let off = out.scattered.direction.sub(mirrored, &Ieee);
            assert!(f(off.length(&Ieee)) <= fuzz + 1e-12);
            assert_eq!(out.attenuation, m.albedo);
            assert_eq!(out.scattered.origin, hit.p);
        }
    }
}

#[test]
fn metal_does_not_reject_a_direction_below_the_surface() {
    let m = material(MaterialKind::Metal { fuzz: s(1.0) });
    let grazing = Ray::new(v(-2.0, 2.5, 3.0), v(3.0, -0.5, 0.0));
    let hit = HitRecord::new(&Ieee, &grazing, v(1.0, 2.0, 3.0), v(0.0, 1.0, 0.0), s(1.0), Arc::new(m));
    let out = m.scatter_with(&Ieee, &grazing, &hit, v(0.0, -1.0, 0.0), s(0.5)).unwrap();
    assert_eq!(out.scattered.direction, v(3.0, -0.5, 0.0));
    assert!(f(out.scattered.direction.dot(hit.normal, &Ieee)) < 0.0);
}

#[test]
fn dielectric_does_not_tint() {
    let out = scatter_with(glass(), v(0.0, 0.0, 0.0), 0.5);
    assert_eq!(out.attenuation, v(1.0, 1.0, 1.0));
    assert_eq!(out.scattered.origin, v(1.0, 2.0, 3.0));
}

#[test]
fn dielectric_refracts_where_the_draw_is_not_below_the_reflectance() {
    let out = scatter_with(glass(), v(0.0, 0.0, 0.0), 0.5);
    let unit = incoming(true).direction.unit_vector(&Ieee);
    let ratio = 1.0 / 1.5;
    assert_eq!(out.scattered.direction, unit.refract(v(0.0, 1.0, 0.0), s(ratio), &Ieee));
    assert!(f(out.scattered.direction.y) < 0.0);
    assert!((f(out.scattered.direction.x) - 0.4).abs() < 1e-15);
}

#[test]
fn dielectric_reflects_where_the_draw_falls_below_the_reflectance() {
    let unit = incoming(true).direction.unit_vector(&Ieee);
    let cos_theta = f(unit.neg().dot(v(0.0, 1.0, 0.0), &Ieee)).min(1.0);
    let r = f(reflectance(&Ieee, s(cos_theta), s(1.0 / 1.5)));
    assert!(0.04 < r && r < 0.05);
    let mirrored = unit.reflect(v(0.0, 1.0, 0.0), &Ieee);
    assert_eq!(scatter_with(glass(), v(0.0, 0.0, 0.0), 0.0).scattered.direction, mirrored);
    assert_eq!(scatter_with(glass(), v(0.0, 0.0, 0.0), r * 0.999).scattered.direction, mirrored);
    let refracted = unit.refract(v(0.0, 1.0, 0.0), s(1.0 / 1.5), &Ieee);
    assert_eq!(scatter_with(glass(), v(0.0, 0.0, 0.0), r).scattered.direction, refracted);
    assert_eq!(scatter_with(glass(), v(0.0, 0.0, 0.0), 0.999).scattered.direction, refracted);
}

#[test]
fn dielectric_reflects_where_it_cannot_refract() {
    let m = material(glass());
    let ray = Ray::new(v(-2.0, 1.0, 3.0), v(3.0, 1.0, 0.0));
    let hit = HitRecord::new(&Ieee, &ray, v(1.0, 2.0, 3.0), v(0.0, 1.0, 0.0), s(1.0), Arc::new(m));
    assert!(!hit.front_face);
    let unit = ray.direction.unit_vector(&Ieee);
    let mirrored = unit.reflect(hit.normal, &Ieee);
    for draw in [0.0, 0.5, 0.999999] {
        let out = m.scatter_with(&Ieee, &ray, &hit, v(0.0, 0.0, 0.0), s(draw)).unwrap();
        assert_eq!(out.scattered.direction, mirrored);
        assert!(f(out.scattered.direction.y) < 0.0);
    }
    for _ in 0..100 {
        assert_eq!(m.scatter(&Ieee, &ray, &hit, &random_unit).unwrap().scattered.direction, mirrored);
    }
}

#[test]
fn the_refraction_ratio_depends_on_the_side() {
    let m = material(glass());
    let down = incoming(true);
    let entering = hit_with(m, true);
    assert!(entering.front_face);
    let out = m.scatter_with(&Ieee, &down, &entering, v(0.0, 0.0, 0.0), s(0.999)).unwrap();
    let unit = down.direction.unit_vector(&Ieee);
    assert_eq!(out.scattered.direction, unit.refract(entering.normal, s(1.0 / 1.5), &Ieee));
    let steep = Ray::new(v(1.0, 0.0, 3.0), v(0.3, 4.0, 0.0));
    let leaving = HitRecord::new(&Ieee, &steep, v(1.0, 2.0, 3.0), v(0.0, 1.0, 0.0), s(1.0), Arc::new(m));
    assert!(!leaving.front_face);
    let out = m.scatter_with(&Ieee, &steep, &leaving, v(0.0, 0.0, 0.0), s(0.999)).unwrap();
    let unit = steep.direction.unit_vector(&Ieee);
    assert_eq!(out.scattered.direction, unit.refract(leaving.normal, s(1.5), &Ieee));
}

#[test]
fn matched_indices_let_a_head_on_ray_straight_through() {
    let m = material(MaterialKind::Dielectric { ref_idx: s(1.0) });
    let ray = Ray::new(v(1.0, 7.0, 3.0), v(0.0, -5.0, 0.0));
    let hit = HitRecord::new(&Ieee, &ray, v(1.0, 2.0, 3.0), v(0.0, 1.0, 0.0), s(1.0), Arc::new(m));
    for _ in 0..1_000 {
        let out = m.scatter(&Ieee, &ray, &hit, &random_unit).unwrap();
        let d = out.scattered.direction;
        assert!((f(d.x) - 0.0).abs() < 1e-12);
        assert!((f(d.y) - -1.0).abs() < 1e-12);
        assert!((f(d.z) - 0.0).abs() < 1e-12);
        assert_eq!(out.attenuation, v(1.0, 1.0, 1.0));
    }
}

#[test]
fn matched_indices_send_a_head_on_ray_on_along_its_unit_direction() {
    let m = material(MaterialKind::Dielectric { ref_idx: s(1.0) });
    for (direction, normal) in [
        (v(0.0, -5.0, 0.0), v(0.0, 1.0, 0.0)),
        (v(0.0, 0.25, 0.0), v(0.0, 1.0, 0.0)),
        (v(3.0, 0.0, 0.0), v(-1.0, 0.0, 0.0)),
        (v(0.0, 0.0, -1.0), v(0.0, 0.0, -1.0)),
    ] {
        let ray = Ray::new(v(1.0, 7.0, 3.0), direction);
        let hit = HitRecord::new(&Ieee, &ray, v(1.0, 2.0, 3.0), normal, s(1.0), Arc::new(m));
        let unit = direction.unit_vector(&Ieee);
        for draw in [0.0, 1e-300, 0.5, 0.9999999999999999] {
            let out = m.scatter_with(&Ieee, &ray, &hit, v(0.0, 0.0, 1.0), s(draw)).unwrap();
            assert_eq!(f(out.scattered.direction.x), f(unit.x));
            assert_eq!(f(out.scattered.direction.y), f(unit.y));
            assert_eq!(f(out.scattered.direction.z), f(unit.z));
            assert_eq!(out.scattered.origin, v(1.0, 2.0, 3.0));
            assert_eq!(out.attenuation, v(1.0, 1.0, 1.0));
        }
    }
}

#[test]
fn dielectric_mirrors_as_often_as_the_reflectance_says() {
    let m = material(glass());
    let grazing = Ray::new(v(-2.0, 2.5, 3.0), v(3.0, -0.5, 0.0));
    let hit = HitRecord::new(&Ieee, &grazing, v(1.0, 2.0, 3.0), v(0.0, 1.0, 0.0), s(1.0), Arc::new(m));
    let unit = grazing.direction.unit_vector(&Ieee);
    let cos_theta = f(unit.neg().dot(hit.normal, &Ieee)).min(1.0);
    let r = f(reflectance(&Ieee, s(cos_theta), s(1.0 / 1.5)));
    assert!(0.3 < r && r < 0.6);
    let mirrored = unit.reflect(hit.normal, &Ieee);
    let mut count = 0;
    for _ in 0..20_000 {
        let out = m.scatter(&Ieee, &grazing, &hit, &random_unit).unwrap();
        if out.scattered.direction == mirrored {
            count += 1;
        }
    }
    let expected = 20_000.0 * r;
    assert!((count as f64 - expected).abs() < 700.0);
}

#[test]
fn only_the_materials_that_scatter_about_ask_for_a_unit_vector() {
    let asked = Cell::new(0u32);
    let source = || {
        asked.set(asked.get() + 1);
        v(0.0, 0.0, 1.0)
    };
    for (kind, expected) in [
        (MaterialKind::Lambertian, 1),
        (MaterialKind::Metal { fuzz: s(0.5) }, 2),
        (glass(), 2),
    ] {
        let m = material(kind);
        let hit = hit_with(m, true);
        assert!(m.scatter(&Ieee, &incoming(true), &hit, &source).is_some());
        assert_eq!(asked.get(), expected);
    }
}

#[test]
fn no_kind_absorbs() {
    for kind in [MaterialKind::Lambertian, MaterialKind::Metal { fuzz: s(0.5) }, glass()] {
        let m = material(kind);
        for from_above in [true, false] {
            let hit = hit_with(m, from_above);
            assert!(m.scatter(&Ieee, &incoming(from_above), &hit, &random_unit).is_some());
        }
    }
}
