use raytrace::arithmetic::Arithmetic;
use raytrace::interval::Interval;
use raytrace::material::{Material, MaterialKind};
use raytrace::ray::Ray;
use raytrace::scalar::Scalar;
use raytrace::scene::{HitRecord, Hittable, World};
use raytrace::sphere::Sphere;
use raytrace::tracer::window;
use raytrace::vec3::Vec3;
use std::sync::Arc;

struct Ieee;

impl Arithmetic for Ieee {
    fn add(&self, a: Scalar, b: Scalar) -> Scalar {
        s(f(a) + f(b))
    }

    fn sub(&self, a: Scalar, b: Scalar) -> Scalar {
        s(f(a) - f(b))
    }

    fn mul(&self, a: Scalar, b: Scalar) -> Scalar {
        s(f(a) * f(b))
    }

    fn div(&self, a: Scalar, b: Scalar) -> Scalar {
        s(f(a) / f(b))
    }

    fn sqrt(&self, a: Scalar) -> Scalar {
        s(f(a).sqrt())
    }

    fn tan(&self, a: Scalar) -> Scalar {
        s(f(a).tan())
    }
}

fn s(x: f64) -> Scalar {
    Scalar::from_bits(x.to_bits())
}

fn f(x: Scalar) -> f64 {
    f64::from_bits(x.to_bits())
}

fn v(x: f64, y: f64, z: f64) -> Vec3 {
    Vec3::new(s(x), s(y), s(z))
}

fn ball(center: [f64; 3], radius: f64, material: Arc<Material>) -> Sphere {
    Sphere::new(v(center[0], center[1], center[2]), s(radius), material)
}

fn grey() -> Arc<Material> {
    Arc::new(Material { kind: MaterialKind::Lambertian, albedo: v(0.5, 0.5, 0.5) })
}

/// A shape that answers with a fixed parameter where the range allows it.
struct Plate {
    t: f64,
    tag: f64,
}

impl Hittable<Ieee> for Plate {
    fn is_hit(&self, _: &Ieee, _: Ray, _: Interval, _: Option<HitRecord>) -> bool {
        true
    }

    fn hit(&self, _: &Ieee, ray: &Ray, ray_t: Interval) -> Option<HitRecord> {
        if ray_t.surrounds(s(self.t)) {
            Some(HitRecord::new(&Ieee, ray, v(self.tag, 0.0, 0.0), v(0.0, 0.0, 1.0), s(self.t), grey()))
        } else {
            None
        }
    }
}

fn plates(ts: &[f64]) -> World<Plate> {
    let mut world = World::new();
    for (k, t) in ts.iter().enumerate() {
        world.add(Plate { t: *t, tag: k as f64 });
    }
    world
}

fn forward() -> Ray {
    Ray::new(v(0.0, 0.0, 0.0), v(0.0, 0.0, -1.0))
}

#[test]
fn record_of_a_hit_from_outside_keeps_the_normal() {
    let rec = HitRecord::new(&Ieee, &forward(), v(0.0, 0.0, -0.5), v(0.0, 0.0, 1.0), s(0.5), grey());
    assert!(rec.front_face);
    assert_eq!(rec.normal, v(0.0, 0.0, 1.0));
    assert_eq!(rec.p, v(0.0, 0.0, -0.5));
    assert_eq!(rec.t, s(0.5));
    assert_eq!(*rec.material, *grey());
}

#[test]
fn record_of_a_hit_from_inside_reverses_the_normal() {
    let rec = HitRecord::new(&Ieee, &forward(), v(0.0, 0.0, -1.5), v(0.0, 0.0, -1.0), s(1.5), grey());
    assert!(!rec.front_face);
    assert_eq!(rec.normal, v(-0.0, -0.0, 1.0));
}

#[test]
fn record_of_a_grazing_hit_counts_as_from_inside() {
    let rec = HitRecord::new(&Ieee, &forward(), v(0.0, 0.0, 0.0), v(1.0, 0.0, 0.0), s(1.0), grey());
    assert!(!rec.front_face);
    assert_eq!(rec.normal, v(-1.0, -0.0, -0.0));
}

#[test]
fn recorded_normal_never_points_along_the_ray() {
    let normals = [[0.0, 0.0, 1.0], [0.6, 0.0, -0.8], [-0.36, 0.48, 0.8], [1.0, 0.0, 0.0]];
    let directions = [[0.0, 0.0, -1.0], [0.3, -2.0, 0.7], [-5.0, 0.1, 0.1], [1e-9, 1.0, 0.0]];
    for n in normals {
        for d in directions {
            let ray = Ray::new(v(1.0, 2.0, 3.0), v(d[0], d[1], d[2]));
            let outward = v(n[0], n[1], n[2]);
            let rec = HitRecord::new(&Ieee, &ray, v(0.0, 0.0, 0.0), outward, s(1.0), grey());
            assert!(f(rec.normal.dot(ray.direction, &Ieee)) <= 0.0);
            assert_eq!(rec.front_face, f(ray.direction.dot(outward, &Ieee)) < 0.0);
        }
    }
}

#[test]
fn recorded_normal_never_points_along_the_ray_for_ten_thousand_random_hits() {
    for _ in 0..10_000 {
        let ray = Ray::new(Vec3::random(), Vec3::random_in_cube());
        let outward = Vec3::random_in_cube();
        let rec = HitRecord::new(&Ieee, &ray, Vec3::random(), outward, s(1.0), grey());
        assert!(f(rec.normal.dot(ray.direction, &Ieee)) <= 0.0);
    }
}

#[test]
fn no_root_below_a_negative_discriminant() {
    let range = Interval::new(s(0.001), s(f64::INFINITY));
    assert_eq!(Sphere::nearest_root(range, s(-0.25), s(0.5), s(1.5)), None);
}

#[test]
fn the_near_root_wins_where_both_lie_inside() {
    let range = Interval::new(s(0.001), s(f64::INFINITY));
    assert_eq!(Sphere::nearest_root(range, s(0.25), s(0.5), s(1.5)), Some(s(0.5)));
}

#[test]
fn the_far_root_serves_where_the_near_one_lies_outside() {
    let range = Interval::new(s(0.001), s(f64::INFINITY));
    assert_eq!(Sphere::nearest_root(range, s(0.25), s(-0.5), s(0.5)), Some(s(0.5)));
    assert_eq!(Sphere::nearest_root(range, s(0.25), s(0.001), s(0.5)), Some(s(0.5)));
}

#[test]
fn no_root_where_both_lie_outside() {
    let range = Interval::new(s(0.001), s(1.0));
    assert_eq!(Sphere::nearest_root(range, s(0.25), s(-1.5), s(-0.5)), None);
    assert_eq!(Sphere::nearest_root(range, s(0.25), s(1.0), s(2.0)), None);
    assert_eq!(Sphere::nearest_root(range, s(0.25), s(-0.5), s(1.0)), None);
    assert_eq!(Sphere::nearest_root(range, s(f64::NAN), s(f64::NAN), s(f64::NAN)), None);
}

#[test]
fn a_zero_discriminant_is_a_hit() {
    let range = Interval::new(s(0.001), s(f64::INFINITY));
    assert_eq!(Sphere::nearest_root(range, s(0.0), s(1.0), s(1.0)), Some(s(1.0)));
}

#[test]
fn lowering_the_bound_keeps_or_drops_the_root() {
    let roots = [-1.0, 0.0005, 0.5, 1.0, 1.5, 3.0];
    let bounds = [0.25, 0.5, 1.0, 2.0, 3.0];
    for near in roots {
        for far in roots {
            if far < near {
                continue;
            }
            let whole = Sphere::nearest_root(Interval::new(s(0.001), s(3.0)), s(1.0), s(near), s(far));
            for bound in bounds {
                let cut = Sphere::nearest_root(Interval::new(s(0.001), s(bound)), s(1.0), s(near), s(far));
                let expected = match whole {
                    Some(t) if f(t) < bound => Some(t),
                    _ => None,
                };
                assert_eq!(cut, expected);
            }
        }
    }
}

#[test]
fn sphere_keeps_what_it_was_made_of() {
    let sphere = Sphere::new(v(0.0, 1.0, 0.0), s(2.0), grey());
    assert_eq!(sphere.center(), v(0.0, 1.0, 0.0));
    assert_eq!(sphere.radius(), s(2.0));
    assert_eq!(**sphere.material(), *grey());
}

#[test]
fn a_ray_at_a_sphere_ahead_strikes_its_near_side() {
    let sphere = Sphere::new(v(0.0, 0.0, -1.0), s(0.5), grey());
    let rec = sphere.hit(&Ieee, &forward(), window()).unwrap();
    assert_eq!(rec.t, s(0.5));
    assert_eq!(rec.p, v(0.0, 0.0, -0.5));
    assert_eq!(rec.normal, v(0.0, 0.0, 1.0));
    assert!(rec.front_face);
    assert_eq!(*rec.material, *grey());
}

#[test]
fn a_ray_from_inside_a_sphere_strikes_its_far_side() {
    let sphere = Sphere::new(v(0.0, 0.0, 0.0), s(2.0), grey());
    let rec = sphere.hit(&Ieee, &forward(), window()).unwrap();
    assert_eq!(rec.t, s(2.0));
    assert_eq!(f(rec.p.x), 0.0);
    assert_eq!(f(rec.p.y), 0.0);
    assert_eq!(f(rec.p.z), -2.0);
    assert_eq!(f(rec.normal.z), 1.0);
    assert!(!rec.front_face);
}

#[test]
fn a_ray_past_a_sphere_misses_it() {
    let sphere = Sphere::new(v(0.0, 0.0, -1.0), s(0.5), grey());
    let up = Ray::new(v(0.0, 0.0, 0.0), v(0.0, 1.0, 0.0));
    assert!(sphere.hit(&Ieee, &up, window()).is_none());
    let away = Ray::new(v(0.0, 0.0, 0.0), v(0.0, 0.0, 1.0));
    assert!(sphere.hit(&Ieee, &away, window()).is_none());
}

#[test]
fn a_ray_that_starts_on_a_surface_does_not_strike_it_again() {
    let sphere = Sphere::new(v(0.0, 0.0, -1.0), s(0.5), grey());
    let leaving = Ray::new(v(0.0, 0.0, -0.5), v(0.0, 0.0, 1.0));
    assert!(sphere.hit(&Ieee, &leaving, window()).is_none());
    let entering = Ray::new(v(0.0, 0.0, -0.5), v(0.0, 0.0, -1.0));
    assert_eq!(sphere.hit(&Ieee, &entering, window()).unwrap().t, s(1.0));
}

#[test]
fn a_sphere_is_hit_only_inside_the_range() {
    let sphere = Sphere::new(v(0.0, 0.0, -5.0), s(1.0), grey());
    assert_eq!(sphere.hit(&Ieee, &forward(), Interval::new(s(0.001), s(100.0))).unwrap().t, s(4.0));
    assert_eq!(sphere.hit(&Ieee, &forward(), Interval::new(s(4.0), s(100.0))).unwrap().t, s(6.0));
    assert!(sphere.hit(&Ieee, &forward(), Interval::new(s(0.001), s(4.0))).is_none());
    assert!(sphere.hit(&Ieee, &forward(), Interval::new(s(6.0), s(100.0))).is_none());
    assert!(sphere.hit(&Ieee, &forward(), Interval::new(s(4.5), s(5.5))).is_none());
}

#[test]
fn a_sphere_hit_agrees_with_the_quadratic_in_doubles() {
    let sphere = Sphere::new(v(0.3, -0.2, -3.0), s(1.25), grey());
    let ray = Ray::new(v(0.1, 0.2, 0.3), v(0.05, -0.1, -1.0));
    let rec = sphere.hit(&Ieee, &ray, window()).unwrap();
    let oc: [f64; 3] = [0.3 - 0.1, -0.2 - 0.2, -3.0 - 0.3];
    let d: [f64; 3] = [0.05, -0.1, -1.0];
    let a = d[0] * d[0] + d[1] * d[1] + d[2] * d[2];
    let h = d[0] * oc[0] + d[1] * oc[1] + d[2] * oc[2];
    let c = (oc[0] * oc[0] + oc[1] * oc[1] + oc[2] * oc[2]) - 1.25 * 1.25;
    let discriminant = h * h - a * c;
    let t = (h - discriminant.sqrt()) / a;
    assert_eq!(rec.t, s(t));
    let p = [0.1 + d[0] * t, 0.2 + d[1] * t, 0.3 + d[2] * t];
    assert_eq!(rec.p, v(p[0], p[1], p[2]));
    let inverse = 1.0 / 1.25;
    let n = [(p[0] - 0.3) * inverse, (p[1] - -0.2) * inverse, (p[2] - -3.0) * inverse];
    assert_eq!(rec.normal, v(n[0], n[1], n[2]));
    assert!(rec.front_face);
    let distance = ((p[0] - 0.3).powi(2) + (p[1] + 0.2).powi(2) + (p[2] + 3.0).powi(2)).sqrt();
    assert!((distance - 1.25).abs() < 1e-12);
}

#[test]
fn an_empty_world_is_never_hit() {
    let world: World<Plate> = World::new();
    assert_eq!(world.len(), 0);
    assert!(world.hit(&Ieee, &forward(), window()).is_none());
}

#[test]
fn add_puts_objects_at_the_end() {
    let world = plates(&[3.0, 2.0]);
    assert_eq!(world.len(), 2);
}

#[test]
fn the_closest_object_is_hit() {
    let world = plates(&[5.0, 2.0, 7.0, 3.0]);
    let rec = world.hit(&Ieee, &forward(), window()).unwrap();
    assert_eq!(rec.t, s(2.0));
    assert_eq!(rec.p, v(1.0, 0.0, 0.0));
}

#[test]
fn the_order_of_the_objects_does_not_change_the_hit() {
    let orders: [[f64; 4]; 4] =
        [[5.0, 2.0, 7.0, 3.0], [2.0, 3.0, 5.0, 7.0], [7.0, 5.0, 3.0, 2.0], [3.0, 7.0, 2.0, 5.0]];
    for order in orders {
        let rec = plates(&order).hit(&Ieee, &forward(), window()).unwrap();
        assert_eq!(rec.t, s(2.0));
    }
}

#[test]
fn the_scan_finds_what_the_minimum_of_all_hits_finds() {
    let sets: [&[f64]; 6] = [
        &[],
        &[4.0],
        &[4.0, 4.0],
        &[9.0, 0.0005, 4.0, 0.5, 12.0],
        &[0.0001, -3.0, 0.001],
        &[6.0, 5.0, 4.0, 3.0, 2.0, 1.0],
    ];
    let ranges = [(0.001, f64::INFINITY), (0.001, 4.0), (1.0, 5.5), (0.0, 0.0004)];
    for ts in sets {
        for (lo, hi) in ranges {
            let range = Interval::new(s(lo), s(hi));
            let world = plates(ts);
            let mut best: Option<HitRecord> = None;
            for (k, t) in ts.iter().enumerate() {
                let alone = Plate { t: *t, tag: k as f64 }.hit(&Ieee, &forward(), range);
                if let Some(rec) = alone {
                    let better = match &best {
                        Some(b) => f(rec.t) < f(b.t),
                        None => true,
                    };
                    if better {
                        best = Some(rec);
                    }
                }
            }
            let found = world.hit(&Ieee, &forward(), range);
            match (found, best) {
                (Some(a), Some(b)) => {
                    assert_eq!(a.t, b.t);
                    assert_eq!(a.p, b.p);
                },
                (None, None) => {},
                _ => panic!("scan and minimum disagree"),
            }
        }
    }
}

#[test]
fn the_scan_of_random_spheres_finds_the_closest_of_their_hits() {
    let mut state: u64 = 99;
    let mut next = move || {
        state = state.wrapping_mul(6364136223846793005).wrapping_add(1442695040888963407);
        (state >> 11) as f64 / (1u64 << 53) as f64
    };
    for _ in 0..200 {
        let mut world = World::new();
        let mut balls = Vec::new();
        for _ in 0..8 {
            let center = [next() * 4.0 - 2.0, next() * 4.0 - 2.0, -1.0 - next() * 8.0];
            let radius = 0.2 + next();
            world.add(ball(center, radius, grey()));
            balls.push(ball(center, radius, grey()));
        }
        let ray = Ray::new(v(0.0, 0.0, 0.0), v(next() - 0.5, next() - 0.5, -1.0));
        let mut best: Option<HitRecord> = None;
        for ball in &balls {
            if let Some(rec) = ball.hit(&Ieee, &ray, window()) {
                let better = match &best {
                    Some(b) => f(rec.t) < f(b.t),
                    None => true,
                };
                if better {
                    best = Some(rec);
                }
            }
        }
        match (world.hit(&Ieee, &ray, window()), best) {
            (Some(a), Some(b)) => {
                assert_eq!(a.t, b.t);
                assert_eq!(a.p, b.p);
                assert_eq!(a.normal, b.normal);
            },
            (None, None) => {},
            _ => panic!("scan and minimum disagree"),
        }
    }
}

#[test]
fn of_two_equal_hits_the_first_is_kept() {
    let rec = plates(&[4.0, 4.0, 4.0]).hit(&Ieee, &forward(), window()).unwrap();
    assert_eq!(rec.p, v(0.0, 0.0, 0.0));
}

#[test]
fn hits_outside_the_range_are_not_seen() {
    let world = plates(&[0.0005, 9.0]);
    assert!(world.hit(&Ieee, &forward(), Interval::new(s(0.001), s(9.0))).is_none());
    let rec = world.hit(&Ieee, &forward(), Interval::new(s(0.001), s(9.5))).unwrap();
    assert_eq!(rec.t, s(9.0));
}

#[test]
fn of_two_spheres_in_line_the_nearer_is_struck() {
    let red = Arc::new(Material { kind: MaterialKind::Lambertian, albedo: v(1.0, 0.0, 0.0) });
    let mut world = World::new();
    world.add(ball([0.0, 0.0, -5.0], 1.0, grey()));
    world.add(ball([0.0, 0.0, -2.0], 0.5, red.clone()));
    let rec = world.hit(&Ieee, &forward(), window()).unwrap();
    assert_eq!(rec.t, s(1.5));
    assert_eq!(*rec.material, *red);
}
