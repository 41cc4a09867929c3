use raytrace::arithmetic::Arithmetic;
use raytrace::camera::{rows, to_radians, Camera, RADIANS_PER_DEGREE_BITS};
use raytrace::canvas::Canvas;
use raytrace::color::Color;
use raytrace::material::{Material, MaterialKind};
use raytrace::scalar::Scalar;
use raytrace::scene::World;
use raytrace::sphere::Sphere;
use raytrace::vec3::Vec3;
use std::cell::Cell;
use std::sync::Arc;

struct Ieee;

impl Arithmetic for Ieee {
    fn add(&self, a: Scalar, b: Scalar) -> Scalar {
        s(f(a) + f(b))
    }

    fn sub(&self, a: Scalar, b: Scalar) -> Scalar {
        s(f(a) - f(b))
    }

    fn mul(&self, a: Scalar, b: Scalar) -> Scalar {
        s(f(a) * f(b))
    }

    fn div(&self, a: Scalar, b: Scalar) -> Scalar {
        s(f(a) / f(b))
    }

    fn sqrt(&self, a: Scalar) -> Scalar {
        s(f(a).sqrt())
    }

    fn tan(&self, a: Scalar) -> Scalar {
        s(f(a).tan())
    }
}

fn s(x: f64) -> Scalar {
    Scalar::from_bits(x.to_bits())
}

fn f(x: Scalar) -> f64 {
    f64::from_bits(x.to_bits())
}

fn v(x: f64, y: f64, z: f64) -> Vec3 {
    Vec3::new(s(x), s(y), s(z))
}

fn ball(center: [f64; 3], radius: f64, material: Arc<Material>) -> Sphere {
    Sphere::new(v(center[0], center[1], center[2]), s(radius), material)
}

fn straight_up() -> Vec3 {
    v(0.0, 1.0, 0.0)
}

fn on_the_lens() -> Vec3 {
    v(0.5, -0.25, 0.0)
}

/// The camera of the cover picture.
fn cover(image_width: u32, samples_per_pixel: u16) -> Camera {
    Camera::new(
        &Ieee,
        s(16.0 / 9.0),
        image_width,
        samples_per_pixel,
        v(13.0, 2.0, 3.0),
        v(0.0, 0.0, 0.0),
        v(0.0, 1.0, 0.0),
        s(20.0),
        s(0.6),
        s(10.0),
    )
}

/// A camera at the origin that looks down the negative z axis at a square
/// image two units wide, one unit ahead.
fn plain(image_width: u32, samples_per_pixel: u16, defocus_angle: f64) -> Camera {
    Camera::new(
        &Ieee,
        s(1.0),
        image_width,
        samples_per_pixel,
        v(0.0, 0.0, 0.0),
        v(0.0, 0.0, -1.0),
        v(0.0, 1.0, 0.0),
        s(90.0),
        s(defocus_angle),
        s(1.0),
    )
}

fn close(a: Vec3, b: [f64; 3]) -> bool {
    (f(a.x) - b[0]).abs() < 1e-12 && (f(a.y) - b[1]).abs() < 1e-12 && (f(a.z) - b[2]).abs() < 1e-12
}

#[test]
fn rows_truncate_the_quotient() {
    assert_eq!(rows(s(400.0 / (16.0 / 9.0))), 225);
    assert_eq!(rows(s(1200.0 / (16.0 / 9.0))), 675);
    assert_eq!(rows(s(224.99)), 224);
    assert_eq!(rows(s(1.0)), 1);
}

#[test]
fn an_image_has_at_least_one_row() {
    assert_eq!(rows(s(0.9)), 1);
    assert_eq!(rows(s(0.0)), 1);
    assert_eq!(rows(s(-20.0)), 1);
    assert_eq!(rows(s(f64::NAN)), 1);
    assert_eq!(Camera::new(&Ieee, s(100.0), 10, 1, v(0.0, 0.0, 1.0), v(0.0, 0.0, 0.0), v(0.0, 1.0, 0.0), s(40.0), s(0.0), s(1.0)).image_height, 1);
}

#[test]
fn rows_stop_at_the_largest_height() {
    assert_eq!(rows(s(1e20)), u32::MAX);
    assert_eq!(rows(s(f64::INFINITY)), u32::MAX);
}

#[test]
fn rows_agree_with_cast_and_clamp() {
    for width in [1u32, 2, 3, 100, 400, 1200, 1920, 65535, u32::MAX] {
        for aspect in [16.0 / 9.0, 1.0, 0.5, 4.0 / 3.0, 2.35, 1e-3, 1e9] {
            let quotient = width as f64 / aspect;
            assert_eq!(rows(s(quotient)), (quotient as u32).clamp(1, u32::MAX));
        }
    }
}

#[test]
fn degrees_become_radians() {
    assert_eq!(RADIANS_PER_DEGREE_BITS, (std::f64::consts::PI / 180.0).to_bits());
    for degrees in [0.0, 0.3, 10.0, 20.0, 45.0, 90.0, 180.0, -30.0] {
        assert_eq!(to_radians(&Ieee, s(degrees)), s((degrees as f64).to_radians()));
    }
}

#[test]
fn a_camera_keeps_its_parameters() {
    let camera = cover(1200, 10);
    assert_eq!(camera.aspect_ratio, s(16.0 / 9.0));
    assert_eq!(camera.image_width, 1200);
    assert_eq!(camera.image_height, 675);
    assert_eq!(camera.samples_per_pixel, 10);
    assert_eq!(camera.pixel_samples_scale, s(0.1));
    assert_eq!(camera.center, v(13.0, 2.0, 3.0));
    assert_eq!(camera.look_from, v(13.0, 2.0, 3.0));
    assert_eq!(camera.look_at, v(0.0, 0.0, 0.0));
    assert_eq!(camera.up, v(0.0, 1.0, 0.0));
    assert_eq!(camera.vertical_fov, s(20.0));
    assert_eq!(camera.defocus_angle, s(0.6));
}

#[test]
fn the_basis_of_a_camera_is_orthonormal() {
    let camera = cover(400, 1);
    let dot = |a: Vec3, b: Vec3| f(a.dot(b, &Ieee));
    assert!((dot(camera.u, camera.u) - 1.0).abs() < 1e-12);
    assert!((dot(camera.v, camera.v) - 1.0).abs() < 1e-12);
    assert!((dot(camera.w, camera.w) - 1.0).abs() < 1e-12);
    assert!(dot(camera.u, camera.v).abs() < 1e-12);
    assert!(dot(camera.v, camera.w).abs() < 1e-12);
    assert!(dot(camera.w, camera.u).abs() < 1e-12);
    let length = (13.0f64 * 13.0 + 2.0 * 2.0 + 3.0 * 3.0).sqrt();
    assert!(close(camera.w, [13.0 / length, 2.0 / length, 3.0 / length]));
    assert!(f(camera.v.y) > 0.9);
}

#[test]
fn the_frame_of_a_plain_camera() {
    let camera = plain(4, 1, 0.0);
    assert_eq!(camera.image_height, 4);
    assert_eq!(camera.w, v(0.0, 0.0, 1.0));
    assert_eq!(camera.u, v(1.0, 0.0, 0.0));
    assert_eq!(camera.v, v(0.0, 1.0, 0.0));
    assert!(close(camera.pixel_delta_u, [0.5, 0.0, 0.0]));
    assert!(close(camera.pixel_delta_v, [0.0, -0.5, 0.0]));
    assert!(close(camera.pixel00_loc, [-0.75, 0.75, -1.0]));
    assert!(close(camera.defocus_disk_u, [0.0, 0.0, 0.0]));
    assert!(close(camera.defocus_disk_v, [0.0, 0.0, 0.0]));
}

#[test]
fn the_frame_of_a_camera_agrees_with_the_arithmetic_of_doubles() {
    let camera = cover(1200, 10);
    let (width, height) = (1200.0f64, 675.0f64);
    let sub = |a: [f64; 3], b: [f64; 3]| [a[0] - b[0], a[1] - b[1], a[2] - b[2]];
    let add = |a: [f64; 3], b: [f64; 3]| [a[0] + b[0], a[1] + b[1], a[2] + b[2]];
    let scale = |a: [f64; 3], t: f64| [a[0] * t, a[1] * t, a[2] * t];
    let div = |a: [f64; 3], t: f64| scale(a, 1.0 / t);
    let dot = |a: [f64; 3], b: [f64; 3]| a[0] * b[0] + a[1] * b[1] + a[2] * b[2];
    let unit = |a: [f64; 3]| div(a, dot(a, a).sqrt());
    let cross = |a: [f64; 3], b: [f64; 3]| {
        [a[1] * b[2] - a[2] * b[1], a[2] * b[0] - a[0] * b[2], a[0] * b[1] - a[1] * b[0]]
    };
    let look_from = [13.0, 2.0, 3.0];
    let w = unit(sub(look_from, [0.0, 0.0, 0.0]));
    let u = unit(cross([0.0, 1.0, 0.0], w));
    let v_ = cross(w, u);
    let theta = 20.0f64.to_radians();
    let h = (theta / 2.0).tan();
    let viewport_height = 2.0 * h * 10.0;
    let viewport_width = viewport_height * (width / height);
    let viewport_u = scale(u, viewport_width);
    let viewport_v = scale([-v_[0], -v_[1], -v_[2]], viewport_height);
    let pixel_delta_u = div(viewport_u, width);
    let pixel_delta_v = div(viewport_v, height);
    let upper_left = sub(sub(sub(look_from, scale(w, 10.0)), div(viewport_u, 2.0)), div(viewport_v, 2.0));
    let pixel00 = add(upper_left, scale(add(pixel_delta_u, pixel_delta_v), 0.5));
    let defocus_radius = 10.0 * (0.6f64 / 2.0).to_radians().tan();
    let arr = |a: [f64; 3]| v(a[0], a[1], a[2]);
    assert_eq!(camera.w, arr(w));
    assert_eq!(camera.u, arr(u));
    assert_eq!(camera.v, arr(v_));
    assert_eq!(camera.pixel_delta_u, arr(pixel_delta_u));
    assert_eq!(camera.pixel_delta_v, arr(pixel_delta_v));
    assert_eq!(camera.pixel00_loc, arr(pixel00));
    assert_eq!(camera.defocus_disk_u, arr(scale(u, defocus_radius)));
    assert_eq!(camera.defocus_disk_v, arr(scale(v_, defocus_radius)));
}

#[test]
fn a_ray_without_a_lens_starts_at_the_centre_and_aims_into_its_pixel() {
    let camera = plain(4, 1, 0.0);
    let asked = Cell::new(false);
    let lens = || {
        asked.set(true);
        on_the_lens()
    };
    for _ in 0..500 {
        let ray = camera.get_ray(&Ieee, &lens, 3, 1);
        assert_eq!(ray.origin, v(0.0, 0.0, 0.0));
        let d = ray.direction;
        assert!(-0.75 + 0.5 * 2.5 <= f(d.x) + 1e-12 && f(d.x) < -0.75 + 0.5 * 3.5 + 1e-12);
        assert!(0.75 - 0.5 * 1.5 < f(d.y) + 1e-12 && f(d.y) <= 0.75 - 0.5 * 0.5 + 1e-12);
        assert!((f(d.z) - -1.0).abs() < 1e-12);
    }
    assert!(!asked.get());
}

#[test]
fn a_ray_with_a_lens_starts_on_the_lens() {
    let camera = plain(4, 1, 90.0);
    let radius = 1.0 * (90.0f64 / 2.0).to_radians().tan();
    assert_eq!(camera.defocus_disk_u, v(1.0 * radius, 0.0 * radius, 0.0 * radius));
    for _ in 0..100 {
        let ray = camera.get_ray(&Ieee, &on_the_lens, 0, 0);
        assert_eq!(ray.origin, v((0.0 + radius * 0.5) + 0.0 * -0.25, (0.0 + 0.0 * 0.5) + radius * -0.25, (0.0 + 0.0 * 0.5) + 0.0 * -0.25));
        let target = [f(ray.origin.x) + f(ray.direction.x), f(ray.origin.y) + f(ray.direction.y), f(ray.origin.z) + f(ray.direction.z)];
        assert!(-1.0 - 1e-12 <= target[0] && target[0] < -0.5 + 1e-12);
        assert!(0.5 - 1e-12 < target[1] && target[1] <= 1.0 + 1e-12);
        assert!((target[2] - -1.0).abs() < 1e-12);
    }
}

#[test]
fn the_rays_of_a_pixel_differ() {
    let camera = plain(8, 1, 0.0);
    let first = camera.get_ray(&Ieee, &on_the_lens, 1, 1);
    let mut differs = false;
    for _ in 0..20 {
        if camera.get_ray(&Ieee, &on_the_lens, 1, 1) != first {
            differs = true;
        }
    }
    assert!(differs);
}

fn empty() -> World<Sphere> {
    World::new()
}

/// The byte of the sky at the height `y` of a unit direction, in one channel
/// that runs from `low` to `high`.
fn sky_byte(y: f64, low: f64, high: f64) -> u8 {
    let a = 0.5 * (y + 1.0);
    let light = low * (1.0 - a) + high * a;
    (255.999 * light.sqrt().clamp(0.0, 0.999)) as u8
}

#[test]
fn a_pixel_of_the_sky() {
    let camera = plain(2, 1, 0.0);
    for _ in 0..200 {
        let color = camera.pixel(&empty(), &Ieee, &straight_up, &on_the_lens, 0, 0);
        assert_eq!(color.b, 255);
        assert!(sky_byte(1.0, 1.0, 0.5) <= color.r && color.r <= sky_byte(0.0, 1.0, 0.5));
        assert!(sky_byte(1.0, 1.0, 0.7) <= color.g && color.g <= sky_byte(0.0, 1.0, 0.7));
        assert!(color.r < color.g && color.g < color.b);
    }
}

#[test]
fn pixels_below_the_horizon_are_whiter_than_those_above() {
    let camera = plain(2, 4, 0.0);
    let world = empty();
    for _ in 0..50 {
        let above = camera.pixel(&world, &Ieee, &straight_up, &on_the_lens, 0, 0);
        let below = camera.pixel(&world, &Ieee, &straight_up, &on_the_lens, 0, 1);
        assert!(above.r < below.r);
        assert!(above.g < below.g);
    }
}

#[test]
fn a_pixel_asks_for_as_many_rays_as_the_camera_has_samples() {
    let grey = Arc::new(Material { kind: MaterialKind::Lambertian, albedo: v(0.5, 0.5, 0.5) });
    let mut world = World::new();
    world.add(ball([0.0, 0.0, -3.0], 2.9, grey));
    let asked = Cell::new(0u32);
    let source = || {
        asked.set(asked.get() + 1);
        v(0.0, 0.0, 1.0)
    };
    let camera = plain(1, 7, 0.0);
    camera.pixel(&world, &Ieee, &source, &on_the_lens, 0, 0);
    assert_eq!(asked.get(), 7);
    let lens_asked = Cell::new(0u32);
    let lens = || {
        lens_asked.set(lens_asked.get() + 1);
        on_the_lens()
    };
    plain(1, 7, 10.0).pixel(&empty(), &Ieee, &straight_up, &lens, 0, 0);
    assert_eq!(lens_asked.get(), 7);
}

#[test]
fn a_camera_without_samples_makes_black_pixels() {
    let camera = plain(3, 0, 0.0);
    assert_eq!(camera.pixel(&empty(), &Ieee, &straight_up, &on_the_lens, 1, 1), Color::new(0, 0, 0));
}

#[test]
fn a_scan_line_runs_from_the_left() {
    let grey = Arc::new(Material { kind: MaterialKind::Lambertian, albedo: v(0.0, 0.0, 0.0) });
    let mut world = World::new();
    world.add(ball([-10.0, 0.0, -10.0], 9.0, grey));
    let camera = plain(8, 4, 0.0);
    let line = camera.scan_line(&world, &Ieee, &straight_up, &on_the_lens, 3);
    assert_eq!(line.len(), 8);
    assert_eq!(line[0], Color::new(0, 0, 0));
    assert_eq!(line[1], Color::new(0, 0, 0));
    assert!(line[7].b == 255 && line[7].r > 100);
    assert!(line[6].b == 255 && line[6].r > 100);
}

#[test]
fn render_runs_from_the_top() {
    let camera = plain(6, 2, 0.0);
    let lines = camera.render(&empty(), &Ieee, &straight_up, &on_the_lens);
    assert_eq!(lines.len(), 6);
    for line in &lines {
        assert_eq!(line.len(), 6);
    }
    for j in 2..6 {
        for i in 0..6 {
            assert!(lines[j - 2][i].r < lines[j][i].r);
            assert!(lines[j - 2][i].g < lines[j][i].g);
            assert_eq!(lines[j][i].b, 255);
        }
    }
    assert!(lines[0][3].r < lines[5][3].r);
}

#[test]
fn render_of_an_image_without_columns_is_rows_without_pixels() {
    let camera = Camera { image_width: 0, image_height: 2, ..plain(1, 1, 0.0) };
    let lines = camera.render(&empty(), &Ieee, &straight_up, &on_the_lens);
    assert_eq!(lines, vec![Vec::<Color>::new(), Vec::<Color>::new()]);
}

#[test]
fn a_sphere_shows_in_the_middle_of_the_image() {
    let black = Arc::new(Material { kind: MaterialKind::Lambertian, albedo: v(0.0, 0.0, 0.0) });
    let mut world = World::new();
    world.add(ball([0.0, 0.0, -2.0], 0.5, black));
    let camera = plain(9, 3, 0.0);
    let lines = camera.render(&world, &Ieee, &straight_up, &on_the_lens);
    assert_eq!(lines[4][4], Color::new(0, 0, 0));
    for (i, j) in [(0, 0), (8, 0), (0, 8), (8, 8), (4, 0), (0, 4)] {
        assert_eq!(lines[j][i].b, 255);
    }
}

#[test]
fn a_canvas_holds_the_scan_lines_row_by_row() {
    let lines = vec![
        vec![Color::new(0, 10, 100), Color::new(1, 10, 101), Color::new(2, 10, 102)],
        vec![Color::new(0, 11, 103), Color::new(1, 11, 104), Color::new(2, 11, 105)],
    ];
    let bytes = Canvas::from_scan_lines(3, 2, &lines).unwrap().into_bytes();
    assert_eq!(
        bytes,
        vec![0, 10, 100, 1, 10, 101, 2, 10, 102, 0, 11, 103, 1, 11, 104, 2, 11, 105]
    );
}

#[test]
fn a_rendered_image_fits_its_canvas() {
    let camera = plain(5, 1, 0.0);
    let lines = camera.render(&empty(), &Ieee, &straight_up, &on_the_lens);
    let bytes = Canvas::from_scan_lines(camera.image_width, camera.image_height, &lines).unwrap().into_bytes();
    assert_eq!(bytes.len(), 5 * 5 * 3);
    for j in 0..5 {
        for i in 0..5 {
            let at = 3 * (5 * j + i);
            assert_eq!(Color::new(bytes[at], bytes[at + 1], bytes[at + 2]), lines[j][i]);
        }
    }
}

#[test]
fn a_canvas_of_one_pixel() {
    let lines = vec![vec![Color::new(9, 8, 7)]];
    assert_eq!(Canvas::from_scan_lines(1, 1, &lines).unwrap().into_bytes(), vec![9, 8, 7]);
}

#[test]
fn a_canvas_without_pixels() {
    let none: Vec<Vec<Color>> = Vec::new();
    assert_eq!(Canvas::from_scan_lines(5, 0, &none).unwrap().into_bytes(), Vec::<u8>::new());
    let empty_rows = vec![Vec::<Color>::new(), Vec::<Color>::new()];
    assert_eq!(Canvas::from_scan_lines(0, 2, &empty_rows).unwrap().into_bytes(), Vec::<u8>::new());
}

#[test]
fn scan_lines_of_the_wrong_shape_make_no_canvas() {
    let lines = vec![vec![Color::new(1, 1, 1), Color::new(2, 2, 2)], vec![Color::new(3, 3, 3)]];
    assert!(Canvas::from_scan_lines(2, 2, &lines).is_none());
    assert!(Canvas::from_scan_lines(1, 2, &lines).is_none());
    let square = vec![vec![Color::new(1, 1, 1); 2]; 2];
    assert!(Canvas::from_scan_lines(2, 2, &square).is_some());
    assert!(Canvas::from_scan_lines(2, 3, &square).is_none());
    assert!(Canvas::from_scan_lines(2, 1, &square).is_none());
    assert!(Canvas::from_scan_lines(3, 2, &square).is_none());
}

fn random_unit() -> Vec3 {
    loop {
        if let Some(unit) = Vec3::try_random_unit(&Ieee) {
            return unit;
        }
    }
}

fn random_in_unit_disk() -> Vec3 {
    loop {
        if let Some(p) = Vec3::try_random_in_unit_disk(&Ieee) {
            return p;
        }
    }
}

fn little_scene() -> World<Sphere> {
    let ground = Arc::new(Material { kind: MaterialKind::Lambertian, albedo: v(0.5, 0.5, 0.5) });
    let glass = Arc::new(Material { kind: MaterialKind::Dielectric { ref_idx: s(1.5) }, albedo: v(0.8, 0.8, 0.8) });
    let matte = Arc::new(Material { kind: MaterialKind::Lambertian, albedo: v(0.1, 0.2, 0.5) });
    let steel = Arc::new(Material { kind: MaterialKind::Metal { fuzz: s(0.0) }, albedo: v(0.7, 0.6, 0.5) });
    let mut world = World::new();
    world.add(ball([0.0, -1000.0, 0.0], 1000.0, ground));
    world.add(ball([0.0, 1.0, 0.0], 1.0, glass));
    world.add(ball([-4.0, 1.0, 0.0], 1.0, matte));
    world.add(ball([4.0, 1.0, 0.0], 1.0, steel));
    world
}

fn luminance(lines: &[Vec<Color>]) -> f64 {
    let mut sum = 0.0;
    let mut count = 0.0;
    for line in lines {
        for c in line {
            sum += 0.2126 * c.r as f64 + 0.7152 * c.g as f64 + 0.0722 * c.b as f64;
            count += 1.0;
        }
    }
    sum / count
}

#[test]
fn two_cameras_of_the_same_parameters_are_the_same() {
    assert_eq!(cover(1200, 10), cover(1200, 10));
    assert_eq!(plain(7, 3, 1.5), plain(7, 3, 1.5));
}

#[test]
fn two_renderings_of_a_scene_are_alike_in_their_brightness() {
    let world = little_scene();
    let first = cover(48, 8).render(&world, &Ieee, &random_unit, &random_in_unit_disk);
    let second = cover(48, 8).render(&world, &Ieee, &random_unit, &random_in_unit_disk);
    assert_eq!(first.len(), 27);
    assert_eq!(second.len(), 27);
    assert!(first != second);
    let (a, b) = (luminance(&first), luminance(&second));
    assert!(100.0 < a && a < 255.0);
    assert!((a - b).abs() < 5.0);
}

#[test]
fn many_single_samples_average_to_what_many_samples_give_at_once() {
    let world = little_scene();
    let camera = cover(16, 1);
    let (i, j) = (7, 5);
    let light = || {
        let ray = camera.get_ray(&Ieee, &random_in_unit_disk, i, j);
        raytrace::tracer::ray_color(&ray, &world, &Ieee, &random_unit)
    };
    let mean = |count: u32| {
        let mut sum = [0.0, 0.0, 0.0];
        for _ in 0..count {
            let l = light();
            sum[0] += f(l.x);
            sum[1] += f(l.y);
            sum[2] += f(l.z);
        }
        [sum[0] / count as f64, sum[1] / count as f64, sum[2] / count as f64]
    };
    let trials = mean(20_000);
    let at_once = mean(20_000);
    for k in 0..3 {
        assert!(0.0 < trials[k] && trials[k] <= 1.0);
        assert!((trials[k] - at_once[k]).abs() < 0.03);
    }
    let encoded = |x: f64| (255.999 * x.sqrt().clamp(0.0, 0.999)) as i32;
    let pixel = cover(16, 20_000).pixel(&world, &Ieee, &random_unit, &random_in_unit_disk, i, j);
    assert!((pixel.r as i32 - encoded(trials[0])).abs() <= 4);
    assert!((pixel.g as i32 - encoded(trials[1])).abs() <= 4);
    assert!((pixel.b as i32 - encoded(trials[2])).abs() <= 4);
}
