use crate::arithmetic::{
    is_function, is_product, is_quotient, is_sum, is_tangent, Arithmetic,
};
use crate::color::Color;
use crate::random::{in_centered_interval, random_centered};
use crate::ray::Ray;
use crate::scalar::{Scalar, ONE_BITS, TWO_BITS};
use crate::scene::{Hittable, World};
use crate::tracer::{lit, ray_color, Walk, HALF_BITS};
use crate::vec3::{
    is_add, is_cross, is_div, is_scale, is_sub, is_unit_vector, lemma_add_is_one,
    lemma_cross_is_one, lemma_div_is_one, lemma_scale_is_one, lemma_unit_vector_is_one, Vec3,
};
use vstd::prelude::*;

verus! {

/// The pattern of the binary64 number nearest to pi over 180: the radians of
/// one degree.
pub const RADIANS_PER_DEGREE_BITS: u64 = 0x3F91_DF46_A252_9D39;

/// A camera: the viewing parameters it was made from and what follows from
/// them, the size of the image, the frame of the image plane and the lens.
#[derive(Debug, Clone, Copy, PartialEq, Eq, Structural)]
pub struct Camera {
    /// The width of the image over its height.
    pub aspect_ratio: Scalar,
    /// The number of pixels in a row.
    pub image_width: u32,
    /// The number of rows, at least one.
    pub image_height: u32,
    /// The centre of the pixel in the top left corner.
    pub pixel00_loc: Vec3,
    /// The step from one pixel to the next in its row.
    pub pixel_delta_u: Vec3,
    /// The step from one pixel to the one below it.
    pub pixel_delta_v: Vec3,
    /// The number of rays through each pixel.
    pub samples_per_pixel: u16,
    /// One over the number of rays through each pixel.
    pub pixel_samples_scale: Scalar,
    /// The point from which the camera looks.
    pub center: Vec3,
    /// The vertical field of view, in degrees.
    pub vertical_fov: Scalar,
    /// The point from which the camera looks.
    pub look_from: Vec3,
    /// The point at which the camera looks.
    pub look_at: Vec3,
    /// The direction that is up in the image.
    pub up: Vec3,
    /// The unit vector to the right of the camera.
    pub u: Vec3,
    /// The unit vector up from the camera.
    pub v: Vec3,
    /// The unit vector back from the camera, against the line of sight.
    pub w: Vec3,
    /// The angle of the cone of rays through each pixel, in degrees. At zero
    /// or below every ray leaves from the centre.
    pub defocus_angle: Scalar,
    /// The horizontal radius of the defocus disk.
    pub defocus_disk_u: Vec3,
    /// The vertical radius of the defocus disk.
    pub defocus_disk_v: Vec3,
}

/// Whether `r` is the angle `degrees` in radians: the degrees times the
/// radians of one degree.
pub open spec fn is_radians<A: Arithmetic>(arith: &A, degrees: Scalar, r: Scalar) -> bool {
    is_product(arith, degrees, Scalar { bits: RADIANS_PER_DEGREE_BITS }, r)
}

/// Whether `u`, `v` and `w` are the basis of a camera: `w` points back from
/// `look_at` to `look_from`, `u` to the right, across `up` and `w`, and `v`
/// up, across `w` and `u`; `w` and `u` are brought to the length one.
pub open spec fn is_basis<A: Arithmetic>(
    arith: &A,
    look_from: Vec3,
    look_at: Vec3,
    up: Vec3,
    u: Vec3,
    v: Vec3,
    w: Vec3,
) -> bool {
    exists|back: Vec3, right: Vec3|
        {
            &&& #[trigger] is_sub(arith, look_from, look_at, back)
            &&& is_unit_vector(arith, back, w)
            &&& #[trigger] is_cross(arith, up, w, right)
            &&& is_unit_vector(arith, right, u)
            &&& is_cross(arith, w, u, v)
        }
}

/// Whether `height` and `width` are the size of the viewport at the focus
/// distance: `2 tan(fov / 2) focus` high, and wider by the width of the image
/// over its height.
pub open spec fn is_viewport<A: Arithmetic>(
    arith: &A,
    vertical_fov: Scalar,
    focus_distance: Scalar,
    image_width: u32,
    image_height: u32,
    height: Scalar,
    width: Scalar,
) -> bool {
    exists|theta: Scalar, half: Scalar, h: Scalar, twice: Scalar, ratio: Scalar|
        {
            &&& #[trigger] is_radians(arith, vertical_fov, theta)
            &&& #[trigger] is_quotient(arith, theta, Scalar { bits: TWO_BITS }, half)
            &&& #[trigger] is_tangent(arith, half, h)
            &&& #[trigger] is_product(arith, Scalar { bits: TWO_BITS }, h, twice)
            &&& is_product(arith, twice, focus_distance, height)
            &&& #[trigger] is_quotient(
                arith,
                Scalar::of_whole(image_width as nat),
                Scalar::of_whole(image_height as nat),
                ratio,
            )
            &&& is_product(arith, height, ratio, width)
        }
}

/// Whether `pixel00` is the centre of the top left pixel: the centre of the
/// camera, less the focus distance along `w`, less half of each edge of the
/// viewport, plus half a pixel along each.
pub open spec fn is_corner<A: Arithmetic>(
    arith: &A,
    center: Vec3,
    w: Vec3,
    focus_distance: Scalar,
    viewport_u: Vec3,
    viewport_v: Vec3,
    pixel_delta_u: Vec3,
    pixel_delta_v: Vec3,
    pixel00: Vec3,
) -> bool {
    exists|back: Vec3, half_u: Vec3, half_v: Vec3, ahead: Vec3, left: Vec3, upper_left: Vec3, step: Vec3, half_step: Vec3|
        {
            &&& #[trigger] is_scale(arith, w, focus_distance, back)
            &&& #[trigger] is_sub(arith, center, back, ahead)
            &&& #[trigger] is_div(arith, viewport_u, Scalar { bits: TWO_BITS }, half_u)
            &&& #[trigger] is_sub(arith, ahead, half_u, left)
            &&& #[trigger] is_div(arith, viewport_v, Scalar { bits: TWO_BITS }, half_v)
            &&& #[trigger] is_sub(arith, left, half_v, upper_left)
            &&& #[trigger] is_add(arith, pixel_delta_u, pixel_delta_v, step)
            &&& #[trigger] is_scale(arith, step, Scalar { bits: HALF_BITS }, half_step)
            &&& is_add(arith, upper_left, half_step, pixel00)
        }
}

/// Whether `pixel_delta_u`, `pixel_delta_v` and `pixel00` are the frame of the
/// image plane: the edges of the viewport, `width` along `u` and `height`
/// against `v`, cut into the pixels of the image, and the centre of the top
/// left pixel.
pub open spec fn is_frame<A: Arithmetic>(
    arith: &A,
    camera: Camera,
    focus_distance: Scalar,
    height: Scalar,
    width: Scalar,
) -> bool {
    exists|viewport_u: Vec3, viewport_v: Vec3|
        {
            &&& #[trigger] is_scale(arith, camera.u, width, viewport_u)
            &&& #[trigger] is_scale(arith, camera.v.neg_spec(), height, viewport_v)
            &&& is_div(
                arith,
                viewport_u,
                Scalar::of_whole(camera.image_width as nat),
                camera.pixel_delta_u,
            )
            &&& is_div(
                arith,
                viewport_v,
                Scalar::of_whole(camera.image_height as nat),
                camera.pixel_delta_v,
            )
            &&& is_corner(
                arith,
                camera.center,
                camera.w,
                focus_distance,
                viewport_u,
                viewport_v,
                camera.pixel_delta_u,
                camera.pixel_delta_v,
                camera.pixel00_loc,
            )
        }
}

/// Whether `disk_u` and `disk_v` are the radii of the defocus disk: `u` and
/// `v` times `focus tan(angle / 2)`.
pub open spec fn is_lens<A: Arithmetic>(
    arith: &A,
    u: Vec3,
    v: Vec3,
    defocus_angle: Scalar,
    focus_distance: Scalar,
    disk_u: Vec3,
    disk_v: Vec3,
) -> bool {
    exists|half: Scalar, angle: Scalar, slope: Scalar, radius: Scalar|
        {
            &&& #[trigger] is_quotient(arith, defocus_angle, Scalar { bits: TWO_BITS }, half)
            &&& #[trigger] is_radians(arith, half, angle)
            &&& #[trigger] is_tangent(arith, angle, slope)
            &&& #[trigger] is_product(arith, focus_distance, slope, radius)
            &&& is_scale(arith, u, radius, disk_u)
            &&& is_scale(arith, v, radius, disk_v)
        }
}

/// The height of an image from its width over its aspect ratio: the quotient
/// truncated toward zero and held to the range of `u32`, but at least one
/// row.
pub open spec fn rows_spec(quotient: Scalar) -> nat {
    if quotient.whole() < 1 {
        1
    } else if quotient.whole() < u32::MAX {
        quotient.whole()
    } else {
        u32::MAX as nat
    }
}

/// The height of an image, in rows, from its width over its aspect ratio.
pub fn rows(quotient: Scalar) -> (h: u32)
    ensures
        h == rows_spec(quotient),
        h >= 1,
{
    let h: u32 = quotient.to_u32();
    if h < 1 {
        1
    } else {
        h
    }
}

/// An angle in radians.
pub fn to_radians<A: Arithmetic>(arith: &A, degrees: Scalar) -> (r: Scalar)
    ensures
        is_radians(arith, degrees, r),
{
    arith.mul(degrees, Scalar::from_bits(RADIANS_PER_DEGREE_BITS))
}

/// An offset drawn evenly in the square of one pixel around its centre: the
/// first two components from minus a half up to a half, the third zero.
pub fn sample_square() -> (offset: Vec3)
    ensures
        in_centered_interval(offset.x),
        in_centered_interval(offset.y),
        offset.z.bits == 0,
{
    let x = random_centered();
    let y = random_centered();
    Vec3 { x, y, z: Scalar::zero() }
}

/// Whether `total` is the sum of `lights`, taken from zero in their order.
pub open spec fn is_total<A: Arithmetic>(arith: &A, lights: Seq<Vec3>, total: Vec3) -> bool
    decreases lights.len(),
{
    if lights.len() == 0 {
        total == Vec3::zero_spec()
    } else {
        exists|before: Vec3|
            is_total(arith, lights.drop_last(), before) && #[trigger] is_add(
                arith,
                before,
                lights.last(),
                total,
            )
    }
}

impl Camera {
    /// Whether `camera` is the camera of the viewing parameters given.
    ///
    /// The image is as high as its width over the aspect ratio, truncated, but
    /// at least one row. The camera stands at `look_from`. Its basis, the
    /// frame of its image plane at the focus distance and its lens follow
    /// from the parameters as [`is_basis`], [`is_viewport`], [`is_frame`] and
    /// [`is_lens`] have it, and the scale of a pixel is one over the number of
    /// its samples.
    pub open spec fn is_camera<A: Arithmetic>(
        arith: &A,
        aspect_ratio: Scalar,
        image_width: u32,
        samples_per_pixel: u16,
        look_from: Vec3,
        look_at: Vec3,
        up: Vec3,
        vertical_fov: Scalar,
        defocus_angle: Scalar,
        focus_distance: Scalar,
        camera: Camera,
    ) -> bool {
        &&& camera.aspect_ratio == aspect_ratio
        &&& camera.image_width == image_width
        &&& camera.samples_per_pixel == samples_per_pixel
        &&& camera.look_from == look_from
        &&& camera.look_at == look_at
        &&& camera.up == up
        &&& camera.vertical_fov == vertical_fov
        &&& camera.defocus_angle == defocus_angle
        &&& camera.center == look_from
        &&& exists|quotient: Scalar| #[trigger]
            is_quotient(arith, Scalar::of_whole(image_width as nat), aspect_ratio, quotient)
                && camera.image_height == rows_spec(quotient)
        &&& is_basis(arith, look_from, look_at, up, camera.u, camera.v, camera.w)
        &&& exists|height: Scalar, width: Scalar| #[trigger]
            is_viewport(
                arith,
                vertical_fov,
                focus_distance,
                image_width,
                camera.image_height,
                height,
                width,
            ) && is_frame(arith, camera, focus_distance, height, width)
        &&& is_lens(
            arith,
            camera.u,
            camera.v,
            defocus_angle,
            focus_distance,
            camera.defocus_disk_u,
            camera.defocus_disk_v,
        )
        &&& is_quotient(
            arith,
            Scalar { bits: ONE_BITS },
            Scalar::of_whole(samples_per_pixel as nat),
            camera.pixel_samples_scale,
        )
    }

    /// The basis of a camera.
    fn basis<A: Arithmetic>(arith: &A, look_from: Vec3, look_at: Vec3, up: Vec3) -> (b: (
        Vec3,
        Vec3,
        Vec3,
    ))
        ensures
            is_basis(arith, look_from, look_at, up, b.0, b.1, b.2),
    {
        let back = look_from.sub(look_at, arith);
        let w = back.unit_vector(arith);
        let right = up.cross(w, arith);
        let u = right.unit_vector(arith);
        let v = w.cross(u, arith);
        proof {
            assert(is_sub(arith, look_from, look_at, back));
            assert(is_cross(arith, up, w, right));
        }
        (u, v, w)
    }

    /// The size of the viewport at the focus distance.
    fn viewport<A: Arithmetic>(
        arith: &A,
        vertical_fov: Scalar,
        focus_distance: Scalar,
        image_width: u32,
        image_height: u32,
    ) -> (size: (Scalar, Scalar))
        ensures
            is_viewport(
                arith,
                vertical_fov,
                focus_distance,
                image_width,
                image_height,
                size.0,
                size.1,
            ),
    {
        let two = Scalar::from_bits(TWO_BITS);
        let theta = to_radians(arith, vertical_fov);
        let half = arith.div(theta, two);
        let h = arith.tan(half);
        let twice = arith.mul(two, h);
        let height = arith.mul(twice, focus_distance);
        let ratio = arith.div(Scalar::from_u32(image_width), Scalar::from_u32(image_height));
        let width = arith.mul(height, ratio);
        proof {
            assert(is_radians(arith, vertical_fov, theta));
            assert(is_quotient(arith, theta, Scalar { bits: TWO_BITS }, half));
            assert(is_tangent(arith, half, h));
            assert(is_product(arith, Scalar { bits: TWO_BITS }, h, twice));
            assert(is_quotient(
                arith,
                Scalar::of_whole(image_width as nat),
                Scalar::of_whole(image_height as nat),
                ratio,
            ));
        }
        (height, width)
    }

    /// The centre of the top left pixel.
    fn corner<A: Arithmetic>(
        arith: &A,
        center: Vec3,
        w: Vec3,
        focus_distance: Scalar,
        viewport_u: Vec3,
        viewport_v: Vec3,
        pixel_delta_u: Vec3,
        pixel_delta_v: Vec3,
    ) -> (pixel00: Vec3)
        ensures
            is_corner(
                arith,
                center,
                w,
                focus_distance,
                viewport_u,
                viewport_v,
                pixel_delta_u,
                pixel_delta_v,
                pixel00,
            ),
    {
        let two = Scalar::from_bits(TWO_BITS);
        let back = w.scale(focus_distance, arith);
        let ahead = center.sub(back, arith);
        let half_u = viewport_u.div(two, arith);
        let left = ahead.sub(half_u, arith);
        let half_v = viewport_v.div(two, arith);
        let upper_left = left.sub(half_v, arith);
        let step = pixel_delta_u.add(pixel_delta_v, arith);
        let half_step = step.scale(Scalar::from_bits(HALF_BITS), arith);
        let pixel00 = upper_left.add(half_step, arith);
        proof {
            assert(is_scale(arith, w, focus_distance, back));
            assert(is_sub(arith, center, back, ahead));
            assert(is_div(arith, viewport_u, Scalar { bits: TWO_BITS }, half_u));
            assert(is_sub(arith, ahead, half_u, left));
            assert(is_div(arith, viewport_v, Scalar { bits: TWO_BITS }, half_v));
            assert(is_sub(arith, left, half_v, upper_left));
            assert(is_add(arith, pixel_delta_u, pixel_delta_v, step));
            assert(is_scale(arith, step, Scalar { bits: HALF_BITS }, half_step));
        }
        pixel00
    }

    /// The radii of the defocus disk.
    fn lens<A: Arithmetic>(
        arith: &A,
        u: Vec3,
        v: Vec3,
        defocus_angle: Scalar,
        focus_distance: Scalar,
    ) -> (disk: (Vec3, Vec3))
        ensures
            is_lens(arith, u, v, defocus_angle, focus_distance, disk.0, disk.1),
    {
        let half = arith.div(defocus_angle, Scalar::from_bits(TWO_BITS));
        let angle = to_radians(arith, half);
        let slope = arith.tan(angle);
        let radius = arith.mul(focus_distance, slope);
        let disk_u = u.scale(radius, arith);
        let disk_v = v.scale(radius, arith);
        proof {
            assert(is_quotient(arith, defocus_angle, Scalar { bits: TWO_BITS }, half));
            assert(is_radians(arith, half, angle));
            assert(is_tangent(arith, angle, slope));
            assert(is_product(arith, focus_distance, slope, radius));
        }
        (disk_u, disk_v)
    }

    /// The camera of the viewing parameters given: an image `image_width`
    /// pixels wide and of the aspect ratio given, `samples_per_pixel` rays
    /// through each pixel, a view from `look_from` at `look_at` with `up`
    /// upward, a vertical field of view and a defocus angle in degrees, and
    /// the distance at which the image is in focus.
    pub fn new<A: Arithmetic>(
        arith: &A,
        aspect_ratio: Scalar,
        image_width: u32,
        samples_per_pixel: u16,
        look_from: Vec3,
        look_at: Vec3,
        up: Vec3,
        vertical_fov: Scalar,
        defocus_angle: Scalar,
        focus_distance: Scalar,
    ) -> (camera: Camera)
        ensures
            Self::is_camera(
                arith,
                aspect_ratio,
                image_width,
                samples_per_pixel,
                look_from,
                look_at,
                up,
                vertical_fov,
                defocus_angle,
                focus_distance,
                camera,
            ),
            camera.image_height >= 1,
    {
        let quotient = arith.div(Scalar::from_u32(image_width), aspect_ratio);
        let image_height: u32 = rows(quotient);
        let center = look_from;
        let (u, v, w) = Self::basis(arith, look_from, look_at, up);
        let (height, width) = Self::viewport(
            arith,
            vertical_fov,
            focus_distance,
            image_width,
            image_height,
        );
        let viewport_u = u.scale(width, arith);
        let viewport_v = v.neg().scale(height, arith);
        let pixel_delta_u = viewport_u.div(Scalar::from_u32(image_width), arith);
        let pixel_delta_v = viewport_v.div(Scalar::from_u32(image_height), arith);
        let pixel00_loc = Self::corner(
            arith,
            center,
            w,
            focus_distance,
            viewport_u,
            viewport_v,
            pixel_delta_u,
            pixel_delta_v,
        );
        let (defocus_disk_u, defocus_disk_v) = Self::lens(
            arith,
            u,
            v,
            defocus_angle,
            focus_distance,
        );
        let samples: u32 = samples_per_pixel as u32;
        let pixel_samples_scale = arith.div(Scalar::one(), Scalar::from_u32(samples));
        let camera = Camera {
            aspect_ratio,
            image_width,
            image_height,
            pixel00_loc,
            pixel_delta_u,
            pixel_delta_v,
            samples_per_pixel,
            pixel_samples_scale,
            center,
            vertical_fov,
            look_from,
            look_at,
            up,
            u,
            v,
            w,
            defocus_angle,
            defocus_disk_u,
            defocus_disk_v,
        };
        proof {
            assert(is_quotient(
                arith,
                Scalar::of_whole(image_width as nat),
                aspect_ratio,
                quotient,
            ));
            assert(is_scale(arith, camera.u, width, viewport_u));
            assert(is_scale(arith, camera.v.neg_spec(), height, viewport_v));
            assert(is_frame(arith, camera, focus_distance, height, width));
            assert(is_viewport(
                arith,
                vertical_fov,
                focus_distance,
                image_width,
                camera.image_height,
                height,
                width,
            ));
        }
        camera
    }

    /// Whether a ray of this camera starts at its centre: where the defocus
    /// angle is zero or below.
    pub open spec fn leaves_from_center(self) -> bool {
        self.defocus_angle.le_spec(Scalar { bits: 0 })
    }

    /// Whether `target` is the point of the image plane at `offset` from the
    /// centre of the pixel in column `i` of row `j`: the centre of the top
    /// left pixel plus `i + offset.x` steps along the row and `j + offset.y`
    /// steps down.
    pub open spec fn is_pixel_sample<A: Arithmetic>(
        self,
        arith: &A,
        i: u32,
        j: u32,
        offset: Vec3,
        target: Vec3,
    ) -> bool {
        exists|column: Scalar, row: Scalar, across: Vec3, down: Vec3, partial: Vec3|
            {
                &&& #[trigger] is_sum(arith, Scalar::of_whole(i as nat), offset.x, column)
                &&& #[trigger] is_scale(arith, self.pixel_delta_u, column, across)
                &&& #[trigger] is_add(arith, self.pixel00_loc, across, partial)
                &&& #[trigger] is_sum(arith, Scalar::of_whole(j as nat), offset.y, row)
                &&& #[trigger] is_scale(arith, self.pixel_delta_v, row, down)
                &&& is_add(arith, partial, down, target)
            }
    }

    /// Whether `origin` is the point of the lens that the point `p` of the
    /// unit disk stands for: the centre plus `p.x` and `p.y` times the radii
    /// of the defocus disk.
    pub open spec fn is_lens_point<A: Arithmetic>(self, arith: &A, p: Vec3, origin: Vec3) -> bool {
        exists|across: Vec3, partial: Vec3, up: Vec3|
            {
                &&& #[trigger] is_scale(arith, self.defocus_disk_u, p.x, across)
                &&& #[trigger] is_add(arith, self.center, across, partial)
                &&& #[trigger] is_scale(arith, self.defocus_disk_v, p.y, up)
                &&& is_add(arith, partial, up, origin)
            }
    }

    /// Whether `origin` is where a ray of this camera may start: at the centre
    /// where the defocus angle is zero or below, and else at the point of the
    /// lens that a point from `disk_source` stands for.
    pub open spec fn is_origin<A: Arithmetic, D: Fn() -> Vec3>(
        self,
        arith: &A,
        disk_source: &D,
        origin: Vec3,
    ) -> bool {
        if self.leaves_from_center() {
            origin == self.center
        } else {
            exists|p: Vec3| #[trigger]
                call_ensures(*disk_source, (), p) && self.is_lens_point(arith, p, origin)
        }
    }

    /// Whether `ray` is a ray of this camera through the pixel in column `i`
    /// of row `j`: from where [`Camera::is_origin`] says to a point of the
    /// image plane at some offset in the square of the pixel.
    pub open spec fn is_ray<A: Arithmetic, D: Fn() -> Vec3>(
        self,
        arith: &A,
        disk_source: &D,
        i: u32,
        j: u32,
        ray: Ray,
    ) -> bool {
        exists|offset: Vec3, target: Vec3|
            {
                &&& in_centered_interval(offset.x)
                &&& in_centered_interval(offset.y)
                &&& offset.z.bits == 0
                &&& #[trigger] self.is_pixel_sample(arith, i, j, offset, target)
                &&& self.is_origin(arith, disk_source, ray.origin)
                &&& is_sub(arith, target, ray.origin, ray.direction)
            }
    }

    /// The point of the image plane at an offset from the centre of a pixel.
    fn pixel_sample<A: Arithmetic>(&self, arith: &A, i: u32, j: u32, offset: Vec3) -> (target: Vec3)
        ensures
            self.is_pixel_sample(arith, i, j, offset, target),
    {
        let column = arith.add(Scalar::from_u32(i), offset.x);
        let across = self.pixel_delta_u.scale(column, arith);
        let partial = self.pixel00_loc.add(across, arith);
        let row = arith.add(Scalar::from_u32(j), offset.y);
        let down = self.pixel_delta_v.scale(row, arith);
        let target = partial.add(down, arith);
        proof {
            assert(is_sum(arith, Scalar::of_whole(i as nat), offset.x, column));
            assert(is_scale(arith, self.pixel_delta_u, column, across));
            assert(is_add(arith, self.pixel00_loc, across, partial));
            assert(is_sum(arith, Scalar::of_whole(j as nat), offset.y, row));
            assert(is_scale(arith, self.pixel_delta_v, row, down));
        }
        target
    }

    /// A point of the lens: where a ray starts that does not leave from the
    /// centre.
    fn defocus_disk_sample<A: Arithmetic, D: Fn() -> Vec3>(&self, arith: &A, disk_source: &D) -> (origin:
        Vec3)
        requires
            call_requires(*disk_source, ()),
        ensures
            exists|p: Vec3| #[trigger]
                call_ensures(*disk_source, (), p) && self.is_lens_point(arith, p, origin),
    {
        let p = disk_source();
        let across = self.defocus_disk_u.scale(p.x, arith);
        let partial = self.center.add(across, arith);
        let up = self.defocus_disk_v.scale(p.y, arith);
        let origin = partial.add(up, arith);
        proof {
            assert(is_scale(arith, self.defocus_disk_u, p.x, across));
            assert(is_add(arith, self.center, across, partial));
            assert(is_scale(arith, self.defocus_disk_v, p.y, up));
            assert(self.is_lens_point(arith, p, origin));
        }
        origin
    }

    /// A ray through the pixel in column `i` of row `j`.
    ///
    /// The ray aims at a point of the image plane that is drawn evenly in the
    /// square of the pixel. It starts at the centre of the camera where the
    /// defocus angle is zero or below, and else at a point of the lens, for
    /// which `disk_source` gives a random point of the unit disk.
    pub fn get_ray<A: Arithmetic, D: Fn() -> Vec3>(
        &self,
        arith: &A,
        disk_source: &D,
        i: u32,
        j: u32,
    ) -> (ray: Ray)
        requires
            call_requires(*disk_source, ()),
        ensures
            self.is_ray(arith, disk_source, i, j, ray),
    {
        let offset = sample_square();
        let pixel_sample = self.pixel_sample(arith, i, j, offset);
        let origin = if self.defocus_angle.le(Scalar::zero()) {
            self.center
        } else {
            self.defocus_disk_sample(arith, disk_source)
        };
        let direction = pixel_sample.sub(origin, arith);
        proof {
            assert(self.is_pixel_sample(arith, i, j, offset, pixel_sample));
        }
        Ray { origin, direction }
    }

    /// Whether `light` is the light of one ray through the pixel in column
    /// `i` of row `j`, followed through `objects`.
    pub open spec fn is_sample<A: Arithmetic, H: Hittable<A>, U: Fn() -> Vec3, D: Fn() -> Vec3>(
        self,
        objects: Seq<H>,
        arith: &A,
        unit_source: &U,
        disk_source: &D,
        i: u32,
        j: u32,
        light: Vec3,
    ) -> bool {
        exists|ray: Ray| #[trigger]
            self.is_ray(arith, disk_source, i, j, ray) && lit(
                objects,
                Walk::at(ray, 0),
                arith,
                unit_source,
                light,
            )
    }

    /// Whether `color` is the pixel in column `i` of row `j` of an image of
    /// `objects`: the lights of as many rays through the pixel as the camera
    /// has samples, summed from zero, scaled by one over their number and
    /// encoded.
    pub open spec fn is_pixel<A: Arithmetic, H: Hittable<A>, U: Fn() -> Vec3, D: Fn() -> Vec3>(
        self,
        objects: Seq<H>,
        arith: &A,
        unit_source: &U,
        disk_source: &D,
        i: u32,
        j: u32,
        color: Color,
    ) -> bool {
        exists|lights: Seq<Vec3>, total: Vec3, sum: Vec3, linear: Vec3|
            {
                &&& lights.len() == self.samples_per_pixel
                &&& forall|k: int|
                    0 <= k < lights.len() ==> self.is_sample(
                        objects,
                        arith,
                        unit_source,
                        disk_source,
                        i,
                        j,
                        #[trigger] lights[k],
                    )
                &&& #[trigger] is_total(arith, lights, total)
                &&& #[trigger] is_add(arith, Vec3::zero_spec(), total, sum)
                &&& #[trigger] is_scale(arith, sum, self.pixel_samples_scale, linear)
                &&& Color::is_encoding(arith, linear, color)
            }
    }

    /// One pixel of the image, from light to bytes.
    ///
    /// As many rays are sent through the pixel as the camera has samples for
    /// a pixel, each by [`Camera::get_ray`], and the light of each is found by
    /// [`ray_color`]. The lights are summed from zero, scaled by one over
    /// their number and encoded by [`Color::from_linear`].
    pub fn pixel<A: Arithmetic, H: Hittable<A>, U: Fn() -> Vec3, D: Fn() -> Vec3>(
        &self,
        world: &World<H>,
        arith: &A,
        unit_source: &U,
        disk_source: &D,
        i: u32,
        j: u32,
    ) -> (color: Color)
        requires
            call_requires(*unit_source, ()),
            call_requires(*disk_source, ()),
        ensures
            self.is_pixel(world@, arith, unit_source, disk_source, i, j, color),
    {
        let mut total = Vec3::zero();
        let ghost mut lights: Seq<Vec3> = Seq::empty();
        let mut k: u16 = 0;
        while k < self.samples_per_pixel
            invariant
                k <= self.samples_per_pixel,
                lights.len() == k,
                call_requires(*unit_source, ()),
                call_requires(*disk_source, ()),
                is_total(arith, lights, total),
                forall|n: int|
                    0 <= n < lights.len() ==> self.is_sample(
                        world@,
                        arith,
                        unit_source,
                        disk_source,
                        i,
                        j,
                        #[trigger] lights[n],
                    ),
            decreases self.samples_per_pixel - k,
        {
            let ray = self.get_ray(arith, disk_source, i, j);
            let light = ray_color(&ray, world, arith, unit_source);
            let next = total.add(light, arith);
            proof {
                assert(self.is_ray(arith, disk_source, i, j, ray));
                assert(self.is_sample(world@, arith, unit_source, disk_source, i, j, light));
                let longer = lights.push(light);
                assert(longer.drop_last() =~= lights);
                assert(longer.last() == light);
                assert(is_total(arith, longer.drop_last(), total));
                assert(is_add(arith, total, longer.last(), next));
                assert(longer.len() > 0);
                assert(is_total(arith, longer, next));
                lights = longer;
            }
            total = next;
            k = k + 1;
        }
        let mut sum = Vec3::zero();
        sum.add_assign(total, arith);
        let linear = sum.scale(self.pixel_samples_scale, arith);
        let color = Color::from_linear(linear, arith);
        proof {
            assert(is_total(arith, lights, total));
            assert(is_add(arith, Vec3::zero_spec(), total, sum));
            assert(is_scale(arith, sum, self.pixel_samples_scale, linear));
        }
        color
    }

    /// One row of the image: the pixels of row `j` from the left.
    pub fn scan_line<A: Arithmetic, H: Hittable<A>, U: Fn() -> Vec3, D: Fn() -> Vec3>(
        &self,
        world: &World<H>,
        arith: &A,
        unit_source: &U,
        disk_source: &D,
        j: u32,
    ) -> (line: Vec<Color>)
        requires
            call_requires(*unit_source, ()),
            call_requires(*disk_source, ()),
        ensures
            line.len() == self.image_width,
            forall|i: u32|
                i < self.image_width ==> self.is_pixel(
                    world@,
                    arith,
                    unit_source,
                    disk_source,
                    i,
                    j,
                    #[trigger] line[i as int],
                ),
    {
        let mut line: Vec<Color> = Vec::new();
        let mut i: u32 = 0;
        while i < self.image_width
            invariant
                i <= self.image_width,
                line.len() == i,
                call_requires(*unit_source, ()),
                call_requires(*disk_source, ()),
                forall|k: u32|
                    k < i ==> self.is_pixel(
                        world@,
                        arith,
                        unit_source,
                        disk_source,
                        k,
                        j,
                        #[trigger] line[k as int],
                    ),
            decreases self.image_width - i,
        {
            let color = self.pixel(world, arith, unit_source, disk_source, i, j);
            line.push(color);
            i = i + 1;
        }
        line
    }

    /// The whole image of a scene: its rows from the top, each from the left.
    ///
    /// The rows do not depend on each other, so that a caller with several
    /// threads may as well ask for them one by one with
    /// [`Camera::scan_line`].
    pub fn render<A: Arithmetic, H: Hittable<A>, U: Fn() -> Vec3, D: Fn() -> Vec3>(
        &self,
        world: &World<H>,
        arith: &A,
        unit_source: &U,
        disk_source: &D,
    ) -> (scan_lines: Vec<Vec<Color>>)
        requires
            call_requires(*unit_source, ()),
            call_requires(*disk_source, ()),
        ensures
            scan_lines.len() == self.image_height,
            forall|j: u32|
                j < self.image_height ==> (#[trigger] scan_lines[j as int]).len()
                    == self.image_width,
            forall|i: u32, j: u32|
                i < self.image_width && j < self.image_height ==> self.is_pixel(
                    world@,
                    arith,
                    unit_source,
                    disk_source,
                    i,
                    j,
                    #[trigger] scan_lines[j as int][i as int],
                ),
    {
        let mut scan_lines: Vec<Vec<Color>> = Vec::new();
        let mut j: u32 = 0;
        while j < self.image_height
            invariant
                j <= self.image_height,
                scan_lines.len() == j,
                call_requires(*unit_source, ()),
                call_requires(*disk_source, ()),
                forall|k: u32|
                    k < j ==> (#[trigger] scan_lines[k as int]).len() == self.image_width,
                forall|i: u32, k: u32|
                    i < self.image_width && k < j ==> self.is_pixel(
                        world@,
                        arith,
                        unit_source,
                        disk_source,
                        i,
                        k,
                        #[trigger] scan_lines[k as int][i as int],
                    ),
            decreases self.image_height - j,
        {
            let line = self.scan_line(world, arith, unit_source, disk_source, j);
            scan_lines.push(line);
            j = j + 1;
        }
        scan_lines
    }
}

/// In an arithmetic that is a function a camera has one basis.
pub proof fn lemma_basis_is_one<A: Arithmetic>(
    arith: &A,
    look_from: Vec3,
    look_at: Vec3,
    up: Vec3,
    b: (Vec3, Vec3, Vec3),
    b2: (Vec3, Vec3, Vec3),
)
    requires
        is_function(arith),
        is_basis(arith, look_from, look_at, up, b.0, b.1, b.2),
        is_basis(arith, look_from, look_at, up, b2.0, b2.1, b2.2),
    ensures
        b == b2,
{
    let (back, right) = choose|back: Vec3, right: Vec3|
        {
            &&& #[trigger] is_sub(arith, look_from, look_at, back)
            &&& is_unit_vector(arith, back, b.2)
            &&& #[trigger] is_cross(arith, up, b.2, right)
            &&& is_unit_vector(arith, right, b.0)
            &&& is_cross(arith, b.2, b.0, b.1)
        };
    let (back2, right2) = choose|back: Vec3, right: Vec3|
        {
            &&& #[trigger] is_sub(arith, look_from, look_at, back)
            &&& is_unit_vector(arith, back, b2.2)
            &&& #[trigger] is_cross(arith, up, b2.2, right)
            &&& is_unit_vector(arith, right, b2.0)
            &&& is_cross(arith, b2.2, b2.0, b2.1)
        };
    lemma_add_is_one(arith, look_from, look_at.neg_spec(), back, back2);
    lemma_unit_vector_is_one(arith, back, b.2, b2.2);
    lemma_cross_is_one(arith, up, b.2, right, right2);
    lemma_unit_vector_is_one(arith, right, b.0, b2.0);
    lemma_cross_is_one(arith, b.2, b.0, b.1, b2.1);
}

/// In an arithmetic that is a function a viewport has one size.
pub proof fn lemma_viewport_is_one<A: Arithmetic>(
    arith: &A,
    vertical_fov: Scalar,
    focus_distance: Scalar,
    image_width: u32,
    image_height: u32,
    size: (Scalar, Scalar),
    size2: (Scalar, Scalar),
)
    requires
        is_function(arith),
        is_viewport(arith, vertical_fov, focus_distance, image_width, image_height, size.0, size.1),
        is_viewport(
            arith,
            vertical_fov,
            focus_distance,
            image_width,
            image_height,
            size2.0,
            size2.1,
        ),
    ensures
        size == size2,
{
    let two = Scalar { bits: TWO_BITS };
    let wide = Scalar::of_whole(image_width as nat);
    let high = Scalar::of_whole(image_height as nat);
    let (theta, half, h, twice, ratio) = choose|
        theta: Scalar,
        half: Scalar,
        h: Scalar,
        twice: Scalar,
        ratio: Scalar,
    |
        {
            &&& #[trigger] is_radians(arith, vertical_fov, theta)
            &&& #[trigger] is_quotient(arith, theta, two, half)
            &&& #[trigger] is_tangent(arith, half, h)
            &&& #[trigger] is_product(arith, two, h, twice)
            &&& is_product(arith, twice, focus_distance, size.0)
            &&& #[trigger] is_quotient(arith, wide, high, ratio)
            &&& is_product(arith, size.0, ratio, size.1)
        };
    let (theta2, half2, h2, twice2, ratio2) = choose|
        theta: Scalar,
        half: Scalar,
        h: Scalar,
        twice: Scalar,
        ratio: Scalar,
    |
        {
            &&& #[trigger] is_radians(arith, vertical_fov, theta)
            &&& #[trigger] is_quotient(arith, theta, two, half)
            &&& #[trigger] is_tangent(arith, half, h)
            &&& #[trigger] is_product(arith, two, h, twice)
            &&& is_product(arith, twice, focus_distance, size2.0)
            &&& #[trigger] is_quotient(arith, wide, high, ratio)
            &&& is_product(arith, size2.0, ratio, size2.1)
        };
    assert(theta == theta2);
    assert(half == half2);
    assert(h == h2);
    assert(twice == twice2);
    assert(size.0 == size2.0);
    assert(ratio == ratio2);
}

/// In an arithmetic that is a function the top left pixel of a frame has one
/// centre.
pub proof fn lemma_corner_is_one<A: Arithmetic>(
    arith: &A,
    center: Vec3,
    w: Vec3,
    focus_distance: Scalar,
    viewport_u: Vec3,
    viewport_v: Vec3,
    pixel_delta_u: Vec3,
    pixel_delta_v: Vec3,
    pixel00: Vec3,
    pixel00_again: Vec3,
)
    requires
        is_function(arith),
        is_corner(
            arith,
            center,
            w,
            focus_distance,
            viewport_u,
            viewport_v,
            pixel_delta_u,
            pixel_delta_v,
            pixel00,
        ),
        is_corner(
            arith,
            center,
            w,
            focus_distance,
            viewport_u,
            viewport_v,
            pixel_delta_u,
            pixel_delta_v,
            pixel00_again,
        ),
    ensures
        pixel00 == pixel00_again,
{
    let two = Scalar { bits: TWO_BITS };
    let half = Scalar { bits: HALF_BITS };
    let (back, half_u, half_v, ahead, left, upper_left, step, half_step) = choose|
        back: Vec3,
        half_u: Vec3,
        half_v: Vec3,
        ahead: Vec3,
        left: Vec3,
        upper_left: Vec3,
        step: Vec3,
        half_step: Vec3,
    |
        {
            &&& #[trigger] is_scale(arith, w, focus_distance, back)
            &&& #[trigger] is_sub(arith, center, back, ahead)
            &&& #[trigger] is_div(arith, viewport_u, two, half_u)
            &&& #[trigger] is_sub(arith, ahead, half_u, left)
            &&& #[trigger] is_div(arith, viewport_v, two, half_v)
            &&& #[trigger] is_sub(arith, left, half_v, upper_left)
            &&& #[trigger] is_add(arith, pixel_delta_u, pixel_delta_v, step)
            &&& #[trigger] is_scale(arith, step, half, half_step)
            &&& is_add(arith, upper_left, half_step, pixel00)
        };
    let (back2, half_u2, half_v2, ahead2, left2, upper_left2, step2, half_step2) = choose|
        back: Vec3,
        half_u: Vec3,
        half_v: Vec3,
        ahead: Vec3,
        left: Vec3,
        upper_left: Vec3,
        step: Vec3,
        half_step: Vec3,
    |
        {
            &&& #[trigger] is_scale(arith, w, focus_distance, back)
            &&& #[trigger] is_sub(arith, center, back, ahead)
            &&& #[trigger] is_div(arith, viewport_u, two, half_u)
            &&& #[trigger] is_sub(arith, ahead, half_u, left)
            &&& #[trigger] is_div(arith, viewport_v, two, half_v)
            &&& #[trigger] is_sub(arith, left, half_v, upper_left)
            &&& #[trigger] is_add(arith, pixel_delta_u, pixel_delta_v, step)
            &&& #[trigger] is_scale(arith, step, half, half_step)
            &&& is_add(arith, upper_left, half_step, pixel00_again)
        };
    lemma_scale_is_one(arith, w, focus_distance, back, back2);
    lemma_add_is_one(arith, center, back.neg_spec(), ahead, ahead2);
    lemma_div_is_one(arith, viewport_u, two, half_u, half_u2);
    lemma_add_is_one(arith, ahead, half_u.neg_spec(), left, left2);
    lemma_div_is_one(arith, viewport_v, two, half_v, half_v2);
    lemma_add_is_one(arith, left, half_v.neg_spec(), upper_left, upper_left2);
    lemma_add_is_one(arith, pixel_delta_u, pixel_delta_v, step, step2);
    lemma_scale_is_one(arith, step, half, half_step, half_step2);
    lemma_add_is_one(arith, upper_left, half_step, pixel00, pixel00_again);
}

/// In an arithmetic that is a function a lens has one pair of radii.
pub proof fn lemma_lens_is_one<A: Arithmetic>(
    arith: &A,
    u: Vec3,
    v: Vec3,
    defocus_angle: Scalar,
    focus_distance: Scalar,
    disk: (Vec3, Vec3),
    disk2: (Vec3, Vec3),
)
    requires
        is_function(arith),
        is_lens(arith, u, v, defocus_angle, focus_distance, disk.0, disk.1),
        is_lens(arith, u, v, defocus_angle, focus_distance, disk2.0, disk2.1),
    ensures
        disk == disk2,
{
    let two = Scalar { bits: TWO_BITS };
    let (half, angle, slope, radius) = choose|
        half: Scalar,
        angle: Scalar,
        slope: Scalar,
        radius: Scalar,
    |
        {
            &&& #[trigger] is_quotient(arith, defocus_angle, two, half)
            &&& #[trigger] is_radians(arith, half, angle)
            &&& #[trigger] is_tangent(arith, angle, slope)
            &&& #[trigger] is_product(arith, focus_distance, slope, radius)
            &&& is_scale(arith, u, radius, disk.0)
            &&& is_scale(arith, v, radius, disk.1)
        };
    let (half2, angle2, slope2, radius2) = choose|
        half: Scalar,
        angle: Scalar,
        slope: Scalar,
        radius: Scalar,
    |
        {
            &&& #[trigger] is_quotient(arith, defocus_angle, two, half)
            &&& #[trigger] is_radians(arith, half, angle)
            &&& #[trigger] is_tangent(arith, angle, slope)
            &&& #[trigger] is_product(arith, focus_distance, slope, radius)
            &&& is_scale(arith, u, radius, disk2.0)
            &&& is_scale(arith, v, radius, disk2.1)
        };
    assert(half == half2);
    assert(angle == angle2);
    assert(slope == slope2);
    assert(radius == radius2);
    lemma_scale_is_one(arith, u, radius, disk.0, disk2.0);
    lemma_scale_is_one(arith, v, radius, disk.1, disk2.1);
}

/// In an arithmetic that is a function two cameras that agree in their
/// basis, their centre and the size of their image have one frame.
pub proof fn lemma_frame_is_one<A: Arithmetic>(
    arith: &A,
    camera: Camera,
    other: Camera,
    focus_distance: Scalar,
    height: Scalar,
    width: Scalar,
)
    requires
        is_function(arith),
        camera.u == other.u,
        camera.v == other.v,
        camera.w == other.w,
        camera.center == other.center,
        camera.image_width == other.image_width,
        camera.image_height == other.image_height,
        is_frame(arith, camera, focus_distance, height, width),
        is_frame(arith, other, focus_distance, height, width),
    ensures
        camera.pixel_delta_u == other.pixel_delta_u,
        camera.pixel_delta_v == other.pixel_delta_v,
        camera.pixel00_loc == other.pixel00_loc,
{
    let wide = Scalar::of_whole(camera.image_width as nat);
    let high = Scalar::of_whole(camera.image_height as nat);
    let (viewport_u, viewport_v) = choose|viewport_u: Vec3, viewport_v: Vec3|
        {
            &&& #[trigger] is_scale(arith, camera.u, width, viewport_u)
            &&& #[trigger] is_scale(arith, camera.v.neg_spec(), height, viewport_v)
            &&& is_div(arith, viewport_u, wide, camera.pixel_delta_u)
            &&& is_div(arith, viewport_v, high, camera.pixel_delta_v)
            &&& is_corner(
                arith,
                camera.center,
                camera.w,
                focus_distance,
                viewport_u,
                viewport_v,
                camera.pixel_delta_u,
                camera.pixel_delta_v,
                camera.pixel00_loc,
            )
        };
    let (viewport_u2, viewport_v2) = choose|viewport_u: Vec3, viewport_v: Vec3|
        {
            &&& #[trigger] is_scale(arith, other.u, width, viewport_u)
            &&& #[trigger] is_scale(arith, other.v.neg_spec(), height, viewport_v)
            &&& is_div(arith, viewport_u, wide, other.pixel_delta_u)
            &&& is_div(arith, viewport_v, high, other.pixel_delta_v)
            &&& is_corner(
                arith,
                other.center,
                other.w,
                focus_distance,
                viewport_u,
                viewport_v,
                other.pixel_delta_u,
                other.pixel_delta_v,
                other.pixel00_loc,
            )
        };
    lemma_scale_is_one(arith, camera.u, width, viewport_u, viewport_u2);
    lemma_scale_is_one(arith, camera.v.neg_spec(), height, viewport_v, viewport_v2);
    lemma_div_is_one(arith, viewport_u, wide, camera.pixel_delta_u, other.pixel_delta_u);
    lemma_div_is_one(arith, viewport_v, high, camera.pixel_delta_v, other.pixel_delta_v);
    lemma_corner_is_one(
        arith,
        camera.center,
        camera.w,
        focus_distance,
        viewport_u,
        viewport_v,
        camera.pixel_delta_u,
        camera.pixel_delta_v,
        camera.pixel00_loc,
        other.pixel00_loc,
    );
}

/// Viewing parameters make one camera: two cameras of the same parameters
/// are the same in every field, in an arithmetic that is a function.
pub proof fn lemma_camera_is_one<A: Arithmetic>(
    arith: &A,
    aspect_ratio: Scalar,
    image_width: u32,
    samples_per_pixel: u16,
    look_from: Vec3,
    look_at: Vec3,
    up: Vec3,
    vertical_fov: Scalar,
    defocus_angle: Scalar,
    focus_distance: Scalar,
    camera: Camera,
    other: Camera,
)
    requires
        is_function(arith),
        Camera::is_camera(
            arith,
            aspect_ratio,
            image_width,
            samples_per_pixel,
            look_from,
            look_at,
            up,
            vertical_fov,
            defocus_angle,
            focus_distance,
            camera,
        ),
        Camera::is_camera(
            arith,
            aspect_ratio,
            image_width,
            samples_per_pixel,
            look_from,
            look_at,
            up,
            vertical_fov,
            defocus_angle,
            focus_distance,
            other,
        ),
    ensures
        camera == other,
{
    let wide = Scalar::of_whole(image_width as nat);
    let quotient = choose|quotient: Scalar| #[trigger]
        is_quotient(arith, wide, aspect_ratio, quotient) && camera.image_height == rows_spec(
            quotient,
        );
    let quotient2 = choose|quotient: Scalar| #[trigger]
        is_quotient(arith, wide, aspect_ratio, quotient) && other.image_height == rows_spec(
            quotient,
        );
    assert(quotient == quotient2);
    assert(camera.image_height == other.image_height);
    lemma_basis_is_one(
        arith,
        look_from,
        look_at,
        up,
        (camera.u, camera.v, camera.w),
        (other.u, other.v, other.w),
    );
    let (height, width) = choose|height: Scalar, width: Scalar| #[trigger]
        is_viewport(
            arith,
            vertical_fov,
            focus_distance,
            image_width,
            camera.image_height,
            height,
            width,
        ) && is_frame(arith, camera, focus_distance, height, width);
    let (height2, width2) = choose|height: Scalar, width: Scalar| #[trigger]
        is_viewport(
            arith,
            vertical_fov,
            focus_distance,
            image_width,
            other.image_height,
            height,
            width,
        ) && is_frame(arith, other, focus_distance, height, width);
    lemma_viewport_is_one(
        arith,
        vertical_fov,
        focus_distance,
        image_width,
        camera.image_height,
        (height, width),
        (height2, width2),
    );
    lemma_frame_is_one(arith, camera, other, focus_distance, height, width);
    lemma_lens_is_one(
        arith,
        camera.u,
        camera.v,
        defocus_angle,
        focus_distance,
        (camera.defocus_disk_u, camera.defocus_disk_v),
        (other.defocus_disk_u, other.defocus_disk_v),
    );
    assert(camera.pixel_samples_scale == other.pixel_samples_scale);
}

} // verus!
