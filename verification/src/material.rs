use crate::arithmetic::{
    has_exact_zero, has_one, has_zero, is_difference, is_function, is_product, is_quotient,
    is_root, is_sum, opposite, same, Arithmetic,
};
use crate::random::{in_unit_interval, random};
use crate::ray::Ray;
use crate::scalar::{
    lemma_abs, lemma_neg, lemma_one, lemma_small_is_finite, lemma_zero, Scalar, ONE_BITS,
};
use crate::scene::HitRecord;
use crate::vec3::{
    is_add, is_dot, is_length_squared, is_reflect, is_refract, is_scale, is_unit_vector,
    lemma_unit_vector_is_one, lemma_zero_is_near_zero, Vec3,
};
use vstd::prelude::*;

verus! {

/// How a surface answers a ray.
#[derive(Debug, Clone, Copy, PartialEq, Eq, Structural)]
pub enum MaterialKind {
    /// Scatters about the normal, the same from every side.
    Lambertian,
    /// Mirrors the ray; `fuzz` spreads the mirrored direction.
    Metal { fuzz: Scalar },
    /// Lets the ray through or mirrors it; `ref_idx` is the index of
    /// refraction of the inside over that of the outside.
    Dielectric { ref_idx: Scalar },
}

/// A surface: its kind and the share of light it gives back in each channel.
#[derive(Debug, Clone, Copy, PartialEq, Eq, Structural)]
pub struct Material {
    pub kind: MaterialKind,
    pub albedo: Vec3,
}

/// What a surface makes of a ray: the ray that leaves it and the factor by
/// which the light along that ray counts.
#[derive(Debug, Clone, Copy, PartialEq, Eq, Structural)]
pub struct Scatter {
    pub attenuation: Vec3,
    pub scattered: Ray,
}

/// Whether `r` is the fifth power of `x`: `x ((x x) (x x))`.
pub open spec fn is_fifth_power<A: Arithmetic>(arith: &A, x: Scalar, r: Scalar) -> bool {
    exists|second: Scalar, fourth: Scalar|
        {
            &&& #[trigger] is_product(arith, x, x, second)
            &&& #[trigger] is_product(arith, second, second, fourth)
            &&& is_product(arith, x, fourth, r)
        }
}

/// Whether `r` is Schlick's approximation of the reflectance at the cosine
/// given, for the ratio `ref_idx` of the refraction indices:
/// `r0 + (1 - r0) (1 - cosine)^5` with `r0 = ((1 - ref_idx) / (1 + ref_idx))^2`.
pub open spec fn is_reflectance<A: Arithmetic>(
    arith: &A,
    cosine: Scalar,
    ref_idx: Scalar,
    r: Scalar,
) -> bool {
    let one = Scalar { bits: ONE_BITS };
    exists|above: Scalar, below: Scalar, q: Scalar, r0: Scalar, base: Scalar, fifth: Scalar, rest: Scalar, part: Scalar|
        {
            &&& #[trigger] is_difference(arith, one, ref_idx, above)
            &&& #[trigger] is_sum(arith, one, ref_idx, below)
            &&& #[trigger] is_quotient(arith, above, below, q)
            &&& #[trigger] is_product(arith, q, q, r0)
            &&& #[trigger] is_difference(arith, one, cosine, base)
            &&& #[trigger] is_fifth_power(arith, base, fifth)
            &&& #[trigger] is_difference(arith, one, r0, rest)
            &&& #[trigger] is_product(arith, rest, fifth, part)
            &&& is_sum(arith, r0, part, r)
        }
}

/// Whether `direction` is where a Lambertian surface may send a ray on: the
/// normal plus the unit vector `unit`.
pub open spec fn is_diffuse<A: Arithmetic>(
    arith: &A,
    hit: HitRecord,
    unit: Vec3,
    direction: Vec3,
) -> bool {
    is_add(arith, hit.normal, unit, direction)
}

/// Whether `direction` is where a metal of the fuzz given sends a ray on: the
/// direction of the ray mirrored at the normal, plus the unit vector `unit`
/// times the fuzz.
pub open spec fn is_specular<A: Arithmetic>(
    arith: &A,
    ray_in: Ray,
    hit: HitRecord,
    fuzz: Scalar,
    unit: Vec3,
    direction: Vec3,
) -> bool {
    exists|reflected: Vec3, spread: Vec3|
        {
            &&& #[trigger] is_reflect(arith, ray_in.direction, hit.normal, reflected)
            &&& #[trigger] is_scale(arith, unit, fuzz, spread)
            &&& is_add(arith, reflected, spread, direction)
        }
}

/// Whether `ratio` is the ratio of the refraction indices across the surface
/// in the direction of travel: one over the index where the ray enters the
/// medium, and the index itself where it leaves.
pub open spec fn is_ratio<A: Arithmetic>(
    arith: &A,
    hit: HitRecord,
    ref_idx: Scalar,
    ratio: Scalar,
) -> bool {
    if hit.front_face {
        is_quotient(arith, Scalar { bits: ONE_BITS }, ref_idx, ratio)
    } else {
        ratio == ref_idx
    }
}

/// Whether `cos_theta` and `sin_theta` are cosine and sine of the angle at
/// which the unit direction meets the normal: the smaller of `-d . n` and one,
/// and `sqrt(1 - cos_theta^2)`.
pub open spec fn is_incidence<A: Arithmetic>(
    arith: &A,
    unit_direction: Vec3,
    normal: Vec3,
    cos_theta: Scalar,
    sin_theta: Scalar,
) -> bool {
    exists|cosine: Scalar, squared: Scalar, rest: Scalar|
        {
            &&& #[trigger] is_dot(arith, unit_direction.neg_spec(), normal, cosine)
            &&& cos_theta == cosine.min_spec(Scalar { bits: ONE_BITS })
            &&& #[trigger] is_product(arith, cos_theta, cos_theta, squared)
            &&& #[trigger] is_difference(arith, Scalar { bits: ONE_BITS }, squared, rest)
            &&& is_root(arith, rest, sin_theta)
        }
}

/// Whether `direction` is where a dielectric sends the unit direction on: it
/// is mirrored where Snell's law has no solution, the ratio times the sine
/// being above one, or where `draw` falls below the reflectance, and it is
/// refracted otherwise.
pub open spec fn is_bend<A: Arithmetic>(
    arith: &A,
    unit_direction: Vec3,
    normal: Vec3,
    ratio: Scalar,
    cos_theta: Scalar,
    sin_theta: Scalar,
    draw: Scalar,
    direction: Vec3,
) -> bool {
    exists|sine: Scalar|
        {
            &&& #[trigger] is_product(arith, ratio, sin_theta, sine)
            &&& if (Scalar { bits: ONE_BITS }).lt_spec(sine) {
                is_reflect(arith, unit_direction, normal, direction)
            } else {
                exists|reflectance: Scalar|
                    {
                        &&& #[trigger] is_reflectance(arith, cos_theta, ratio, reflectance)
                        &&& if draw.lt_spec(reflectance) {
                            is_reflect(arith, unit_direction, normal, direction)
                        } else {
                            is_refract(arith, unit_direction, normal, ratio, direction)
                        }
                    }
            }
        }
}

/// Whether `direction` is where a dielectric of the index given sends a ray
/// on, for the number `draw` from zero up to one.
pub open spec fn is_transmission<A: Arithmetic>(
    arith: &A,
    ray_in: Ray,
    hit: HitRecord,
    ref_idx: Scalar,
    draw: Scalar,
    direction: Vec3,
) -> bool {
    exists|ratio: Scalar, unit_direction: Vec3, cos_theta: Scalar, sin_theta: Scalar|
        {
            &&& #[trigger] is_ratio(arith, hit, ref_idx, ratio)
            &&& #[trigger] is_unit_vector(arith, ray_in.direction, unit_direction)
            &&& #[trigger] is_incidence(arith, unit_direction, hit.normal, cos_theta, sin_theta)
            &&& is_bend(
                arith,
                unit_direction,
                hit.normal,
                ratio,
                cos_theta,
                sin_theta,
                draw,
                direction,
            )
        }
}

/// Schlick's approximation of the reflectance of a dielectric.
pub fn reflectance<A: Arithmetic>(arith: &A, cosine: Scalar, ref_idx: Scalar) -> (r: Scalar)
    ensures
        is_reflectance(arith, cosine, ref_idx, r),
{
    let one = Scalar::one();
    let above = arith.sub(one, ref_idx);
    let below = arith.add(one, ref_idx);
    let q = arith.div(above, below);
    let r0 = arith.mul(q, q);
    let base = arith.sub(one, cosine);
    let second = arith.mul(base, base);
    let fourth = arith.mul(second, second);
    let fifth = arith.mul(base, fourth);
    let rest = arith.sub(one, r0);
    let part = arith.mul(rest, fifth);
    let r = arith.add(r0, part);
    proof {
        assert(is_product(arith, base, base, second));
        assert(is_product(arith, second, second, fourth));
        assert(is_fifth_power(arith, base, fifth));
        assert(is_difference(arith, one, ref_idx, above));
        assert(is_sum(arith, one, ref_idx, below));
        assert(is_quotient(arith, above, below, q));
        assert(is_product(arith, q, q, r0));
        assert(is_difference(arith, one, cosine, base));
        assert(is_difference(arith, one, r0, rest));
        assert(is_product(arith, rest, fifth, part));
    }
    r
}

impl Material {
    /// One in every channel: the attenuation of a dielectric.
    pub open spec fn clear() -> Vec3 {
        Vec3 { x: Scalar { bits: ONE_BITS }, y: Scalar { bits: ONE_BITS }, z: Scalar { bits: ONE_BITS } }
    }

    /// Whether `made` is what the surface makes of the ray `ray_in` that
    /// struck it at `hit`, for the random unit vector `unit` and the random
    /// number `draw` from zero up to one.
    ///
    /// A Lambertian surface sends the ray on along the normal plus `unit`, or
    /// along the normal where the two all but cancel, and weighs it by the
    /// albedo. A metal sends it on along the direction of the ray mirrored at
    /// the normal, plus its fuzz times `unit`, and weighs it by the albedo. A
    /// dielectric mirrors or refracts the ray by `draw` and leaves its light
    /// as it is.
    pub open spec fn scatters<A: Arithmetic>(
        self,
        arith: &A,
        ray_in: Ray,
        hit: HitRecord,
        unit: Vec3,
        draw: Scalar,
        made: Scatter,
    ) -> bool {
        match self.kind {
            MaterialKind::Lambertian => exists|direction: Vec3| #[trigger]
                is_diffuse(arith, hit, unit, direction) && made == (Scatter {
                    attenuation: self.albedo,
                    scattered: Ray {
                        origin: hit.p,
                        direction: if direction.is_near_zero_spec() {
                            hit.normal
                        } else {
                            direction
                        },
                    },
                }),
            MaterialKind::Metal { fuzz } => exists|direction: Vec3| #[trigger]
                is_specular(arith, ray_in, hit, fuzz, unit, direction) && made == (Scatter {
                    attenuation: self.albedo,
                    scattered: Ray { origin: hit.p, direction },
                }),
            MaterialKind::Dielectric { ref_idx } => exists|direction: Vec3| #[trigger]
                is_transmission(arith, ray_in, hit, ref_idx, draw, direction) && made == (Scatter {
                    attenuation: Self::clear(),
                    scattered: Ray { origin: hit.p, direction },
                }),
        }
    }

    /// Where a Lambertian surface may send a ray on.
    fn diffuse<A: Arithmetic>(arith: &A, hit: &HitRecord, unit: Vec3) -> (direction: Vec3)
        ensures
            is_diffuse(arith, *hit, unit, direction),
    {
        hit.normal.add(unit, arith)
    }

    /// Where a metal sends a ray on.
    fn specular<A: Arithmetic>(
        arith: &A,
        ray_in: &Ray,
        hit: &HitRecord,
        fuzz: Scalar,
        unit: Vec3,
    ) -> (direction: Vec3)
        ensures
            is_specular(arith, *ray_in, *hit, fuzz, unit, direction),
    {
        let reflected = ray_in.direction.reflect(hit.normal, arith);
        let spread = unit.scale(fuzz, arith);
        let direction = reflected.add(spread, arith);
        proof {
            assert(is_reflect(arith, ray_in.direction, hit.normal, reflected));
            assert(is_scale(arith, unit, fuzz, spread));
        }
        direction
    }

    /// Cosine and sine of the angle at which a unit direction meets a normal.
    fn incidence<A: Arithmetic>(arith: &A, unit_direction: Vec3, normal: Vec3) -> (angle: (
        Scalar,
        Scalar,
    ))
        ensures
            is_incidence(arith, unit_direction, normal, angle.0, angle.1),
    {
        let cosine = unit_direction.neg().dot(normal, arith);
        let cos_theta = cosine.min(Scalar::one());
        let squared = arith.mul(cos_theta, cos_theta);
        let rest = arith.sub(Scalar::one(), squared);
        let sin_theta = arith.sqrt(rest);
        proof {
            assert(is_dot(arith, unit_direction.neg_spec(), normal, cosine));
            assert(is_product(arith, cos_theta, cos_theta, squared));
            assert(is_difference(arith, Scalar { bits: ONE_BITS }, squared, rest));
        }
        (cos_theta, sin_theta)
    }

    /// Where a dielectric sends a unit direction on.
    fn bend<A: Arithmetic>(
        arith: &A,
        unit_direction: Vec3,
        normal: Vec3,
        ratio: Scalar,
        cos_theta: Scalar,
        sin_theta: Scalar,
        draw: Scalar,
    ) -> (direction: Vec3)
        ensures
            is_bend(arith, unit_direction, normal, ratio, cos_theta, sin_theta, draw, direction),
    {
        let sine = arith.mul(ratio, sin_theta);
        proof {
            assert(is_product(arith, ratio, sin_theta, sine));
        }
        let cannot_refract = sine.gt(Scalar::one());
        if cannot_refract {
            unit_direction.reflect(normal, arith)
        } else {
            let reflectance = reflectance(arith, cos_theta, ratio);
            proof {
                assert(is_reflectance(arith, cos_theta, ratio, reflectance));
            }
            if reflectance.gt(draw) {
                unit_direction.reflect(normal, arith)
            } else {
                unit_direction.refract(normal, ratio, arith)
            }
        }
    }

    /// Where a dielectric of the index given sends a ray on.
    fn transmission<A: Arithmetic>(
        arith: &A,
        ray_in: &Ray,
        hit: &HitRecord,
        ref_idx: Scalar,
        draw: Scalar,
    ) -> (direction: Vec3)
        ensures
            is_transmission(arith, *ray_in, *hit, ref_idx, draw, direction),
    {
        let ratio = if hit.front_face {
            arith.div(Scalar::one(), ref_idx)
        } else {
            ref_idx
        };
        let unit_direction = ray_in.direction.unit_vector(arith);
        let (cos_theta, sin_theta) = Self::incidence(arith, unit_direction, hit.normal);
        let direction = Self::bend(
            arith,
            unit_direction,
            hit.normal,
            ratio,
            cos_theta,
            sin_theta,
            draw,
        );
        proof {
            assert(is_ratio(arith, *hit, ref_idx, ratio));
            assert(is_unit_vector(arith, ray_in.direction, unit_direction));
            assert(is_incidence(arith, unit_direction, hit.normal, cos_theta, sin_theta));
        }
        direction
    }

    /// Sends a ray on from the point where it struck the surface, with `unit`
    /// for the random unit vector and `draw` for the random number from zero
    /// up to one that chance contributes.
    ///
    /// No kind of surface absorbs. A Lambertian surface and a metal weigh the
    /// new ray by the albedo, a dielectric by one in every channel. A
    /// Lambertian surface never sends a ray on in the zero direction, as long
    /// as the normal of the hit is not zero. A metal keeps its direction even
    /// where that points below the surface.
    pub fn scatter_with<A: Arithmetic>(
        &self,
        arith: &A,
        ray_in: &Ray,
        hit: &HitRecord,
        unit: Vec3,
        draw: Scalar,
    ) -> (r: Option<Scatter>)
        ensures
            r matches Some(made) && self.scatters(arith, *ray_in, *hit, unit, draw, made),
            r.unwrap().scattered.origin == hit.p,
            !(self.kind is Dielectric) ==> r.unwrap().attenuation == self.albedo,
            self.kind is Dielectric ==> r.unwrap().attenuation == Self::clear(),
            self.kind is Lambertian && !hit.normal.is_zero()
                ==> !r.unwrap().scattered.direction.is_zero(),
    {
        match self.kind {
            MaterialKind::Lambertian => {
                let sampled = Self::diffuse(arith, hit, unit);
                let mut direction = sampled;
                if direction.is_near_zero() {
                    direction = hit.normal;
                } else {
                    proof {
                        if direction.is_zero() {
                            lemma_zero_is_near_zero(direction);
                        }
                    }
                }
                proof {
                    assert(is_diffuse(arith, *hit, unit, sampled));
                }
                Some(Scatter { attenuation: self.albedo, scattered: Ray::new(hit.p, direction) })
            },
            MaterialKind::Metal { fuzz } => {
                let direction = Self::specular(arith, ray_in, hit, fuzz, unit);
                proof {
                    assert(is_specular(arith, *ray_in, *hit, fuzz, unit, direction));
                }
                Some(Scatter { attenuation: self.albedo, scattered: Ray::new(hit.p, direction) })
            },
            MaterialKind::Dielectric { ref_idx } => {
                let attenuation = Vec3::new(Scalar::one(), Scalar::one(), Scalar::one());
                let direction = Self::transmission(arith, ray_in, hit, ref_idx, draw);
                proof {
                    assert(is_transmission(arith, *ray_in, *hit, ref_idx, draw, direction));
                }
                Some(Scatter { attenuation, scattered: Ray::new(hit.p, direction) })
            },
        }
    }

    /// Whether `unit` and `draw` are what chance contributes to the scattering
    /// at a surface of this material: for a Lambertian surface and a metal a
    /// unit vector from `unit_source`, for a dielectric a number from zero up
    /// to one. What the material does not read is zero.
    pub open spec fn draws<U: Fn() -> Vec3>(self, unit_source: &U, unit: Vec3, draw: Scalar) -> bool {
        if self.kind is Dielectric {
            unit == Vec3::zero_spec() && in_unit_interval(draw)
        } else {
            call_ensures(*unit_source, (), unit) && draw == (Scalar { bits: 0 })
        }
    }

    /// Sends a ray on from the point where it struck the surface.
    ///
    /// A Lambertian surface and a metal ask `unit_source` for a random unit
    /// vector, and a dielectric draws a number evenly from zero up to one.
    /// Nothing else is left to chance: the outcome is that of
    /// [`Material::scatter_with`] for what was drawn.
    pub fn scatter<A: Arithmetic, U: Fn() -> Vec3>(
        &self,
        arith: &A,
        ray_in: &Ray,
        hit: &HitRecord,
        unit_source: &U,
    ) -> (r: Option<Scatter>)
        requires
            call_requires(*unit_source, ()),
        ensures
            r matches Some(made) && exists|unit: Vec3, draw: Scalar| #[trigger]
                self.draws(unit_source, unit, draw) && self.scatters(
                    arith,
                    *ray_in,
                    *hit,
                    unit,
                    draw,
                    made,
                ),
            r.unwrap().scattered.origin == hit.p,
            !(self.kind is Dielectric) ==> r.unwrap().attenuation == self.albedo,
            self.kind is Dielectric ==> r.unwrap().attenuation == Self::clear(),
            self.kind is Lambertian && !hit.normal.is_zero()
                ==> !r.unwrap().scattered.direction.is_zero(),
    {
        let (unit, draw) = match self.kind {
            MaterialKind::Dielectric { ref_idx } => (Vec3::zero(), random()),
            _ => (unit_source(), Scalar::zero()),
        };
        proof {
            assert(self.draws(unit_source, unit, draw));
        }
        self.scatter_with(arith, ray_in, hit, unit, draw)
    }
}

/// A metal without fuzz mirrors the ray: it sends the ray on along the
/// direction of the ray mirrored at the normal, `d - (2 n) (d . n)`, whatever
/// unit vector chance contributes, in any arithmetic in which zero behaves as
/// it does in IEEE 754.
pub proof fn lemma_metal_without_fuzz_mirrors<A: Arithmetic>(
    arith: &A,
    material: Material,
    ray_in: Ray,
    hit: HitRecord,
    unit: Vec3,
    draw: Scalar,
    made: Scatter,
)
    requires
        has_zero(arith),
        material.kind matches MaterialKind::Metal { fuzz } && fuzz.is_number() && fuzz@ == 0,
        unit.x.is_finite() && unit.y.is_finite() && unit.z.is_finite(),
        material.scatters(arith, ray_in, hit, unit, draw, made),
    ensures
        made.attenuation == material.albedo,
        made.scattered.origin == hit.p,
        exists|reflected: Vec3|
            {
                &&& #[trigger] is_reflect(arith, ray_in.direction, hit.normal, reflected)
                &&& same(made.scattered.direction.x, reflected.x)
                &&& same(made.scattered.direction.y, reflected.y)
                &&& same(made.scattered.direction.z, reflected.z)
            },
{
    let fuzz = material.kind->Metal_fuzz;
    let direction = made.scattered.direction;
    assert(is_specular(arith, ray_in, hit, fuzz, unit, direction));
    let (reflected, spread) = choose|reflected: Vec3, spread: Vec3|
        {
            &&& #[trigger] is_reflect(arith, ray_in.direction, hit.normal, reflected)
            &&& #[trigger] is_scale(arith, unit, fuzz, spread)
            &&& is_add(arith, reflected, spread, direction)
        };
    assert(is_product(arith, unit.x, fuzz, spread.x));
    assert(is_product(arith, unit.y, fuzz, spread.y));
    assert(is_product(arith, unit.z, fuzz, spread.z));
    assert(is_sum(arith, reflected.x, spread.x, direction.x));
    assert(is_sum(arith, reflected.y, spread.y, direction.y));
    assert(is_sum(arith, reflected.z, spread.z, direction.z));
}

/// Whether the unit direction `u` strikes a surface with the normal `n`
/// head-on: it is finite and the opposite of the normal, and the cosine of
/// the angle between them, its opposite dotted with the normal, does not lie
/// below one.
pub open spec fn is_head_on<A: Arithmetic>(arith: &A, u: Vec3, n: Vec3) -> bool {
    &&& u.x.is_finite() && u.y.is_finite() && u.z.is_finite()
    &&& opposite(u.x, n.x) && opposite(u.y, n.y) && opposite(u.z, n.z)
    &&& forall|cosine: Scalar| #[trigger]
        is_dot(arith, u.neg_spec(), n, cosine) ==> !cosine.lt_spec(Scalar { bits: ONE_BITS })
}

/// At the cosine one nothing is reflected where the two refraction indices
/// are the same.
pub proof fn lemma_nothing_reflected_head_on<A: Arithmetic>(
    arith: &A,
    cosine: Scalar,
    ratio: Scalar,
    r: Scalar,
)
    requires
        has_zero(arith),
        has_one(arith),
        has_exact_zero(arith),
        same(cosine, Scalar { bits: ONE_BITS }),
        same(ratio, Scalar { bits: ONE_BITS }),
        is_reflectance(arith, cosine, ratio, r),
    ensures
        same(r, Scalar { bits: 0 }),
{
    let one = Scalar { bits: ONE_BITS };
    let zero = Scalar { bits: 0 };
    lemma_one();
    lemma_zero();
    lemma_small_is_finite(one);
    let (above, below, q, r0, base, fifth, rest, part) = choose|
        above: Scalar,
        below: Scalar,
        q: Scalar,
        r0: Scalar,
        base: Scalar,
        fifth: Scalar,
        rest: Scalar,
        part: Scalar,
    |
        {
            &&& #[trigger] is_difference(arith, one, ratio, above)
            &&& #[trigger] is_sum(arith, one, ratio, below)
            &&& #[trigger] is_quotient(arith, above, below, q)
            &&& #[trigger] is_product(arith, q, q, r0)
            &&& #[trigger] is_difference(arith, one, cosine, base)
            &&& #[trigger] is_fifth_power(arith, base, fifth)
            &&& #[trigger] is_difference(arith, one, r0, rest)
            &&& #[trigger] is_product(arith, rest, fifth, part)
            &&& is_sum(arith, r0, part, r)
        };
    let (second, fourth) = choose|second: Scalar, fourth: Scalar|
        {
            &&& #[trigger] is_product(arith, base, base, second)
            &&& #[trigger] is_product(arith, second, second, fourth)
            &&& is_product(arith, base, fourth, fifth)
        };
    assert(same(above, zero));
    assert(zero.lt_spec(below));
    assert(same(q, zero));
    lemma_small_is_finite(q);
    assert(same(r0, zero));
    assert(same(base, zero));
    lemma_small_is_finite(base);
    assert(same(second, zero));
    lemma_small_is_finite(second);
    assert(same(fourth, zero));
    assert(same(fifth, zero));
    assert(same(rest, one));
    assert(same(part, fifth));
    assert(same(r, r0));
}

/// A unit direction that strikes a surface head-on is refracted into itself
/// where the two refraction indices are the same.
pub proof fn lemma_refracted_head_on<A: Arithmetic>(arith: &A, u: Vec3, n: Vec3, eta: Scalar, r: Vec3)
    requires
        has_zero(arith),
        has_one(arith),
        has_exact_zero(arith),
        is_head_on(arith, u, n),
        same(eta, Scalar { bits: ONE_BITS }),
        is_refract(arith, u, n, eta, r),
    ensures
        same(r.x, u.x),
        same(r.y, u.y),
        same(r.z, u.z),
{
    let one = Scalar { bits: ONE_BITS };
    let zero = Scalar { bits: 0 };
    lemma_one();
    lemma_zero();
    lemma_small_is_finite(one);
    let (cosine, lift, bent, across, squared, rest, depth, along) = choose|
        cosine: Scalar,
        lift: Vec3,
        bent: Vec3,
        across: Vec3,
        squared: Scalar,
        rest: Scalar,
        depth: Scalar,
        along: Vec3,
    |
        {
            &&& #[trigger] is_dot(arith, u.neg_spec(), n, cosine)
            &&& #[trigger] is_scale(arith, n, cosine.min_spec(one), lift)
            &&& #[trigger] is_add(arith, u, lift, bent)
            &&& #[trigger] is_scale(arith, bent, eta, across)
            &&& #[trigger] is_length_squared(arith, across, squared)
            &&& #[trigger] is_difference(arith, one, squared, rest)
            &&& #[trigger] is_root(arith, rest.abs_spec(), depth)
            &&& #[trigger] is_scale(arith, n, depth.neg_spec(), along)
            &&& is_add(arith, across, along, r)
        };
    let cos_theta = cosine.min_spec(one);
    assert(same(cos_theta, one));
    assert(same(lift.x, n.x) && same(lift.y, n.y) && same(lift.z, n.z));
    assert(same(bent.x, zero) && same(bent.y, zero) && same(bent.z, zero));
    assert(same(across.x, zero) && same(across.y, zero) && same(across.z, zero));
    lemma_small_is_finite(across.x);
    lemma_small_is_finite(across.y);
    lemma_small_is_finite(across.z);
    let (xx, yy, zz, xy) = choose|xx: Scalar, yy: Scalar, zz: Scalar, xy: Scalar|
        {
            &&& #[trigger] is_product(arith, across.x, across.x, xx)
            &&& #[trigger] is_product(arith, across.y, across.y, yy)
            &&& #[trigger] is_product(arith, across.z, across.z, zz)
            &&& #[trigger] is_sum(arith, xx, yy, xy)
            &&& is_sum(arith, xy, zz, squared)
        };
    assert(same(xx, zero) && same(yy, zero) && same(zz, zero));
    assert(same(xy, zero));
    assert(same(squared, zero));
    assert(same(rest, one));
    lemma_abs(rest);
    assert(same(rest.abs_spec(), one));
    assert(same(depth, one));
    lemma_neg(depth);
    assert(opposite(depth.neg_spec(), one));
    assert(opposite(along.x, n.x) && opposite(along.y, n.y) && opposite(along.z, n.z));
    assert(same(r.x, along.x) && same(r.y, along.y) && same(r.z, along.z));
}

/// A dielectric whose index is one lets a ray that strikes it head-on go
/// straight on: the ray leaves along its own unit direction, with its light
/// as it was, whatever chance contributes, in an arithmetic that is a
/// function and in which zero and one behave as they do in IEEE 754.
pub proof fn lemma_dielectric_of_index_one_goes_straight<A: Arithmetic>(
    material: Material,
    arith: &A,
    ray_in: Ray,
    hit: HitRecord,
    unit: Vec3,
    draw: Scalar,
    made: Scatter,
    u: Vec3,
)
    requires
        is_function(arith),
        has_zero(arith),
        has_one(arith),
        has_exact_zero(arith),
        material.kind == (MaterialKind::Dielectric { ref_idx: Scalar { bits: ONE_BITS } }),
        is_unit_vector(arith, ray_in.direction, u),
        is_head_on(arith, u, hit.normal),
        in_unit_interval(draw),
        material.scatters(arith, ray_in, hit, unit, draw, made),
    ensures
        made.attenuation == Material::clear(),
        made.scattered.origin == hit.p,
        same(made.scattered.direction.x, u.x),
        same(made.scattered.direction.y, u.y),
        same(made.scattered.direction.z, u.z),
{
    let one = Scalar { bits: ONE_BITS };
    let zero = Scalar { bits: 0 };
    let n = hit.normal;
    lemma_one();
    lemma_zero();
    lemma_small_is_finite(one);
    let direction = made.scattered.direction;
    assert(is_transmission(arith, ray_in, hit, one, draw, direction));
    let (ratio, u2, cos_theta, sin_theta) = choose|
        ratio: Scalar,
        u2: Vec3,
        cos_theta: Scalar,
        sin_theta: Scalar,
    |
        {
            &&& #[trigger] is_ratio(arith, hit, one, ratio)
            &&& #[trigger] is_unit_vector(arith, ray_in.direction, u2)
            &&& #[trigger] is_incidence(arith, u2, n, cos_theta, sin_theta)
            &&& is_bend(arith, u2, n, ratio, cos_theta, sin_theta, draw, direction)
        };
    lemma_unit_vector_is_one(arith, ray_in.direction, u, u2);
    assert(same(ratio, one));
    let (cosine, squared, rest) = choose|cosine: Scalar, squared: Scalar, rest: Scalar|
        {
            &&& #[trigger] is_dot(arith, u.neg_spec(), n, cosine)
            &&& cos_theta == cosine.min_spec(one)
            &&& #[trigger] is_product(arith, cos_theta, cos_theta, squared)
            &&& #[trigger] is_difference(arith, one, squared, rest)
            &&& is_root(arith, rest, sin_theta)
        };
    assert(same(cos_theta, one));
    assert(same(squared, one));
    assert(same(rest, zero));
    assert(same(sin_theta, zero));
    let sine = choose|sine: Scalar|
        {
            &&& #[trigger] is_product(arith, ratio, sin_theta, sine)
            &&& if one.lt_spec(sine) {
                is_reflect(arith, u, n, direction)
            } else {
                exists|reflectance: Scalar|
                    {
                        &&& #[trigger] is_reflectance(arith, cos_theta, ratio, reflectance)
                        &&& if draw.lt_spec(reflectance) {
                            is_reflect(arith, u, n, direction)
                        } else {
                            is_refract(arith, u, n, ratio, direction)
                        }
                    }
            }
        };
    assert(same(sine, sin_theta));
    assert(!one.lt_spec(sine));
    let reflectance = choose|reflectance: Scalar|
        {
            &&& #[trigger] is_reflectance(arith, cos_theta, ratio, reflectance)
            &&& if draw.lt_spec(reflectance) {
                is_reflect(arith, u, n, direction)
            } else {
                is_refract(arith, u, n, ratio, direction)
            }
        };
    lemma_nothing_reflected_head_on(arith, cos_theta, ratio, reflectance);
    assert(!draw.lt_spec(reflectance));
    lemma_refracted_head_on(arith, u, n, ratio, direction);
}

} // verus!
