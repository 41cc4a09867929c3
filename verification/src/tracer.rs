use crate::arithmetic::{is_difference, is_product, is_sum, Arithmetic};
use crate::interval::Interval;
use crate::material::Scatter;
use crate::ray::Ray;
use crate::scalar::{Scalar, INFINITY_BITS, ONE_BITS};
use crate::scene::{is_scan, HitRecord, Hittable, World};
use crate::vec3::{is_add, is_mul, is_scale, is_unit_vector, Vec3};
use vstd::prelude::*;

verus! {

/// The number of surfaces after which a path of light is given up.
pub const MAX_DEPTH: u32 = 50;

/// The pattern of the binary64 number nearest to one thousandth: hits nearer
/// to the origin of a ray than this are the surface the ray has just left.
pub const SELF_HIT_GUARD_BITS: u64 = 0x3F50_624D_D2F1_A9FC;

/// The pattern of the number one half.
pub const HALF_BITS: u64 = 0x3FE0_0000_0000_0000;

/// The pattern of the binary64 number nearest to seven tenths.
pub const SEVEN_TENTHS_BITS: u64 = 0x3FE6_6666_6666_6666;

/// The range of parameters in which a path looks for its next surface: from
/// the self-hit guard, excluded, without an upper end.
pub open spec fn window_spec() -> Interval {
    Interval { min: Scalar { bits: SELF_HIT_GUARD_BITS }, max: Scalar { bits: INFINITY_BITS } }
}

/// The range of parameters in which a path looks for its next surface.
pub fn window() -> (i: Interval)
    ensures
        i == window_spec(),
{
    Interval::new(Scalar::from_bits(SELF_HIT_GUARD_BITS), Scalar::infinity())
}

/// What a path of light finds ahead of it.
#[derive(Debug)]
pub enum Probe {
    /// The path has reached the depth cap and carries no light.
    Exhausted,
    /// Nothing lies ahead: the path ends in the sky.
    Escaped,
    /// A surface lies ahead.
    Struck(HitRecord),
}

/// One stretch of a path of light: the ray it follows and the number of
/// surfaces behind it, which never passes the depth cap.
#[derive(Debug, Clone, Copy)]
pub struct Walk {
    ray: Ray,
    depth: u32,
}

impl Walk {
    #[verifier::type_invariant]
    spec fn capped(self) -> bool {
        self.depth <= MAX_DEPTH
    }

    /// The ray that this stretch follows.
    pub closed spec fn ray_spec(self) -> Ray {
        self.ray
    }

    /// The number of surfaces behind this stretch.
    pub closed spec fn depth_spec(self) -> nat {
        self.depth as nat
    }

    /// Whether `p` is what may lie ahead of this stretch in `objects`: nothing
    /// to look for at the depth cap, and below it what a scan of the objects
    /// finds beyond the self-hit guard.
    pub open spec fn probes<A: Arithmetic, H: Hittable<A>>(
        self,
        objects: Seq<H>,
        arith: &A,
        p: Probe,
    ) -> bool {
        if self.depth_spec() >= MAX_DEPTH {
            p == Probe::Exhausted
        } else {
            match p {
                Probe::Exhausted => false,
                Probe::Escaped => is_scan(objects, arith, self.ray_spec(), window_spec(), None),
                Probe::Struck(rec) => is_scan(
                    objects,
                    arith,
                    self.ray_spec(),
                    window_spec(),
                    Some(rec),
                ),
            }
        }
    }

    /// How a path goes on from a surface: not at all at the depth cap or
    /// where the surface absorbed the ray, and otherwise along the scattered
    /// ray, one surface deeper, its light weighed by the attenuation.
    pub open spec fn step_spec(self, scatter: Option<Scatter>) -> Option<(Vec3, Walk)> {
        match scatter {
            Some(s) => if self.depth_spec() < MAX_DEPTH {
                Some((s.attenuation, Self::at(s.scattered, self.depth_spec() + 1)))
            } else {
                None
            },
            None => None,
        }
    }

    /// The stretch that follows `ray` with `depth` surfaces behind it.
    pub closed spec fn at(ray: Ray, depth: nat) -> Walk {
        Walk { ray, depth: depth as u32 }
    }

    /// The path of a ray that leaves the camera.
    pub fn start(ray: Ray) -> (w: Walk)
        ensures
            w == Self::at(ray, 0),
            w.ray_spec() == ray,
            w.depth_spec() == 0,
    {
        Walk { ray, depth: 0 }
    }

    /// The ray that this stretch follows.
    pub fn ray(&self) -> (r: Ray)
        ensures
            r == self.ray_spec(),
    {
        self.ray
    }

    /// The number of surfaces behind this stretch, at most the depth cap.
    pub fn depth(&self) -> (d: u32)
        ensures
            d == self.depth_spec(),
            d <= MAX_DEPTH,
    {
        proof {
            use_type_invariant(self);
        }
        self.depth
    }

    /// Looks ahead along the ray. At the depth cap the path is exhausted,
    /// whatever lies ahead. Below it the scene is asked for the closest hit
    /// beyond the self-hit guard.
    pub fn probe<A: Arithmetic, H: Hittable<A>>(&self, world: &World<H>, arith: &A) -> (p: Probe)
        ensures
            self.probes(world@, arith, p),
            p is Exhausted <==> self.depth_spec() >= MAX_DEPTH,
            p matches Probe::Struck(rec) ==> window_spec().surrounds_spec(rec.t),
    {
        if self.depth >= MAX_DEPTH {
            return Probe::Exhausted;
        }
        match world.hit(arith, &self.ray, window()) {
            Some(rec) => Probe::Struck(rec),
            None => Probe::Escaped,
        }
    }

    /// Goes on from a surface with what its material made of the ray. The
    /// light that the rest of the path brings in is to be multiplied, channel
    /// by channel, by the factor returned; where none is returned the path
    /// carries no light.
    pub fn step(&self, scatter: Option<Scatter>) -> (r: Option<(Vec3, Walk)>)
        ensures
            r == self.step_spec(scatter),
            r matches Some((attenuation, next)) ==> {
                &&& scatter matches Some(s)
                &&& attenuation == s.attenuation
                &&& next.ray_spec() == s.scattered
                &&& next.depth_spec() == self.depth_spec() + 1
            },
    {
        match scatter {
            Some(s) => {
                if self.depth < MAX_DEPTH {
                    Some((s.attenuation, Walk { ray: s.scattered, depth: self.depth + 1 }))
                } else {
                    None
                }
            },
            None => None,
        }
    }
}

/// The stretch that follows `ray` with `depth` surfaces behind it follows
/// that ray and has that many surfaces behind it, and it is the only stretch
/// that does.
pub proof fn lemma_walk_at(ray: Ray, depth: nat)
    requires
        depth <= u32::MAX,
    ensures
        Walk::at(ray, depth).ray_spec() == ray,
        Walk::at(ray, depth).depth_spec() == depth,
        forall|walk: Walk|
            walk.ray_spec() == ray && #[trigger] walk.depth_spec() == depth ==> walk == Walk::at(
                ray,
                depth,
            ),
{
}

/// The light of the sky at the horizon: white.
pub open spec fn white_spec() -> Vec3 {
    Vec3 { x: Scalar { bits: ONE_BITS }, y: Scalar { bits: ONE_BITS }, z: Scalar { bits: ONE_BITS } }
}

/// The light of the sky at the zenith: a pale blue of a half, seven tenths
/// and one.
pub open spec fn blue_spec() -> Vec3 {
    Vec3 {
        x: Scalar { bits: HALF_BITS },
        y: Scalar { bits: SEVEN_TENTHS_BITS },
        z: Scalar { bits: ONE_BITS },
    }
}

/// The light of the sky at the horizon: white.
pub fn white() -> (color: Vec3)
    ensures
        color == white_spec(),
{
    Vec3::new(Scalar::one(), Scalar::one(), Scalar::one())
}

/// The light of the sky at the zenith: a pale blue.
pub fn blue() -> (color: Vec3)
    ensures
        color == blue_spec(),
{
    Vec3::new(Scalar::from_bits(HALF_BITS), Scalar::from_bits(SEVEN_TENTHS_BITS), Scalar::one())
}

/// No light: zero in every channel.
pub open spec fn black_spec() -> Vec3 {
    Vec3::zero_spec()
}

/// No light: zero in every channel.
pub fn black() -> (color: Vec3)
    ensures
        color == black_spec(),
{
    Vec3::zero()
}

/// Whether `color` is the light of the sky along `ray`: white where the ray
/// points straight down, blue where it points straight up, and between the
/// two `(1 - a) white + a blue` with `a = 0.5 (y + 1)` for the height `y` of
/// the direction of the ray, brought to the length one.
pub open spec fn is_sky<A: Arithmetic>(arith: &A, ray: Ray, color: Vec3) -> bool {
    let one = Scalar { bits: ONE_BITS };
    exists|unit_direction: Vec3, lifted: Scalar, a: Scalar, rest: Scalar, low: Vec3, high: Vec3|
        {
            &&& #[trigger] is_unit_vector(arith, ray.direction, unit_direction)
            &&& #[trigger] is_sum(arith, unit_direction.y, one, lifted)
            &&& #[trigger] is_product(arith, Scalar { bits: HALF_BITS }, lifted, a)
            &&& #[trigger] is_difference(arith, one, a, rest)
            &&& #[trigger] is_scale(arith, white_spec(), rest, low)
            &&& #[trigger] is_scale(arith, blue_spec(), a, high)
            &&& is_add(arith, low, high, color)
        }
}

/// The light of the sky along a ray.
pub fn sky<A: Arithmetic>(arith: &A, ray: &Ray) -> (color: Vec3)
    ensures
        is_sky(arith, *ray, color),
{
    let unit_direction = ray.direction.unit_vector(arith);
    let lifted = arith.add(unit_direction.y, Scalar::one());
    let a = arith.mul(Scalar::from_bits(HALF_BITS), lifted);
    let rest = arith.sub(Scalar::one(), a);
    let low = white().scale(rest, arith);
    let high = blue().scale(a, arith);
    let color = low.add(high, arith);
    proof {
        let one = Scalar { bits: ONE_BITS };
        assert(is_unit_vector(arith, ray.direction, unit_direction));
        assert(is_sum(arith, unit_direction.y, one, lifted));
        assert(is_product(arith, Scalar { bits: HALF_BITS }, lifted, a));
        assert(is_difference(arith, one, a, rest));
        assert(is_scale(arith, white_spec(), rest, low));
        assert(is_scale(arith, blue_spec(), a, high));
    }
    color
}

/// Whether `color` is a light that the path `walk` can bring in from the
/// scene `objects`.
///
/// An exhausted path brings in no light. A path that escapes brings in the
/// light of the sky along its ray. A path that strikes a surface brings in
/// the attenuation of the material of that surface, times, channel by
/// channel, the light of the path that goes on along the scattered ray, one
/// surface deeper.
pub open spec fn lit<A: Arithmetic, H: Hittable<A>, U: Fn() -> Vec3>(
    objects: Seq<H>,
    walk: Walk,
    arith: &A,
    unit_source: &U,
    color: Vec3,
) -> bool
    decreases MAX_DEPTH - walk.depth_spec(),
{
    if walk.depth_spec() >= MAX_DEPTH {
        color == black_spec()
    } else {
        exists|found: Option<HitRecord>|
            {
                &&& #[trigger] is_scan(objects, arith, walk.ray_spec(), window_spec(), found)
                &&& match found {
                    None => is_sky(arith, walk.ray_spec(), color),
                    Some(hit) => exists|unit: Vec3, draw: Scalar, made: Scatter, rest: Vec3|
                        {
                            &&& (*hit.material).draws(unit_source, unit, draw)
                            &&& #[trigger] (*hit.material).scatters(
                                arith,
                                walk.ray_spec(),
                                hit,
                                unit,
                                draw,
                                made,
                            )
                            &&& lit(
                                objects,
                                Walk::at(made.scattered, walk.depth_spec() + 1),
                                arith,
                                unit_source,
                                rest,
                            )
                            &&& #[trigger] is_mul(arith, made.attenuation, rest, color)
                        },
                }
            }
    }
}

/// The light that a ray brings into the camera from the scene.
///
/// The path of the ray is followed from surface to surface until it escapes
/// into the sky or has fifty surfaces behind it. `unit_source` gives the
/// random unit vectors that the materials ask for.
pub fn ray_color<A: Arithmetic, H: Hittable<A>, U: Fn() -> Vec3>(
    ray: &Ray,
    world: &World<H>,
    arith: &A,
    unit_source: &U,
) -> (color: Vec3)
    requires
        call_requires(*unit_source, ()),
    ensures
        lit(world@, Walk::at(*ray, 0), arith, unit_source, color),
{
    ray_color_from(Walk::start(*ray), world, arith, unit_source)
}

/// The light that a path brings in from where it stands.
pub fn ray_color_from<A: Arithmetic, H: Hittable<A>, U: Fn() -> Vec3>(
    walk: Walk,
    world: &World<H>,
    arith: &A,
    unit_source: &U,
) -> (color: Vec3)
    requires
        call_requires(*unit_source, ()),
    ensures
        lit(world@, walk, arith, unit_source, color),
    decreases MAX_DEPTH - walk.depth_spec(),
{
    match walk.probe(world, arith) {
        Probe::Exhausted => black(),
        Probe::Escaped => {
            let color = sky(arith, &walk.ray());
            proof {
                assert(is_scan(world@, arith, walk.ray_spec(), window_spec(), None));
            }
            color
        },
        Probe::Struck(hit) => {
            let ray = walk.ray();
            let scatter = hit.material.scatter(arith, &ray, &hit, unit_source);
            let ghost made = scatter.unwrap();
            let ghost (unit, draw) = choose|unit: Vec3, draw: Scalar| #[trigger]
                (*hit.material).draws(unit_source, unit, draw) && (*hit.material).scatters(
                    arith,
                    ray,
                    hit,
                    unit,
                    draw,
                    made,
                );
            match walk.step(scatter) {
                Some((attenuation, next)) => {
                    let rest = ray_color_from(next, world, arith, unit_source);
                    let color = attenuation.mul(rest, arith);
                    proof {
                        assert(next == Walk::at(made.scattered, walk.depth_spec() + 1));
                        assert((*hit.material).scatters(arith, ray, hit, unit, draw, made));
                        assert(is_mul(arith, made.attenuation, rest, color));
                        assert(is_scan(world@, arith, walk.ray_spec(), window_spec(), Some(hit)));
                    }
                    color
                },
                None => black(),
            }
        },
    }
}

} // verus!
