use crate::arithmetic::{
    is_difference, is_function, is_product, is_quotient, is_root, is_sum, Arithmetic,
};
use crate::random::{
    in_signed_interval, in_unit_interval, random, random_signed,
};
use crate::scalar::{
    lemma_abs, lemma_positive, lemma_weight_orders, lemma_zero, Scalar, ONE_BITS, TWO_BITS,
};
use vstd::prelude::*;

verus! {

/// The pattern of the binary64 number nearest to ten to the power of minus
/// eight: a component below it in magnitude counts as nothing.
pub const NEAR_ZERO_BITS: u64 = 0x3E45_798E_E230_8C3A;

/// The pattern of the binary64 number nearest to ten to the power of minus one
/// hundred and sixty: a squared length must lie above it to be normalised
/// safely.
pub const SHORTEST_BITS: u64 = 0x1EB6_7E9C_127B_6E74;

/// Three scalars, read as a point, a direction or a colour as the place asks.
#[derive(Debug, Clone, Copy, PartialEq, Eq, Structural)]
pub struct Vec3 {
    pub x: Scalar,
    pub y: Scalar,
    pub z: Scalar,
}

/// Whether `r` is `a + b`, component by component.
pub open spec fn is_add<A: Arithmetic>(arith: &A, a: Vec3, b: Vec3, r: Vec3) -> bool {
    is_sum(arith, a.x, b.x, r.x) && is_sum(arith, a.y, b.y, r.y) && is_sum(arith, a.z, b.z, r.z)
}

/// Whether `r` is `a - b`, which is `a` plus the opposite of `b`.
pub open spec fn is_sub<A: Arithmetic>(arith: &A, a: Vec3, b: Vec3, r: Vec3) -> bool {
    is_add(arith, a, b.neg_spec(), r)
}

/// Whether `r` is the product of `a` and `b`, component by component.
pub open spec fn is_mul<A: Arithmetic>(arith: &A, a: Vec3, b: Vec3, r: Vec3) -> bool {
    is_product(arith, a.x, b.x, r.x) && is_product(arith, a.y, b.y, r.y) && is_product(
        arith,
        a.z,
        b.z,
        r.z,
    )
}

/// Whether `r` is `a` times the number `t`.
pub open spec fn is_scale<A: Arithmetic>(arith: &A, a: Vec3, t: Scalar, r: Vec3) -> bool {
    is_product(arith, a.x, t, r.x) && is_product(arith, a.y, t, r.y) && is_product(
        arith,
        a.z,
        t,
        r.z,
    )
}

/// Whether `r` is `a` over the number `t`, which is `a` times one over `t`.
pub open spec fn is_div<A: Arithmetic>(arith: &A, a: Vec3, t: Scalar, r: Vec3) -> bool {
    exists|inverse: Scalar| #[trigger]
        is_quotient(arith, Scalar { bits: ONE_BITS }, t, inverse) && is_scale(
            arith,
            a,
            inverse,
            r,
        )
}

/// Whether `r` is the dot product of `a` and `b`: `(ax bx + ay by) + az bz`.
pub open spec fn is_dot<A: Arithmetic>(arith: &A, a: Vec3, b: Vec3, r: Scalar) -> bool {
    exists|xx: Scalar, yy: Scalar, zz: Scalar, xy: Scalar|
        {
            &&& #[trigger] is_product(arith, a.x, b.x, xx)
            &&& #[trigger] is_product(arith, a.y, b.y, yy)
            &&& #[trigger] is_product(arith, a.z, b.z, zz)
            &&& #[trigger] is_sum(arith, xx, yy, xy)
            &&& is_sum(arith, xy, zz, r)
        }
}

/// Whether `r` is the square of the length of `a`: its dot product with
/// itself.
pub open spec fn is_length_squared<A: Arithmetic>(arith: &A, a: Vec3, r: Scalar) -> bool {
    is_dot(arith, a, a, r)
}

/// Whether `r` is the length of `a`: the square root of its square.
pub open spec fn is_length<A: Arithmetic>(arith: &A, a: Vec3, r: Scalar) -> bool {
    exists|squared: Scalar| #[trigger]
        is_length_squared(arith, a, squared) && is_root(arith, squared, r)
}

/// Whether `r` is one component of a cross product: `p q - s t`.
pub open spec fn is_minor<A: Arithmetic>(
    arith: &A,
    p: Scalar,
    q: Scalar,
    s: Scalar,
    t: Scalar,
    r: Scalar,
) -> bool {
    exists|pq: Scalar, st: Scalar|
        {
            &&& #[trigger] is_product(arith, p, q, pq)
            &&& #[trigger] is_product(arith, s, t, st)
            &&& is_difference(arith, pq, st, r)
        }
}

/// Whether `r` is the cross product of `a` and `b`.
pub open spec fn is_cross<A: Arithmetic>(arith: &A, a: Vec3, b: Vec3, r: Vec3) -> bool {
    &&& is_minor(arith, a.y, b.z, a.z, b.y, r.x)
    &&& is_minor(arith, a.z, b.x, a.x, b.z, r.y)
    &&& is_minor(arith, a.x, b.y, a.y, b.x, r.z)
}

/// Whether `r` is `a` brought to the length one: `a` over its length.
pub open spec fn is_unit_vector<A: Arithmetic>(arith: &A, a: Vec3, r: Vec3) -> bool {
    exists|length: Scalar| #[trigger] is_length(arith, a, length) && is_div(arith, a, length, r)
}

/// Whether `r` is `v` mirrored at a surface with the normal `n`:
/// `v - (2 n) (v . n)`.
pub open spec fn is_reflect<A: Arithmetic>(arith: &A, v: Vec3, n: Vec3, r: Vec3) -> bool {
    exists|twice: Vec3, along: Scalar, back: Vec3|
        {
            &&& #[trigger] is_scale(arith, n, Scalar { bits: TWO_BITS }, twice)
            &&& #[trigger] is_dot(arith, v, n, along)
            &&& #[trigger] is_scale(arith, twice, along, back)
            &&& is_sub(arith, v, back, r)
        }
}

/// Whether `r` is the unit direction `v` refracted at a surface with the
/// normal `n`, for the ratio `eta` of the refraction indices: the part across
/// the normal, `eta (v + cos n)` with `cos` the smaller of `-v . n` and one,
/// plus the part along it, `-sqrt(|1 - |across|^2|) n`.
pub open spec fn is_refract<A: Arithmetic>(
    arith: &A,
    v: Vec3,
    n: Vec3,
    eta: Scalar,
    r: Vec3,
) -> bool {
    exists|cosine: Scalar, lift: Vec3, bent: Vec3, across: Vec3, squared: Scalar, rest: Scalar, depth: Scalar, along: Vec3|
        {
            &&& #[trigger] is_dot(arith, v.neg_spec(), n, cosine)
            &&& #[trigger] is_scale(arith, n, cosine.min_spec(Scalar { bits: ONE_BITS }), lift)
            &&& #[trigger] is_add(arith, v, lift, bent)
            &&& #[trigger] is_scale(arith, bent, eta, across)
            &&& #[trigger] is_length_squared(arith, across, squared)
            &&& #[trigger] is_difference(arith, Scalar { bits: ONE_BITS }, squared, rest)
            &&& #[trigger] is_root(arith, rest.abs_spec(), depth)
            &&& #[trigger] is_scale(arith, n, depth.neg_spec(), along)
            &&& is_add(arith, across, along, r)
        }
}

/// Whether `r` is the number `draw` from the unit interval brought into the
/// range from `min` to `max`: `draw (max - min) + min`.
pub open spec fn is_in_range<A: Arithmetic>(
    arith: &A,
    min: Scalar,
    max: Scalar,
    draw: Scalar,
    r: Scalar,
) -> bool {
    exists|span: Scalar, part: Scalar|
        {
            &&& #[trigger] is_difference(arith, max, min, span)
            &&& #[trigger] is_product(arith, draw, span, part)
            &&& is_sum(arith, part, min, r)
        }
}

impl Vec3 {
    /// The vector with every component under the opposite sign.
    pub open spec fn neg_spec(self) -> Vec3 {
        Vec3 { x: self.x.neg_spec(), y: self.y.neg_spec(), z: self.z.neg_spec() }
    }

    /// Whether every component is a number smaller in magnitude than the
    /// near-zero threshold.
    pub open spec fn is_near_zero_spec(self) -> bool {
        let eps = Scalar { bits: NEAR_ZERO_BITS };
        self.x.abs_spec().lt_spec(eps) && self.y.abs_spec().lt_spec(eps)
            && self.z.abs_spec().lt_spec(eps)
    }

    /// The vector of three zeros with a clear sign.
    pub open spec fn zero_spec() -> Vec3 {
        Vec3 { x: Scalar { bits: 0 }, y: Scalar { bits: 0 }, z: Scalar { bits: 0 } }
    }

    /// Whether every component is the number zero, of either sign.
    pub open spec fn is_zero(self) -> bool {
        &&& self.x.is_number() && self.x@ == 0
        &&& self.y.is_number() && self.y@ == 0
        &&& self.z.is_number() && self.z@ == 0
    }

    /// Whether every component is a number from minus one up to one.
    pub open spec fn in_cube(self) -> bool {
        in_signed_interval(self.x) && in_signed_interval(self.y) && in_signed_interval(self.z)
    }

    /// Whether a squared length lies in the range from which a sample drawn in
    /// the cube is kept: above the shortest length and at most one.
    pub open spec fn keeps_sample_spec(length_squared: Scalar) -> bool {
        (Scalar { bits: SHORTEST_BITS }).lt_spec(length_squared) && length_squared.le_spec(
            Scalar { bits: ONE_BITS },
        )
    }

    /// The vector itself where `side` is above zero, its opposite otherwise.
    pub open spec fn toward_spec(self, side: Scalar) -> Vec3 {
        if (Scalar { bits: 0 }).lt_spec(side) {
            self
        } else {
            self.neg_spec()
        }
    }

    /// The vector of three components.
    pub fn new(x: Scalar, y: Scalar, z: Scalar) -> (v: Vec3)
        ensures
            v == (Vec3 { x, y, z }),
    {
        Vec3 { x, y, z }
    }

    /// The vector of three zeros.
    pub fn zero() -> (v: Vec3)
        ensures
            v == Self::zero_spec(),
    {
        Vec3 { x: Scalar::zero(), y: Scalar::zero(), z: Scalar::zero() }
    }

    /// The square of the length.
    pub fn length_squared<A: Arithmetic>(self, arith: &A) -> (r: Scalar)
        ensures
            is_length_squared(arith, self, r),
    {
        self.dot(self, arith)
    }

    /// The length.
    pub fn length<A: Arithmetic>(self, arith: &A) -> (r: Scalar)
        ensures
            is_length(arith, self, r),
    {
        let squared = self.length_squared(arith);
        arith.sqrt(squared)
    }

    /// The dot product with `other`.
    pub fn dot<A: Arithmetic>(self, other: Vec3, arith: &A) -> (r: Scalar)
        ensures
            is_dot(arith, self, other, r),
    {
        let xx = arith.mul(self.x, other.x);
        let yy = arith.mul(self.y, other.y);
        let zz = arith.mul(self.z, other.z);
        let xy = arith.add(xx, yy);
        let r = arith.add(xy, zz);
        proof {
            assert(is_product(arith, self.x, other.x, xx));
            assert(is_product(arith, self.y, other.y, yy));
            assert(is_product(arith, self.z, other.z, zz));
            assert(is_sum(arith, xx, yy, xy));
        }
        r
    }

    /// One component of a cross product: `p q - s t`.
    fn minor<A: Arithmetic>(p: Scalar, q: Scalar, s: Scalar, t: Scalar, arith: &A) -> (r: Scalar)
        ensures
            is_minor(arith, p, q, s, t, r),
    {
        let pq = arith.mul(p, q);
        let st = arith.mul(s, t);
        let r = arith.sub(pq, st);
        proof {
            assert(is_product(arith, p, q, pq));
            assert(is_product(arith, s, t, st));
        }
        r
    }

    /// The cross product with `other`.
    pub fn cross<A: Arithmetic>(self, other: Vec3, arith: &A) -> (r: Vec3)
        ensures
            is_cross(arith, self, other, r),
    {
        Vec3 {
            x: Self::minor(self.y, other.z, self.z, other.y, arith),
            y: Self::minor(self.z, other.x, self.x, other.z, arith),
            z: Self::minor(self.x, other.y, self.y, other.x, arith),
        }
    }

    /// The vector brought to the length one.
    pub fn unit_vector<A: Arithmetic>(self, arith: &A) -> (r: Vec3)
        ensures
            is_unit_vector(arith, self, r),
    {
        let length = self.length(arith);
        let r = self.div(length, arith);
        proof {
            assert(is_length(arith, self, length));
        }
        r
    }

    /// Whether the vector is too short to give a direction.
    pub fn is_near_zero(&self) -> (r: bool)
        ensures
            r == self.is_near_zero_spec(),
    {
        let eps = Scalar::from_bits(NEAR_ZERO_BITS);
        self.x.abs().lt(eps) && self.y.abs().lt(eps) && self.z.abs().lt(eps)
    }

    /// A vector with every component drawn evenly from zero up to one.
    pub fn random() -> (v: Vec3)
        ensures
            in_unit_interval(v.x),
            in_unit_interval(v.y),
            in_unit_interval(v.z),
    {
        let x = random();
        let y = random();
        let z = random();
        Vec3 { x, y, z }
    }

    /// A vector with every component drawn evenly from `min` up to `max`:
    /// a number drawn from zero up to one, times `max - min`, plus `min`.
    pub fn random_in_range<A: Arithmetic>(min: Scalar, max: Scalar, arith: &A) -> (v: Vec3)
        ensures
            exists|x: Scalar, y: Scalar, z: Scalar|
                {
                    &&& in_unit_interval(x) && in_unit_interval(y) && in_unit_interval(z)
                    &&& #[trigger] is_in_range(arith, min, max, x, v.x)
                    &&& #[trigger] is_in_range(arith, min, max, y, v.y)
                    &&& #[trigger] is_in_range(arith, min, max, z, v.z)
                },
    {
        let x = random();
        let y = random();
        let z = random();
        let v = Vec3 {
            x: Self::in_range(min, max, x, arith),
            y: Self::in_range(min, max, y, arith),
            z: Self::in_range(min, max, z, arith),
        };
        proof {
            assert(is_in_range(arith, min, max, x, v.x));
            assert(is_in_range(arith, min, max, y, v.y));
            assert(is_in_range(arith, min, max, z, v.z));
        }
        v
    }

    /// A number from the unit interval brought into the range from `min` to
    /// `max`.
    pub fn in_range<A: Arithmetic>(min: Scalar, max: Scalar, draw: Scalar, arith: &A) -> (r: Scalar)
        ensures
            is_in_range(arith, min, max, draw, r),
    {
        let span = arith.sub(max, min);
        let part = arith.mul(draw, span);
        let r = arith.add(part, min);
        proof {
            assert(is_difference(arith, max, min, span));
            assert(is_product(arith, draw, span, part));
        }
        r
    }

    /// A point drawn evenly in the cube around the unit ball: every component
    /// from minus one up to one.
    pub fn random_in_cube() -> (v: Vec3)
        ensures
            v.in_cube(),
    {
        let x = random_signed();
        let y = random_signed();
        let z = random_signed();
        Vec3 { x, y, z }
    }

    /// A point drawn evenly in the square around the unit disk: the first two
    /// components from minus one up to one, the third zero.
    pub fn random_in_square() -> (v: Vec3)
        ensures
            in_signed_interval(v.x),
            in_signed_interval(v.y),
            v.z.bits == 0,
    {
        let x = random_signed();
        let y = random_signed();
        Vec3 { x, y, z: Scalar::zero() }
    }

    /// One round of rejection sampling for a random direction.
    ///
    /// A point is drawn in the cube around the unit ball. It is kept where the
    /// square of its length lies above the shortest length and is at most one,
    /// and is then brought to the length one: the point over the square root
    /// of the square of its length. A point outside the ball, or too near the
    /// centre to be scaled, gives nothing, and the caller tries again.
    pub fn try_random_unit<A: Arithmetic>(arith: &A) -> (r: Option<Vec3>)
        ensures
            exists|p: Vec3, squared: Scalar|
                {
                    &&& p.in_cube()
                    &&& #[trigger] is_length_squared(arith, p, squared)
                    &&& match r {
                        Some(unit) => Self::keeps_sample_spec(squared) && exists|length: Scalar|
                            #[trigger] is_root(arith, squared, length) && is_div(
                                arith,
                                p,
                                length,
                                unit,
                            ),
                        None => !Self::keeps_sample_spec(squared),
                    }
                },
    {
        let p = Self::random_in_cube();
        let squared = p.length_squared(arith);
        if Self::keeps_sample(squared) {
            let length = arith.sqrt(squared);
            let unit = p.div(length, arith);
            proof {
                assert(is_root(arith, squared, length));
                assert(is_length_squared(arith, p, squared));
            }
            Some(unit)
        } else {
            proof {
                assert(is_length_squared(arith, p, squared));
            }
            None
        }
    }

    /// One round of rejection sampling for a random point of the unit disk.
    ///
    /// A point is drawn in the square around the disk. It is kept where the
    /// square of its length is below one. A point outside the disk gives
    /// nothing, and the caller tries again.
    pub fn try_random_in_unit_disk<A: Arithmetic>(arith: &A) -> (r: Option<Vec3>)
        ensures
            exists|p: Vec3, squared: Scalar|
                {
                    &&& in_signed_interval(p.x) && in_signed_interval(p.y) && p.z.bits == 0
                    &&& #[trigger] is_length_squared(arith, p, squared)
                    &&& r == if squared.lt_spec(Scalar { bits: ONE_BITS }) {
                        Some(p)
                    } else {
                        None
                    }
                },
    {
        let p = Self::random_in_square();
        let squared = p.length_squared(arith);
        proof {
            assert(is_length_squared(arith, p, squared));
        }
        if squared.lt(Scalar::one()) {
            Some(p)
        } else {
            None
        }
    }

    /// The test of rejection sampling in the unit ball: whether a point drawn
    /// in the cube around it, of the squared length given, is kept.
    pub fn keeps_sample(length_squared: Scalar) -> (r: bool)
        ensures
            r == Self::keeps_sample_spec(length_squared),
    {
        Scalar::from_bits(SHORTEST_BITS).lt(length_squared) && length_squared.le(Scalar::one())
    }

    /// Turns a direction into the half-space of a normal: `side` is the dot
    /// product of the two, and the direction is reversed unless it is above
    /// zero.
    pub fn toward(self, side: Scalar) -> (v: Vec3)
        ensures
            v == self.toward_spec(side),
    {
        if side.gt(Scalar::zero()) {
            self
        } else {
            self.neg()
        }
    }

    /// Turns a direction into the half-space of a normal by the sign of
    /// their dot product.
    pub fn into_hemisphere<A: Arithmetic>(self, normal: Vec3, arith: &A) -> (v: Vec3)
        ensures
            exists|side: Scalar| #[trigger]
                is_dot(arith, self, normal, side) && v == self.toward_spec(side),
    {
        let side = self.dot(normal, arith);
        proof {
            assert(is_dot(arith, self, normal, side));
        }
        self.toward(side)
    }

    /// The vector mirrored at a surface with the normal given.
    pub fn reflect<A: Arithmetic>(self, normal: Vec3, arith: &A) -> (r: Vec3)
        ensures
            is_reflect(arith, self, normal, r),
    {
        let twice = normal.scale(Scalar::from_bits(TWO_BITS), arith);
        let along = self.dot(normal, arith);
        let back = twice.scale(along, arith);
        let r = self.sub(back, arith);
        proof {
            assert(is_scale(arith, normal, Scalar { bits: TWO_BITS }, twice));
            assert(is_dot(arith, self, normal, along));
            assert(is_scale(arith, twice, along, back));
        }
        r
    }

    /// The unit direction refracted at a surface with the normal given, for
    /// the ratio of the refraction indices given.
    pub fn refract<A: Arithmetic>(self, normal: Vec3, etai_over_etat: Scalar, arith: &A) -> (r: Vec3)
        ensures
            is_refract(arith, self, normal, etai_over_etat, r),
    {
        let cosine = self.neg().dot(normal, arith);
        let cos_theta = cosine.min(Scalar::one());
        let lift = normal.scale(cos_theta, arith);
        let bent = self.add(lift, arith);
        let across = bent.scale(etai_over_etat, arith);
        let squared = across.length_squared(arith);
        let rest = arith.sub(Scalar::one(), squared);
        let depth = arith.sqrt(rest.abs());
        let along = normal.scale(depth.neg(), arith);
        let r = across.add(along, arith);
        proof {
            assert(is_dot(arith, self.neg_spec(), normal, cosine));
            assert(is_scale(arith, normal, cosine.min_spec(Scalar { bits: ONE_BITS }), lift));
            assert(is_add(arith, self, lift, bent));
            assert(is_scale(arith, bent, etai_over_etat, across));
            assert(is_length_squared(arith, across, squared));
            assert(is_difference(arith, Scalar { bits: ONE_BITS }, squared, rest));
            assert(is_root(arith, rest.abs_spec(), depth));
            assert(is_scale(arith, normal, depth.neg_spec(), along));
        }
        r
    }

    /// The opposite vector.
    pub fn neg(self) -> (v: Vec3)
        ensures
            v == self.neg_spec(),
            v.x@ == -self.x@,
            v.y@ == -self.y@,
            v.z@ == -self.z@,
    {
        Vec3 { x: self.x.neg(), y: self.y.neg(), z: self.z.neg() }
    }

    /// The sum with `other`, component by component.
    pub fn add<A: Arithmetic>(self, other: Vec3, arith: &A) -> (r: Vec3)
        ensures
            is_add(arith, self, other, r),
    {
        Vec3 {
            x: arith.add(self.x, other.x),
            y: arith.add(self.y, other.y),
            z: arith.add(self.z, other.z),
        }
    }

    /// The difference from `other`: the sum with its opposite.
    pub fn sub<A: Arithmetic>(self, other: Vec3, arith: &A) -> (r: Vec3)
        ensures
            is_sub(arith, self, other, r),
    {
        self.add(other.neg(), arith)
    }

    /// The product with `other`, component by component.
    pub fn mul<A: Arithmetic>(self, other: Vec3, arith: &A) -> (r: Vec3)
        ensures
            is_mul(arith, self, other, r),
    {
        Vec3 {
            x: arith.mul(self.x, other.x),
            y: arith.mul(self.y, other.y),
            z: arith.mul(self.z, other.z),
        }
    }

    /// The vector times the number `t`.
    pub fn scale<A: Arithmetic>(self, t: Scalar, arith: &A) -> (r: Vec3)
        ensures
            is_scale(arith, self, t, r),
    {
        Vec3 { x: arith.mul(self.x, t), y: arith.mul(self.y, t), z: arith.mul(self.z, t) }
    }

    /// Adds `other` to the vector in place.
    pub fn add_assign<A: Arithmetic>(&mut self, other: Vec3, arith: &A)
        ensures
            is_add(arith, *old(self), other, *final(self)),
    {
        self.x = arith.add(self.x, other.x);
        self.y = arith.add(self.y, other.y);
        self.z = arith.add(self.z, other.z);
    }

    /// Multiplies the vector by the number `t` in place.
    pub fn mul_assign<A: Arithmetic>(&mut self, t: Scalar, arith: &A)
        ensures
            is_scale(arith, *old(self), t, *final(self)),
    {
        self.x = arith.mul(self.x, t);
        self.y = arith.mul(self.y, t);
        self.z = arith.mul(self.z, t);
    }

    /// Divides the vector by the number `t` in place: multiplies it by one
    /// over `t`.
    pub fn div_assign<A: Arithmetic>(&mut self, t: Scalar, arith: &A)
        ensures
            is_div(arith, *old(self), t, *final(self)),
    {
        let inverse = arith.div(Scalar::one(), t);
        proof {
            assert(is_quotient(arith, Scalar { bits: ONE_BITS }, t, inverse));
        }
        self.mul_assign(inverse, arith);
    }

    /// The vector over the number `t`: the vector times one over `t`.
    pub fn div<A: Arithmetic>(self, t: Scalar, arith: &A) -> (r: Vec3)
        ensures
            is_div(arith, self, t, r),
    {
        let inverse = arith.div(Scalar::one(), t);
        let r = self.scale(inverse, arith);
        proof {
            assert(is_quotient(arith, Scalar { bits: ONE_BITS }, t, inverse));
        }
        r
    }
}

/// The zero vector is near zero, so that a vector which is not near zero is
/// not the zero vector.
pub proof fn lemma_zero_is_near_zero(v: Vec3)
    requires
        v.is_zero(),
    ensures
        v.is_near_zero_spec(),
{
    lemma_positive(NEAR_ZERO_BITS);
    lemma_zero();
    lemma_weight_orders(0, NEAR_ZERO_BITS);
    lemma_abs(v.x);
    lemma_abs(v.y);
    lemma_abs(v.z);
}

/// In an arithmetic that is a function a sum of two vectors is one vector.
pub proof fn lemma_add_is_one<A: Arithmetic>(arith: &A, a: Vec3, b: Vec3, r: Vec3, r2: Vec3)
    requires
        is_function(arith),
        is_add(arith, a, b, r),
        is_add(arith, a, b, r2),
    ensures
        r == r2,
{
}

/// In an arithmetic that is a function a vector times a number is one
/// vector.
pub proof fn lemma_scale_is_one<A: Arithmetic>(arith: &A, a: Vec3, t: Scalar, r: Vec3, r2: Vec3)
    requires
        is_function(arith),
        is_scale(arith, a, t, r),
        is_scale(arith, a, t, r2),
    ensures
        r == r2,
{
}

/// In an arithmetic that is a function a vector over a number is one vector.
pub proof fn lemma_div_is_one<A: Arithmetic>(arith: &A, a: Vec3, t: Scalar, r: Vec3, r2: Vec3)
    requires
        is_function(arith),
        is_div(arith, a, t, r),
        is_div(arith, a, t, r2),
    ensures
        r == r2,
{
    let one = Scalar { bits: ONE_BITS };
    let i = choose|i: Scalar| #[trigger] is_quotient(arith, one, t, i) && is_scale(arith, a, i, r);
    let i2 = choose|i: Scalar| #[trigger]
        is_quotient(arith, one, t, i) && is_scale(arith, a, i, r2);
    assert(i == i2);
}

/// In an arithmetic that is a function two vectors have one dot product.
pub proof fn lemma_dot_is_one<A: Arithmetic>(arith: &A, a: Vec3, b: Vec3, r: Scalar, r2: Scalar)
    requires
        is_function(arith),
        is_dot(arith, a, b, r),
        is_dot(arith, a, b, r2),
    ensures
        r == r2,
{
    let (xx, yy, zz, xy) = choose|xx: Scalar, yy: Scalar, zz: Scalar, xy: Scalar|
        {
            &&& #[trigger] is_product(arith, a.x, b.x, xx)
            &&& #[trigger] is_product(arith, a.y, b.y, yy)
            &&& #[trigger] is_product(arith, a.z, b.z, zz)
            &&& #[trigger] is_sum(arith, xx, yy, xy)
            &&& is_sum(arith, xy, zz, r)
        };
    let (xx2, yy2, zz2, xy2) = choose|xx: Scalar, yy: Scalar, zz: Scalar, xy: Scalar|
        {
            &&& #[trigger] is_product(arith, a.x, b.x, xx)
            &&& #[trigger] is_product(arith, a.y, b.y, yy)
            &&& #[trigger] is_product(arith, a.z, b.z, zz)
            &&& #[trigger] is_sum(arith, xx, yy, xy)
            &&& is_sum(arith, xy, zz, r2)
        };
    assert(xx == xx2 && yy == yy2 && zz == zz2);
    assert(xy == xy2);
}

/// In an arithmetic that is a function a vector has one unit vector.
pub proof fn lemma_unit_vector_is_one<A: Arithmetic>(arith: &A, a: Vec3, r: Vec3, r2: Vec3)
    requires
        is_function(arith),
        is_unit_vector(arith, a, r),
        is_unit_vector(arith, a, r2),
    ensures
        r == r2,
{
    let l = choose|l: Scalar| #[trigger] is_length(arith, a, l) && is_div(arith, a, l, r);
    let l2 = choose|l: Scalar| #[trigger] is_length(arith, a, l) && is_div(arith, a, l, r2);
    let s = choose|s: Scalar| #[trigger] is_length_squared(arith, a, s) && is_root(arith, s, l);
    let s2 = choose|s: Scalar| #[trigger] is_length_squared(arith, a, s) && is_root(arith, s, l2);
    lemma_dot_is_one(arith, a, a, s, s2);
    assert(l == l2);
    lemma_div_is_one(arith, a, l, r, r2);
}

/// In an arithmetic that is a function two vectors have one cross product.
pub proof fn lemma_cross_is_one<A: Arithmetic>(arith: &A, a: Vec3, b: Vec3, r: Vec3, r2: Vec3)
    requires
        is_function(arith),
        is_cross(arith, a, b, r),
        is_cross(arith, a, b, r2),
    ensures
        r == r2,
{
    lemma_minor_is_one(arith, a.y, b.z, a.z, b.y, r.x, r2.x);
    lemma_minor_is_one(arith, a.z, b.x, a.x, b.z, r.y, r2.y);
    lemma_minor_is_one(arith, a.x, b.y, a.y, b.x, r.z, r2.z);
}

/// In an arithmetic that is a function `p q - s t` is one number.
pub proof fn lemma_minor_is_one<A: Arithmetic>(
    arith: &A,
    p: Scalar,
    q: Scalar,
    s: Scalar,
    t: Scalar,
    r: Scalar,
    r2: Scalar,
)
    requires
        is_function(arith),
        is_minor(arith, p, q, s, t, r),
        is_minor(arith, p, q, s, t, r2),
    ensures
        r == r2,
{
    let (pq, st) = choose|pq: Scalar, st: Scalar|
        {
            &&& #[trigger] is_product(arith, p, q, pq)
            &&& #[trigger] is_product(arith, s, t, st)
            &&& is_difference(arith, pq, st, r)
        };
    let (pq2, st2) = choose|pq: Scalar, st: Scalar|
        {
            &&& #[trigger] is_product(arith, p, q, pq)
            &&& #[trigger] is_product(arith, s, t, st)
            &&& is_difference(arith, pq, st, r2)
        };
    assert(pq == pq2 && st == st2);
}

} // verus!
