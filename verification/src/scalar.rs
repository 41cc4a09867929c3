use vstd::arithmetic::div_mod::{
    lemma_basic_div, lemma_div_by_multiple, lemma_div_is_ordered,
    lemma_div_multiples_vanish_quotient, lemma_multiply_divide_lt,
};
use vstd::arithmetic::power2::{
    lemma2_to64, lemma2_to64_rest, lemma_pow2_adds, lemma_pow2_pos, lemma_pow2_strictly_increases,
    lemma_pow2_unfold, pow2,
};
use vstd::bits::lemma_u64_shr_is_div;
use vstd::prelude::*;

verus! {

/// The sign bit of a binary64 pattern.
pub const SIGN_BIT: u64 = 0x8000_0000_0000_0000;

/// Everything but the sign bit.
pub const MAGNITUDE_MASK: u64 = 0x7FFF_FFFF_FFFF_FFFF;

/// The fifty-two stored fraction bits.
pub const FRACTION_MASK: u64 = 0x000F_FFFF_FFFF_FFFF;

/// The leading significand bit that normal numbers leave unstored, 2^52.
pub const HIDDEN_BIT: u64 = 0x0010_0000_0000_0000;

/// The magnitude pattern of infinity; every larger magnitude is a NaN.
pub const INFINITY_BITS: u64 = 0x7FF0_0000_0000_0000;

/// The pattern of the number one.
pub const ONE_BITS: u64 = 0x3FF0_0000_0000_0000;

/// The pattern of the number two.
pub const TWO_BITS: u64 = 0x4000_0000_0000_0000;

/// The exponent field of the numbers from one up to two.
pub const EXPONENT_OF_ONE: u64 = 1023;

/// A real quantity held as the bit pattern of an IEEE 754 binary64 number.
///
/// What IEEE 754 defines exactly on the pattern is done here: scalars are
/// ordered, their sign is flipped and cleared, the smaller of two is chosen,
/// they are truncated to integers and made from integers. Nothing here
/// rounds; the arithmetic that does is an
/// [`Arithmetic`](crate::arithmetic::Arithmetic).
///
/// The view of a scalar is its value counted in units of 2^-1074, the
/// spacing of the smallest subnormals, so that every finite binary64 number is
/// an integer. The two infinities stand at plus and minus 2^2098, beyond every
/// finite value. The view of a NaN carries no meaning.
///
/// `==` on scalars compares patterns: the two zeros differ, and a NaN is equal
/// to itself. The comparisons of IEEE 754 are `lt`, `le` and `gt`.
#[derive(Debug, Clone, Copy, PartialEq, Eq, Structural)]
pub struct Scalar {
    pub bits: u64,
}

/// The weight of a magnitude pattern in units of 2^-1074: the fraction alone
/// in the subnormal range, and the significand with its hidden bit, shifted by
/// the exponent, above it.
pub open spec fn weight(m: u64) -> nat {
    if m >> 52 == 0 {
        (m & FRACTION_MASK) as nat
    } else {
        ((HIDDEN_BIT + (m & FRACTION_MASK)) * pow2(((m >> 52) - 1) as nat)) as nat
    }
}

impl View for Scalar {
    type V = int;

    open spec fn view(&self) -> int {
        if self.is_negative() {
            -(weight(self.magnitude_bits()) as int)
        } else {
            weight(self.magnitude_bits()) as int
        }
    }
}

impl Scalar {
    /// The pattern without its sign.
    pub open spec fn magnitude_bits(self) -> u64 {
        self.bits & MAGNITUDE_MASK
    }

    /// Whether the sign bit is set. Negative zero is negative in this sense.
    pub open spec fn is_negative(self) -> bool {
        self.bits & SIGN_BIT != 0
    }

    /// Whether the pattern is a NaN, which compares false with everything.
    pub open spec fn is_nan(self) -> bool {
        self.magnitude_bits() > INFINITY_BITS
    }

    /// Whether the pattern is a number, finite or infinite.
    pub open spec fn is_number(self) -> bool {
        !self.is_nan()
    }

    /// Whether the pattern is a finite number.
    pub open spec fn is_finite(self) -> bool {
        self.magnitude_bits() < INFINITY_BITS
    }

    /// The position of a pattern on a line of integers that has the order of
    /// the values: the magnitude pattern, negated under a set sign bit.
    pub open spec fn rank(self) -> int {
        if self.is_negative() {
            -(self.magnitude_bits() as int)
        } else {
            self.magnitude_bits() as int
        }
    }

    /// `self < other` as IEEE 754 has it.
    pub open spec fn lt_spec(self, other: Scalar) -> bool {
        self.is_number() && other.is_number() && self@ < other@
    }

    /// `self <= other` as IEEE 754 has it.
    pub open spec fn le_spec(self, other: Scalar) -> bool {
        self.is_number() && other.is_number() && self@ <= other@
    }

    /// The pattern under the opposite sign.
    pub open spec fn neg_spec(self) -> Scalar {
        Scalar { bits: self.bits ^ SIGN_BIT }
    }

    /// The pattern under a cleared sign.
    pub open spec fn abs_spec(self) -> Scalar {
        Scalar { bits: self.bits & MAGNITUDE_MASK }
    }

    /// The smaller of two numbers: `other` where it is below `self` or `self`
    /// is a NaN, else `self`.
    pub open spec fn min_spec(self, other: Scalar) -> Scalar {
        if self.is_nan() || other.lt_spec(self) {
            other
        } else {
            self
        }
    }

    /// `low` for what lies below it, `high` for what lies above it, and
    /// everything else, a NaN too, as it is.
    pub open spec fn clamp_spec(self, low: Scalar, high: Scalar) -> Scalar {
        if self.lt_spec(low) {
            low
        } else if high.lt_spec(self) {
            high
        } else {
            self
        }
    }

    /// The whole part of a number that is positive, which is its value
    /// truncated toward zero; zero for a negative number and for a NaN.
    pub open spec fn whole(self) -> nat {
        if self.is_nan() || self.is_negative() {
            0
        } else {
            weight(self.magnitude_bits()) / pow2(1074)
        }
    }

    /// The scalar with a clear sign that stands for the whole number `n`.
    pub open spec fn of_whole(n: nat) -> Scalar {
        choose|r: Scalar| r.is_number() && !r.is_negative() && r@ == n * pow2(1074)
    }

    /// The scalar of a pattern.
    pub fn from_bits(bits: u64) -> (s: Scalar)
        ensures
            s.bits == bits,
    {
        Scalar { bits }
    }

    /// The pattern of a scalar.
    pub fn to_bits(self) -> (bits: u64)
        ensures
            bits == self.bits,
    {
        self.bits
    }

    /// Tells a NaN from a number.
    pub fn nan(self) -> (r: bool)
        ensures
            r == self.is_nan(),
    {
        (self.bits & MAGNITUDE_MASK) > INFINITY_BITS
    }

    /// The rank of a pattern, which fits in sixty-four bits with a sign.
    fn signed_rank(self) -> (k: i64)
        ensures
            k == self.rank(),
    {
        let m: u64 = self.bits & MAGNITUDE_MASK;
        proof {
            lemma_sign_and_magnitude(self.bits);
        }
        if self.bits & SIGN_BIT != 0 {
            -(m as i64)
        } else {
            m as i64
        }
    }

    /// Strictly less, false whenever a NaN takes part.
    pub fn lt(self, other: Scalar) -> (r: bool)
        ensures
            r == self.lt_spec(other),
    {
        if self.nan() || other.nan() {
            return false;
        }
        proof {
            lemma_rank_orders(self, other);
        }
        self.signed_rank() < other.signed_rank()
    }

    /// Less or equal, false whenever a NaN takes part.
    pub fn le(self, other: Scalar) -> (r: bool)
        ensures
            r == self.le_spec(other),
    {
        if self.nan() || other.nan() {
            return false;
        }
        proof {
            lemma_rank_orders(self, other);
        }
        self.signed_rank() <= other.signed_rank()
    }

    /// Strictly greater, false whenever a NaN takes part.
    pub fn gt(self, other: Scalar) -> (r: bool)
        ensures
            r == other.lt_spec(self),
    {
        other.lt(self)
    }

    /// The same magnitude under the opposite sign. A NaN stays a NaN.
    pub fn neg(self) -> (r: Scalar)
        ensures
            r == self.neg_spec(),
            r@ == -self@,
            r.is_nan() == self.is_nan(),
            r.is_negative() == !self.is_negative(),
    {
        proof {
            lemma_neg(self);
        }
        Scalar { bits: self.bits ^ SIGN_BIT }
    }

    /// The same magnitude under a cleared sign. A NaN stays a NaN.
    pub fn abs(self) -> (r: Scalar)
        ensures
            r == self.abs_spec(),
            r@ == if self@ < 0 { -self@ } else { self@ },
            r.is_nan() == self.is_nan(),
            !r.is_negative(),
    {
        proof {
            lemma_abs(self);
        }
        Scalar { bits: self.bits & MAGNITUDE_MASK }
    }

    /// The smaller of two numbers. Where one of the two is a NaN the other is
    /// returned, and `self` where the two compare equal.
    pub fn min(self, other: Scalar) -> (r: Scalar)
        ensures
            r == self.min_spec(other),
            self.is_number() && other.is_number() ==> r@ <= self@ && r@ <= other@,
    {
        if self.nan() {
            other
        } else if other.lt(self) {
            other
        } else {
            self
        }
    }

    /// `self` brought into the range from `low` to `high`. A NaN stays as it is.
    pub fn clamp(self, low: Scalar, high: Scalar) -> (r: Scalar)
        requires
            low.le_spec(high),
        ensures
            r == self.clamp_spec(low, high),
            self.is_number() ==> low@ <= r@ <= high@,
    {
        if self.lt(low) {
            low
        } else if high.lt(self) {
            high
        } else {
            self
        }
    }

    /// The whole part of a number below `cap + 1 == 2^width`, and `cap` from
    /// there on.
    fn whole_up_to(self, cap: u64, width: u64) -> (r: u64)
        requires
            1 <= width <= 32,
            cap + 1 == pow2(width as nat),
        ensures
            r == if self.whole() < cap { self.whole() } else { cap as nat },
    {
        let bits: u64 = self.bits;
        if (bits & MAGNITUDE_MASK) > INFINITY_BITS || bits & SIGN_BIT != 0 {
            return 0;
        }
        let exponent: u64 = bits >> 52;
        let fraction: u64 = bits & FRACTION_MASK;
        proof {
            lemma_sign_and_magnitude(bits);
            lemma_fields(bits);
            lemma_whole(bits, width as nat);
        }
        if exponent < EXPONENT_OF_ONE {
            0
        } else if exponent >= EXPONENT_OF_ONE + width {
            cap
        } else {
            (HIDDEN_BIT + fraction) >> (1075 - exponent)
        }
    }

    /// The number as eight bits: truncated toward zero, 255 for everything
    /// from 255 up, and zero for negative numbers and for a NaN.
    pub fn to_u8(self) -> (r: u8)
        ensures
            r == if self.whole() < 255 { self.whole() } else { 255 },
    {
        proof {
            lemma2_to64();
        }
        self.whole_up_to(255, 8) as u8
    }

    /// The number as thirty-two bits: truncated toward zero, `u32::MAX` for
    /// everything from there up, and zero for negative numbers and for a NaN.
    pub fn to_u32(self) -> (r: u32)
        ensures
            r == if self.whole() < u32::MAX { self.whole() } else { u32::MAX as nat },
    {
        proof {
            lemma2_to64();
        }
        self.whole_up_to(0xFFFF_FFFF, 32) as u32
    }

    /// The binary64 number `magnitude * 2^(top - 1075)`, negated where
    /// `negative` is set. Every such number is a binary64 number, so nothing
    /// is rounded.
    pub fn scaled(magnitude: u64, negative: bool, top: u64) -> (r: Scalar)
        requires
            magnitude <= HIDDEN_BIT || (magnitude < 2 * HIDDEN_BIT && !negative),
            negative ==> magnitude > 0,
            1022 <= top <= 1075,
        ensures
            r.is_number(),
            r.is_negative() == negative,
            r@ == if negative {
                -(magnitude * pow2((top - 1) as nat))
            } else {
                magnitude * pow2((top - 1) as nat)
            },
    {
        if magnitude == 0 {
            let zero = Scalar::zero();
            proof {
                assert(magnitude * pow2((top - 1) as nat) == 0) by (nonlinear_arith)
                    requires
                        magnitude == 0,
                ;
            }
            return zero;
        }
        let mut sig: u64 = magnitude;
        let mut exponent: u64 = top;
        proof {
            lemma2_to64();
        }
        while sig < HIDDEN_BIT
            invariant
                0 < sig < 2 * HIDDEN_BIT,
                1 <= exponent <= top,
                1022 <= top <= 1075,
                sig >= pow2((top - exponent) as nat),
                sig * pow2((exponent - 1) as nat) == magnitude * pow2((top - 1) as nat),
            decreases exponent,
        {
            proof {
                if exponent <= 900 {
                    let low = (top - exponent) as nat;
                    lemma2_to64_rest();
                    lemma_pow2_strictly_increases(52, low);
                    assert(false);
                }
                lemma_pow2_unfold((exponent - 1) as nat);
                lemma_pow2_unfold((top - exponent + 1) as nat);
                let half = pow2((exponent - 2) as nat);
                assert((sig * 2) * half == sig * (2 * half)) by (nonlinear_arith);
            }
            sig = sig * 2;
            exponent = exponent - 1;
        }
        let fraction: u64 = sig - HIDDEN_BIT;
        let magnitude_bits: u64 = exponent * HIDDEN_BIT + fraction;
        let bits: u64 = if negative {
            magnitude_bits | SIGN_BIT
        } else {
            magnitude_bits
        };
        proof {
            lemma_packed(magnitude_bits, exponent, fraction);
            lemma_sign_and_magnitude(magnitude_bits);
            assert(weight(magnitude_bits) == sig * pow2((exponent - 1) as nat));
        }
        Scalar { bits }
    }

    /// The whole number `n` as a scalar. Every whole number of thirty-two
    /// bits is a binary64 number, so nothing is rounded.
    pub fn from_u32(n: u32) -> (r: Scalar)
        ensures
            r == Self::of_whole(n as nat),
            r.is_number(),
            !r.is_negative(),
            r@ == n * pow2(1074),
    {
        let r = Self::scaled(n as u64, false, 1075);
        proof {
            lemma_of_whole(n as nat, r);
        }
        r
    }

    /// The number zero, with a clear sign.
    pub fn zero() -> (r: Scalar)
        ensures
            r.bits == 0,
            r@ == 0,
            r.is_number(),
            !r.is_negative(),
    {
        proof {
            lemma_zero();
        }
        Scalar { bits: 0 }
    }

    /// The number one.
    pub fn one() -> (r: Scalar)
        ensures
            r.bits == ONE_BITS,
            r@ == pow2(1074),
            r@ > 0,
            r.is_number(),
            !r.is_negative(),
    {
        proof {
            lemma_one();
        }
        Scalar { bits: ONE_BITS }
    }

    /// Positive infinity, above every finite number.
    pub fn infinity() -> (r: Scalar)
        ensures
            r.bits == INFINITY_BITS,
            r.is_number(),
            !r.is_negative(),
    {
        proof {
            lemma_sign_and_magnitude(INFINITY_BITS);
        }
        Scalar { bits: INFINITY_BITS }
    }

    /// Negative infinity, below every finite number.
    pub fn neg_infinity() -> (r: Scalar)
        ensures
            r.bits == INFINITY_BITS | SIGN_BIT,
            r.is_number(),
            r.is_negative(),
    {
        proof {
            lemma_sign_and_magnitude(INFINITY_BITS);
        }
        Scalar { bits: INFINITY_BITS | SIGN_BIT }
    }
}

/// How the sign bit and the magnitude of a pattern come apart and go
/// together.
pub proof fn lemma_sign_and_magnitude(x: u64)
    ensures
        (x & MAGNITUDE_MASK) <= MAGNITUDE_MASK,
        (x & MAGNITUDE_MASK) & MAGNITUDE_MASK == x & MAGNITUDE_MASK,
        (x & MAGNITUDE_MASK) & SIGN_BIT == 0,
        (x ^ SIGN_BIT) & MAGNITUDE_MASK == x & MAGNITUDE_MASK,
        ((x ^ SIGN_BIT) & SIGN_BIT != 0) == (x & SIGN_BIT == 0),
        x & SIGN_BIT == 0 <==> x <= MAGNITUDE_MASK,
        x <= MAGNITUDE_MASK ==> {
            &&& x & MAGNITUDE_MASK == x
            &&& (x | SIGN_BIT) & MAGNITUDE_MASK == x
            &&& (x | SIGN_BIT) & SIGN_BIT != 0
        },
{
    assert((x & 0x7FFF_FFFF_FFFF_FFFFu64) <= 0x7FFF_FFFF_FFFF_FFFFu64 && (x
        & 0x7FFF_FFFF_FFFF_FFFFu64) & 0x7FFF_FFFF_FFFF_FFFFu64 == x & 0x7FFF_FFFF_FFFF_FFFFu64 && (x
        & 0x7FFF_FFFF_FFFF_FFFFu64) & 0x8000_0000_0000_0000u64 == 0 && (x
        ^ 0x8000_0000_0000_0000u64) & 0x7FFF_FFFF_FFFF_FFFFu64 == x & 0x7FFF_FFFF_FFFF_FFFFu64 && (((x
        ^ 0x8000_0000_0000_0000u64) & 0x8000_0000_0000_0000u64 != 0) == (x
        & 0x8000_0000_0000_0000u64 == 0)) && ((x & 0x8000_0000_0000_0000u64 == 0) == (x
        <= 0x7FFF_FFFF_FFFF_FFFFu64)) && (x <= 0x7FFF_FFFF_FFFF_FFFFu64 ==> x
        & 0x7FFF_FFFF_FFFF_FFFFu64 == x && (x | 0x8000_0000_0000_0000u64)
        & 0x7FFF_FFFF_FFFF_FFFFu64 == x && (x | 0x8000_0000_0000_0000u64)
        & 0x8000_0000_0000_0000u64 != 0)) by (bit_vector);
}

/// A magnitude pattern splits into its exponent and fraction fields.
pub proof fn lemma_fields(m: u64)
    requires
        m <= MAGNITUDE_MASK,
    ensures
        m == (m >> 52) * HIDDEN_BIT + (m & FRACTION_MASK),
        (m & FRACTION_MASK) < HIDDEN_BIT,
        (m >> 52) <= 0x7FF,
{
    assert(m == (m >> 52) * 0x0010_0000_0000_0000u64 + (m & 0x000F_FFFF_FFFF_FFFFu64) && (m
        & 0x000F_FFFF_FFFF_FFFFu64) < 0x0010_0000_0000_0000u64 && (m >> 52) <= 0x7FF)
        by (bit_vector)
        requires
            m <= 0x7FFF_FFFF_FFFF_FFFFu64,
    ;
}

/// The fields of the magnitude pattern that holds the exponent `e` and the
/// fraction `f`.
pub proof fn lemma_packed(m: u64, e: u64, f: u64)
    requires
        m == e * HIDDEN_BIT + f,
        e <= 0x7FF,
        f < HIDDEN_BIT,
    ensures
        m <= MAGNITUDE_MASK,
        m >> 52 == e,
        m & FRACTION_MASK == f,
{
    lemma_fields(m);
}

/// The weight of a pattern lies in the binade that its exponent field names.
proof fn lemma_weight_bounds(m: u64)
    requires
        m <= MAGNITUDE_MASK,
    ensures
        weight(m) < HIDDEN_BIT * pow2((m >> 52) as nat),
        m >> 52 > 0 ==> weight(m) >= HIDDEN_BIT * pow2(((m >> 52) - 1) as nat),
{
    lemma_fields(m);
    let e = (m >> 52) as nat;
    let f = (m & FRACTION_MASK) as int;
    if e == 0 {
        lemma2_to64();
    } else {
        let p = pow2((e - 1) as nat) as int;
        lemma_pow2_pos((e - 1) as nat);
        lemma_pow2_unfold(e);
        assert(pow2(e) == 2 * p);
        assert((HIDDEN_BIT + f) * p < HIDDEN_BIT * (2 * p)) by (nonlinear_arith)
            requires
                0 <= f < HIDDEN_BIT,
                p > 0,
        ;
        assert((HIDDEN_BIT + f) * p >= HIDDEN_BIT * p) by (nonlinear_arith)
            requires
                0 <= f,
                p > 0,
        ;
    }
}

/// A larger magnitude pattern has a larger weight.
proof fn lemma_weight_increases(a: u64, b: u64)
    requires
        a < b <= MAGNITUDE_MASK,
    ensures
        weight(a) < weight(b),
{
    lemma_fields(a);
    lemma_fields(b);
    let ea = (a >> 52) as nat;
    let eb = (b >> 52) as nat;
    let fa = (a & FRACTION_MASK) as int;
    let fb = (b & FRACTION_MASK) as int;
    if ea == eb {
        if ea > 0 {
            let p = pow2((ea - 1) as nat) as int;
            lemma_pow2_pos((ea - 1) as nat);
            assert((HIDDEN_BIT + fa) * p < (HIDDEN_BIT + fb) * p) by (nonlinear_arith)
                requires
                    fa < fb,
                    p > 0,
            ;
        }
    } else {
        lemma_weight_bounds(a);
        lemma_weight_bounds(b);
        let pa = pow2(ea) as int;
        let pb = pow2((eb - 1) as nat) as int;
        if ea < eb - 1 {
            lemma_pow2_strictly_increases(ea, (eb - 1) as nat);
        }
        assert(HIDDEN_BIT * pa <= HIDDEN_BIT * pb) by (nonlinear_arith)
            requires
                pa <= pb,
        ;
    }
}

/// Magnitude patterns and their weights stand in the same order.
pub proof fn lemma_weight_orders(a: u64, b: u64)
    requires
        a <= MAGNITUDE_MASK,
        b <= MAGNITUDE_MASK,
    ensures
        a < b <==> weight(a) < weight(b),
        a == b <==> weight(a) == weight(b),
{
    if a < b {
        lemma_weight_increases(a, b);
    } else if b < a {
        lemma_weight_increases(b, a);
    }
}

/// Ranks and values stand in the same order.
pub proof fn lemma_rank_orders(a: Scalar, b: Scalar)
    ensures
        a.rank() < b.rank() <==> a@ < b@,
        a.rank() == b.rank() <==> a@ == b@,
{
    lemma_sign_and_magnitude(a.bits);
    lemma_sign_and_magnitude(b.bits);
    lemma_zero();
    lemma_weight_orders(a.magnitude_bits(), b.magnitude_bits());
    lemma_weight_orders(a.magnitude_bits(), 0);
    lemma_weight_orders(b.magnitude_bits(), 0);
}

/// A number with a clear sign is the only such number of its value.
pub proof fn lemma_positive_value_is_one_pattern(a: Scalar, b: Scalar)
    requires
        !a.is_negative(),
        !b.is_negative(),
        a@ == b@,
    ensures
        a == b,
{
    lemma_sign_and_magnitude(a.bits);
    lemma_sign_and_magnitude(b.bits);
    lemma_weight_orders(a.bits, b.bits);
}

/// The scalar with a clear sign of the value of a whole number is the scalar
/// of that whole number.
pub proof fn lemma_of_whole(n: nat, r: Scalar)
    requires
        r.is_number(),
        !r.is_negative(),
        r@ == n * pow2(1074),
    ensures
        r == Scalar::of_whole(n),
{
    lemma_positive_value_is_one_pattern(r, Scalar::of_whole(n));
}

/// A pattern with a clear sign is its own magnitude, stands at its own rank
/// and has its weight for its value.
pub proof fn lemma_positive(bits: u64)
    requires
        bits <= MAGNITUDE_MASK,
    ensures
        !(Scalar { bits }).is_negative(),
        (Scalar { bits }).magnitude_bits() == bits,
        (Scalar { bits }).rank() == bits,
        (Scalar { bits })@ == weight(bits),
        (Scalar { bits }).is_number() <==> bits <= INFINITY_BITS,
{
    lemma_sign_and_magnitude(bits);
}

/// Flipping the sign bit negates the value and keeps the magnitude.
pub proof fn lemma_neg(a: Scalar)
    ensures
        a.neg_spec()@ == -a@,
        a.neg_spec().is_nan() == a.is_nan(),
        a.neg_spec().is_negative() == !a.is_negative(),
        a.neg_spec().magnitude_bits() == a.magnitude_bits(),
{
    lemma_sign_and_magnitude(a.bits);
}

/// Clearing the sign bit leaves the absolute value.
pub proof fn lemma_abs(a: Scalar)
    ensures
        a.abs_spec()@ == if a@ < 0 { -a@ } else { a@ },
        a.abs_spec().is_nan() == a.is_nan(),
        !a.abs_spec().is_negative(),
        a.abs_spec().magnitude_bits() == a.magnitude_bits(),
{
    lemma_sign_and_magnitude(a.bits);
}

/// The pattern of all zeros is the number zero.
pub proof fn lemma_zero()
    ensures
        weight(0) == 0,
        (Scalar { bits: 0 })@ == 0,
        (Scalar { bits: 0 }).is_number(),
        !(Scalar { bits: 0 }).is_negative(),
{
    lemma_sign_and_magnitude(0);
    lemma_packed(0, 0, 0);
}

/// The pattern of one is worth 2^1074 units of 2^-1074.
pub proof fn lemma_one()
    ensures
        weight(ONE_BITS) == pow2(1074),
        (Scalar { bits: ONE_BITS })@ == pow2(1074),
        (Scalar { bits: ONE_BITS })@ > 0,
        (Scalar { bits: ONE_BITS }).is_number(),
        !(Scalar { bits: ONE_BITS }).is_negative(),
{
    lemma_pow2_pos(1074);
    lemma_sign_and_magnitude(ONE_BITS);
    lemma_packed(ONE_BITS, 1023, 0);
    lemma2_to64_rest();
    lemma_pow2_adds(52, 1022);
}

/// Where the whole part of a positive pattern lies, by its exponent field:
/// zero below one, the shifted significand up to 2^width, and at least
/// 2^width from there on.
proof fn lemma_whole(m: u64, width: nat)
    requires
        m <= MAGNITUDE_MASK,
        1 <= width <= 32,
    ensures
        (m >> 52) < EXPONENT_OF_ONE ==> weight(m) / pow2(1074) == 0,
        (m >> 52) >= EXPONENT_OF_ONE + width ==> weight(m) / pow2(1074) >= pow2(width),
        EXPONENT_OF_ONE <= (m >> 52) < EXPONENT_OF_ONE + width ==> {
            &&& weight(m) / pow2(1074) == (HIDDEN_BIT + (m & FRACTION_MASK)) as u64 >> ((1075 - (m
                >> 52)) as u64)
            &&& weight(m) / pow2(1074) < pow2(width)
        },
{
    lemma_fields(m);
    lemma_weight_bounds(m);
    lemma2_to64_rest();
    let e = (m >> 52) as nat;
    let unit = pow2(1074) as int;
    lemma_pow2_pos(1074);
    if e < EXPONENT_OF_ONE {
        lemma_pow2_adds(52, 1022);
        if e < 1022 {
            lemma_pow2_strictly_increases(e, 1022);
        }
        assert(HIDDEN_BIT * pow2(e) <= HIDDEN_BIT * pow2(1022)) by (nonlinear_arith)
            requires
                pow2(e) <= pow2(1022),
        ;
        lemma_basic_div(weight(m) as int, unit);
    } else if e >= EXPONENT_OF_ONE + width {
        let low = (e - 1) as nat;
        lemma_pow2_adds(52, (1022 + width) as nat);
        lemma_pow2_adds(1074, width);
        if 1022 + width < low {
            lemma_pow2_strictly_increases((1022 + width) as nat, low);
        }
        assert(HIDDEN_BIT * pow2((1022 + width) as nat) <= HIDDEN_BIT * pow2(low))
            by (nonlinear_arith)
            requires
                pow2((1022 + width) as nat) <= pow2(low),
        ;
        lemma_pow2_pos(width);
        assert(pow2(1074) * pow2(width) == pow2(width) * pow2(1074)) by (nonlinear_arith);
        lemma_div_is_ordered(pow2(width) * unit, weight(m) as int, unit);
        lemma_div_by_multiple(pow2(width) as int, unit);
    } else {
        let low = (e - 1) as nat;
        let shift = (1075 - e) as nat;
        let sig = (HIDDEN_BIT + (m & FRACTION_MASK)) as u64;
        let p = pow2(low) as int;
        let q = pow2(shift) as int;
        lemma_pow2_pos(low);
        lemma_pow2_pos(shift);
        lemma_pow2_adds(low, shift);
        assert(weight(m) == sig * p);
        assert(sig * p == p * sig) by (nonlinear_arith);
        lemma_div_multiples_vanish_quotient(p, sig as int, q);
        lemma_u64_shr_is_div(sig, shift as u64);
        assert(sig >> ((1075 - (m >> 52)) as u64) == sig as nat / pow2(shift));
        let rest = (53 - shift) as nat;
        lemma_pow2_adds(shift, rest);
        lemma_pow2_adds(52, 1);
        lemma2_to64();
        assert(sig < pow2(53));
        lemma_multiply_divide_lt(sig as int, q, pow2(rest) as int);
        if rest < width {
            lemma_pow2_strictly_increases(rest, width);
        }
    }
}

/// A number from minus one up to one is finite.
pub proof fn lemma_small_is_finite(a: Scalar)
    requires
        a.is_number(),
        -pow2(1074) <= a@ <= pow2(1074),
    ensures
        a.is_finite(),
{
    lemma_sign_and_magnitude(a.bits);
    lemma_one();
    lemma_positive(ONE_BITS);
    lemma_weight_orders(a.magnitude_bits(), ONE_BITS);
}

} // verus!
