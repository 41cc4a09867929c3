use crate::arithmetic::Arithmetic;
use crate::scalar::{lemma_one, lemma_zero, Scalar, HIDDEN_BIT, ONE_BITS};
use crate::vec3::{is_in_range, Vec3};
use vstd::arithmetic::power2::{lemma2_to64_rest, lemma_pow2_adds, lemma_pow2_pos, pow2};
use vstd::prelude::*;

verus! {

/// `rand::random::<u64>()`: sixty-four bits from the generator of the calling
/// thread. Nothing is claimed of them.
#[verifier::external_body]
fn random_bits() -> u64 {
    rand::random::<u64>()
}

/// Whether a scalar is a number from zero up to one, one excluded.
pub open spec fn in_unit_interval(r: Scalar) -> bool {
    r.is_number() && 0 <= r@ < pow2(1074)
}

/// Whether a scalar is a number from minus a half up to a half, the half
/// excluded.
pub open spec fn in_centered_interval(r: Scalar) -> bool {
    r.is_number() && -pow2(1073) <= r@ < pow2(1073)
}

/// Whether a scalar is a number from minus one up to one, one excluded.
pub open spec fn in_signed_interval(r: Scalar) -> bool {
    r.is_number() && -pow2(1074) <= r@ < pow2(1074)
}

/// The upper fifty-three of sixty-four drawn bits, read as an integer.
pub open spec fn upper(draw: u64) -> int {
    (draw >> 11) as int
}

/// The number from zero up to one that sixty-four drawn bits stand for, in
/// units of 2^-1074: their upper fifty-three bits over 2^53.
pub open spec fn unit_value(draw: u64) -> int {
    upper(draw) * pow2(1021)
}

/// The number from minus a half up to a half that sixty-four drawn bits stand
/// for, in units of 2^-1074: their unit value less a half.
pub open spec fn centered_value(draw: u64) -> int {
    (upper(draw) - HIDDEN_BIT) * pow2(1021)
}

/// The number from minus one up to one that sixty-four drawn bits stand for,
/// in units of 2^-1074: twice their unit value less one.
pub open spec fn signed_value(draw: u64) -> int {
    (upper(draw) - HIDDEN_BIT) * pow2(1022)
}

/// Turns sixty-four drawn bits into a number from zero up to one, one
/// excluded: the upper fifty-three bits, read as an integer, over 2^53. Bits
/// drawn evenly give numbers spread evenly.
pub fn unit(draw: u64) -> (r: Scalar)
    ensures
        r@ == unit_value(draw),
        !r.is_negative(),
        in_unit_interval(r),
{
    let m: u64 = draw >> 11;
    proof {
        lemma_upper(draw);
        lemma_span(m as int, 1021);
    }
    Scalar::scaled(m, false, 1022)
}

/// Turns sixty-four drawn bits into a number from minus a half up to a half,
/// the half excluded: what `unit` makes of them, less a half.
pub fn centered(draw: u64) -> (r: Scalar)
    ensures
        r@ == centered_value(draw),
        in_centered_interval(r),
{
    let m: u64 = draw >> 11;
    proof {
        lemma_upper(draw);
        lemma_span(m as int, 1021);
    }
    if m >= HIDDEN_BIT {
        Scalar::scaled(m - HIDDEN_BIT, false, 1022)
    } else {
        Scalar::scaled(HIDDEN_BIT - m, true, 1022)
    }
}

/// Turns sixty-four drawn bits into a number from minus one up to one, one
/// excluded: twice what `unit` makes of them, less one.
pub fn signed(draw: u64) -> (r: Scalar)
    ensures
        r@ == signed_value(draw),
        in_signed_interval(r),
{
    let m: u64 = draw >> 11;
    proof {
        lemma_upper(draw);
        lemma_span(m as int, 1022);
    }
    if m >= HIDDEN_BIT {
        Scalar::scaled(m - HIDDEN_BIT, false, 1023)
    } else {
        Scalar::scaled(HIDDEN_BIT - m, true, 1023)
    }
}

/// A number drawn evenly from zero up to one, one excluded.
pub fn random() -> (r: Scalar)
    ensures
        in_unit_interval(r),
        !r.is_negative(),
        (Scalar { bits: 0 }).le_spec(r),
        r.lt_spec(Scalar { bits: ONE_BITS }),
{
    let r = unit(random_bits());
    proof {
        lemma_unit_interval_below_one(r);
    }
    r
}

/// A number drawn evenly from `min` up to `max`: a number drawn from zero up
/// to one, times `max - min`, plus `min`.
pub fn random_in_range<A: Arithmetic>(min: Scalar, max: Scalar, arith: &A) -> (r: Scalar)
    ensures
        exists|draw: Scalar| in_unit_interval(draw) && #[trigger] is_in_range(arith, min, max, draw, r),
{
    let draw = random();
    let r = Vec3::in_range(min, max, draw, arith);
    proof {
        assert(is_in_range(arith, min, max, draw, r));
    }
    r
}

/// A number drawn evenly from minus a half up to a half, the half excluded.
pub fn random_centered() -> (r: Scalar)
    ensures
        in_centered_interval(r),
{
    centered(random_bits())
}

/// A number drawn evenly from minus one up to one, one excluded.
pub fn random_signed() -> (r: Scalar)
    ensures
        in_signed_interval(r),
{
    signed(random_bits())
}

/// Fifty-three bits at the scale `2^low` span the range up to `2^(low + 53)`,
/// and the bits less 2^52 the range of half that width about zero.
proof fn lemma_span(m: int, low: nat)
    requires
        0 <= m < 2 * HIDDEN_BIT,
    ensures
        0 <= m * pow2(low) < pow2(low + 53),
        -pow2(low + 52) <= (m - HIDDEN_BIT) * pow2(low) < pow2(low + 52),
        (HIDDEN_BIT - m) * pow2(low) == -((m - HIDDEN_BIT) * pow2(low)),
{
    lemma2_to64_rest();
    lemma_pow2_pos(low);
    lemma_pow2_adds(low, 52);
    lemma_pow2_adds(low, 53);
    let p = pow2(low) as int;
    let h = HIDDEN_BIT as int;
    assert(pow2(53) == 2 * h);
    assert(0 <= m * p < p * (2 * h)) by (nonlinear_arith)
        requires
            0 <= m < 2 * h,
            p > 0,
    ;
    assert(-(p * h) <= (m - h) * p < p * h) by (nonlinear_arith)
        requires
            0 <= m < 2 * h,
            p > 0,
    ;
    assert((h - m) * p == -((m - h) * p)) by (nonlinear_arith);
}

/// The upper fifty-three bits of a draw stay below 2^53.
proof fn lemma_upper(draw: u64)
    ensures
        draw >> 11 < 2 * HIDDEN_BIT,
{
    assert(draw >> 11 < 0x0020_0000_0000_0000u64) by (bit_vector);
}

/// A number in the unit interval is at least zero and lies below one.
pub proof fn lemma_unit_interval_below_one(r: Scalar)
    requires
        in_unit_interval(r),
    ensures
        r.lt_spec(Scalar { bits: ONE_BITS }),
        (Scalar { bits: 0 }).le_spec(r),
{
    lemma_zero();
    lemma_one();
}

} // verus!
