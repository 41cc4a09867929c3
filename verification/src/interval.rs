use crate::arithmetic::{is_difference, Arithmetic};
use crate::scalar::{
    lemma_sign_and_magnitude, lemma_weight_orders, lemma_zero, Scalar, INFINITY_BITS, SIGN_BIT,
};
use vstd::prelude::*;

verus! {

/// A range of ray parameters between two bounds.
#[derive(Debug, Clone, Copy, PartialEq, Eq, Structural)]
pub struct Interval {
    pub min: Scalar,
    pub max: Scalar,
}

impl Interval {
    /// Whether `t` lies in the range, the bounds included.
    pub open spec fn contains_spec(self, t: Scalar) -> bool {
        self.min.le_spec(t) && t.le_spec(self.max)
    }

    /// Whether `t` lies strictly inside the range.
    pub open spec fn surrounds_spec(self, t: Scalar) -> bool {
        self.min.lt_spec(t) && t.lt_spec(self.max)
    }

    /// The range between two bounds.
    pub fn new(min: Scalar, max: Scalar) -> (i: Interval)
        ensures
            i == (Interval { min, max }),
    {
        Interval { min, max }
    }

    /// The range that holds nothing: from plus infinity down to minus infinity.
    pub fn empty() -> (i: Interval)
        ensures
            i.min.bits == INFINITY_BITS,
            i.max.bits == INFINITY_BITS | SIGN_BIT,
            forall|t: Scalar| !i.contains_spec(t),
    {
        let i = Interval { min: Scalar::infinity(), max: Scalar::neg_infinity() };
        assert forall|t: Scalar| !i.contains_spec(t) by {
            lemma_between_infinities(t);
        }
        i
    }

    /// The range that holds every number: from minus infinity up to plus
    /// infinity.
    pub fn universe() -> (i: Interval)
        ensures
            i.min.bits == INFINITY_BITS | SIGN_BIT,
            i.max.bits == INFINITY_BITS,
            forall|t: Scalar| t.is_number() ==> i.contains_spec(t),
    {
        let i = Interval { min: Scalar::neg_infinity(), max: Scalar::infinity() };
        assert forall|t: Scalar| t.is_number() implies i.contains_spec(t) by {
            lemma_between_infinities(t);
        }
        i
    }

    /// The length of the range: its upper bound less its lower bound.
    pub fn size<A: Arithmetic>(&self, arith: &A) -> (r: Scalar)
        ensures
            is_difference(arith, self.max, self.min, r),
    {
        arith.sub(self.max, self.min)
    }

    /// Whether `t` lies in the range, the bounds included. A NaN lies in none.
    pub fn contains(&self, t: Scalar) -> (r: bool)
        ensures
            r == self.contains_spec(t),
    {
        self.min.le(t) && t.le(self.max)
    }

    /// Whether `t` lies strictly inside the range. A NaN lies in none.
    pub fn surrounds(&self, t: Scalar) -> (r: bool)
        ensures
            r == self.surrounds_spec(t),
    {
        self.min.lt(t) && t.lt(self.max)
    }
}

/// Every number lies between the two infinities, which are numbers
/// themselves, the negative one below the positive one.
pub proof fn lemma_between_infinities(t: Scalar)
    ensures
        t.is_number() ==> (Scalar { bits: INFINITY_BITS | SIGN_BIT })@ <= t@ <= (Scalar {
            bits: INFINITY_BITS,
        })@,
        (Scalar { bits: INFINITY_BITS | SIGN_BIT })@ < (Scalar { bits: INFINITY_BITS })@,
        (Scalar { bits: INFINITY_BITS }).is_number(),
        (Scalar { bits: INFINITY_BITS | SIGN_BIT }).is_number(),
{
    lemma_sign_and_magnitude(INFINITY_BITS);
    lemma_sign_and_magnitude(t.bits);
    lemma_zero();
    lemma_weight_orders(t.magnitude_bits(), INFINITY_BITS);
    lemma_weight_orders(0, INFINITY_BITS);
}

} // verus!
