use crate::scalar::{Scalar, ONE_BITS};
use vstd::prelude::*;

verus! {

/// The arithmetic of binary64 numbers that rounds.
///
/// The crate computes with whatever arithmetic it is handed and asks nothing
/// of it: what a function of the crate returns is stated in terms of what the
/// methods of the arithmetic returned to it, whatever that was. With the
/// operations of IEEE 754 behind the methods, the crate computes what the
/// formulas in its contracts say in binary64.
pub trait Arithmetic {
    /// `a + b`.
    fn add(&self, a: Scalar, b: Scalar) -> Scalar;

    /// `a - b`.
    fn sub(&self, a: Scalar, b: Scalar) -> Scalar;

    /// `a * b`.
    fn mul(&self, a: Scalar, b: Scalar) -> Scalar;

    /// `a / b`.
    fn div(&self, a: Scalar, b: Scalar) -> Scalar;

    /// The square root of `a`.
    fn sqrt(&self, a: Scalar) -> Scalar;

    /// The tangent of the angle `a`, in radians.
    fn tan(&self, a: Scalar) -> Scalar;
}

/// Whether `r` is what the arithmetic gave for `a + b`.
pub open spec fn is_sum<A: Arithmetic>(arith: &A, a: Scalar, b: Scalar, r: Scalar) -> bool {
    call_ensures(A::add, (arith, a, b), r)
}

/// Whether `r` is what the arithmetic gave for `a - b`.
pub open spec fn is_difference<A: Arithmetic>(arith: &A, a: Scalar, b: Scalar, r: Scalar) -> bool {
    call_ensures(A::sub, (arith, a, b), r)
}

/// Whether `r` is what the arithmetic gave for `a * b`.
pub open spec fn is_product<A: Arithmetic>(arith: &A, a: Scalar, b: Scalar, r: Scalar) -> bool {
    call_ensures(A::mul, (arith, a, b), r)
}

/// Whether `r` is what the arithmetic gave for `a / b`.
pub open spec fn is_quotient<A: Arithmetic>(arith: &A, a: Scalar, b: Scalar, r: Scalar) -> bool {
    call_ensures(A::div, (arith, a, b), r)
}

/// Whether `r` is what the arithmetic gave for the square root of `a`.
pub open spec fn is_root<A: Arithmetic>(arith: &A, a: Scalar, r: Scalar) -> bool {
    call_ensures(A::sqrt, (arith, a), r)
}

/// Whether `r` is what the arithmetic gave for the tangent of `a`.
pub open spec fn is_tangent<A: Arithmetic>(arith: &A, a: Scalar, r: Scalar) -> bool {
    call_ensures(A::tan, (arith, a), r)
}

/// Whether the arithmetic is a function: every operation has one result for
/// given operands, as those of IEEE 754 have on one machine.
pub open spec fn is_function<A: Arithmetic>(arith: &A) -> bool {
    &&& forall|a: Scalar, b: Scalar, r: Scalar, r2: Scalar|
        #![trigger is_sum(arith, a, b, r), is_sum(arith, a, b, r2)]
        is_sum(arith, a, b, r) && is_sum(arith, a, b, r2) ==> r == r2
    &&& forall|a: Scalar, b: Scalar, r: Scalar, r2: Scalar|
        #![trigger is_difference(arith, a, b, r), is_difference(arith, a, b, r2)]
        is_difference(arith, a, b, r) && is_difference(arith, a, b, r2) ==> r == r2
    &&& forall|a: Scalar, b: Scalar, r: Scalar, r2: Scalar|
        #![trigger is_product(arith, a, b, r), is_product(arith, a, b, r2)]
        is_product(arith, a, b, r) && is_product(arith, a, b, r2) ==> r == r2
    &&& forall|a: Scalar, b: Scalar, r: Scalar, r2: Scalar|
        #![trigger is_quotient(arith, a, b, r), is_quotient(arith, a, b, r2)]
        is_quotient(arith, a, b, r) && is_quotient(arith, a, b, r2) ==> r == r2
    &&& forall|a: Scalar, r: Scalar, r2: Scalar|
        #![trigger is_root(arith, a, r), is_root(arith, a, r2)]
        is_root(arith, a, r) && is_root(arith, a, r2) ==> r == r2
    &&& forall|a: Scalar, r: Scalar, r2: Scalar|
        #![trigger is_tangent(arith, a, r), is_tangent(arith, a, r2)]
        is_tangent(arith, a, r) && is_tangent(arith, a, r2) ==> r == r2
}

/// Whether two scalars stand for the same value: the same number, the two
/// zeros being one, or a NaN each.
pub open spec fn same(a: Scalar, b: Scalar) -> bool {
    (a.is_nan() && b.is_nan()) || (a.is_number() && b.is_number() && a@ == b@)
}

/// Whether two scalars stand for opposite values: a number and the number
/// under the other sign, or a NaN each.
pub open spec fn opposite(a: Scalar, b: Scalar) -> bool {
    (a.is_nan() && b.is_nan()) || (a.is_number() && b.is_number() && a@ == -b@)
}

/// Whether the sums and products of the arithmetic treat the two signs
/// alike, as those of IEEE 754 do: a sum and a product go by the values of
/// their operands, a product whatever the order of its factors; a product
/// turns into its opposite with one of its factors, and a sum with both of
/// its summands.
pub open spec fn is_even_handed<A: Arithmetic>(arith: &A) -> bool {
    &&& forall|a: Scalar, b: Scalar, r: Scalar, a2: Scalar, b2: Scalar, r2: Scalar|
        #![trigger is_product(arith, a, b, r), is_product(arith, a2, b2, r2)]
        is_product(arith, a, b, r) && is_product(arith, a2, b2, r2) && ((same(a, a2) && same(
            b,
            b2,
        )) || (same(a, b2) && same(b, a2))) ==> same(r, r2)
    &&& forall|a: Scalar, b: Scalar, r: Scalar, a2: Scalar, b2: Scalar, r2: Scalar|
        #![trigger is_product(arith, a, b, r), is_product(arith, a2, b2, r2)]
        is_product(arith, a, b, r) && is_product(arith, a2, b2, r2) && ((same(a, a2) && opposite(
            b,
            b2,
        )) || (same(a, b2) && opposite(b, a2)) || (opposite(a, a2) && same(b, b2)) || (opposite(
            a,
            b2,
        ) && same(b, a2))) ==> opposite(r, r2)
    &&& forall|a: Scalar, b: Scalar, r: Scalar, a2: Scalar, b2: Scalar, r2: Scalar|
        #![trigger is_sum(arith, a, b, r), is_sum(arith, a2, b2, r2)]
        is_sum(arith, a, b, r) && is_sum(arith, a2, b2, r2) && same(a, a2) && same(b, b2) ==> same(
            r,
            r2,
        )
    &&& forall|a: Scalar, b: Scalar, r: Scalar, a2: Scalar, b2: Scalar, r2: Scalar|
        #![trigger is_sum(arith, a, b, r), is_sum(arith, a2, b2, r2)]
        is_sum(arith, a, b, r) && is_sum(arith, a2, b2, r2) && opposite(a, a2) && opposite(b, b2)
            ==> opposite(r, r2)
}

/// Whether zero behaves in the arithmetic as it does in IEEE 754: a finite
/// number times zero is zero, and a number plus zero is that number.
pub open spec fn has_zero<A: Arithmetic>(arith: &A) -> bool {
    &&& forall|a: Scalar, z: Scalar, r: Scalar| #[trigger]
        is_product(arith, a, z, r) && a.is_finite() && z.is_number() && z@ == 0 ==> r.is_number()
            && r@ == 0
    &&& forall|a: Scalar, z: Scalar, r: Scalar| #[trigger]
        is_sum(arith, a, z, r) && z.is_number() && z@ == 0 ==> same(r, a)
}

/// Whether one behaves in the arithmetic as it does in IEEE 754: a product
/// with one and a quotient by one are the other operand, a product with minus
/// one is its opposite, and the square root of one is one.
pub open spec fn has_one<A: Arithmetic>(arith: &A) -> bool {
    let one = Scalar { bits: ONE_BITS };
    &&& forall|a: Scalar, b: Scalar, r: Scalar| #[trigger]
        is_product(arith, a, b, r) && same(b, one) ==> same(r, a)
    &&& forall|a: Scalar, b: Scalar, r: Scalar| #[trigger]
        is_product(arith, a, b, r) && same(a, one) ==> same(r, b)
    &&& forall|a: Scalar, b: Scalar, r: Scalar| #[trigger]
        is_product(arith, a, b, r) && opposite(b, one) ==> opposite(r, a)
    &&& forall|a: Scalar, b: Scalar, r: Scalar| #[trigger]
        is_quotient(arith, a, b, r) && same(b, one) ==> same(r, a)
    &&& forall|a: Scalar, r: Scalar| #[trigger] is_root(arith, a, r) && same(a, one) ==> same(r, one)
}

/// Whether the arithmetic is exact about zero as IEEE 754 is: a finite number
/// less itself, and plus its opposite, is zero; a number less zero, and zero
/// plus a number, is that number; zero over a number other than zero is zero,
/// and so is the square root of zero; and the sum of two numbers above zero
/// lies above zero.
pub open spec fn has_exact_zero<A: Arithmetic>(arith: &A) -> bool {
    let zero = Scalar { bits: 0 };
    &&& forall|a: Scalar, b: Scalar, r: Scalar| #[trigger]
        is_difference(arith, a, b, r) && a.is_finite() && same(a, b) ==> same(r, zero)
    &&& forall|a: Scalar, b: Scalar, r: Scalar| #[trigger]
        is_difference(arith, a, b, r) && same(b, zero) ==> same(r, a)
    &&& forall|a: Scalar, b: Scalar, r: Scalar| #[trigger]
        is_sum(arith, a, b, r) && a.is_finite() && opposite(a, b) ==> same(r, zero)
    &&& forall|a: Scalar, b: Scalar, r: Scalar| #[trigger]
        is_sum(arith, a, b, r) && same(a, zero) ==> same(r, b)
    &&& forall|a: Scalar, b: Scalar, r: Scalar| #[trigger]
        is_sum(arith, a, b, r) && zero.lt_spec(a) && zero.lt_spec(b) ==> zero.lt_spec(r)
    &&& forall|a: Scalar, b: Scalar, r: Scalar| #[trigger]
        is_quotient(arith, a, b, r) && same(a, zero) && (zero.lt_spec(b) || b.lt_spec(zero))
            ==> same(r, zero)
    &&& forall|a: Scalar, r: Scalar| #[trigger]
        is_root(arith, a, r) && same(a, zero) ==> same(r, zero)
}

} // verus!
