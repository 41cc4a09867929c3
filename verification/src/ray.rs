use crate::arithmetic::{is_function, Arithmetic};
use crate::scalar::Scalar;
use crate::vec3::{is_add, is_scale, lemma_add_is_one, lemma_scale_is_one, Vec3};
use vstd::prelude::*;

verus! {

/// A half-line: the points `origin + t * direction` for the parameters `t`
/// from zero on.
#[derive(Debug, Clone, Copy, PartialEq, Eq, Structural)]
pub struct Ray {
    pub origin: Vec3,
    pub direction: Vec3,
}

/// Whether `r` is the point of `ray` at the parameter `t`: the origin plus the
/// direction times `t`.
pub open spec fn is_at<A: Arithmetic>(arith: &A, ray: Ray, t: Scalar, r: Vec3) -> bool {
    exists|step: Vec3| #[trigger]
        is_scale(arith, ray.direction, t, step) && is_add(arith, ray.origin, step, r)
}

impl Ray {
    /// The ray from `origin` along `direction`.
    pub fn new(origin: Vec3, direction: Vec3) -> (ray: Ray)
        ensures
            ray == (Ray { origin, direction }),
    {
        Ray { origin, direction }
    }

    /// The point of the ray at the parameter `t`.
    pub fn at<A: Arithmetic>(&self, t: Scalar, arith: &A) -> (r: Vec3)
        ensures
            is_at(arith, *self, t, r),
    {
        let step = self.direction.scale(t, arith);
        let r = self.origin.add(step, arith);
        proof {
            assert(is_scale(arith, self.direction, t, step));
        }
        r
    }
}

/// In an arithmetic that is a function a ray has one point at a parameter.
pub proof fn lemma_at_is_one<A: Arithmetic>(arith: &A, ray: Ray, t: Scalar, r: Vec3, r2: Vec3)
    requires
        is_function(arith),
        is_at(arith, ray, t, r),
        is_at(arith, ray, t, r2),
    ensures
        r == r2,
{
    let step = choose|step: Vec3| #[trigger]
        is_scale(arith, ray.direction, t, step) && is_add(arith, ray.origin, step, r);
    let step2 = choose|step: Vec3| #[trigger]
        is_scale(arith, ray.direction, t, step) && is_add(arith, ray.origin, step, r2);
    lemma_scale_is_one(arith, ray.direction, t, step, step2);
    lemma_add_is_one(arith, ray.origin, step, r, r2);
}

} // verus!
