//! A stochastic ray tracer for scenes of spheres, verified.
//!
//! The crate turns a scene and a camera into the pixels of an image: it sends
//! rays through every pixel, follows each from surface to surface as the
//! materials scatter it, and encodes the light that comes back.
//!
//! Numbers are IEEE 754 binary64 numbers, which the crate holds as bit
//! patterns ([`scalar::Scalar`]). What is exact in IEEE 754 the crate does
//! itself and proves of the values: comparing, negating, choosing, truncating
//! to integers, and turning drawn bits into numbers. What rounds it leaves to
//! an [`arithmetic::Arithmetic`] that the caller hands in, and states every
//! result in terms of what that arithmetic returned: each contract spells
//! out the formula that was computed, operation by operation, and holds for
//! every arithmetic there is.
//!
//! Shapes are what implements [`scene::Hittable`], as [`sphere::Sphere`]
//! does. Random numbers come from the generator of the `rand` crate. The two
//! loops of rejection sampling, which end with probability one only, are left
//! to the caller: the crate has their rounds and asks for their results
//! through closures.
use vstd::prelude::*;

pub mod arithmetic;
pub mod camera;
pub mod canvas;
pub mod color;
pub mod interval;
pub mod material;
pub mod random;
pub mod ray;
pub mod scalar;
pub mod scene;
pub mod sphere;
pub mod tracer;
pub mod vec3;

verus! {

} // verus!
