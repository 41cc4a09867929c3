use crate::arithmetic::{
    is_difference, is_even_handed, is_function, is_product, is_quotient, is_root, is_sum,
    Arithmetic,
};
use crate::interval::Interval;
use crate::material::Material;
use crate::ray::{is_at, lemma_at_is_one, Ray};
use crate::scalar::Scalar;
use crate::scene::{
    answers_as_surfaces, closest, cut, is_closest, is_scan, lemma_normal_opposes_ray,
    lemma_record_is_one, lemma_scan_finds_closest, reach, HitRecord, Hittable,
};
use crate::vec3::{
    is_div, is_dot, is_length_squared, is_sub, lemma_add_is_one, lemma_div_is_one,
    lemma_dot_is_one, Vec3,
};
use std::sync::Arc;
use vstd::prelude::*;

verus! {

/// `Arc::clone`: one more handle to the same material.
#[verifier::external_body]
fn share(material: &Arc<Material>) -> (shared: Arc<Material>)
    ensures
        shared == *material,
{
    Arc::clone(material)
}

/// The root of an intersection quadratic at which the ray strikes: none where
/// the discriminant is below zero, else the near root where it lies strictly
/// inside the range, else the far root where that does, else none.
pub open spec fn nearest_root_spec(
    ray_t: Interval,
    discriminant: Scalar,
    near: Scalar,
    far: Scalar,
) -> Option<Scalar> {
    if discriminant.lt_spec(Scalar { bits: 0 }) {
        None
    } else if ray_t.surrounds_spec(near) {
        Some(near)
    } else if ray_t.surrounds_spec(far) {
        Some(far)
    } else {
        None
    }
}

/// A hit, kept only where it lies before `bound`.
pub open spec fn before(hit: Option<Scalar>, bound: Scalar) -> Option<Scalar> {
    match hit {
        Some(t) => if t.lt_spec(bound) {
            hit
        } else {
            None
        },
        None => None,
    }
}

/// A sphere: centre, radius and material. The radius is above zero.
pub struct Sphere {
    center: Vec3,
    radius: Scalar,
    material: Arc<Material>,
}

impl Sphere {
    #[verifier::type_invariant]
    spec fn positive_radius(self) -> bool {
        (Scalar { bits: 0 }).lt_spec(self.radius)
    }

    /// The centre of the sphere.
    pub closed spec fn center_spec(self) -> Vec3 {
        self.center
    }

    /// The radius of the sphere.
    pub closed spec fn radius_spec(self) -> Scalar {
        self.radius
    }

    /// The material of the sphere.
    pub closed spec fn material_spec(self) -> Arc<Material> {
        self.material
    }

    /// A sphere of the radius given, which is above zero.
    pub fn new(center: Vec3, radius: Scalar, material: Arc<Material>) -> (s: Sphere)
        requires
            (Scalar { bits: 0 }).lt_spec(radius),
        ensures
            s.center_spec() == center,
            s.radius_spec() == radius,
            s.material_spec() == material,
    {
        Sphere { center, radius, material }
    }

    /// The centre of the sphere.
    pub fn center(&self) -> (c: Vec3)
        ensures
            c == self.center_spec(),
    {
        self.center
    }

    /// The radius of the sphere, which is above zero.
    pub fn radius(&self) -> (r: Scalar)
        ensures
            r == self.radius_spec(),
            (Scalar { bits: 0 }).lt_spec(r),
    {
        proof {
            use_type_invariant(self);
        }
        self.radius
    }

    /// The material of the sphere.
    pub fn material(&self) -> (m: &Arc<Material>)
        ensures
            *m == self.material_spec(),
    {
        &self.material
    }

    /// Whether `a`, `h` and `discriminant` are the quadratic
    /// `|P(t) - C|^2 = r^2` of the ray and the sphere in its half-angle form:
    /// `a = |d|^2`, `h = d . (C - O)` and `h^2 - a c` with
    /// `c = |C - O|^2 - r^2`.
    pub open spec fn is_quadratic<A: Arithmetic>(
        self,
        arith: &A,
        ray: Ray,
        a: Scalar,
        h: Scalar,
        discriminant: Scalar,
    ) -> bool {
        exists|oc: Vec3, far_squared: Scalar, radius_squared: Scalar, c: Scalar, hh: Scalar, ac: Scalar|
            {
                &&& #[trigger] is_sub(arith, self.center_spec(), ray.origin, oc)
                &&& is_length_squared(arith, ray.direction, a)
                &&& is_dot(arith, ray.direction, oc, h)
                &&& #[trigger] is_length_squared(arith, oc, far_squared)
                &&& #[trigger] is_product(
                    arith,
                    self.radius_spec(),
                    self.radius_spec(),
                    radius_squared,
                )
                &&& #[trigger] is_difference(arith, far_squared, radius_squared, c)
                &&& #[trigger] is_product(arith, h, h, hh)
                &&& #[trigger] is_product(arith, a, c, ac)
                &&& is_difference(arith, hh, ac, discriminant)
            }
    }

    /// Whether `near` and `far` are the roots of the quadratic:
    /// `(h - sqrt(discriminant)) / a` and `(h + sqrt(discriminant)) / a`.
    pub open spec fn is_roots<A: Arithmetic>(
        arith: &A,
        a: Scalar,
        h: Scalar,
        discriminant: Scalar,
        near: Scalar,
        far: Scalar,
    ) -> bool {
        exists|sqrtd: Scalar, below: Scalar, above: Scalar|
            {
                &&& #[trigger] is_root(arith, discriminant, sqrtd)
                &&& #[trigger] is_difference(arith, h, sqrtd, below)
                &&& is_quotient(arith, below, a, near)
                &&& #[trigger] is_sum(arith, h, sqrtd, above)
                &&& is_quotient(arith, above, a, far)
            }
    }

    /// Whether `rec` is the record of the ray meeting the sphere at the
    /// parameter `t`: at the point of the ray there, with the normal
    /// `(P - C) / r` turned against the ray, and with the material of the
    /// sphere.
    pub open spec fn is_contact<A: Arithmetic>(
        self,
        arith: &A,
        ray: Ray,
        t: Scalar,
        rec: HitRecord,
    ) -> bool {
        exists|p: Vec3, offset: Vec3, normal: Vec3|
            {
                &&& #[trigger] is_at(arith, ray, t, p)
                &&& #[trigger] is_sub(arith, p, self.center_spec(), offset)
                &&& #[trigger] is_div(arith, offset, self.radius_spec(), normal)
                &&& HitRecord::is_record(arith, ray, p, normal, t, self.material_spec(), rec)
            }
    }

    /// Whether the roots of the quadratic of the ray and the sphere come in
    /// their order: the far root is not below the near one, as it is with a
    /// ray that has a direction, where `a` is above zero and the square root
    /// is not below it.
    pub open spec fn roots_in_order<A: Arithmetic>(self, arith: &A, ray: Ray) -> bool {
        forall|a: Scalar, h: Scalar, discriminant: Scalar, near: Scalar, far: Scalar|
            self.is_quadratic(arith, ray, a, h, discriminant) && #[trigger] Self::is_roots(
                arith,
                a,
                h,
                discriminant,
                near,
                far,
            ) ==> !far.lt_spec(near)
    }

    /// The quadratic of the ray and the sphere: `a`, `h` and the discriminant.
    fn quadratic<A: Arithmetic>(&self, arith: &A, ray: &Ray) -> (q: (Scalar, Scalar, Scalar))
        ensures
            self.is_quadratic(arith, *ray, q.0, q.1, q.2),
    {
        let oc = self.center.sub(ray.origin, arith);
        let a = ray.direction.length_squared(arith);
        let h = ray.direction.dot(oc, arith);
        let far_squared = oc.length_squared(arith);
        let radius_squared = arith.mul(self.radius, self.radius);
        let c = arith.sub(far_squared, radius_squared);
        let hh = arith.mul(h, h);
        let ac = arith.mul(a, c);
        let discriminant = arith.sub(hh, ac);
        proof {
            assert(is_sub(arith, self.center_spec(), ray.origin, oc));
            assert(is_length_squared(arith, oc, far_squared));
            assert(is_product(arith, self.radius_spec(), self.radius_spec(), radius_squared));
            assert(is_difference(arith, far_squared, radius_squared, c));
            assert(is_product(arith, h, h, hh));
            assert(is_product(arith, a, c, ac));
        }
        (a, h, discriminant)
    }

    /// The two roots of the quadratic.
    fn roots<A: Arithmetic>(arith: &A, a: Scalar, h: Scalar, discriminant: Scalar) -> (roots: (
        Scalar,
        Scalar,
    ))
        ensures
            Self::is_roots(arith, a, h, discriminant, roots.0, roots.1),
    {
        let sqrtd = arith.sqrt(discriminant);
        let below = arith.sub(h, sqrtd);
        let near = arith.div(below, a);
        let above = arith.add(h, sqrtd);
        let far = arith.div(above, a);
        proof {
            assert(is_root(arith, discriminant, sqrtd));
            assert(is_difference(arith, h, sqrtd, below));
            assert(is_sum(arith, h, sqrtd, above));
        }
        (near, far)
    }

    /// The record of the ray meeting the sphere at the parameter `t`.
    fn contact<A: Arithmetic>(&self, arith: &A, ray: &Ray, t: Scalar) -> (rec: HitRecord)
        ensures
            self.is_contact(arith, *ray, t, rec),
            rec.t == t,
    {
        let p = ray.at(t, arith);
        let offset = p.sub(self.center, arith);
        let normal = offset.div(self.radius, arith);
        let rec = HitRecord::new(arith, ray, p, normal, t, share(&self.material));
        proof {
            assert(is_at(arith, *ray, t, p));
            assert(is_sub(arith, p, self.center_spec(), offset));
            assert(is_div(arith, offset, self.radius_spec(), normal));
        }
        rec
    }

    /// Chooses the parameter at which a ray strikes the sphere from the
    /// discriminant and the two roots of the quadratic `|P(t) - C|^2 = r^2`.
    ///
    /// There is no hit exactly where the discriminant is below zero or neither
    /// root lies strictly inside `ray_t`. Where both roots lie inside, the
    /// near one is the hit.
    pub fn nearest_root(ray_t: Interval, discriminant: Scalar, near: Scalar, far: Scalar) -> (r:
        Option<Scalar>)
        ensures
            r == nearest_root_spec(ray_t, discriminant, near, far),
            r is None <==> discriminant.lt_spec(Scalar { bits: 0 }) || (!ray_t.surrounds_spec(near)
                && !ray_t.surrounds_spec(far)),
            r matches Some(t) ==> ray_t.surrounds_spec(t) && (t == near || t == far),
            !discriminant.lt_spec(Scalar { bits: 0 }) && ray_t.surrounds_spec(near)
                && ray_t.surrounds_spec(far) ==> r == Some(near),
    {
        if discriminant.lt(Scalar::zero()) {
            return None;
        }
        let mut root = near;
        if !ray_t.surrounds(root) {
            root = far;
            if !ray_t.surrounds(root) {
                return None;
            }
        }
        Some(root)
    }
}

impl<A: Arithmetic> Hittable<A> for Sphere {
    /// Whether `r` is what the ray strikes of the sphere at a parameter
    /// strictly inside `ray_t`: nothing where the discriminant of their
    /// quadratic is below zero or neither root lies inside, and else the
    /// contact at the near root where that lies inside and at the far root
    /// where it does not.
    open spec fn is_hit(&self, arith: &A, ray: Ray, ray_t: Interval, r: Option<HitRecord>) -> bool {
        exists|a: Scalar, h: Scalar, discriminant: Scalar|
            {
                &&& #[trigger] (*self).is_quadratic(arith, ray, a, h, discriminant)
                &&& if discriminant.lt_spec(Scalar { bits: 0 }) {
                    r is None
                } else {
                    exists|near: Scalar, far: Scalar|
                        {
                            &&& #[trigger] Self::is_roots(arith, a, h, discriminant, near, far)
                            &&& match nearest_root_spec(ray_t, discriminant, near, far) {
                                Some(t) => r matches Some(rec) && rec.t == t && (*self).is_contact(
                                    arith,
                                    ray,
                                    t,
                                    rec,
                                ),
                                None => r is None,
                            }
                        }
                }
            }
    }

    /// Where a ray strikes the sphere at a parameter strictly inside `ray_t`,
    /// if it does.
    ///
    /// There is no hit exactly where the discriminant of the quadratic of ray
    /// and sphere is below zero or neither of its roots lies strictly inside
    /// `ray_t`. Where both roots lie inside, the near one is the hit. The
    /// normal of the record is turned against the ray.
    fn hit(&self, arith: &A, ray: &Ray, ray_t: Interval) -> (r: Option<HitRecord>)
        ensures
            r matches Some(rec) ==> rec.material == self.material_spec(),
    {
        let (a, h, discriminant) = self.quadratic(arith, ray);
        if discriminant.lt(Scalar::zero()) {
            proof {
                assert(self.is_quadratic(arith, *ray, a, h, discriminant));
            }
            return None;
        }
        let (near, far) = Self::roots(arith, a, h, discriminant);
        let r = match Self::nearest_root(ray_t, discriminant, near, far) {
            Some(t) => Some(self.contact(arith, ray, t)),
            None => None,
        };
        proof {
            assert(Self::is_roots(arith, a, h, discriminant, near, far));
            assert(self.is_quadratic(arith, *ray, a, h, discriminant));
        }
        r
    }
}

/// Lowering the upper bound of the range leaves the chosen root where it was,
/// or leaves none where the chosen root no longer lies before the bound. This
/// holds as long as the far root is not below the near one.
pub proof fn lemma_root_narrows(
    ray_t: Interval,
    bound: Scalar,
    discriminant: Scalar,
    near: Scalar,
    far: Scalar,
)
    requires
        !far.lt_spec(near),
        bound.le_spec(ray_t.max),
    ensures
        nearest_root_spec(Interval { min: ray_t.min, max: bound }, discriminant, near, far)
            == before(nearest_root_spec(ray_t, discriminant, near, far), bound),
{
}

/// In an arithmetic that is a function a ray and a sphere have one
/// quadratic.
pub proof fn lemma_quadratic_is_one<A: Arithmetic>(
    sphere: Sphere,
    arith: &A,
    ray: Ray,
    q: (Scalar, Scalar, Scalar),
    q2: (Scalar, Scalar, Scalar),
)
    requires
        is_function(arith),
        sphere.is_quadratic(arith, ray, q.0, q.1, q.2),
        sphere.is_quadratic(arith, ray, q2.0, q2.1, q2.2),
    ensures
        q == q2,
{
    let (a, h, d) = q;
    let (a2, h2, d2) = q2;
    let (oc, fs, rs, c, hh, ac) = choose|
        oc: Vec3,
        fs: Scalar,
        rs: Scalar,
        c: Scalar,
        hh: Scalar,
        ac: Scalar,
    |
        {
            &&& #[trigger] is_sub(arith, sphere.center_spec(), ray.origin, oc)
            &&& is_length_squared(arith, ray.direction, a)
            &&& is_dot(arith, ray.direction, oc, h)
            &&& #[trigger] is_length_squared(arith, oc, fs)
            &&& #[trigger] is_product(arith, sphere.radius_spec(), sphere.radius_spec(), rs)
            &&& #[trigger] is_difference(arith, fs, rs, c)
            &&& #[trigger] is_product(arith, h, h, hh)
            &&& #[trigger] is_product(arith, a, c, ac)
            &&& is_difference(arith, hh, ac, d)
        };
    let (oc2, fs2, rs2, c2, hh2, ac2) = choose|
        oc: Vec3,
        fs: Scalar,
        rs: Scalar,
        c: Scalar,
        hh: Scalar,
        ac: Scalar,
    |
        {
            &&& #[trigger] is_sub(arith, sphere.center_spec(), ray.origin, oc)
            &&& is_length_squared(arith, ray.direction, a2)
            &&& is_dot(arith, ray.direction, oc, h2)
            &&& #[trigger] is_length_squared(arith, oc, fs)
            &&& #[trigger] is_product(arith, sphere.radius_spec(), sphere.radius_spec(), rs)
            &&& #[trigger] is_difference(arith, fs, rs, c)
            &&& #[trigger] is_product(arith, h2, h2, hh)
            &&& #[trigger] is_product(arith, a2, c, ac)
            &&& is_difference(arith, hh, ac, d2)
        };
    lemma_add_is_one(arith, sphere.center_spec(), ray.origin.neg_spec(), oc, oc2);
    lemma_dot_is_one(arith, ray.direction, ray.direction, a, a2);
    lemma_dot_is_one(arith, ray.direction, oc, h, h2);
    lemma_dot_is_one(arith, oc, oc, fs, fs2);
    assert(rs == rs2);
    assert(c == c2);
    assert(hh == hh2);
    assert(ac == ac2);
}

/// In an arithmetic that is a function a quadratic has one pair of roots.
pub proof fn lemma_roots_are_one<A: Arithmetic>(
    arith: &A,
    a: Scalar,
    h: Scalar,
    discriminant: Scalar,
    roots: (Scalar, Scalar),
    roots2: (Scalar, Scalar),
)
    requires
        is_function(arith),
        Sphere::is_roots(arith, a, h, discriminant, roots.0, roots.1),
        Sphere::is_roots(arith, a, h, discriminant, roots2.0, roots2.1),
    ensures
        roots == roots2,
{
    let (s, below, above) = choose|s: Scalar, below: Scalar, above: Scalar|
        {
            &&& #[trigger] is_root(arith, discriminant, s)
            &&& #[trigger] is_difference(arith, h, s, below)
            &&& is_quotient(arith, below, a, roots.0)
            &&& #[trigger] is_sum(arith, h, s, above)
            &&& is_quotient(arith, above, a, roots.1)
        };
    let (s2, below2, above2) = choose|s: Scalar, below: Scalar, above: Scalar|
        {
            &&& #[trigger] is_root(arith, discriminant, s)
            &&& #[trigger] is_difference(arith, h, s, below)
            &&& is_quotient(arith, below, a, roots2.0)
            &&& #[trigger] is_sum(arith, h, s, above)
            &&& is_quotient(arith, above, a, roots2.1)
        };
    assert(s == s2);
    assert(below == below2);
    assert(above == above2);
}

/// In an arithmetic that is a function a ray meets a sphere at a parameter
/// with one record.
pub proof fn lemma_contact_is_one<A: Arithmetic>(
    sphere: Sphere,
    arith: &A,
    ray: Ray,
    t: Scalar,
    rec: HitRecord,
    rec2: HitRecord,
)
    requires
        is_function(arith),
        sphere.is_contact(arith, ray, t, rec),
        sphere.is_contact(arith, ray, t, rec2),
    ensures
        rec == rec2,
{
    let (p, offset, normal) = choose|p: Vec3, offset: Vec3, normal: Vec3|
        {
            &&& #[trigger] is_at(arith, ray, t, p)
            &&& #[trigger] is_sub(arith, p, sphere.center_spec(), offset)
            &&& #[trigger] is_div(arith, offset, sphere.radius_spec(), normal)
            &&& HitRecord::is_record(arith, ray, p, normal, t, sphere.material_spec(), rec)
        };
    let (place2, offset2, normal2) = choose|p: Vec3, offset: Vec3, normal: Vec3|
        {
            &&& #[trigger] is_at(arith, ray, t, p)
            &&& #[trigger] is_sub(arith, p, sphere.center_spec(), offset)
            &&& #[trigger] is_div(arith, offset, sphere.radius_spec(), normal)
            &&& HitRecord::is_record(arith, ray, p, normal, t, sphere.material_spec(), rec2)
        };
    lemma_at_is_one(arith, ray, t, p, place2);
    lemma_add_is_one(arith, p, sphere.center_spec().neg_spec(), offset, offset2);
    lemma_div_is_one(arith, offset, sphere.radius_spec(), normal, normal2);
    lemma_record_is_one(arith, ray, p, normal, t, sphere.material_spec(), rec, rec2);
}

/// What a sphere answers a ray over a range, told by the quadratic and its
/// roots.
pub proof fn lemma_hit_by_roots<A: Arithmetic>(
    sphere: Sphere,
    arith: &A,
    ray: Ray,
    ray_t: Interval,
    r: Option<HitRecord>,
) -> (found: (Scalar, Scalar, Scalar, Scalar, Scalar))
    requires
        sphere.is_hit(arith, ray, ray_t, r),
    ensures
        sphere.is_quadratic(arith, ray, found.0, found.1, found.2),
        found.2.lt_spec(Scalar { bits: 0 }) ==> r is None,
        !found.2.lt_spec(Scalar { bits: 0 }) ==> {
            &&& Sphere::is_roots(arith, found.0, found.1, found.2, found.3, found.4)
            &&& match nearest_root_spec(ray_t, found.2, found.3, found.4) {
                Some(t) => r matches Some(rec) && rec.t == t && sphere.is_contact(
                    arith,
                    ray,
                    t,
                    rec,
                ),
                None => r is None,
            }
        },
{
    let (a, h, d) = choose|a: Scalar, h: Scalar, d: Scalar|
        {
            &&& #[trigger] sphere.is_quadratic(arith, ray, a, h, d)
            &&& if d.lt_spec(Scalar { bits: 0 }) {
                r is None
            } else {
                exists|near: Scalar, far: Scalar|
                    {
                        &&& #[trigger] Sphere::is_roots(arith, a, h, d, near, far)
                        &&& match nearest_root_spec(ray_t, d, near, far) {
                            Some(t) => r matches Some(rec) && rec.t == t && sphere.is_contact(
                                arith,
                                ray,
                                t,
                                rec,
                            ),
                            None => r is None,
                        }
                    }
            }
        };
    if d.lt_spec(Scalar { bits: 0 }) {
        (a, h, d, d, d)
    } else {
        let (near, far) = choose|near: Scalar, far: Scalar|
            {
                &&& #[trigger] Sphere::is_roots(arith, a, h, d, near, far)
                &&& match nearest_root_spec(ray_t, d, near, far) {
                    Some(t) => r matches Some(rec) && rec.t == t && sphere.is_contact(
                        arith,
                        ray,
                        t,
                        rec,
                    ),
                    None => r is None,
                }
            };
        (a, h, d, near, far)
    }
}

/// A sphere answers a ray as a surface does: over a range with a lower upper
/// bound it answers with the hit that it answers with over the whole range,
/// or with none where that hit does not lie before the bound. This holds in
/// an arithmetic that is a function, for roots that come in their order.
pub proof fn lemma_sphere_answers_as_a_surface<A: Arithmetic>(
    sphere: Sphere,
    arith: &A,
    ray: Ray,
    ray_t: Interval,
    full: Option<HitRecord>,
    bound: Scalar,
    answer: Option<HitRecord>,
)
    requires
        is_function(arith),
        sphere.roots_in_order(arith, ray),
        sphere.is_hit(arith, ray, ray_t, full),
        bound == ray_t.max || bound.le_spec(ray_t.max),
        sphere.is_hit(arith, ray, Interval { min: ray_t.min, max: bound }, answer),
    ensures
        full matches Some(rec) ==> ray_t.surrounds_spec(rec.t),
        answer == cut(full, bound),
{
    let narrow = Interval { min: ray_t.min, max: bound };
    let (a, h, d, near, far) = lemma_hit_by_roots(sphere, arith, ray, ray_t, full);
    let (a2, h2, d2, near2, far2) = lemma_hit_by_roots(sphere, arith, ray, narrow, answer);
    lemma_quadratic_is_one(sphere, arith, ray, (a, h, d), (a2, h2, d2));
    if !d.lt_spec(Scalar { bits: 0 }) {
        lemma_roots_are_one(arith, a, h, d, (near, far), (near2, far2));
        if bound.le_spec(ray_t.max) {
            lemma_root_narrows(ray_t, bound, d, near, far);
        } else {
            assert(narrow == ray_t);
        }
        match (full, answer) {
            (Some(rec), Some(rec2)) => {
                lemma_contact_is_one(sphere, arith, ray, rec.t, rec, rec2);
            },
            _ => {},
        }
    }
}

/// Spheres answer a ray as surfaces do, with what each of them answers over
/// the whole range, in an arithmetic that is a function and for roots that
/// come in their order. So a scene of spheres is hit where the closest of
/// those answers lies.
pub proof fn lemma_spheres_answer_as_surfaces<A: Arithmetic>(
    spheres: Seq<Sphere>,
    arith: &A,
    ray: Ray,
    ray_t: Interval,
    full: Seq<Option<HitRecord>>,
)
    requires
        is_function(arith),
        full.len() == spheres.len(),
        forall|k: int| 0 <= k < spheres.len() ==> (#[trigger] spheres[k]).roots_in_order(arith, ray),
        forall|k: int|
            0 <= k < spheres.len() ==> (#[trigger] spheres[k]).is_hit(arith, ray, ray_t, full[k]),
    ensures
        answers_as_surfaces(spheres, arith, ray, ray_t, full),
{
    assert forall|k: int| 0 <= k < full.len() implies (#[trigger] full[k] matches Some(rec)
        ==> ray_t.surrounds_spec(rec.t)) by {
        assert(spheres[k].is_hit(arith, ray, ray_t, full[k]));
        assert(ray_t == Interval { min: ray_t.min, max: ray_t.max });
        lemma_sphere_answers_as_a_surface(spheres[k], arith, ray, ray_t, full[k], ray_t.max, full[k]);
    }
    assert forall|k: int, bound: Scalar, answer: Option<HitRecord>|
        0 <= k < spheres.len() && (bound == ray_t.max || bound.le_spec(ray_t.max))
            && #[trigger] spheres[k].is_hit(
            arith,
            ray,
            Interval { min: ray_t.min, max: bound },
            answer,
        ) implies answer == cut(full[k], bound) by {
        lemma_sphere_answers_as_a_surface(spheres[k], arith, ray, ray_t, full[k], bound, answer);
    }
}

/// A scan of spheres ends with what asking every sphere over the whole range
/// and keeping the hit with the smallest parameter ends with, and with none
/// exactly where no sphere is hit, in an arithmetic that is a function and for
/// roots that come in their order.
pub proof fn lemma_scan_of_spheres_finds_closest<A: Arithmetic>(
    spheres: Seq<Sphere>,
    arith: &A,
    ray: Ray,
    ray_t: Interval,
    full: Seq<Option<HitRecord>>,
    r: Option<HitRecord>,
)
    requires
        is_function(arith),
        full.len() == spheres.len(),
        forall|k: int| 0 <= k < spheres.len() ==> (#[trigger] spheres[k]).roots_in_order(arith, ray),
        forall|k: int|
            0 <= k < spheres.len() ==> (#[trigger] spheres[k]).is_hit(arith, ray, ray_t, full[k]),
        is_scan(spheres, arith, ray, ray_t, r),
    ensures
        r == closest(full),
        is_closest(full, r),
        r is None <==> forall|k: int| 0 <= k < full.len() ==> #[trigger] full[k] is None,
{
    lemma_spheres_answer_as_surfaces(spheres, arith, ray, ray_t, full);
    lemma_scan_finds_closest(spheres, arith, ray, ray_t, full, r);
}

/// The normal of a hit on a sphere never points along the ray: no dot
/// product of the normal with the direction of the ray lies above zero, in
/// any arithmetic that treats the two signs alike.
pub proof fn lemma_sphere_hit_opposes_ray<A: Arithmetic>(
    sphere: Sphere,
    arith: &A,
    ray: Ray,
    ray_t: Interval,
    rec: HitRecord,
    along: Scalar,
)
    requires
        is_even_handed(arith),
        sphere.is_hit(arith, ray, ray_t, Some(rec)),
        is_dot(arith, rec.normal, ray.direction, along),
    ensures
        !(Scalar { bits: 0 }).lt_spec(along),
{
    lemma_hit_by_roots(sphere, arith, ray, ray_t, Some(rec));
    assert(sphere.is_contact(arith, ray, rec.t, rec));
    let (p, offset, normal) = choose|p: Vec3, offset: Vec3, normal: Vec3|
        {
            &&& #[trigger] is_at(arith, ray, rec.t, p)
            &&& #[trigger] is_sub(arith, p, sphere.center_spec(), offset)
            &&& #[trigger] is_div(arith, offset, sphere.radius_spec(), normal)
            &&& HitRecord::is_record(arith, ray, p, normal, rec.t, sphere.material_spec(), rec)
        };
    lemma_normal_opposes_ray(arith, ray, p, normal, rec.t, sphere.material_spec(), rec, along);
}

/// The normal of the hit that a scan of spheres ends with never points along
/// the ray, in any arithmetic that treats the two signs alike.
pub proof fn lemma_scan_of_spheres_opposes_ray<A: Arithmetic>(
    spheres: Seq<Sphere>,
    arith: &A,
    ray: Ray,
    ray_t: Interval,
    rec: HitRecord,
    along: Scalar,
)
    requires
        is_even_handed(arith),
        is_scan(spheres, arith, ray, ray_t, Some(rec)),
        is_dot(arith, rec.normal, ray.direction, along),
    ensures
        !(Scalar { bits: 0 }).lt_spec(along),
    decreases spheres.len(),
{
    if spheres.len() > 0 {
        let (best, answer) = choose|best: Option<HitRecord>, answer: Option<HitRecord>|
            {
                &&& is_scan(spheres.drop_last(), arith, ray, ray_t, best)
                &&& #[trigger] spheres.last().is_hit(arith, ray, reach(best, ray_t), answer)
                &&& Some(rec) == if answer is Some {
                    answer
                } else {
                    best
                }
            };
        if answer is Some {
            lemma_sphere_hit_opposes_ray(
                spheres.last(),
                arith,
                ray,
                reach(best, ray_t),
                rec,
                along,
            );
        } else {
            lemma_scan_of_spheres_opposes_ray(spheres.drop_last(), arith, ray, ray_t, rec, along);
        }
    }
}

} // verus!
