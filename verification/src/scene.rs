use crate::arithmetic::{
    is_even_handed, is_function, is_product, is_sum, opposite, same, Arithmetic,
};
use crate::interval::Interval;
use crate::material::Material;
use crate::ray::Ray;
use crate::scalar::{lemma_neg, lemma_zero, Scalar};
use crate::vec3::{is_dot, lemma_dot_is_one, Vec3};
use std::sync::Arc;
use vstd::prelude::*;

verus! {

/// Where a ray met a surface.
#[derive(Debug)]
pub struct HitRecord {
    /// The point of contact.
    pub p: Vec3,
    /// The surface normal there, turned against the ray.
    pub normal: Vec3,
    /// The ray parameter of the point.
    pub t: Scalar,
    /// Whether the ray came from outside.
    pub front_face: bool,
    /// The material of the surface, shared with the object that was struck.
    pub material: Arc<Material>,
}

impl HitRecord {
    /// The record of a hit at `p` with the outward normal given, where
    /// `facing` is the dot product of the ray's direction with that normal:
    /// below zero the ray came from outside and the normal stands, otherwise
    /// the normal is reversed.
    pub open spec fn oriented(
        p: Vec3,
        outward_normal: Vec3,
        t: Scalar,
        facing: Scalar,
        material: Arc<Material>,
    ) -> HitRecord {
        let front_face = facing.lt_spec(Scalar { bits: 0 });
        HitRecord {
            p,
            normal: if front_face {
                outward_normal
            } else {
                outward_normal.neg_spec()
            },
            t,
            front_face,
            material,
        }
    }

    /// Whether `rec` is the record of a hit of `ray` at `p` with the outward
    /// normal given: the record oriented by the dot product of the direction
    /// of the ray with that normal.
    pub open spec fn is_record<A: Arithmetic>(
        arith: &A,
        ray: Ray,
        p: Vec3,
        outward_normal: Vec3,
        t: Scalar,
        material: Arc<Material>,
        rec: HitRecord,
    ) -> bool {
        exists|facing: Scalar| #[trigger]
            is_dot(arith, ray.direction, outward_normal, facing) && rec == Self::oriented(
                p,
                outward_normal,
                t,
                facing,
                material,
            )
    }

    /// Records a hit of `ray` at the point `p` and the parameter `t`, and
    /// turns the normal against the ray: the outward normal stands where its
    /// dot product with the direction of the ray is below zero, which is where
    /// the ray came from outside, and is reversed otherwise.
    pub fn new<A: Arithmetic>(
        arith: &A,
        ray: &Ray,
        p: Vec3,
        outward_normal: Vec3,
        t: Scalar,
        material: Arc<Material>,
    ) -> (rec: HitRecord)
        ensures
            Self::is_record(arith, *ray, p, outward_normal, t, material, rec),
            rec.p == p,
            rec.t == t,
            rec.material == material,
            rec.normal == outward_normal || rec.normal == outward_normal.neg_spec(),
    {
        let facing = ray.direction.dot(outward_normal, arith);
        let front_face = facing.lt(Scalar::zero());
        let normal = if front_face {
            outward_normal
        } else {
            outward_normal.neg()
        };
        proof {
            assert(is_dot(arith, ray.direction, outward_normal, facing));
        }
        HitRecord { p, normal, t, front_face, material }
    }
}

/// The normal of a record never points along the ray: no dot product of the
/// normal with the direction of the ray lies above zero, in any arithmetic
/// that treats the two signs alike.
pub proof fn lemma_normal_opposes_ray<A: Arithmetic>(
    arith: &A,
    ray: Ray,
    p: Vec3,
    outward_normal: Vec3,
    t: Scalar,
    material: Arc<Material>,
    rec: HitRecord,
    along: Scalar,
)
    requires
        is_even_handed(arith),
        HitRecord::is_record(arith, ray, p, outward_normal, t, material, rec),
        is_dot(arith, rec.normal, ray.direction, along),
    ensures
        !(Scalar { bits: 0 }).lt_spec(along),
{
    let d = ray.direction;
    let o = outward_normal;
    let n = rec.normal;
    let facing = choose|facing: Scalar| #[trigger]
        is_dot(arith, d, o, facing) && rec == HitRecord::oriented(p, o, t, facing, material);
    let (xx, yy, zz, xy) = choose|xx: Scalar, yy: Scalar, zz: Scalar, xy: Scalar|
        {
            &&& #[trigger] is_product(arith, d.x, o.x, xx)
            &&& #[trigger] is_product(arith, d.y, o.y, yy)
            &&& #[trigger] is_product(arith, d.z, o.z, zz)
            &&& #[trigger] is_sum(arith, xx, yy, xy)
            &&& is_sum(arith, xy, zz, facing)
        };
    let (xx2, yy2, zz2, xy2) = choose|xx: Scalar, yy: Scalar, zz: Scalar, xy: Scalar|
        {
            &&& #[trigger] is_product(arith, n.x, d.x, xx)
            &&& #[trigger] is_product(arith, n.y, d.y, yy)
            &&& #[trigger] is_product(arith, n.z, d.z, zz)
            &&& #[trigger] is_sum(arith, xx, yy, xy)
            &&& is_sum(arith, xy, zz, along)
        };
    lemma_zero();
    if facing.lt_spec(Scalar { bits: 0 }) {
        assert(n == o);
        assert(same(xx, xx2));
        assert(same(yy, yy2));
        assert(same(zz, zz2));
        assert(same(xy, xy2));
        assert(same(facing, along));
    } else {
        assert(n == o.neg_spec());
        lemma_neg(o.x);
        lemma_neg(o.y);
        lemma_neg(o.z);
        assert(opposite(o.x, n.x));
        assert(opposite(o.y, n.y));
        assert(opposite(o.z, n.z));
        assert(opposite(xx, xx2));
        assert(opposite(yy, yy2));
        assert(opposite(zz, zz2));
        assert(opposite(xy, xy2));
        assert(opposite(facing, along));
    }
}

/// In an arithmetic that is a function a hit has one record.
pub proof fn lemma_record_is_one<A: Arithmetic>(
    arith: &A,
    ray: Ray,
    p: Vec3,
    outward_normal: Vec3,
    t: Scalar,
    material: Arc<Material>,
    rec: HitRecord,
    rec2: HitRecord,
)
    requires
        is_function(arith),
        HitRecord::is_record(arith, ray, p, outward_normal, t, material, rec),
        HitRecord::is_record(arith, ray, p, outward_normal, t, material, rec2),
    ensures
        rec == rec2,
{
    let facing = choose|facing: Scalar| #[trigger]
        is_dot(arith, ray.direction, outward_normal, facing) && rec == HitRecord::oriented(
            p,
            outward_normal,
            t,
            facing,
            material,
        );
    let facing2 = choose|facing: Scalar| #[trigger]
        is_dot(arith, ray.direction, outward_normal, facing) && rec2 == HitRecord::oriented(
            p,
            outward_normal,
            t,
            facing,
            material,
        );
    lemma_dot_is_one(arith, ray.direction, outward_normal, facing, facing2);
}

/// Something a ray can strike, in the arithmetic `A`.
///
/// `hit` looks for the place where the ray meets the shape at a parameter
/// strictly inside `ray_t`, and reports none where there is no such place.
/// `is_hit` says which answers the shape may give; a shape written outside
/// verified code, of which nothing is known, lets it hold of every answer.
pub trait Hittable<A: Arithmetic> {
    spec fn is_hit(&self, arith: &A, ray: Ray, ray_t: Interval, r: Option<HitRecord>) -> bool;

    fn hit(&self, arith: &A, ray: &Ray, ray_t: Interval) -> (r: Option<HitRecord>)
        ensures
            self.is_hit(arith, *ray, ray_t, r),
            r matches Some(rec) ==> ray_t.surrounds_spec(rec.t),
    ;
}

/// The upper bound that a scan works under once it holds `best`: the
/// parameter of that hit, or the end of the range while there is none.
pub open spec fn bound_after(best: Option<HitRecord>, ray_t: Interval) -> Scalar {
    match best {
        Some(rec) => rec.t,
        None => ray_t.max,
    }
}

/// The range that a scan asks the next object over once it holds `best`.
pub open spec fn reach(best: Option<HitRecord>, ray_t: Interval) -> Interval {
    Interval { min: ray_t.min, max: bound_after(best, ray_t) }
}

/// Whether `r` is a hit that a scan of `objects` may end with: each object in
/// turn is asked for a hit before the best one so far, and an answer replaces
/// the best.
pub open spec fn is_scan<A: Arithmetic, H: Hittable<A>>(
    objects: Seq<H>,
    arith: &A,
    ray: Ray,
    ray_t: Interval,
    r: Option<HitRecord>,
) -> bool
    decreases objects.len(),
{
    if objects.len() == 0 {
        r is None
    } else {
        exists|best: Option<HitRecord>, answer: Option<HitRecord>|
            {
                &&& is_scan(objects.drop_last(), arith, ray, ray_t, best)
                &&& #[trigger] objects.last().is_hit(arith, ray, reach(best, ray_t), answer)
                &&& r == if answer is Some {
                    answer
                } else {
                    best
                }
            }
    }
}

/// The hit with the smallest parameter among `answers`, and the first of
/// them where several share it.
pub open spec fn closest(answers: Seq<Option<HitRecord>>) -> Option<HitRecord>
    decreases answers.len(),
{
    if answers.len() == 0 {
        None
    } else {
        let best = closest(answers.drop_last());
        match (best, answers.last()) {
            (Some(b), Some(h)) => if h.t.lt_spec(b.t) {
                Some(h)
            } else {
                Some(b)
            },
            (None, h) => h,
            (b, None) => b,
        }
    }
}

/// A hit record, kept only where it lies before `bound`.
pub open spec fn cut(hit: Option<HitRecord>, bound: Scalar) -> Option<HitRecord> {
    match hit {
        Some(rec) => if rec.t.lt_spec(bound) {
            hit
        } else {
            None
        },
        None => None,
    }
}

/// Whether the objects answer the ray as surfaces do, with `full` for what
/// each of them answers over the whole range: a hit lies strictly inside the
/// range, and over a range with a lower upper bound an object answers with
/// the same hit, or with none where that hit no longer lies before the bound.
pub open spec fn answers_as_surfaces<A: Arithmetic, H: Hittable<A>>(
    objects: Seq<H>,
    arith: &A,
    ray: Ray,
    ray_t: Interval,
    full: Seq<Option<HitRecord>>,
) -> bool {
    &&& full.len() == objects.len()
    &&& forall|k: int|
        0 <= k < full.len() ==> (#[trigger] full[k] matches Some(rec) ==> ray_t.surrounds_spec(
            rec.t,
        ))
    &&& forall|k: int, bound: Scalar, answer: Option<HitRecord>|
        0 <= k < objects.len() && (bound == ray_t.max || bound.le_spec(ray_t.max))
            && #[trigger] objects[k].is_hit(
            arith,
            ray,
            Interval { min: ray_t.min, max: bound },
            answer,
        ) ==> answer == cut(full[k], bound)
}

/// The objects of a scene, in the order in which they were added.
pub struct World<H> {
    objects: Vec<H>,
}

impl<H> View for World<H> {
    type V = Seq<H>;

    closed spec fn view(&self) -> Seq<H> {
        self.objects@
    }
}

impl<H> World<H> {
    /// A scene without objects.
    pub fn new() -> (w: Self)
        ensures
            w@ == Seq::<H>::empty(),
    {
        World { objects: Vec::new() }
    }

    /// Puts one more object at the end of the scene.
    pub fn add(&mut self, object: H)
        ensures
            final(self)@ == old(self)@.push(object),
    {
        self.objects.push(object);
    }

    /// The number of objects.
    pub fn len(&self) -> (n: usize)
        ensures
            n == self@.len(),
    {
        self.objects.len()
    }

    /// The closest hit of a ray strictly inside `ray_t`, or none.
    ///
    /// Every object is asked once, in order, for a hit before the best found
    /// so far. Where the objects answer as surfaces do, that is the hit with
    /// the smallest parameter among the answers that each object gives over
    /// the whole range, and the first of them where several share it.
    pub fn hit<A: Arithmetic>(&self, arith: &A, ray: &Ray, ray_t: Interval) -> (r: Option<
        HitRecord,
    >) where H: Hittable<A>
        ensures
            is_scan(self@, arith, *ray, ray_t, r),
            r matches Some(rec) ==> ray_t.surrounds_spec(rec.t),
            forall|full: Seq<Option<HitRecord>>| #[trigger]
                answers_as_surfaces(self@, arith, *ray, ray_t, full) ==> r == closest(full)
                    && is_closest(full, r),
    {
        let mut closest_so_far = ray_t.max;
        let mut hit_record: Option<HitRecord> = None;
        let n: usize = self.objects.len();
        let mut i: usize = 0;
        while i < n
            invariant
                i <= n,
                n == self.objects@.len(),
                is_scan(self.objects@.take(i as int), arith, *ray, ray_t, hit_record),
                hit_record matches Some(rec) ==> ray_t.surrounds_spec(rec.t),
                closest_so_far == bound_after(hit_record, ray_t),
            decreases n - i,
        {
            let ghost best = hit_record;
            let found = self.objects[i].hit(arith, ray, Interval::new(ray_t.min, closest_so_far));
            proof {
                let next = self.objects@.take(i + 1);
                assert(next.drop_last() =~= self.objects@.take(i as int));
                assert(next.last() == self.objects@[i as int]);
                assert(next.last().is_hit(arith, *ray, reach(best, ray_t), found));
            }
            if let Some(record) = found {
                closest_so_far = record.t;
                hit_record = Some(record);
            }
            i = i + 1;
        }
        proof {
            assert(self.objects@.take(n as int) =~= self.objects@);
            assert forall|full: Seq<Option<HitRecord>>| #[trigger]
                answers_as_surfaces(self@, arith, *ray, ray_t, full) implies hit_record == closest(
                full,
            ) && is_closest(full, hit_record) by {
                lemma_scan_finds_closest(self@, arith, *ray, ray_t, full, hit_record);
            }
        }
        hit_record
    }
}

/// Whether `best` is the hit with the smallest parameter among `answers`, and
/// the first of them where several share it: it is one of the answers, none of
/// them lies before it, and those ahead of it in the sequence lie strictly
/// behind it. There is no such hit exactly where every answer is none.
pub open spec fn is_closest(answers: Seq<Option<HitRecord>>, best: Option<HitRecord>) -> bool {
    match best {
        None => forall|i: int| 0 <= i < answers.len() ==> #[trigger] answers[i] is None,
        Some(b) => exists|k: int|
            {
                &&& 0 <= k < answers.len()
                &&& #[trigger] answers[k] == Some(b)
                &&& forall|j: int|
                    0 <= j < answers.len() ==> (#[trigger] answers[j] matches Some(h) ==> b.t@
                        <= h.t@)
                &&& forall|j: int|
                    0 <= j < k ==> (#[trigger] answers[j] matches Some(h) ==> b.t@ < h.t@)
            },
    }
}

/// A hit that is the closest of all answers but the last is the closest of
/// all of them where the last one does not lie before it.
proof fn lemma_closest_stays(answers: Seq<Option<HitRecord>>, b: HitRecord)
    requires
        answers.len() > 0,
        is_closest(answers.drop_last(), Some(b)),
        answers.last() matches Some(h) ==> b.t@ <= h.t@,
    ensures
        is_closest(answers, Some(b)),
{
    let front = answers.drop_last();
    let last = answers.len() - 1;
    let k = choose|k: int|
        {
            &&& 0 <= k < front.len()
            &&& #[trigger] front[k] == Some(b)
            &&& forall|j: int|
                0 <= j < front.len() ==> (#[trigger] front[j] matches Some(h) ==> b.t@ <= h.t@)
            &&& forall|j: int| 0 <= j < k ==> (#[trigger] front[j] matches Some(h) ==> b.t@ < h.t@)
        };
    assert forall|j: int| 0 <= j < answers.len() implies (#[trigger] answers[j] matches Some(g)
        ==> b.t@ <= g.t@) by {
        if j < last {
            assert(front[j] == answers[j]);
        }
    }
    assert forall|j: int| 0 <= j < k implies (#[trigger] answers[j] matches Some(g) ==> b.t@
        < g.t@) by {
        assert(front[j] == answers[j]);
    }
    assert(answers[k] == front[k]);
}

/// The last answer is the closest of all where it lies before the closest of
/// those ahead of it, or where there is none ahead of it.
proof fn lemma_closest_moves(
    answers: Seq<Option<HitRecord>>,
    best: Option<HitRecord>,
    h: HitRecord,
)
    requires
        answers.len() > 0,
        answers.last() == Some(h),
        is_closest(answers.drop_last(), best),
        best matches Some(b) ==> h.t@ < b.t@,
    ensures
        is_closest(answers, Some(h)),
{
    let front = answers.drop_last();
    let last = answers.len() - 1;
    assert forall|j: int| 0 <= j < last implies (#[trigger] answers[j] matches Some(g) ==> h.t@
        < g.t@) by {
        assert(front[j] == answers[j]);
    }
    assert(answers[last] == Some(h));
}

/// Taking the closest of some answers one by one finds the hit with the
/// smallest parameter, and the first of them where several share it.
pub proof fn lemma_closest(answers: Seq<Option<HitRecord>>)
    requires
        forall|i: int|
            0 <= i < answers.len() ==> (#[trigger] answers[i] matches Some(h) ==> h.t.is_number()),
    ensures
        is_closest(answers, closest(answers)),
    decreases answers.len(),
{
    if answers.len() > 0 {
        let front = answers.drop_last();
        lemma_closest(front);
        let last = answers.len() - 1;
        assert forall|j: int| 0 <= j < last implies front[j] == answers[j] by {}
        match (closest(front), answers.last()) {
            (Some(b), Some(h)) => {
                assert(answers[last] == Some(h));
                if h.t.lt_spec(b.t) {
                    lemma_closest_moves(answers, Some(b), h);
                } else {
                    lemma_closest_stays(answers, b);
                }
            },
            (None, Some(h)) => {
                lemma_closest_moves(answers, None, h);
            },
            (Some(b), None) => {
                lemma_closest_stays(answers, b);
            },
            (None, None) => {
                assert forall|i: int| 0 <= i < answers.len() implies #[trigger] answers[i] is None by {
                    if i < last {
                        assert(front[i] == answers[i]);
                    }
                }
            },
        }
    }
}

/// The closest of some answers is one of them.
pub proof fn lemma_closest_is_an_answer(answers: Seq<Option<HitRecord>>)
    ensures
        closest(answers) matches Some(best) ==> exists|k: int|
            0 <= k < answers.len() && #[trigger] answers[k] == Some(best),
    decreases answers.len(),
{
    if answers.len() > 0 {
        let front = answers.drop_last();
        lemma_closest_is_an_answer(front);
        let last = answers.len() - 1;
        match closest(answers) {
            Some(best) => {
                if answers[last] == Some(best) {
                } else {
                    let k = choose|k: int| 0 <= k < front.len() && #[trigger] front[k] == Some(best);
                    assert(answers[k] == Some(best));
                }
            },
            None => {},
        }
    }
}

/// Scanning under a shrinking bound finds what collecting every answer over
/// the whole range and taking the closest finds, which is the answer with the
/// smallest parameter, as long as the objects answer as surfaces do.
pub proof fn lemma_scan_finds_closest<A: Arithmetic, H: Hittable<A>>(
    objects: Seq<H>,
    arith: &A,
    ray: Ray,
    ray_t: Interval,
    full: Seq<Option<HitRecord>>,
    r: Option<HitRecord>,
)
    requires
        answers_as_surfaces(objects, arith, ray, ray_t, full),
        is_scan(objects, arith, ray, ray_t, r),
    ensures
        r == closest(full),
        is_closest(full, r),
    decreases objects.len(),
{
    assert forall|i: int| 0 <= i < full.len() implies (#[trigger] full[i] matches Some(h)
        ==> h.t.is_number()) by {}
    lemma_closest(full);
    if objects.len() > 0 {
        let (best, answer) = choose|best: Option<HitRecord>, answer: Option<HitRecord>|
            {
                &&& is_scan(objects.drop_last(), arith, ray, ray_t, best)
                &&& #[trigger] objects.last().is_hit(arith, ray, reach(best, ray_t), answer)
                &&& r == if answer is Some {
                    answer
                } else {
                    best
                }
            };
        let front = objects.drop_last();
        let front_full = full.drop_last();
        let last = objects.len() - 1;
        assert(answers_as_surfaces(front, arith, ray, ray_t, front_full)) by {
            assert forall|k: int, bound: Scalar, answer: Option<HitRecord>|
                0 <= k < front.len() && (bound == ray_t.max || bound.le_spec(ray_t.max))
                    && #[trigger] front[k].is_hit(
                    arith,
                    ray,
                    Interval { min: ray_t.min, max: bound },
                    answer,
                ) implies answer == cut(front_full[k], bound) by {
                assert(front[k] == objects[k]);
                assert(front_full[k] == full[k]);
            }
            assert forall|k: int| 0 <= k < front_full.len() implies (
            #[trigger] front_full[k] matches Some(rec) ==> ray_t.surrounds_spec(rec.t)) by {
                assert(front_full[k] == full[k]);
            }
        }
        lemma_scan_finds_closest(front, arith, ray, ray_t, front_full, best);
        let bound = bound_after(best, ray_t);
        match best {
            Some(b) => {
                lemma_closest_is_an_answer(front_full);
                let k = choose|k: int| 0 <= k < front_full.len() && #[trigger] front_full[k] == Some(b);
                assert(front_full[k] == full[k]);
                assert(ray_t.surrounds_spec(b.t));
                assert(bound.le_spec(ray_t.max));
            },
            None => {},
        }
        assert(objects[last] == objects.last());
        assert(objects[last].is_hit(arith, ray, Interval { min: ray_t.min, max: bound }, answer));
        assert(answer == cut(full[last], bound));
        assert(full.last() == full[last]);
    }
}

} // verus!
