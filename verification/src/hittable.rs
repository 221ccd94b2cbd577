//! What a ray can hit: the record of a hit, the protocol every object
//! answers, the ordered collection of objects that answers it for a whole
//! scene, and the sphere.
use vstd::prelude::*;
use crate::scalar::{lemma_neg_mirrors, Scalar};
use crate::types::{Point, Ray, Vec3};

verus! {

/// Whether a ray meets a surface from outside, given `facing`, the dot
/// product of the ray's direction with the surface's outward normal: it does
/// when the two point against each other.
pub open spec fn front_facing(facing: Scalar) -> bool {
    facing.spec_lt(Scalar::spec_zero())
}

/// The normal as a hit stores it: the outward normal where the ray comes
/// from outside, its opposite where it comes from inside.
pub open spec fn stored_normal(outward_normal: Vec3, facing: Scalar) -> Vec3 {
    if front_facing(facing) {
        outward_normal
    } else {
        outward_normal.spec_neg()
    }
}

/// The dot product of the ray's direction with the stored normal. The dot
/// product changes sign with either argument, so this is `facing` where the
/// outward normal was kept and its negation where the normal was turned.
pub open spec fn stored_facing(facing: Scalar) -> Scalar {
    if front_facing(facing) {
        facing
    } else {
        facing.spec_neg()
    }
}

/// One crossing of a ray with a surface: the point, the normal there turned
/// against the ray, the ray parameter, and whether the ray came from outside.
#[derive(Clone, Copy, Debug, PartialEq, Eq, Structural)]
pub struct HitRecord {
    p: Point,
    normal: Vec3,
    t: Scalar,
    front_face: bool,
}

impl HitRecord {
    /// The point of the crossing.
    pub closed spec fn spec_p(&self) -> Point {
        self.p
    }

    /// The stored normal.
    pub closed spec fn spec_normal(&self) -> Vec3 {
        self.normal
    }

    /// The ray parameter of the crossing.
    pub closed spec fn spec_t(&self) -> Scalar {
        self.t
    }

    /// Whether the ray came from outside.
    pub closed spec fn spec_front_face(&self) -> bool {
        self.front_face
    }

    /// Whether the crossing lies strictly between `t_min` and `t_max` along
    /// the ray.
    pub open spec fn in_window(&self, t_min: Scalar, t_max: Scalar) -> bool {
        t_min.spec_lt(self.spec_t()) && self.spec_t().spec_lt(t_max)
    }

    /// The record of a crossing at `p` with ray parameter `t`. `normal` is
    /// the surface's outward normal; it is stored as it is for a front face
    /// and turned round otherwise.
    pub fn new(p: Point, normal: Vec3, t: Scalar, front_face: bool) -> (record: HitRecord)
        ensures
            record.spec_p() == p,
            record.spec_t() == t,
            record.spec_front_face() == front_face,
            record.spec_normal() == if front_face {
                normal
            } else {
                normal.spec_neg()
            },
    {
        HitRecord {
            p,
            normal: if front_face {
                normal
            } else {
                normal.neg()
            },
            t,
            front_face,
        }
    }

    /// The record of a crossing at `p` with ray parameter `t`, oriented by
    /// `facing`, the dot product of the ray's direction with
    /// `outward_normal`.
    pub fn new_with_face_normal(p: Point, outward_normal: Vec3, t: Scalar, facing: Scalar) -> (record:
        HitRecord)
        ensures
            record.spec_p() == p,
            record.spec_t() == t,
            record.spec_front_face() == front_facing(facing),
            record.spec_normal() == stored_normal(outward_normal, facing),
    {
        let front_face: bool = facing.lt(Scalar::zero());
        HitRecord::new(p, outward_normal, t, front_face)
    }

    /// The stored normal.
    #[verifier::when_used_as_spec(spec_normal)]
    pub fn normal(&self) -> (normal: Vec3)
        ensures
            normal == self.spec_normal(),
    {
        self.normal
    }

    /// The ray parameter of the crossing.
    #[verifier::when_used_as_spec(spec_t)]
    pub fn t(&self) -> (t: Scalar)
        ensures
            t == self.spec_t(),
    {
        self.t
    }

    /// The point of the crossing.
    #[verifier::when_used_as_spec(spec_p)]
    pub fn p(&self) -> (p: Point)
        ensures
            p == self.spec_p(),
    {
        self.p
    }

    /// Whether the ray came from outside.
    #[verifier::when_used_as_spec(spec_front_face)]
    pub fn front_face(&self) -> (front_face: bool)
        ensures
            front_face == self.spec_front_face(),
    {
        self.front_face
    }

    /// Orients the record anew by `facing`, the dot product of the ray's
    /// direction with `outward_normal`. The point and the ray parameter stay.
    pub fn set_face_normal(&mut self, facing: Scalar, outward_normal: Vec3)
        ensures
            final(self).spec_p() == old(self).spec_p(),
            final(self).spec_t() == old(self).spec_t(),
            final(self).spec_front_face() == front_facing(facing),
            final(self).spec_normal() == stored_normal(outward_normal, facing),
    {
        self.front_face = facing.lt(Scalar::zero());
        self.normal = if self.front_face {
            outward_normal
        } else {
            outward_normal.neg()
        };
    }
}

/// The stored normal never points along the ray: whenever the dot product
/// with the outward normal is a number, the dot product with the stored
/// normal is a number that is not above zero, whichever side was hit.
pub proof fn lemma_stored_normal_opposes_ray(facing: Scalar)
    requires
        !facing.spec_is_nan(),
    ensures
        !stored_facing(facing).spec_is_nan(),
        !Scalar::spec_zero().spec_lt(stored_facing(facing)),
        stored_facing(facing).rank() <= 0,
{
    lemma_neg_mirrors(facing);
}

/// Whether `hit` is the answer that the hit protocol asks for, of an object
/// whose crossings with the ray are `crossings`: no hit if no crossing lies
/// in the window, else a crossing in the window such that none lies nearer.
pub open spec fn nearest_in(
    crossings: Set<HitRecord>,
    t_min: Scalar,
    t_max: Scalar,
    hit: Option<HitRecord>,
) -> bool {
    match hit {
        None => forall|h: HitRecord| #[trigger]
            crossings.contains(h) ==> !h.in_window(t_min, t_max),
        Some(best) => {
            &&& crossings.contains(best)
            &&& best.in_window(t_min, t_max)
            &&& forall|h: HitRecord| #[trigger]
                crossings.contains(h) && h.in_window(t_min, t_max) ==> !h.spec_t().spec_lt(
                    best.spec_t(),
                )
        },
    }
}

/// An object that a ray can hit.
pub trait Hittable {
    /// The crossing of the ray with the object that has the smallest ray
    /// parameter strictly between `t_min` and `t_max`, or `None` if there is
    /// no crossing there. Of an answer this much is taken for granted: a
    /// hit lies in the window it was asked for.
    fn hit(&self, r: &Ray, t_min: Scalar, t_max: Scalar) -> (hit: Option<HitRecord>)
        ensures
            hit matches Some(record) ==> record.in_window(t_min, t_max),
    ;
}

/// Whether `hit` is an answer that `object` may give when asked for its hit
/// by the ray in the window.
pub open spec fn may_answer<T: Hittable + ?Sized>(
    object: &T,
    r: Ray,
    t_min: Scalar,
    t_max: Scalar,
    hit: Option<HitRecord>,
) -> bool {
    call_ensures(T::hit, (object, &r, t_min, t_max), hit)
}

/// Whether `hit` is an answer that member `i` of `members` may give.
pub open spec fn member_may_answer(
    members: Seq<Box<dyn Hittable>>,
    i: int,
    r: Ray,
    t_min: Scalar,
    t_max: Scalar,
    hit: Option<HitRecord>,
) -> bool {
    may_answer::<dyn Hittable>(&*members[i], r, t_min, t_max, hit)
}

/// Whether member `i` of `members` keeps the hit protocol for the ray, its
/// crossings with the ray being `crossings`: whatever window it is asked
/// for, it answers with the nearest crossing in that window.
pub open spec fn keeps_protocol(
    members: Seq<Box<dyn Hittable>>,
    i: int,
    r: Ray,
    crossings: Set<HitRecord>,
) -> bool {
    forall|t_min: Scalar, t_max: Scalar, hit: Option<HitRecord>| #[trigger]
        member_may_answer(members, i, r, t_min, t_max, hit) ==> nearest_in(
            crossings,
            t_min,
            t_max,
            hit,
        )
}

/// The last hit among the answers, if any is a hit.
pub open spec fn last_hit(answers: Seq<Option<HitRecord>>) -> Option<HitRecord>
    decreases answers.len(),
{
    if answers.len() == 0 {
        None
    } else {
        match answers.last() {
            Some(record) => Some(record),
            None => last_hit(answers.drop_last()),
        }
    }
}

/// The far end of the window still open once `best` is found: the ray
/// parameter of `best`, or `t_max` while nothing is found.
pub open spec fn far_end(best: Option<HitRecord>, t_max: Scalar) -> Scalar {
    match best {
        Some(record) => record.spec_t(),
        None => t_max,
    }
}

/// Asks `object` for its hit.
fn ask<T: Hittable + ?Sized>(object: &T, r: &Ray, t_min: Scalar, t_max: Scalar) -> (hit: Option<
    HitRecord,
>)
    ensures
        may_answer(object, *r, t_min, t_max, hit),
        hit matches Some(record) ==> record.in_window(t_min, t_max),
{
    object.hit(r, t_min, t_max)
}

/// A scene: objects in the order in which they were put in. A ray hits the
/// scene where it first hits one of its members.
pub struct Hittables {
    hittables: Vec<Box<dyn Hittable>>,
}

impl Hittables {
    /// The members, oldest first.
    pub closed spec fn members(&self) -> Seq<Box<dyn Hittable>> {
        self.hittables@
    }

    /// Whether `answers` are what the members answered in one search along
    /// the ray: one answer from each member, in order, each member asked for
    /// its hit between `t_min` and the nearest hit answered before it, or
    /// `t_max` while there was none.
    pub open spec fn answered_by(
        &self,
        r: Ray,
        t_min: Scalar,
        t_max: Scalar,
        answers: Seq<Option<HitRecord>>,
    ) -> bool {
        &&& answers.len() == self.members().len()
        &&& forall|i: int|
            0 <= i < answers.len() ==> member_may_answer(
                self.members(),
                i,
                r,
                t_min,
                far_end(last_hit(answers.take(i)), t_max),
                #[trigger] answers[i],
            )
    }

    /// The empty scene.
    pub fn new() -> (scene: Hittables)
        ensures
            scene.members() == Seq::<Box<dyn Hittable>>::empty(),
    {
        Hittables { hittables: Vec::new() }
    }

    /// Puts `hittable` in as the last member.
    pub fn push(&mut self, hittable: Box<dyn Hittable>)
        ensures
            final(self).members() == old(self).members().push(hittable),
    {
        self.hittables.push(hittable);
    }

    /// Takes every member out.
    pub fn clear(&mut self)
        ensures
            final(self).members() == Seq::<Box<dyn Hittable>>::empty(),
    {
        self.hittables.clear();
    }
}

impl Hittable for Hittables {
    /// Asks each member in turn for its hit before the nearest hit found so
    /// far. Every hit answered is therefore nearer than all before it, and
    /// the last one answered is the scene's.
    fn hit(&self, r: &Ray, t_min: Scalar, t_max: Scalar) -> (hit: Option<HitRecord>)
        ensures
            exists|answers: Seq<Option<HitRecord>>| #[trigger]
                self.answered_by(*r, t_min, t_max, answers) && hit == last_hit(answers),
    {
        let mut closest_so_far: Scalar = t_max;
        let mut hit_record: Option<HitRecord> = None;
        let ghost mut answers: Seq<Option<HitRecord>> = Seq::empty();
        let mut i: usize = 0;
        while i < self.hittables.len()
            invariant
                i <= self.hittables.len(),
                self.hittables@ == self.members(),
                answers.len() == i,
                hit_record == last_hit(answers),
                closest_so_far == far_end(hit_record, t_max),
                hit_record matches Some(record) ==> record.in_window(t_min, t_max),
                forall|j: int|
                    0 <= j < i ==> member_may_answer(
                        self.members(),
                        j,
                        *r,
                        t_min,
                        far_end(last_hit(answers.take(j)), t_max),
                        #[trigger] answers[j],
                    ),
            decreases self.hittables.len() - i,
        {
            let found: Option<HitRecord> = ask::<dyn Hittable>(
                &*self.hittables[i],
                r,
                t_min,
                closest_so_far,
            );
            proof {
                let longer = answers.push(found);
                assert(longer.take(i as int) =~= answers);
                assert(longer.drop_last() =~= answers);
                assert forall|j: int| 0 <= j < i + 1 implies member_may_answer(
                    self.members(),
                    j,
                    *r,
                    t_min,
                    far_end(last_hit(longer.take(j)), t_max),
                    #[trigger] longer[j],
                ) by {
                    if j < i {
                        assert(longer.take(j) =~= answers.take(j));
                        assert(longer[j] == answers[j]);
                    }
                }
                answers = longer;
            }
            if let Some(record) = found {
                closest_so_far = record.t();
                hit_record = Some(record);
            }
            i += 1;
        }
        proof {
            assert(self.answered_by(*r, t_min, t_max, answers));
        }
        hit_record
    }
}

/// Whether one of the first `n` of the sets holds `h`.
pub open spec fn crossed_among(crossings: Seq<Set<HitRecord>>, n: int, h: HitRecord) -> bool {
    exists|k: int| 0 <= k < n && (#[trigger] crossings[k]).contains(h)
}

/// The crossings of a scene: those of all its members together, `crossings`
/// holding the crossings of each member.
pub open spec fn all_crossings(crossings: Seq<Set<HitRecord>>) -> Set<HitRecord> {
    Set::new(|h: HitRecord| crossed_among(crossings, crossings.len() as int, h))
}

/// After the first `n` members have answered, the last hit answered is the
/// nearest crossing of these members in the window.
proof fn lemma_search_finds_nearest(
    scene: Hittables,
    r: Ray,
    t_min: Scalar,
    t_max: Scalar,
    crossings: Seq<Set<HitRecord>>,
    answers: Seq<Option<HitRecord>>,
    n: int,
)
    requires
        crossings.len() == scene.members().len(),
        forall|i: int|
            0 <= i < crossings.len() ==> keeps_protocol(
                scene.members(),
                i,
                r,
                #[trigger] crossings[i],
            ),
        scene.answered_by(r, t_min, t_max, answers),
        0 <= n <= answers.len(),
    ensures
        nearest_in(
            Set::new(|h: HitRecord| crossed_among(crossings, n, h)),
            t_min,
            t_max,
            last_hit(answers.take(n)),
        ),
    decreases n,
{
    let after = Set::new(|h: HitRecord| crossed_among(crossings, n, h));
    if n == 0 {
        assert(answers.take(0) =~= Seq::<Option<HitRecord>>::empty());
    } else {
        let before = Set::new(|h: HitRecord| crossed_among(crossings, n - 1, h));
        let own = crossings[n - 1];
        let previous = last_hit(answers.take(n - 1));
        let found = answers[n - 1];
        lemma_search_finds_nearest(scene, r, t_min, t_max, crossings, answers, n - 1);
        assert(answers.take(n).drop_last() =~= answers.take(n - 1));
        assert(answers.take(n).last() == found);
        assert(keeps_protocol(scene.members(), n - 1, r, own));
        assert(member_may_answer(
            scene.members(),
            n - 1,
            r,
            t_min,
            far_end(previous, t_max),
            found,
        ));
        assert(nearest_in(own, t_min, far_end(previous, t_max), found));
        assert forall|h: HitRecord| after.contains(h) implies before.contains(h) || own.contains(
            h,
        ) by {
            let k = choose|k: int| 0 <= k < n && (#[trigger] crossings[k]).contains(h);
            if k < n - 1 {
                assert(crossed_among(crossings, n - 1, h));
            }
        }
        match found {
            Some(record) => {
                assert(crossed_among(crossings, n, record));
                assert forall|h: HitRecord| #[trigger]
                    after.contains(h) && h.in_window(t_min, t_max) implies !h.spec_t().spec_lt(
                    record.spec_t(),
                ) by {
                    if own.contains(h) {
                        if h.spec_t().spec_lt(record.spec_t()) {
                            assert(h.in_window(t_min, far_end(previous, t_max)));
                        }
                    } else {
                        assert(before.contains(h));
                    }
                }
            },
            None => {
                match previous {
                    Some(best) => {
                        assert(crossed_among(crossings, n - 1, best));
                        assert(crossed_among(crossings, n, best));
                        assert forall|h: HitRecord| #[trigger]
                            after.contains(h) && h.in_window(
                                t_min,
                                t_max,
                            ) implies !h.spec_t().spec_lt(best.spec_t()) by {
                            if own.contains(h) {
                                if h.spec_t().spec_lt(best.spec_t()) {
                                    assert(h.in_window(t_min, best.spec_t()));
                                }
                            } else {
                                assert(before.contains(h));
                            }
                        }
                    },
                    None => {
                        assert forall|h: HitRecord| #[trigger]
                            after.contains(h) implies !h.in_window(t_min, t_max) by {
                            if own.contains(h) {
                            } else {
                                assert(before.contains(h));
                            }
                        }
                    },
                }
            },
        }
    }
}

/// A scene whose members keep the hit protocol keeps it too: the hit of the
/// scene is the nearest crossing of any member in the window, or no hit if
/// no member has a crossing there.
pub proof fn lemma_scene_hit_is_nearest(
    scene: Hittables,
    r: Ray,
    t_min: Scalar,
    t_max: Scalar,
    crossings: Seq<Set<HitRecord>>,
    answers: Seq<Option<HitRecord>>,
)
    requires
        crossings.len() == scene.members().len(),
        forall|i: int|
            0 <= i < crossings.len() ==> keeps_protocol(
                scene.members(),
                i,
                r,
                #[trigger] crossings[i],
            ),
        scene.answered_by(r, t_min, t_max, answers),
    ensures
        nearest_in(all_crossings(crossings), t_min, t_max, last_hit(answers)),
{
    lemma_search_finds_nearest(
        scene,
        r,
        t_min,
        t_max,
        crossings,
        answers,
        answers.len() as int,
    );
    assert(answers.take(answers.len() as int) =~= answers);
    assert(Set::new(|h: HitRecord| crossed_among(crossings, answers.len() as int, h))
        =~= all_crossings(crossings));
}

/// Whether no two different crossings in the window share a ray parameter.
pub open spec fn parameters_distinct(crossings: Set<HitRecord>, t_min: Scalar, t_max: Scalar) -> bool {
    forall|a: HitRecord, b: HitRecord|
        #![trigger crossings.contains(a), crossings.contains(b)]
        crossings.contains(a) && crossings.contains(b) && a.in_window(t_min, t_max) && b.in_window(
            t_min,
            t_max,
        ) && a.spec_t().rank() == b.spec_t().rank() ==> a == b
}

/// The crossings decide the hit: two answers of the hit protocol for the
/// same crossings and the same window are both no hit or both a hit, at the
/// same distance along the ray, and the very same record unless two
/// different crossings lie at that distance.
pub proof fn lemma_hit_is_determined(
    crossings: Set<HitRecord>,
    t_min: Scalar,
    t_max: Scalar,
    first: Option<HitRecord>,
    second: Option<HitRecord>,
)
    requires
        nearest_in(crossings, t_min, t_max, first),
        nearest_in(crossings, t_min, t_max, second),
    ensures
        first is None <==> second is None,
        first is Some ==> first->0.spec_t().rank() == second->0.spec_t().rank(),
        parameters_distinct(crossings, t_min, t_max) ==> first == second,
{
}

/// Whether every member of `first` is a member of `second` too, `places`
/// giving for each member of `first` its place in `second`.
pub open spec fn found_in(first: Hittables, second: Hittables, places: Seq<int>) -> bool {
    &&& places.len() == first.members().len()
    &&& forall|i: int|
        0 <= i < places.len() ==> 0 <= #[trigger] places[i] < second.members().len()
            && second.members()[places[i]] == first.members()[i]
}

/// The nearest-hit law: two scenes of the same objects, put in in any
/// order, answer a ray alike if the objects keep the hit protocol. Both miss
/// or both hit, at the same distance along the ray, and with the very same
/// record unless two different crossings lie at that distance.
///
/// `there` gives for each member of `first` its place in `second`, and
/// `back` leads from there to where it came from; `crossings` holds the
/// crossings of each member of `first` with the ray.
pub proof fn lemma_hit_ignores_order(
    first: Hittables,
    second: Hittables,
    there: Seq<int>,
    back: Seq<int>,
    r: Ray,
    t_min: Scalar,
    t_max: Scalar,
    crossings: Seq<Set<HitRecord>>,
    answers_first: Seq<Option<HitRecord>>,
    answers_second: Seq<Option<HitRecord>>,
)
    requires
        found_in(first, second, there),
        found_in(second, first, back),
        forall|i: int| 0 <= i < there.len() ==> back[#[trigger] there[i]] == i,
        crossings.len() == first.members().len(),
        forall|i: int|
            0 <= i < crossings.len() ==> keeps_protocol(
                first.members(),
                i,
                r,
                #[trigger] crossings[i],
            ),
        first.answered_by(r, t_min, t_max, answers_first),
        second.answered_by(r, t_min, t_max, answers_second),
    ensures
        last_hit(answers_first) is None <==> last_hit(answers_second) is None,
        last_hit(answers_first) is Some ==> last_hit(answers_first)->0.spec_t().rank() == last_hit(
            answers_second,
        )->0.spec_t().rank(),
        parameters_distinct(all_crossings(crossings), t_min, t_max) ==> last_hit(answers_first)
            == last_hit(answers_second),
{
    let moved = Seq::new(second.members().len(), |j: int| crossings[back[j]]);
    assert forall|j: int| 0 <= j < moved.len() implies keeps_protocol(
        second.members(),
        j,
        r,
        #[trigger] moved[j],
    ) by {
        let i = back[j];
        assert(first.members()[i] == second.members()[j]);
        assert(keeps_protocol(first.members(), i, r, crossings[i]));
        assert forall|lo: Scalar, hi: Scalar, hit: Option<HitRecord>| #[trigger]
            member_may_answer(second.members(), j, r, lo, hi, hit) implies nearest_in(
            moved[j],
            lo,
            hi,
            hit,
        ) by {
            assert(member_may_answer(first.members(), i, r, lo, hi, hit));
        }
    }
    lemma_scene_hit_is_nearest(first, r, t_min, t_max, crossings, answers_first);
    lemma_scene_hit_is_nearest(second, r, t_min, t_max, moved, answers_second);
    assert forall|h: HitRecord| all_crossings(crossings).contains(h) implies all_crossings(
        moved,
    ).contains(h) by {
        let k = choose|k: int| 0 <= k < crossings.len() && (#[trigger] crossings[k]).contains(h);
        let j = there[k];
        assert(back[j] == k);
        assert(moved[j].contains(h));
    }
    assert forall|h: HitRecord| all_crossings(moved).contains(h) implies all_crossings(
        crossings,
    ).contains(h) by {
        let j = choose|j: int| 0 <= j < moved.len() && (#[trigger] moved[j]).contains(h);
        assert(crossings[back[j]].contains(h));
    }
    assert(all_crossings(crossings) =~= all_crossings(moved));
    lemma_hit_is_determined(
        all_crossings(crossings),
        t_min,
        t_max,
        last_hit(answers_first),
        last_hit(answers_second),
    );
}

/// A sphere: the points at distance `radius` from `center`. A radius that is
/// not above zero makes a sphere that no ray hits.
#[derive(Clone, Copy, Debug, PartialEq, Eq, Structural)]
pub struct Sphere {
    center: Point,
    radius: Scalar,
}

impl Sphere {
    /// The centre.
    pub closed spec fn spec_center(&self) -> Point {
        self.center
    }

    /// The radius.
    pub closed spec fn spec_radius(&self) -> Scalar {
        self.radius
    }

    /// The ray parameter at which a ray hits the sphere, given the numbers
    /// of the quadratic `|origin + t * direction - center|^2 = radius^2`:
    /// its discriminant and its two roots, `near` the one with the square
    /// root subtracted and `far` the one with it added. There is no hit
    /// where the radius is not above zero or the discriminant is below zero;
    /// else the hit is at `near` if that lies in the window, else at `far`
    /// if that does.
    pub open spec fn spec_hit_at(
        &self,
        discriminant: Scalar,
        near: Scalar,
        far: Scalar,
        t_min: Scalar,
        t_max: Scalar,
    ) -> Option<Scalar> {
        if !Scalar::spec_zero().spec_lt(self.spec_radius()) {
            None
        } else if discriminant.spec_lt(Scalar::spec_zero()) {
            None
        } else if t_min.spec_lt(near) && near.spec_lt(t_max) {
            Some(near)
        } else if t_min.spec_lt(far) && far.spec_lt(t_max) {
            Some(far)
        } else {
            None
        }
    }

    /// The sphere round `center` with the given radius.
    pub fn new(center: Point, radius: Scalar) -> (sphere: Sphere)
        ensures
            sphere.spec_center() == center,
            sphere.spec_radius() == radius,
    {
        Sphere { center, radius }
    }

    /// The centre.
    #[verifier::when_used_as_spec(spec_center)]
    pub fn center(&self) -> (center: Point)
        ensures
            center == self.spec_center(),
    {
        self.center
    }

    /// The radius.
    #[verifier::when_used_as_spec(spec_radius)]
    pub fn radius(&self) -> (radius: Scalar)
        ensures
            radius == self.spec_radius(),
    {
        self.radius
    }

    /// Chooses the root of the quadratic at which the ray hits the sphere:
    /// the near root if it lies strictly between `t_min` and `t_max`, else
    /// the far root if that does, else none. See [`Sphere::spec_hit_at`].
    pub fn hit_at(
        &self,
        discriminant: Scalar,
        near: Scalar,
        far: Scalar,
        t_min: Scalar,
        t_max: Scalar,
    ) -> (t: Option<Scalar>)
        ensures
            t == self.spec_hit_at(discriminant, near, far, t_min, t_max),
            t matches Some(root) ==> t_min.spec_lt(root) && root.spec_lt(t_max),
    {
        if !Scalar::zero().lt(self.radius) {
            return None;
        }
        if discriminant.lt(Scalar::zero()) {
            return None;
        }
        if near.lt(t_max) && t_min.lt(near) {
            return Some(near);
        }
        if far.lt(t_max) && t_min.lt(far) {
            return Some(far);
        }
        None
    }
}

/// A sphere's hit is its nearest crossing in the window: with the two roots
/// in their order, the root chosen lies in the window and neither root lies
/// in the window before it, and where none is chosen of a proper sphere with
/// a discriminant not below zero, neither root lies in the window.
pub proof fn lemma_sphere_hit_is_nearest(
    sphere: Sphere,
    discriminant: Scalar,
    near: Scalar,
    far: Scalar,
    t_min: Scalar,
    t_max: Scalar,
)
    requires
        !far.spec_lt(near),
    ensures
        match sphere.spec_hit_at(discriminant, near, far, t_min, t_max) {
            Some(root) => {
                &&& root == near || root == far
                &&& t_min.spec_lt(root) && root.spec_lt(t_max)
                &&& t_min.spec_lt(near) && near.spec_lt(t_max) ==> !near.spec_lt(root)
                &&& t_min.spec_lt(far) && far.spec_lt(t_max) ==> !far.spec_lt(root)
            },
            None => {
                Scalar::spec_zero().spec_lt(sphere.spec_radius()) && !discriminant.spec_lt(
                    Scalar::spec_zero(),
                ) ==> {
                    &&& !(t_min.spec_lt(near) && near.spec_lt(t_max))
                    &&& !(t_min.spec_lt(far) && far.spec_lt(t_max))
                }
            },
        },
{
}

} // verus!
