//! The intersection capability: hit records, the `Hittable` trait, and the
//! scene aggregate that returns the closest hit among its members.

use vstd::prelude::*;

use crate::fixed::{OP_MAX, SCALE};
use crate::material::Material;
use crate::ray::{Ray, Rayv};
use crate::sphere::Sphere;
use crate::vec3::{Point3, Vec3, V3};

verus! {

/// Largest coordinate magnitude of a ray handed to an intersection test.
pub const RAY_MAX: i128 = 100_000_000_000;

/// Largest coordinate magnitude of a returned hit point.
pub const HIT_MAX: i128 = 40_000_000_000;

/// Mathematical view of a hit record.
pub ghost struct HitRecordv {
    pub p: V3,
    pub normal: V3,
    pub t: int,
    pub front_face: bool,
    pub material: Material,
}

/// The result of a successful ray/primitive intersection test: the hit
/// point, the surface normal oriented against the ray, the ray parameter,
/// which side was struck, and the surface's material.
#[derive(Clone, Copy, Debug, PartialEq, Eq, Structural)]
pub struct HitRecord {
    pub p: Point3,
    pub normal: Vec3,
    pub t: i128,
    pub front_face: bool,
    pub material: Material,
}

impl View for HitRecord {
    type V = HitRecordv;

    open spec fn view(&self) -> HitRecordv {
        HitRecordv {
            p: self.p@,
            normal: self.normal@,
            t: self.t as int,
            front_face: self.front_face,
            material: self.material,
        }
    }
}

/// A ray fit for intersection tests: bounded coordinates and a direction
/// long enough to be resolved on the fixed-point grid.
pub open spec fn ray_wf(r: Rayv) -> bool {
    r.orig.in_bounds(RAY_MAX as int) && r.dir.in_bounds(RAY_MAX as int) && r.dir.len_sq_s() >= 1
}

/// Decide `ray_wf` at run time, for callers that assemble rays from
/// unchecked values.
pub fn ray_wf_check(r: &Ray) -> (ok: bool)
    ensures
        ok == ray_wf(r@),
{
    crate::vec3::bounded(&r.orig, RAY_MAX) && crate::vec3::bounded(&r.dir, RAY_MAX)
        && r.dir.length_squared() >= 1
}

/// A hit record fit to scatter from: the point and normal are bounded and
/// the material is well formed.  The two-unit coordinate bound on the
/// normal is what the intersection test certifies on the grid; for a
/// genuine hit the normal is in fact unit length up to rounding, which
/// exact integer arithmetic cannot promise in general.
pub open spec fn rec_wf(h: HitRecordv) -> bool {
    h.p.in_bounds(HIT_MAX as int) && h.normal.in_bounds(2 * (SCALE as int)) && h.material.wf_s()
}

/// The view of an optional hit record.
pub open spec fn hit_opt_view(o: Option<HitRecord>) -> Option<HitRecordv> {
    match o {
        Some(h) => Some(h@),
        None => None,
    }
}

impl HitRecord {
    /// Orient the stored normal against the incoming ray: keep the outward
    /// normal when the ray arrives from outside, flip it otherwise.
    pub fn set_face_normal(&mut self, r: &Ray, outward_normal: &Vec3)
        requires
            r@.dir.in_bounds(OP_MAX as int),
            outward_normal@.in_bounds(OP_MAX as int),
        ensures
            final(self).front_face == (r@.dir.dot_s(outward_normal@) < 0),
            final(self).normal@ == (if final(self).front_face {
                outward_normal@
            } else {
                outward_normal@.neg_s()
            }),
            final(self).p == old(self).p,
            final(self).t == old(self).t,
            final(self).material == old(self).material,
    {
        self.front_face = Vec3::dot(&r.dir, outward_normal) < 0;
        self.normal = if self.front_face {
            *outward_normal
        } else {
            outward_normal.neg()
        };
    }
}

/// The capability of being intersected by a ray over a parameter window.
pub trait Hittable {
    /// The implementor's own well-formedness condition.
    spec fn wf(&self) -> bool;

    /// What `hit` returns, as a mathematical value.
    spec fn hit_spec(&self, r: Rayv, t_min: int, t_max: int) -> Option<HitRecordv>;

    /// Intersect the ray with this object over `[t_min, t_max]`.
    fn hit(&self, r: &Ray, t_min: i128, t_max: i128) -> (res: Option<HitRecord>)
        requires
            self.wf(),
            ray_wf(r@),
            -OP_MAX <= t_min <= t_max <= OP_MAX,
        ensures
            hit_opt_view(res) == self.hit_spec(r@, t_min as int, t_max as int),
            res matches Some(h) ==> rec_wf(h@),
            res matches Some(h) ==> t_min as int <= h@.t <= t_max as int,
            res matches Some(h) ==> r@.dir.dot_s(h@.normal) <= 0,
    ;
}

/// The scene: an ordered collection of primitives, itself intersectable.
/// It owns its spheres exclusively and grows only through `add`.
pub struct HittableList {
    pub objects: Vec<Sphere>,
}

impl HittableList {
    /// Every member primitive is well formed.
    pub open spec fn wf_s(self) -> bool {
        forall|i: int|
            0 <= i < self.objects@.len() ==> (#[trigger] self.objects@[i])@.wf_s()
    }

    /// The scan that the aggregate intersection performs, starting at
    /// member `k` with the window top narrowed to `closest` and `best`
    /// the nearest record seen so far.
    pub open spec fn scan_s(
        objects: Seq<Sphere>,
        k: int,
        r: Rayv,
        t_min: int,
        closest: int,
        best: Option<HitRecordv>,
    ) -> Option<HitRecordv>
        decreases objects.len() - k,
    {
        if k < 0 || k >= objects.len() {
            best
        } else {
            match objects[k]@.hit_v(r, t_min, closest) {
                Some(h) => Self::scan_s(objects, k + 1, r, t_min, h.t, Some(h)),
                None => Self::scan_s(objects, k + 1, r, t_min, closest, best),
            }
        }
    }

    /// What the aggregate intersection returns: the closest hit among the
    /// members, scanned in insertion order.
    pub open spec fn hit_list_s(self, r: Rayv, t_min: int, t_max: int) -> Option<HitRecordv> {
        Self::scan_s(self.objects@, 0, r, t_min, t_max, None)
    }
    /// An empty scene.
    pub fn new() -> (s: HittableList)
        ensures
            s.objects@ =~= Seq::<Sphere>::empty(),
    {
        HittableList { objects: Vec::new() }
    }

    /// Remove every primitive.
    pub fn clear(&mut self)
        ensures
            final(self).objects@ =~= Seq::<Sphere>::empty(),
    {
        self.objects.clear();
    }

    /// Append a primitive to the scene.
    pub fn add(&mut self, obj: Sphere)
        ensures
            final(self).objects@ == old(self).objects@.push(obj),
    {
        self.objects.push(obj);
    }
}

/// Induction over the scan: carrying a best-so-far record that is the
/// nearest hit among the members already visited, the scan ends with the
/// nearest hit among all members.
proof fn lemma_scan_closest(
    objects: Seq<Sphere>,
    k: int,
    r: Rayv,
    t_min: int,
    closest: int,
    t_max: int,
    best: Option<HitRecordv>,
)
    requires
        0 <= k <= objects.len(),
        r.dir.len_sq_s() >= 1,
        t_min <= closest <= t_max,
        best is None ==> closest == t_max && (forall|j: int|
            0 <= j < k ==> (#[trigger] objects[j])@.first_root_s(r, t_min, t_max) is None),
        best matches Some(h) ==> {
            &&& h.t == closest
            &&& t_min <= h.t <= t_max
            &&& exists|j: int|
                0 <= j < k && (#[trigger] objects[j])@.first_root_s(r, t_min, t_max) == Some(h.t)
                    && h == objects[j]@.record_at_s(r, h.t)
            &&& forall|j: int|
                0 <= j < k ==> match (#[trigger] objects[j])@.first_root_s(r, t_min, t_max) {
                    Some(tj) => h.t <= tj,
                    None => true,
                }
        },
    ensures
        HittableList::scan_s(objects, k, r, t_min, closest, best) is None ==> forall|j: int|
            0 <= j < objects.len() ==> (#[trigger] objects[j])@.first_root_s(
                r,
                t_min,
                t_max,
            ) is None,
        HittableList::scan_s(objects, k, r, t_min, closest, best) matches Some(h) ==> {
            &&& t_min <= h.t <= t_max
            &&& exists|j: int|
                0 <= j < objects.len() && (#[trigger] objects[j])@.first_root_s(r, t_min, t_max)
                    == Some(h.t) && h == objects[j]@.record_at_s(r, h.t)
            &&& forall|j: int|
                0 <= j < objects.len() ==> match (#[trigger] objects[j])@.first_root_s(
                    r,
                    t_min,
                    t_max,
                ) {
                    Some(tj) => h.t <= tj,
                    None => true,
                }
        },
    decreases objects.len() - k,
{
    if k < objects.len() {
        let s = objects[k]@;
        crate::sphere::lemma_first_root_shrink(s, r, t_min, closest, t_max);
        match s.hit_v(r, t_min, closest) {
            Some(h2) => {
                assert(s.first_root_s(r, t_min, t_max) == Some(h2.t));
                assert(objects[k]@.first_root_s(r, t_min, t_max) == Some(h2.t)
                    && h2 == objects[k]@.record_at_s(r, h2.t));
                lemma_scan_closest(objects, k + 1, r, t_min, h2.t, t_max, Some(h2));
            },
            None => {
                lemma_scan_closest(objects, k + 1, r, t_min, closest, t_max, best);
            },
        }
    }
}

/// The closest-hit law: when the scene's intersection returns a record,
/// that record is a member's own first hit over the full window, and its
/// parameter is at most the parameter of every other member's hit in
/// range; when it returns nothing, no member hits in range.
pub proof fn lemma_closest_hit(s: HittableList, r: Rayv, t_min: int, t_max: int)
    requires
        r.dir.len_sq_s() >= 1,
        t_min <= t_max,
    ensures
        s.hit_list_s(r, t_min, t_max) is None ==> forall|j: int|
            0 <= j < s.objects@.len() ==> (#[trigger] s.objects@[j])@.first_root_s(
                r,
                t_min,
                t_max,
            ) is None,
        s.hit_list_s(r, t_min, t_max) matches Some(h) ==> {
            &&& t_min <= h.t <= t_max
            &&& exists|j: int|
                0 <= j < s.objects@.len() && (#[trigger] s.objects@[j])@.first_root_s(
                    r,
                    t_min,
                    t_max,
                ) == Some(h.t) && h == s.objects@[j]@.record_at_s(r, h.t)
            &&& forall|j: int|
                0 <= j < s.objects@.len() ==> match (#[trigger] s.objects@[j])@.first_root_s(
                    r,
                    t_min,
                    t_max,
                ) {
                    Some(tj) => h.t <= tj,
                    None => true,
                }
        },
{
    lemma_scan_closest(s.objects@, 0, r, t_min, t_max, t_max, None);
}

/// Front-face law for the scene: any record the aggregate returns has its
/// normal opposing the incoming ray.
pub proof fn lemma_front_face_list(s: HittableList, r: Rayv, t_min: int, t_max: int)
    requires
        r.dir.len_sq_s() >= 1,
        t_min <= t_max,
    ensures
        s.hit_list_s(r, t_min, t_max) matches Some(h) ==> r.dir.dot_s(h.normal) <= 0,
{
    lemma_closest_hit(s, r, t_min, t_max);
    match s.hit_list_s(r, t_min, t_max) {
        Some(h) => {
            let j = choose|j: int|
                0 <= j < s.objects@.len() && (#[trigger] s.objects@[j])@.first_root_s(
                    r,
                    t_min,
                    t_max,
                ) == Some(h.t) && h == s.objects@[j]@.record_at_s(r, h.t);
            crate::vec3::lemma_dot_neg(r.dir, s.objects@[j]@.outward_s(r, h.t));
        },
        None => {},
    }
}

impl Hittable for HittableList {
    open spec fn wf(&self) -> bool {
        self.wf_s()
    }

    open spec fn hit_spec(&self, r: Rayv, t_min: int, t_max: int) -> Option<HitRecordv> {
        self.hit_list_s(r, t_min, t_max)
    }

    /// Closest-hit composition: scan every member, narrowing the window's
    /// top to the best parameter seen, and return the last hit kept.
    fn hit(&self, r: &Ray, t_min: i128, t_max: i128) -> (res: Option<HitRecord>) {
        let mut rec: Option<HitRecord> = None;
        let mut closest: i128 = t_max;
        let n = self.objects.len();
        let mut i: usize = 0;
        while i < n
            invariant
                0 <= i <= n,
                n == self.objects@.len(),
                self.wf_s(),
                ray_wf(r@),
                -OP_MAX <= t_min <= closest <= t_max <= OP_MAX,
                rec matches Some(h) ==> rec_wf(h@),
                rec matches Some(h) ==> closest == h.t && t_min as int <= h@.t,
                rec matches Some(h) ==> r@.dir.dot_s(h@.normal) <= 0,
                rec is None ==> closest == t_max,
                HittableList::scan_s(
                    self.objects@,
                    i as int,
                    r@,
                    t_min as int,
                    closest as int,
                    hit_opt_view(rec),
                ) == HittableList::scan_s(
                    self.objects@,
                    0,
                    r@,
                    t_min as int,
                    t_max as int,
                    None,
                ),
            decreases n - i,
        {
            let obj = self.objects[i];
            assert(obj@.wf_s());
            if let Some(temp) = obj.hit(r, t_min, closest) {
                closest = temp.t;
                rec = Some(temp);
            }
            i = i + 1;
        }
        rec
    }
}

impl Default for HittableList {
    /// An empty scene.
    fn default() -> (s: HittableList)
        ensures
            s.objects@ =~= Seq::<Sphere>::empty(),
    {
        HittableList { objects: Vec::new() }
    }
}

} // verus!
