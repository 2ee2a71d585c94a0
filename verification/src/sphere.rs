//! The sphere primitive and its ray-intersection test: the quadratic is
//! solved on the fixed-point grid and the nearer admissible root is
//! returned as a hit record.

use vstd::prelude::*;

use crate::fixed::{fmul, fmul_s, idiv, is_sqrt, isqrt, lemma_fmul_s_bound, lemma_sqrt_unique,
    sabs, sqrt_s, tdiv, OP_MAX, SCALE};
use crate::hittable::{ray_wf, rec_wf, HitRecord, HitRecordv, Hittable};
use crate::material::Material;
use crate::ray::{Ray, Rayv};
use crate::vec3::{bounded, lemma_dot_bound, lemma_smul_bound, Point3, Vec3, V3};

verus! {

/// Largest coordinate magnitude of a sphere's centre, and largest radius.
pub const CENTER_MAX: i128 = 10_000_000_000;

/// Smallest admissible radius magnitude: a thousandth of a unit, the same
/// cutoff the renderer uses against self-intersection.
pub const RADIUS_MIN: i128 = 1000;

/// A returned hit point may sit at most this far from the centre; genuine
/// hits lie on the sphere, well inside this margin.
pub const OFFSET_MAX: i128 = 30_000_000_000;

/// Mathematical view of a sphere.
pub ghost struct Spherev {
    pub center: V3,
    pub radius: int,
    pub material: Material,
}

impl Spherev {
    /// Bounded centre, a radius that the grid resolves (negative radii are
    /// allowed and flip the surface), and a well-formed material.
    pub open spec fn wf_s(self) -> bool {
        self.center.in_bounds(CENTER_MAX as int) && RADIUS_MIN as int <= sabs(self.radius)
            <= CENTER_MAX as int && self.material.wf_s()
    }

    /// Offset from the centre to the ray origin.
    pub open spec fn oc_s(self, r: Rayv) -> V3 {
        r.orig.sub_s(self.center)
    }

    /// Leading quadratic coefficient: the squared direction length.
    pub open spec fn a_s(self, r: Rayv) -> int {
        r.dir.len_sq_s()
    }

    /// Half the linear coefficient.
    pub open spec fn half_b_s(self, r: Rayv) -> int {
        self.oc_s(r).dot_s(r.dir)
    }

    /// Constant coefficient.
    pub open spec fn c_s(self, r: Rayv) -> int {
        self.oc_s(r).len_sq_s() - fmul_s(self.radius, self.radius)
    }

    /// Discriminant of the quadratic, in squared grid units.
    pub open spec fn disc_s(self, r: Rayv) -> int {
        self.half_b_s(r) * self.half_b_s(r) - self.a_s(r) * self.c_s(r)
    }

    /// Rounded-down square root of the discriminant, in grid units.
    pub open spec fn sqrtd_s(self, r: Rayv) -> int {
        sqrt_s(self.disc_s(r))
    }

    /// The smaller root of the quadratic.
    pub open spec fn root1_s(self, r: Rayv) -> int {
        tdiv((-self.half_b_s(r) - self.sqrtd_s(r)) * (SCALE as int), self.a_s(r))
    }

    /// The larger root of the quadratic.
    pub open spec fn root2_s(self, r: Rayv) -> int {
        tdiv((-self.half_b_s(r) + self.sqrtd_s(r)) * (SCALE as int), self.a_s(r))
    }

    /// The outward normal at parameter `t`: the offset from the centre
    /// divided by the radius, so a negative radius flips the surface.
    pub open spec fn outward_s(self, r: Rayv, t: int) -> V3 {
        r.at_s(t).sub_s(self.center).sdiv_s(self.radius)
    }

    /// A root is accepted when it lies in the queried window and its hit
    /// point sits on the sphere as far as the grid can tell: the offset
    /// from the centre is bounded and the outward normal is unit-scale.
    /// For a genuine intersection both bounds hold with a wide margin;
    /// only a nearly degenerate ray, whose hit point no finite arithmetic
    /// could place, is treated as a miss.
    pub open spec fn root_ok_s(self, r: Rayv, t: int, t_min: int, t_max: int) -> bool {
        t_min <= t <= t_max && r.at_s(t).sub_s(self.center).in_bounds(OFFSET_MAX as int)
            && self.outward_s(r, t).in_bounds(2 * (SCALE as int))
    }

    /// The nearer admissible root, if any: no real root means no hit, and
    /// the smaller root is preferred over the larger.
    pub open spec fn first_root_s(self, r: Rayv, t_min: int, t_max: int) -> Option<int> {
        if self.disc_s(r) < 0 {
            None
        } else if self.root_ok_s(r, self.root1_s(r), t_min, t_max) {
            Some(self.root1_s(r))
        } else if self.root_ok_s(r, self.root2_s(r), t_min, t_max) {
            Some(self.root2_s(r))
        } else {
            None
        }
    }

    /// The hit record produced at parameter `t`: the point on the ray, the
    /// outward normal oriented against the ray, and the sphere's material.
    pub open spec fn record_at_s(self, r: Rayv, t: int) -> HitRecordv {
        let p = r.at_s(t);
        let outward = self.outward_s(r, t);
        let ff = r.dir.dot_s(outward) < 0;
        HitRecordv {
            p,
            normal: if ff {
                outward
            } else {
                outward.neg_s()
            },
            t,
            front_face: ff,
            material: self.material,
        }
    }

    /// What the intersection test returns.
    pub open spec fn hit_v(self, r: Rayv, t_min: int, t_max: int) -> Option<HitRecordv> {
        match self.first_root_s(r, t_min, t_max) {
            Some(t) => Some(self.record_at_s(r, t)),
            None => None,
        }
    }
}

/// Any record the intersection returns carries a parameter within the
/// queried window, a point that is the ray evaluated there, a point
/// whose offset from the centre the grid confirmed to lie on the sphere,
/// and the sphere's own material, copied by value.
pub proof fn lemma_hit_in_range(s: Spherev, r: Rayv, t_min: int, t_max: int)
    ensures
        s.hit_v(r, t_min, t_max) matches Some(h) ==> {
            &&& t_min <= h.t <= t_max
            &&& h.p == r.at_s(h.t)
            &&& h.p.sub_s(s.center).in_bounds(OFFSET_MAX as int)
            &&& h.material == s.material
        },
{
}

/// Front-face law: any record the intersection returns has its normal
/// opposing the incoming ray.
pub proof fn lemma_front_face(s: Spherev, r: Rayv, t_min: int, t_max: int)
    ensures
        s.hit_v(r, t_min, t_max) matches Some(h) ==> r.dir.dot_s(h.normal) <= 0,
{
    match s.first_root_s(r, t_min, t_max) {
        Some(t) => {
            crate::vec3::lemma_dot_neg(r.dir, s.outward_s(r, t));
        },
        None => {},
    }
}

/// When the discriminant is non-negative the two roots are ordered.
pub proof fn lemma_roots_ordered(s: Spherev, r: Rayv)
    requires
        s.disc_s(r) >= 0,
        s.a_s(r) >= 1,
    ensures
        0 <= s.sqrtd_s(r),
        s.root1_s(r) <= s.root2_s(r),
{
    crate::fixed::lemma_sqrt_exists(s.disc_s(r));
    let sd = s.sqrtd_s(r);
    let hb = s.half_b_s(r);
    let sc = SCALE as int;
    assert((-hb - sd) * sc <= (-hb + sd) * sc) by (nonlinear_arith)
        requires
            sd >= 0,
            sc >= 1,
    ;
    crate::fixed::lemma_tdiv_monotone((-hb - sd) * sc, (-hb + sd) * sc, s.a_s(r));
}

/// Narrowing the top of the window keeps the first admissible root, drops
/// it when it lies beyond the narrowed top, and never conjures a new one.
pub proof fn lemma_first_root_shrink(s: Spherev, r: Rayv, t_min: int, c1: int, c2: int)
    requires
        s.a_s(r) >= 1,
        c1 <= c2,
    ensures
        s.first_root_s(r, t_min, c1) == (match s.first_root_s(r, t_min, c2) {
            Some(t) => if t <= c1 {
                Some(t)
            } else {
                None::<int>
            },
            None => None::<int>,
        }),
{
    if s.disc_s(r) >= 0 {
        lemma_roots_ordered(s, r);
    }
}

/// A sphere: centre, radius and material.  A negative radius turns the
/// surface inside out, which models hollow shells.
#[derive(Clone, Copy, Debug, PartialEq, Eq, Structural)]
pub struct Sphere {
    pub center: Point3,
    pub radius: i128,
    pub material: Material,
}

impl View for Sphere {
    type V = Spherev;

    open spec fn view(&self) -> Spherev {
        Spherev { center: self.center@, radius: self.radius as int, material: self.material }
    }
}

impl Sphere {
    pub fn new(cen: Point3, r: i128, m: Material) -> (s: Sphere)
        ensures
            s.center == cen,
            s.radius == r,
            s.material == m,
    {
        Sphere { center: cen, radius: r, material: m }
    }

    /// Whether parameter `t` is an admissible root for this sphere.
    fn root_check(&self, r: &Ray, t: i128, t_min: i128, t_max: i128) -> (ok: bool)
        requires
            self@.wf_s(),
            ray_wf(r@),
            -OP_MAX <= t_min <= t_max <= OP_MAX,
            sabs(t as int) <= 1_000_000_000_000_000_000_000_000int,
        ensures
            ok == self@.root_ok_s(r@, t as int, t_min as int, t_max as int),
    {
        if t < t_min || t_max < t {
            return false;
        }
        proof {
            lemma_smul_bound(
                r@.dir,
                t as int,
                100_000_000_000 as int,
                1_000_000_000_000_000_000 as int,
            );
            assert(1_000_000_000_000_000_000int * 100_000_000_000 / (SCALE as int)
                == 100_000_000_000_000_000_000_000int);
        }
        let p = r.at(t);
        let pc = p.sub(&self.center);
        if !bounded(&pc, OFFSET_MAX) {
            return false;
        }
        let outward = pc.sdiv(self.radius);
        bounded(&outward, 2 * SCALE)
    }
}

impl Hittable for Sphere {
    open spec fn wf(&self) -> bool {
        self@.wf_s()
    }

    open spec fn hit_spec(&self, r: Rayv, t_min: int, t_max: int) -> Option<HitRecordv> {
        self@.hit_v(r, t_min, t_max)
    }

    fn hit(&self, r: &Ray, t_min: i128, t_max: i128) -> (res: Option<HitRecord>) {
        let oc = r.orig.sub(&self.center);
        let a = r.dir.length_squared();
        proof {
            lemma_dot_bound(r@.dir, r@.dir, 100_000_000_000 as int);
            assert(3int * 100_000_000_000 * 100_000_000_000 / (SCALE as int)
                == 30_000_000_000_000_000int);
            lemma_dot_bound(oc@, r@.dir, 200_000_000_000 as int);
            lemma_dot_bound(oc@, oc@, 200_000_000_000 as int);
            assert(3int * 200_000_000_000 * 200_000_000_000 / (SCALE as int)
                == 120_000_000_000_000_000int);
            lemma_fmul_s_bound(
                self@.radius,
                self@.radius,
                10_000_000_000 as int,
                10_000_000_000 as int,
            );
            assert(10_000_000_000int * 10_000_000_000 / (SCALE as int)
                == 100_000_000_000_000int);
        }
        let half_b = Vec3::dot(&oc, &r.dir);
        let c = oc.length_squared() - fmul(self.radius, self.radius);
        proof {
            assert(-200_000_000_000_000_000_000_000_000_000_000_000int <= (half_b as int) * (
            half_b as int) <= 200_000_000_000_000_000_000_000_000_000_000_000int
                && -200_000_000_000_000_000_000_000_000_000_000_000int <= (a as int) * (
            c as int) <= 200_000_000_000_000_000_000_000_000_000_000_000int)
                by (nonlinear_arith)
                requires
                    -300_000_000_000_000_000int <= half_b <= 300_000_000_000_000_000int,
                    0 <= a <= 30_000_000_000_000_000int,
                    -200_000_000_000_000_000int <= c <= 200_000_000_000_000_000int,
            ;
        }
        let disc = half_b * half_b - a * c;
        if disc < 0 {
            return None;
        }
        let sq = isqrt(disc as u128);
        proof {
            lemma_sqrt_unique(disc as int, sq as int);
            assert(sq <= 700_000_000_000_000_000u128) by (nonlinear_arith)
                requires
                    is_sqrt(disc as int, sq as int),
                    0 <= disc as int <= 400_000_000_000_000_000_000_000_000_000_000_000int,
            ;
        }
        let sqrtd = sq as i128;
        proof {
            let hb = half_b as int;
            let sd = sqrtd as int;
            let sc = SCALE as int;
            assert(-(1_000_000_000_000_000_000_000_000int) <= (-hb - sd) * sc
                <= 1_000_000_000_000_000_000_000_000int && -(1_000_000_000_000_000_000_000_000int)
                <= (-hb + sd) * sc <= 1_000_000_000_000_000_000_000_000int)
                by (nonlinear_arith)
                requires
                    -300_000_000_000_000_000int <= hb <= 300_000_000_000_000_000int,
                    0 <= sd <= 700_000_000_000_000_000int,
                    sc == 1_000_000,
            ;
        }
        let root1 = idiv((-half_b - sqrtd) * SCALE, a);
        if self.root_check(r, root1, t_min, t_max) {
            Some(self.make_record(r, root1))
        } else {
            let root2 = idiv((-half_b + sqrtd) * SCALE, a);
            if self.root_check(r, root2, t_min, t_max) {
                Some(self.make_record(r, root2))
            } else {
                None
            }
        }
    }
}

impl Sphere {
    /// Build the hit record for an admissible root.
    fn make_record(&self, r: &Ray, t: i128) -> (rec: HitRecord)
        requires
            self@.wf_s(),
            ray_wf(r@),
            sabs(t as int) <= OP_MAX as int,
            r@.at_s(t as int).sub_s(self@.center).in_bounds(OFFSET_MAX as int),
            self@.outward_s(r@, t as int).in_bounds(2 * (SCALE as int)),
        ensures
            rec@ == self@.record_at_s(r@, t as int),
            rec_wf(rec@),
            r@.dir.dot_s(rec@.normal) <= 0,
    {
        proof {
            lemma_smul_bound(
                r@.dir,
                t as int,
                100_000_000_000 as int,
                1_000_000_000_000_000_000 as int,
            );
            assert(1_000_000_000_000_000_000int * 100_000_000_000 / (SCALE as int)
                == 100_000_000_000_000_000_000_000int);
        }
        let p = r.at(t);
        let pc = p.sub(&self.center);
        let outward = pc.sdiv(self.radius);
        let ff = Vec3::dot(&r.dir, &outward) < 0;
        proof {
            crate::vec3::lemma_dot_neg(r@.dir, outward@);
        }
        let normal = if ff {
            outward
        } else {
            outward.neg()
        };
        HitRecord { p, normal, t, front_face: ff, material: self.material }
    }
}

} // verus!
