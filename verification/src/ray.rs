//! Rays: an origin and a direction, evaluated by the parameter `t`.

use vstd::prelude::*;

use crate::fixed::OP_MAX;
use crate::vec3::{lemma_smul_bound, Point3, Vec3, V3};

verus! {

/// Mathematical view of a ray.
pub ghost struct Rayv {
    pub orig: V3,
    pub dir: V3,
}

impl Rayv {
    /// The point the ray reaches at parameter `t`:
    /// `origin + t * direction` on the fixed-point grid.
    pub open spec fn at_s(self, t: int) -> V3 {
        self.orig.add_s(self.dir.smul_s(t))
    }

    /// Both origin and direction have coordinates within `b`.
    pub open spec fn in_bounds(self, b: int) -> bool {
        self.orig.in_bounds(b) && self.dir.in_bounds(b)
    }
}

/// A ray of light: origin plus direction.  The direction need not be a
/// unit vector.
#[derive(Clone, Copy, Debug, PartialEq, Eq, Structural)]
pub struct Ray {
    pub orig: Point3,
    pub dir: Vec3,
}

impl View for Ray {
    type V = Rayv;

    open spec fn view(&self) -> Rayv {
        Rayv { orig: self.orig@, dir: self.dir@ }
    }
}

impl Ray {
    pub fn new(orig: Point3, dir: Vec3) -> (r: Ray)
        ensures
            r.orig == orig,
            r.dir == dir,
    {
        Ray { orig, dir }
    }

    /// The point reached at parameter `t`.
    pub fn at(&self, t: i128) -> (p: Point3)
        requires
            self@.in_bounds(OP_MAX as int),
            -OP_MAX <= t <= OP_MAX,
        ensures
            p@ == self@.at_s(t as int),
    {
        proof {
            lemma_smul_bound(
                self@.dir,
                t as int,
                1_000_000_000_000_000_000 as int,
                1_000_000_000_000_000_000 as int,
            );
        }
        self.orig.add(&self.dir.smul(t))
    }
}

} // verus!
