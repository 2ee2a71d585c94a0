//! The virtual camera: fixed configuration computed once from the field
//! of view and aspect ratio, mapping viewport coordinates to world rays.

use vstd::prelude::*;

use crate::fixed::{fdiv, fdiv_s, fmul, fmul_s, idiv, lemma_fmul_s_bound, sabs, tdiv, SCALE};
use crate::ray::Ray;
use crate::utils::{d2r_s, degrees_to_radians};
use crate::vec3::{lemma_smul_bound, Point3, Vec3, V3};

verus! {

/// Largest half-height of the viewport: fields of view approaching a
/// straight angle are clamped here instead of overflowing.
pub const HALF_HEIGHT_MAX: i128 = 100_000_000;

/// Largest aspect ratio a camera accepts.
pub const ASPECT_MAX: i128 = 100_000_000;

/// Taylor polynomial of sine, degree nine, evaluated on the grid.
pub open spec fn sin_s(x: int) -> int {
    let x2 = fmul_s(x, x);
    let x3 = fmul_s(x2, x);
    let x5 = fmul_s(x3, x2);
    let x7 = fmul_s(x5, x2);
    let x9 = fmul_s(x7, x2);
    x - tdiv(x3, 6) + tdiv(x5, 120) - tdiv(x7, 5040) + tdiv(x9, 362880)
}

/// Taylor polynomial of cosine, degree eight, evaluated on the grid.
pub open spec fn cos_s(x: int) -> int {
    let x2 = fmul_s(x, x);
    let x4 = fmul_s(x2, x2);
    let x6 = fmul_s(x4, x2);
    let x8 = fmul_s(x6, x2);
    (SCALE as int) - tdiv(x2, 2) + tdiv(x4, 24) - tdiv(x6, 720) + tdiv(x8, 40320)
}

/// Tangent as the quotient of the two polynomials; zero where the cosine
/// polynomial vanishes.
pub open spec fn tan_s(x: int) -> int {
    fdiv_s(sin_s(x), cos_s(x))
}

/// The viewport half-height for a vertical field of view in degrees:
/// `tan(radians(vfov) / 2)`, clamped into `[0, HALF_HEIGHT_MAX]`.
pub open spec fn half_height_s(vfov: int) -> int {
    let h = tan_s(tdiv(d2r_s(vfov), 2));
    if h < 0 {
        0
    } else if h > HALF_HEIGHT_MAX as int {
        HALF_HEIGHT_MAX as int
    } else {
        h
    }
}

/// Mathematical view of a camera.
pub ghost struct Camerav {
    pub origin: V3,
    pub lower_left_corner: V3,
    pub horizontal: V3,
    pub vertical: V3,
}

impl Camerav {
    /// All four vectors are bounded, so ray generation cannot overflow.
    pub open spec fn wf_s(self) -> bool {
        self.origin.in_bounds(100_000_000_000int) && self.lower_left_corner.in_bounds(
            100_000_000_000int,
        ) && self.horizontal.in_bounds(100_000_000_000int) && self.vertical.in_bounds(
            100_000_000_000int,
        )
    }

    /// The direction of the ray through viewport coordinates `(u, v)`.
    pub open spec fn dir_s(self, u: int, v: int) -> V3 {
        self.lower_left_corner.add_s(self.horizontal.smul_s(u)).add_s(
            self.vertical.smul_s(v),
        ).sub_s(self.origin)
    }
}

/// The camera a field of view and aspect ratio determine: the viewport
/// sits one focal unit in front of an origin at the centre of the world,
/// spanned by a horizontal and a vertical edge.
pub open spec fn camera_s(vfov: int, aspect_ratio: int) -> Camerav {
    let h = half_height_s(vfov);
    let vh = 2 * h;
    let vw = fmul_s(aspect_ratio, vh);
    let horizontal = V3 { x: vw, y: 0, z: 0 };
    let vertical = V3 { x: 0, y: vh, z: 0 };
    let origin = V3 { x: 0, y: 0, z: 0 };
    Camerav {
        origin,
        lower_left_corner: origin.sub_s(horizontal.sdiv_s(2 * (SCALE as int))).sub_s(
            vertical.sdiv_s(2 * (SCALE as int)),
        ).sub_s(V3 { x: 0, y: 0, z: SCALE as int }),
        horizontal,
        vertical,
    }
}

/// A camera fixed at the origin, looking down the negative `z` axis.
pub struct Camera {
    pub origin: Point3,
    pub lower_left_corner: Point3,
    pub horizontal: Vec3,
    pub vertical: Vec3,
}

impl View for Camera {
    type V = Camerav;

    open spec fn view(&self) -> Camerav {
        Camerav {
            origin: self.origin@,
            lower_left_corner: self.lower_left_corner@,
            horizontal: self.horizontal@,
            vertical: self.vertical@,
        }
    }
}

/// The degree-nine sine polynomial, exactly as `sin_s` states it.
fn sin_fixed(x: i128) -> (r: i128)
    requires
        -4_000_000 <= x <= 4_000_000,
    ensures
        r == sin_s(x as int),
        -1_000_000_000_000 <= r <= 1_000_000_000_000,
{
    proof {
        lemma_fmul_s_bound(x as int, x as int, 4_000_000 as int, 4_000_000 as int);
        assert(4_000_000int * 4_000_000 / (SCALE as int) == 16_000_000);
        lemma_fmul_s_bound(fmul_s(x as int, x as int), x as int, 16_000_000 as int,
            4_000_000 as int);
        assert(16_000_000int * 4_000_000 / (SCALE as int) == 64_000_000);
    }
    let x2 = fmul(x, x);
    let x3 = fmul(x2, x);
    proof {
        lemma_fmul_s_bound(x3 as int, x2 as int, 64_000_000 as int, 16_000_000 as int);
        assert(64_000_000int * 16_000_000 / (SCALE as int) == 1_024_000_000int);
        lemma_fmul_s_bound(fmul_s(x3 as int, x2 as int), x2 as int, 1_024_000_000 as int,
            16_000_000 as int);
        assert(1_024_000_000int * 16_000_000 / (SCALE as int) == 16_384_000_000int);
        lemma_fmul_s_bound(
            fmul_s(fmul_s(x3 as int, x2 as int), x2 as int),
            x2 as int,
            16_384_000_000 as int,
            16_000_000 as int,
        );
    }
    let x5 = fmul(x3, x2);
    let x7 = fmul(x5, x2);
    let x9 = fmul(x7, x2);
    x - idiv(x3, 6) + idiv(x5, 120) - idiv(x7, 5040) + idiv(x9, 362880)
}

/// The degree-eight cosine polynomial, exactly as `cos_s` states it.
fn cos_fixed(x: i128) -> (r: i128)
    requires
        -4_000_000 <= x <= 4_000_000,
    ensures
        r == cos_s(x as int),
        -1_000_000_000_000 <= r <= 1_000_000_000_000,
{
    proof {
        lemma_fmul_s_bound(x as int, x as int, 4_000_000 as int, 4_000_000 as int);
        assert(4_000_000int * 4_000_000 / (SCALE as int) == 16_000_000);
        lemma_fmul_s_bound(fmul_s(x as int, x as int), fmul_s(x as int, x as int),
            16_000_000 as int, 16_000_000 as int);
        assert(16_000_000int * 16_000_000 / (SCALE as int) == 256_000_000);
        lemma_fmul_s_bound(
            fmul_s(fmul_s(x as int, x as int), fmul_s(x as int, x as int)),
            fmul_s(x as int, x as int),
            256_000_000 as int,
            16_000_000 as int,
        );
        assert(256_000_000int * 16_000_000 / (SCALE as int) == 4_096_000_000int);
        lemma_fmul_s_bound(
            fmul_s(
                fmul_s(fmul_s(x as int, x as int), fmul_s(x as int, x as int)),
                fmul_s(x as int, x as int),
            ),
            fmul_s(x as int, x as int),
            4_096_000_000 as int,
            16_000_000 as int,
        );
    }
    let x2 = fmul(x, x);
    let x4 = fmul(x2, x2);
    let x6 = fmul(x4, x2);
    let x8 = fmul(x6, x2);
    SCALE - idiv(x2, 2) + idiv(x4, 24) - idiv(x6, 720) + idiv(x8, 40320)
}

impl Camera {
    /// Build the camera from a vertical field of view in degrees and an
    /// aspect ratio, both on the fixed-point grid.
    pub fn new(vfov: i128, aspect_ratio: i128) -> (cam: Camera)
        requires
            0 < vfov <= 180_000_000,
            0 < aspect_ratio <= ASPECT_MAX,
        ensures
            cam@ == camera_s(vfov as int, aspect_ratio as int),
            cam@.wf_s(),
    {
        let theta = degrees_to_radians(vfov);
        proof {
            crate::fixed::lemma_tdiv_abs(theta as int, 2);
            crate::fixed::lemma_fmul_s_bound(vfov as int, crate::utils::PI_FIXED as int,
                180_000_000 as int, 4_000_000 as int);
            assert(180_000_000int * 4_000_000 / (SCALE as int) == 720_000_000int);
            crate::fixed::lemma_tdiv_abs(
                fmul_s(vfov as int, crate::utils::PI_FIXED as int) * (SCALE as int),
                180 * (SCALE as int),
            );
        }
        let half = idiv(theta, 2);
        proof {
            assert(sabs(theta as int) <= 4_000_000) by {
                assert(sabs(fmul_s(vfov as int, crate::utils::PI_FIXED as int) * (SCALE as int))
                    / (180 * (SCALE as int)) <= 4_000_000) by (nonlinear_arith)
                    requires
                        sabs(fmul_s(vfov as int, crate::utils::PI_FIXED as int))
                            <= 720_000_000int,
                        sabs(fmul_s(vfov as int, crate::utils::PI_FIXED as int) * (
                        SCALE as int)) == sabs(fmul_s(vfov as int,
                            crate::utils::PI_FIXED as int)) * (SCALE as int),
                        SCALE as int == 1_000_000,
                ;
            }
        }
        let s = sin_fixed(half);
        let c = cos_fixed(half);
        let t = if c == 0 {
            0
        } else {
            fdiv(s, c)
        };
        let h = if t < 0 {
            0
        } else if t > HALF_HEIGHT_MAX {
            HALF_HEIGHT_MAX
        } else {
            t
        };
        let viewport_height = 2 * h;
        proof {
            lemma_fmul_s_bound(aspect_ratio as int, viewport_height as int,
                100_000_000 as int, 200_000_000 as int);
            assert(100_000_000int * 200_000_000 / (SCALE as int) == 20_000_000_000int);
        }
        let viewport_width = fmul(aspect_ratio, viewport_height);
        let horizontal = Vec3::new(viewport_width, 0, 0);
        let vertical = Vec3::new(0, viewport_height, 0);
        let origin = Vec3::new(0, 0, 0);
        let lower_left_corner = origin.sub(&horizontal.sdiv(2 * SCALE)).sub(
            &vertical.sdiv(2 * SCALE),
        ).sub(&Vec3::new(0, 0, SCALE));
        Camera { origin, lower_left_corner, horizontal, vertical }
    }

    /// The ray through viewport coordinates `(u, v)`: from the camera
    /// origin toward the matching point on the viewport rectangle.
    pub fn get_ray(&self, u: i128, v: i128) -> (r: Ray)
        requires
            self@.wf_s(),
            0 <= u <= SCALE,
            0 <= v <= SCALE,
        ensures
            r@.orig == self@.origin,
            r@.dir == self@.dir_s(u as int, v as int),
    {
        proof {
            lemma_smul_bound(self@.horizontal, u as int, 100_000_000_000 as int,
                1_000_000 as int);
            lemma_smul_bound(self@.vertical, v as int, 100_000_000_000 as int,
                1_000_000 as int);
            assert(1_000_000int * 100_000_000_000 / (SCALE as int) == 100_000_000_000int);
        }
        Ray::new(
            self.origin,
            self.lower_left_corner.add(&self.horizontal.smul(u)).add(&self.vertical.smul(v)).sub(
                &self.origin,
            ),
        )
    }
}

} // verus!
