//! Surface materials: a closed sum over diffuse, metallic and refractive
//! surfaces, attached by value to every primitive.

use vstd::prelude::*;

use crate::fixed::{fdiv, fdiv_s, fmul, fmul_s, fsqrt, fsqrt_s, lemma_fmul_s_bound, sabs, smin,
    SCALE};
use crate::hittable::{ray_wf, rec_wf, HitRecord};
use crate::ray::Ray;
use crate::utils::random_unit;
use crate::vec3::{lemma_dot_bound, lemma_smul_bound, reflect_s, refract_s, Colour, Vec3, V3};

verus! {

/// An RGB colour with every channel between zero and one.
pub open spec fn colour_wf(c: V3) -> bool {
    0 <= c.x <= SCALE as int && 0 <= c.y <= SCALE as int && 0 <= c.z <= SCALE as int
}

/// How a surface scatters light.
#[derive(Clone, Copy, Debug, PartialEq, Eq, Structural)]
pub enum Material {
    /// Diffuse: scatters around the surface normal, tinted by `albedo`.
    Lambertian { albedo: Colour },
    /// Specular: mirror reflection tinted by `albedo`, roughened by `fuzz`.
    Metal { albedo: Colour, fuzz: i128 },
    /// Clear: refracts or reflects, never tints.
    Dielectric { index_of_refraction: i128 },
}

impl Material {
    /// The parameters are physically sensible: colour channels within
    /// `[0, 1]`, fuzz within `[0, 1]`, and a positive refractive index of
    /// at most a million.
    pub open spec fn wf_s(self) -> bool {
        match self {
            Material::Lambertian { albedo } => colour_wf(albedo@),
            Material::Metal { albedo, fuzz } => colour_wf(albedo@) && 0 <= fuzz <= SCALE,
            Material::Dielectric { index_of_refraction } => 1 <= index_of_refraction
                <= 1_000_000_000_000,
        }
    }

    pub fn new_lambertian(albedo: Colour) -> (m: Material)
        ensures
            m == (Material::Lambertian { albedo }),
    {
        Material::Lambertian { albedo }
    }

    /// A metal; the fuzz is clamped into `[0, 1]` before it is stored,
    /// and the albedo is stored unchanged.
    pub fn new_metal(albedo: Colour, fuzz: i128) -> (m: Material)
        ensures
            m == (Material::Metal {
                albedo,
                fuzz: if fuzz < 0 {
                    0
                } else if fuzz < SCALE {
                    fuzz
                } else {
                    SCALE
                },
            }),
    {
        Material::Metal {
            albedo,
            fuzz: if fuzz < 0 {
                0
            } else if fuzz < SCALE {
                fuzz
            } else {
                SCALE
            },
        }
    }

    pub fn new_dielectric(index_of_refraction: i128) -> (m: Material)
        ensures
            m == (Material::Dielectric { index_of_refraction }),
    {
        Material::Dielectric { index_of_refraction }
    }
}

/// `x` to the fifth power on the fixed-point grid, as Schlick's term
/// `(1 - cos)^5` is evaluated: square, square again, once more by `x`.
pub open spec fn pow5_s(x: int) -> int {
    fmul_s(fmul_s(fmul_s(x, x), fmul_s(x, x)), x)
}

/// Schlick's approximation of Fresnel reflectance:
/// `r0 + (1 - r0) (1 - cos)^5` with `r0 = ((1 - ratio) / (1 + ratio))^2`.
pub open spec fn reflectance_s(cosine: int, ratio: int) -> int {
    let sc = SCALE as int;
    let t = fdiv_s(sc - ratio, sc + ratio);
    let r0 = fmul_s(t, t);
    r0 + fmul_s(sc - r0, pow5_s(sc - cosine))
}

/// Cosine of the incidence angle: `min(-unit . normal, 1)`.
pub open spec fn cos_theta_s(unit_dir: V3, normal: V3) -> int {
    smin(unit_dir.neg_s().dot_s(normal), SCALE as int)
}

/// Sine of the incidence angle, from `sin^2 = 1 - cos^2`; the radicand is
/// clamped at zero where grid rounding pushes the cosine past one.
pub open spec fn sin_theta_s(unit_dir: V3, normal: V3) -> int {
    let x = (SCALE as int) - fmul_s(cos_theta_s(unit_dir, normal), cos_theta_s(unit_dir, normal));
    fsqrt_s(
        if x >= 0 {
            x
        } else {
            0
        },
    )
}

/// Total internal reflection: no refracted direction exists when
/// `ratio * sin` exceeds one.
pub open spec fn cannot_refract_s(unit_dir: V3, normal: V3, ratio: int) -> bool {
    fmul_s(ratio, sin_theta_s(unit_dir, normal)) > SCALE as int
}

/// The refraction ratio a dielectric uses: the reciprocal index entering
/// from outside, the raw index leaving into the surrounding medium.
pub open spec fn refraction_ratio_s(front_face: bool, idx: int) -> int {
    if front_face {
        fdiv_s(SCALE as int, idx)
    } else {
        idx
    }
}

impl Default for Material {
    /// A black diffuse surface.
    fn default() -> (m: Material)
        ensures
            m == (Material::Lambertian { albedo: Vec3 { x: 0, y: 0, z: 0 } }),
    {
        Material::Lambertian { albedo: Vec3 { x: 0, y: 0, z: 0 } }
    }
}

/// Schlick's reflectance, computed exactly as `reflectance_s` states it.
fn reflectance(cosine: i128, ref_idx: i128) -> (r: i128)
    requires
        -100_000_000 <= cosine <= SCALE,
        0 <= ref_idx <= 1_000_000_000_000,
    ensures
        r == reflectance_s(cosine as int, ref_idx as int),
{
    proof {
        let sc = SCALE as int;
        let den = sc + ref_idx;
        let num = sc - ref_idx;
        assert(sabs(num as int) <= den);
        assert(sabs(num as int) * sc <= den * sc) by (nonlinear_arith)
            requires
                0 <= sabs(num as int) <= den,
                sc >= 1,
        ;
        crate::fixed::lemma_tdiv_abs(num * sc, den);
        vstd::arithmetic::div_mod::lemma_div_is_ordered(sabs(num * sc), den * sc, den);
        vstd::arithmetic::div_mod::lemma_div_multiples_vanish(sc, den);
        assert(den * sc == sc * den) by (nonlinear_arith);
        assert(sabs((num as int) * sc) == sabs(num as int) * sc) by (nonlinear_arith)
            requires
                sc >= 0,
        ;
    }
    let t = fdiv(SCALE - ref_idx, SCALE + ref_idx);
    proof {
        let ti = t as int;
        assert(0 <= ti * ti <= 1_000_000_000_000int) by (nonlinear_arith)
            requires
                -1_000_000 <= ti <= 1_000_000,
        ;
        crate::fixed::lemma_tdiv_abs(ti * ti, SCALE as int);
        vstd::arithmetic::div_mod::lemma_div_is_ordered(
            ti * ti,
            1_000_000_000_000int,
            SCALE as int,
        );
    }
    let r0 = fmul(t, t);
    let omc = SCALE - cosine;
    proof {
        lemma_fmul_s_bound(omc as int, omc as int, 102_000_000 as int, 102_000_000 as int);
        assert(102_000_000int * 102_000_000 / (SCALE as int) == 10_404_000_000int);
    }
    let p2 = fmul(omc, omc);
    proof {
        lemma_fmul_s_bound(p2 as int, p2 as int, 10_404_000_000 as int, 10_404_000_000 as int);
        assert(10_404_000_000int * 10_404_000_000 / (SCALE as int)
            == 108_243_216_000_000int);
        lemma_fmul_s_bound(
            108_243_216_000_000int,
            omc as int,
            108_243_216_000_000 as int,
            102_000_000 as int,
        );
    }
    let p4 = fmul(p2, p2);
    proof {
        lemma_fmul_s_bound(p4 as int, omc as int, 108_243_216_000_000 as int,
            102_000_000 as int);
        assert(108_243_216_000_000int * 102_000_000 / (SCALE as int)
            == 11_040_808_032_000_000int);
        lemma_fmul_s_bound(
            (SCALE - r0) as int,
            fmul_s(p4 as int, omc as int),
            2_000_000 as int,
            11_040_808_032_000_000 as int,
        );
    }
    let p5 = fmul(p4, omc);
    r0 + fmul(SCALE - r0, p5)
}

/// How the hit surface scatters the incoming ray: the attenuation colour,
/// the scattered ray (always anchored at the hit point), and whether the
/// ray survives.  A diffuse surface always scatters around the normal; a
/// metal mirrors the ray and survives only while the fuzzed reflection
/// still leaves the surface; a dielectric always survives and either
/// reflects or refracts, choosing by total internal reflection and a
/// random draw against Schlick's reflectance.
#[verifier::rlimit(60)]
pub fn scatter(r_in: &Ray, rec: &HitRecord) -> (out: (Colour, Ray, bool))
    requires
        ray_wf(r_in@),
        rec_wf(rec@),
    ensures
        out.1.orig@ == rec@.p,
        rec@.material matches Material::Lambertian { albedo } ==> {
            &&& out.0 == albedo
            &&& out.2 == true
            &&& out.1.dir@.in_bounds(5 * (SCALE as int))
            &&& exists|u: V3|
                #![trigger rec@.normal.add_s(u)]
                u.in_bounds(3 * (SCALE as int)) && ((!rec@.normal.add_s(u).is_zero()
                    && out.1.dir@ == rec@.normal.add_s(u)) || (rec@.normal.add_s(u).is_zero()
                    && out.1.dir@ == rec@.normal))
            &&& (!rec@.normal.is_zero() ==> !out.1.dir@.is_zero())
        },
        rec@.material matches Material::Metal { albedo, fuzz } ==> {
            &&& out.0 == albedo
            &&& out.2 == (out.1.dir@.dot_s(rec@.normal) > 0)
            &&& out.1.dir@.in_bounds(200_000_000 as int)
            &&& (fuzz == 0 ==> out.1.dir@ == reflect_s(r_in@.dir.normalized_s(), rec@.normal))
            &&& exists|q: V3|
                #![trigger q.len_sq_s()]
                q.in_bounds(SCALE as int) && q.len_sq_s() < SCALE as int && out.1.dir@
                    == reflect_s(r_in@.dir.normalized_s(), rec@.normal).add_s(
                    q.smul_s(fuzz as int),
                )
        },
        rec@.material matches Material::Dielectric { index_of_refraction } ==> {
            let unit = r_in@.dir.normalized_s();
            let ratio = refraction_ratio_s(rec@.front_face, index_of_refraction as int);
            &&& out.0@ == (V3 { x: SCALE as int, y: SCALE as int, z: SCALE as int })
            &&& out.2 == true
            &&& (out.1.dir@ == reflect_s(unit, rec@.normal) || out.1.dir@ == refract_s(
                unit,
                rec@.normal,
                ratio,
            ))
            &&& (cannot_refract_s(unit, rec@.normal, ratio) ==> out.1.dir@ == reflect_s(
                unit,
                rec@.normal,
            ))
            &&& ((!cannot_refract_s(unit, rec@.normal, ratio) && reflectance_s(
                cos_theta_s(unit, rec@.normal),
                ratio,
            ) <= 0) ==> out.1.dir@ == refract_s(unit, rec@.normal, ratio))
        },
{
    match rec.material {
        Material::Metal { albedo, fuzz } => {
            let unit = r_in.dir.normalized();
            let reflected = Vec3::reflect(&unit, &rec.normal);
            proof {
                lemma_dot_bound(unit@, rec@.normal, 3_000_000 as int);
                assert(3int * 3_000_000 * 3_000_000 / (SCALE as int) == 27_000_000);
                lemma_smul_bound(rec@.normal, 2 * unit@.dot_s(rec@.normal), 3_000_000 as int,
                    54_000_000 as int);
                assert(54_000_000int * 3_000_000 / (SCALE as int) == 162_000_000);
            }
            let p = crate::utils::random_in_unit_sphere();
            proof {
                lemma_smul_bound(p@, fuzz as int, 1_000_000 as int, 1_000_000 as int);
                assert(1_000_000int * 1_000_000 / (SCALE as int) == 1_000_000);
            }
            let fz = p.smul(fuzz);
            let scattered = Ray::new(rec.p, reflected.add(&fz));
            proof {
                assert(scattered.dir@.in_bounds(200_000_000 as int));
                assert(p@.in_bounds(SCALE as int) && p@.len_sq_s() < SCALE as int
                    && scattered.dir@ == reflect_s(r_in@.dir.normalized_s(),
                    rec@.normal,
                ).add_s(p@.smul_s(fuzz as int)));
                if fuzz == 0 {
                    assert(0int * p@.x == 0 && 0int * p@.y == 0 && 0int * p@.z == 0)
                        by (nonlinear_arith);
                    vstd::arithmetic::div_mod::lemma_div_of0(SCALE as int);
                    assert(fz@.x == 0 && fz@.y == 0 && fz@.z == 0);
                    assert(scattered.dir@ == reflect_s(r_in@.dir.normalized_s(), rec@.normal));
                }
            }
            let should_scatter = Vec3::dot(&scattered.dir, &rec.normal) > 0;
            (albedo, scattered, should_scatter)
        },
        Material::Lambertian { albedo } => {
            let u = crate::utils::random_unit_vector();
            let mut scatter_direction = rec.normal.add(&u);
            if scatter_direction.near_zero() {
                scatter_direction = rec.normal;
            }
            proof {
                let uv = u@;
                assert(uv.in_bounds(3 * (SCALE as int)) && ((!rec@.normal.add_s(uv).is_zero()
                    && scatter_direction@ == rec@.normal.add_s(uv)) || (rec@.normal.add_s(
                    uv,
                ).is_zero() && scatter_direction@ == rec@.normal)));
            }
            let scattered = Ray::new(rec.p, scatter_direction);
            (albedo, scattered, true)
        },
        Material::Dielectric { index_of_refraction } => {
            let refraction_ratio = if rec.front_face {
                proof {
                    crate::fixed::lemma_tdiv_abs(
                        (SCALE as int) * (SCALE as int),
                        index_of_refraction as int,
                    );
                    vstd::arithmetic::div_mod::lemma_div_is_ordered_by_denominator(
                        1_000_000_000_000int,
                        1,
                        index_of_refraction as int,
                    );
                    vstd::arithmetic::div_mod::lemma_div_basics(1_000_000_000_000int);
                }
                fdiv(SCALE, index_of_refraction)
            } else {
                index_of_refraction
            };
            let unit = r_in.dir.normalized();
            let mu = unit.neg();
            let d = Vec3::dot(&mu, &rec.normal);
            proof {
                lemma_dot_bound(mu@, rec@.normal, 3_000_000 as int);
                assert(3int * 3_000_000 * 3_000_000 / (SCALE as int) == 27_000_000);
            }
            let cos_theta = if d <= SCALE {
                d
            } else {
                SCALE
            };
            proof {
                lemma_fmul_s_bound(cos_theta as int, cos_theta as int, 27_000_000 as int,
                    27_000_000 as int);
                assert(27_000_000int * 27_000_000 / (SCALE as int) == 729_000_000);
                assert((cos_theta as int) * (cos_theta as int) >= 0) by (nonlinear_arith);
                crate::fixed::lemma_tdiv_abs(
                    (cos_theta as int) * (cos_theta as int),
                    SCALE as int,
                );
            }
            let sin_sq = SCALE - fmul(cos_theta, cos_theta);
            let radicand = if sin_sq >= 0 {
                sin_sq
            } else {
                0
            };
            let sin_theta = fsqrt(radicand);
            proof {
                assert(sin_theta <= 1_100_000) by (nonlinear_arith)
                    requires
                        crate::fixed::is_sqrt((radicand as int) * (SCALE as int),
                            sin_theta as int),
                        0 <= radicand <= 1_000_000,
                        SCALE as int == 1_000_000,
                ;
            }
            let cannot_refract = fmul(refraction_ratio, sin_theta) > SCALE;
            let q = random_unit();
            let direction = if cannot_refract || reflectance(cos_theta, refraction_ratio) > q {
                Vec3::reflect(&unit, &rec.normal)
            } else {
                Vec3::refract(&unit, &rec.normal, refraction_ratio)
            };
            let scattered = Ray::new(rec.p, direction);
            (Vec3::new(SCALE, SCALE, SCALE), scattered, true)
        },
    }
}

} // verus!
