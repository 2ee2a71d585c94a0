//! The path-tracing core: the recursive colour integrator, the gamma
//! mapping to output channels, and the stock random scene.

use vstd::prelude::*;

use crate::fixed::{fsqrt, fsqrt_s, idiv, lemma_fmul_unit, tdiv, OP_MAX, SCALE};
use crate::hittable::{ray_wf, ray_wf_check, Hittable, HittableList};
use crate::material::{colour_wf, scatter, Material};
use crate::ray::{Ray, Rayv};
use crate::sphere::Sphere;
use crate::utils::{random_colour, random_colour_in_range, random_in_range, random_unit};
use crate::vec3::{Colour, Vec3, V3};

verus! {

/// The lower end of every intersection window: a thousandth of a unit,
/// so a scattered ray cannot re-hit the surface it just left.
pub const T_MIN: i128 = 1000;

/// The upper end of every intersection window: a million units, the
/// renderer's stand-in for an unbounded ray.
pub const T_MAX: i128 = 1_000_000_000_000_000_000;

/// The background: white blended toward sky blue by the height of the
/// normalized ray direction.  The blend parameter is clamped into
/// `[0, 1]`; it only leaves that range when grid rounding of a very short
/// direction pushes the normalized height past one, so the gradient's
/// channels always stay within `[0, 1]`.
pub open spec fn sky_colour_s(r: Rayv) -> V3 {
    let unit = r.dir.normalized_s();
    let t0 = tdiv(unit.y + SCALE as int, 2);
    let t = if t0 < 0 {
        0
    } else if t0 > SCALE as int {
        SCALE as int
    } else {
        t0
    };
    let white = V3 { x: SCALE as int, y: SCALE as int, z: SCALE as int };
    let blue = V3 { x: 500_000, y: 700_000, z: SCALE as int };
    white.smul_s((SCALE as int) - t).add_s(blue.smul_s(t))
}

/// The sky gradient for a ray that hits nothing: a colour with every
/// channel in `[0, 1]`.
pub fn sky_colour(r: &Ray) -> (c: Colour)
    requires
        ray_wf(r@),
    ensures
        c@ == sky_colour_s(r@),
        colour_wf(c@),
{
    let unit_dir = r.dir.normalized();
    let t0 = idiv(unit_dir.y + SCALE, 2);
    let t = if t0 < 0 {
        0
    } else if t0 > SCALE {
        SCALE
    } else {
        t0
    };
    proof {
        lemma_fmul_unit((SCALE - t) as int, SCALE as int);
        lemma_fmul_unit(t as int, SCALE as int);
        lemma_fmul_unit(t as int, 500_000int);
        lemma_fmul_unit(t as int, 700_000int);
    }
    let white = Vec3::new(SCALE, SCALE, SCALE);
    let blue = Vec3::new(500_000, 700_000, SCALE);
    white.smul(SCALE - t).add(&blue.smul(t))
}

/// The colour a ray gathers from the scene, with `depth` bounces left:
/// every channel lies in `[0, 1]`.
///
/// A spent bounce budget is black; a miss is the sky gradient; a hit
/// scatters, recurses, and attenuates, and an absorbed ray is black.  A
/// scattered ray too degenerate for the grid to intersect with anything
/// is treated as absorbed.
pub fn ray_colour<H: Hittable>(r: &Ray, world: &H, depth: i32) -> (out: Colour)
    requires
        world.wf(),
        ray_wf(r@),
    ensures
        depth <= 0 ==> out == (Vec3 { x: 0, y: 0, z: 0 }),
        depth > 0 && world.hit_spec(r@, T_MIN as int, T_MAX as int) is None ==> out@
            == sky_colour_s(r@),
        colour_wf(out@),
    decreases depth,
{
    if depth <= 0 {
        return Vec3::new(0, 0, 0);
    }
    if let Some(rec) = world.hit(r, T_MIN, T_MAX) {
        let (attenuation, scattered, should_scatter) = scatter(r, &rec);
        if should_scatter && ray_wf_check(&scattered) {
            let c = ray_colour(&scattered, world, depth - 1);
            proof {
                match rec@.material {
                    Material::Lambertian { albedo } => {
                        assert(colour_wf(albedo@));
                    },
                    Material::Metal { albedo, fuzz } => {
                        assert(colour_wf(albedo@));
                    },
                    Material::Dielectric { index_of_refraction } => {},
                }
                lemma_fmul_unit(attenuation@.x, c@.x);
                lemma_fmul_unit(attenuation@.y, c@.y);
                lemma_fmul_unit(attenuation@.z, c@.z);
            }
            return attenuation.cmul(&c);
        }
        return Vec3::new(0, 0, 0);
    }
    sky_colour(r)
}

/// A member of the random field: a fifth-of-a-unit sphere resting on the
/// ground at height `0.2`, placed in one of the grid cells `[-11, 11)`
/// squared with a jitter of at most `0.9`, kept at distance more than
/// `0.9` from the point `(4, 0.2, 0)`, with a well-formed material.
pub open spec fn field_sphere_s(s: crate::sphere::Spherev) -> bool {
    &&& s.radius == 200_000
    &&& s.center.y == 200_000
    &&& -11_000_000 <= s.center.x <= 11_000_000
    &&& -11_000_000 <= s.center.z <= 11_000_000
    &&& s.center.sub_s(V3 { x: 4_000_000, y: 200_000, z: 0 }).len_s() > 900_000
    &&& s.material.wf_s()
}

/// The stock scene: a large ground sphere, a field of small spheres with
/// randomly chosen materials, and three large feature spheres.  Every
/// member is well formed; the ground sphere opens the list, every member
/// between it and the last three is a field sphere, and the three
/// feature spheres close it.
pub fn random_scene() -> (world: HittableList)
    ensures
        world.wf_s(),
        4 <= world.objects@.len() <= 488,
        forall|i: int|
            1 <= i < world.objects@.len() - 3 ==> field_sphere_s(
                (#[trigger] world.objects@[i])@,
            ),
        world.objects@[0] == (Sphere {
            center: Vec3 { x: 0, y: -1_000_000_000i128, z: 0 },
            radius: 1_000_000_000,
            material: Material::Lambertian {
                albedo: Vec3 { x: 500_000, y: 500_000, z: 500_000 },
            },
        }),
        world.objects@[world.objects@.len() - 3] == (Sphere {
            center: Vec3 { x: 0, y: 1_000_000, z: 0 },
            radius: 1_000_000,
            material: Material::Dielectric { index_of_refraction: 1_500_000 },
        }),
        world.objects@[world.objects@.len() - 2] == (Sphere {
            center: Vec3 { x: -4_000_000i128, y: 1_000_000, z: 0 },
            radius: 1_000_000,
            material: Material::Lambertian {
                albedo: Vec3 { x: 400_000, y: 200_000, z: 100_000 },
            },
        }),
        world.objects@[world.objects@.len() - 1] == (Sphere {
            center: Vec3 { x: 4_000_000, y: 1_000_000, z: 0 },
            radius: 1_000_000,
            material: Material::Metal {
                albedo: Vec3 { x: 700_000, y: 600_000, z: 500_000 },
                fuzz: 0,
            },
        }),
{
    let mut world = HittableList::new();
    let ground_material = Material::new_lambertian(Vec3::new(500_000, 500_000, 500_000));
    world.add(
        Sphere {
            center: Vec3::new(0, -1_000_000_000, 0),
            radius: 1_000_000_000,
            material: ground_material,
        },
    );
    let mut a: i128 = -11;
    while a < 11
        invariant
            -11 <= a <= 11,
            world.wf_s(),
            1 <= world.objects@.len() <= 1 + 22 * (a + 11),
            forall|i: int|
                1 <= i < world.objects@.len() ==> field_sphere_s(
                    (#[trigger] world.objects@[i])@,
                ),
            world.objects@[0] == (Sphere {
                center: Vec3 { x: 0, y: -1_000_000_000i128, z: 0 },
                radius: 1_000_000_000,
                material: Material::Lambertian {
                    albedo: Vec3 { x: 500_000, y: 500_000, z: 500_000 },
                },
            }),
        decreases 11 - a,
    {
        let mut b: i128 = -11;
        while b < 11
            invariant
                -11 <= a < 11,
                -11 <= b <= 11,
                world.wf_s(),
                1 <= world.objects@.len() <= 1 + 22 * (a + 11) + (b + 11),
                forall|i: int|
                    1 <= i < world.objects@.len() ==> field_sphere_s(
                        (#[trigger] world.objects@[i])@,
                    ),
                world.objects@[0] == (Sphere {
                    center: Vec3 { x: 0, y: -1_000_000_000i128, z: 0 },
                    radius: 1_000_000_000,
                    material: Material::Lambertian {
                        albedo: Vec3 { x: 500_000, y: 500_000, z: 500_000 },
                    },
                }),
            decreases 11 - b,
        {
            let choose_mat = random_unit();
            let dx = random_unit();
            let dz = random_unit();
            proof {
                lemma_fmul_unit(900_000int, dx as int);
                lemma_fmul_unit(900_000int, dz as int);
            }
            let jx = crate::fixed::fmul(900_000, dx);
            let jz = crate::fixed::fmul(900_000, dz);
            let center = Vec3::new(a * SCALE + jx, 200_000, b * SCALE + jz);
            let offset = center.sub(&Vec3::new(4_000_000, 200_000, 0));
            if offset.length() > 900_000 {
                if choose_mat < 800_000 {
                    let c1 = random_colour();
                    let c2 = random_colour();
                    proof {
                        lemma_fmul_unit(c1@.x, c2@.x);
                        lemma_fmul_unit(c1@.y, c2@.y);
                        lemma_fmul_unit(c1@.z, c2@.z);
                    }
                    let albedo = c1.cmul(&c2);
                    world.add(Sphere::new(center, 200_000, Material::new_lambertian(albedo)));
                } else if choose_mat < 950_000 {
                    let albedo = random_colour_in_range(500_000, SCALE);
                    let fuzz = random_in_range(0, 500_000);
                    world.add(Sphere::new(center, 200_000, Material::new_metal(albedo, fuzz)));
                } else {
                    world.add(
                        Sphere::new(center, 200_000, Material::new_dielectric(1_500_000)),
                    );
                }
            }
            b = b + 1;
        }
        a = a + 1;
    }
    world.add(
        Sphere::new(Vec3::new(0, 1_000_000, 0), 1_000_000, Material::new_dielectric(1_500_000)),
    );
    world.add(
        Sphere::new(
            Vec3::new(-4_000_000, 1_000_000, 0),
            1_000_000,
            Material::new_lambertian(Vec3::new(400_000, 200_000, 100_000)),
        ),
    );
    world.add(
        Sphere::new(
            Vec3::new(4_000_000, 1_000_000, 0),
            1_000_000,
            Material::new_metal(Vec3::new(700_000, 600_000, 500_000), 0),
        ),
    );
    world
}

/// One output channel: average over the samples, gamma-correct with a
/// square root, clamp to just under one, and widen to an integer in
/// `[0, 255]`.
pub open spec fn channel_s(ch: int, samples: int) -> int {
    let scaled = tdiv(ch, samples);
    let nonneg = if scaled >= 0 {
        scaled
    } else {
        0
    };
    let g = fsqrt_s(nonneg);
    let clamped = if g > 999_000 {
        999_000
    } else {
        g
    };
    tdiv(256 * clamped, SCALE as int)
}

/// Map an accumulated pixel colour to the three channel values written
/// to the image, each in `[0, 255]`.
pub fn colour_to_rgb(pixel_colour: &Colour, samples_per_pixel: i128) -> (rgb: (u8, u8, u8))
    requires
        pixel_colour@.in_bounds(OP_MAX as int),
        1 <= samples_per_pixel,
    ensures
        rgb.0 as int == channel_s(pixel_colour@.x, samples_per_pixel as int),
        rgb.1 as int == channel_s(pixel_colour@.y, samples_per_pixel as int),
        rgb.2 as int == channel_s(pixel_colour@.z, samples_per_pixel as int),
{
    (
        channel(pixel_colour.x, samples_per_pixel),
        channel(pixel_colour.y, samples_per_pixel),
        channel(pixel_colour.z, samples_per_pixel),
    )
}

/// One channel of `colour_to_rgb`.
fn channel(ch: i128, samples: i128) -> (r: u8)
    requires
        -OP_MAX <= ch <= OP_MAX,
        1 <= samples,
    ensures
        r as int == channel_s(ch as int, samples as int),
{
    let scaled = idiv(ch, samples);
    let nonneg = if scaled >= 0 {
        scaled
    } else {
        0
    };
    let g = fsqrt(nonneg);
    let clamped = if g > 999_000 {
        999_000
    } else {
        g
    };
    proof {
        crate::fixed::lemma_tdiv_abs(256 * (clamped as int), SCALE as int);
        vstd::arithmetic::div_mod::lemma_div_is_ordered(
            256 * (clamped as int),
            256 * 999_000int,
            SCALE as int,
        );
        assert(256 * 999_000int / (SCALE as int) == 255);
    }
    let v = idiv(256 * clamped, SCALE);
    proof {
        assert(0 <= v <= 255);
    }
    v as u8
}

} // verus!
