//! Material scattering and the colour integrator.

use ray_tracer::hittable::{Hittable, HittableList};
use ray_tracer::material::{scatter, Material};
use ray_tracer::ray::Ray;
use ray_tracer::render::{colour_to_rgb, ray_colour, sky_colour};
use ray_tracer::sphere::Sphere;
use ray_tracer::vec3::Vec3;

const ONE: i128 = 1_000_000;
const T_MIN: i128 = 1000;
const T_MAX: i128 = 1_000_000_000_000_000_000;

#[test]
fn depth_zero_is_black() {
    // Whatever the ray and whatever the scene, a spent bounce budget
    // gathers no light.
    let mut scene = HittableList::new();
    scene.add(Sphere::new(
        Vec3::new(0, 0, -ONE),
        500_000,
        Material::new_lambertian(Vec3::new(800_000, 300_000, 100_000)),
    ));
    let r = Ray::new(Vec3::new(0, 0, 0), Vec3::new(0, 0, -ONE));
    assert_eq!(ray_colour(&r, &scene, 0), Vec3::new(0, 0, 0));
    let up = Ray::new(Vec3::new(7 * ONE, 0, 0), Vec3::new(0, ONE, 0));
    assert_eq!(ray_colour(&up, &scene, 0), Vec3::new(0, 0, 0));
}

#[test]
fn sky_gradient_up_and_down() {
    let empty = HittableList::new();
    let up = Ray::new(Vec3::new(0, 0, 0), Vec3::new(0, ONE, 0));
    assert_eq!(ray_colour(&up, &empty, 50), Vec3::new(500_000, 700_000, ONE));
    let down = Ray::new(Vec3::new(0, 0, 0), Vec3::new(0, -ONE, 0));
    assert_eq!(ray_colour(&down, &empty, 50), Vec3::new(ONE, ONE, ONE));
    assert_eq!(sky_colour(&up), Vec3::new(500_000, 700_000, ONE));
    assert_eq!(sky_colour(&down), Vec3::new(ONE, ONE, ONE));
}

#[test]
fn metal_mirror_at_zero_fuzz() {
    // A ray straight into the sphere along its inward normal reflects to
    // the exact mirror direction.
    let albedo = Vec3::new(800_000, 800_000, 800_000);
    let s = Sphere::new(Vec3::new(0, 0, -ONE), 500_000, Material::new_metal(albedo, 0));
    let r = Ray::new(Vec3::new(0, 0, 0), Vec3::new(0, 0, -ONE));
    let rec = s.hit(&r, T_MIN, T_MAX).expect("head-on hit");
    let (attenuation, scattered, does_scatter) = scatter(&r, &rec);
    assert!(does_scatter);
    assert_eq!(attenuation, albedo);
    assert_eq!(scattered.orig, rec.p);
    assert_eq!(scattered.dir, Vec3::new(0, 0, ONE));
}

#[test]
fn metal_interior_reflection_points_back_out() {
    // From inside, the stored normal still opposes the ray, so the
    // mirror direction points back the way the ray came.
    let albedo = Vec3::new(800_000, 800_000, 800_000);
    let s = Sphere::new(Vec3::new(0, 0, 0), ONE, Material::new_metal(albedo, 0));
    let r = Ray::new(Vec3::new(0, 0, 0), Vec3::new(0, 0, -ONE));
    let rec = s.hit(&r, T_MIN, T_MAX).expect("interior hit");
    // Interior hit: the normal opposes the ray, the reflection of the
    // incoming direction about it points backward along the ray.
    let (_, scattered, does_scatter) = scatter(&r, &rec);
    assert_eq!(scattered.dir, Vec3::new(0, 0, ONE));
    assert!(does_scatter);
}

#[test]
fn lambertian_always_scatters() {
    let albedo = Vec3::new(100_000, 200_000, 300_000);
    let s = Sphere::new(Vec3::new(0, 0, -ONE), 500_000, Material::new_lambertian(albedo));
    let r = Ray::new(Vec3::new(0, 0, 0), Vec3::new(0, 0, -ONE));
    let rec = s.hit(&r, T_MIN, T_MAX).expect("head-on hit");
    for _ in 0..16 {
        let (attenuation, scattered, does_scatter) = scatter(&r, &rec);
        assert!(does_scatter);
        assert_eq!(attenuation, albedo);
        assert_eq!(scattered.orig, rec.p);
        assert!(!scattered.dir.near_zero());
    }
}

#[test]
fn dielectric_round_trip_at_unit_index() {
    // Entering and exiting a sphere of refractive index one leaves the
    // direction unchanged.
    let glass = Material::new_dielectric(ONE);
    let s = Sphere::new(Vec3::new(0, 0, -2 * ONE), ONE, glass);
    let r = Ray::new(Vec3::new(0, 0, 0), Vec3::new(0, 0, -ONE));

    let entering = s.hit(&r, T_MIN, T_MAX).expect("entering hit");
    assert!(entering.front_face);
    let (attenuation, inside_ray, does_scatter) = scatter(&r, &entering);
    assert!(does_scatter);
    assert_eq!(attenuation, Vec3::new(ONE, ONE, ONE));
    assert_eq!(inside_ray.dir, Vec3::new(0, 0, -ONE));

    let exiting = s.hit(&inside_ray, T_MIN, T_MAX).expect("exiting hit");
    assert!(!exiting.front_face);
    let (_, out_ray, scatters_again) = scatter(&inside_ray, &exiting);
    assert!(scatters_again);
    assert_eq!(out_ray.dir, Vec3::new(0, 0, -ONE));
}

#[test]
fn dielectric_total_internal_reflection() {
    // Leaving glass at forty-five degrees exceeds the critical angle, so
    // the ray must reflect, deterministically.
    let rec = ray_tracer::hittable::HitRecord {
        p: Vec3::new(0, 0, 0),
        normal: Vec3::new(0, 0, ONE),
        t: ONE,
        front_face: false,
        material: Material::new_dielectric(1_500_000),
    };
    let r = Ray::new(Vec3::new(-ONE, 0, ONE), Vec3::new(ONE, 0, -ONE));
    let (_, scattered, does_scatter) = scatter(&r, &rec);
    assert!(does_scatter);
    // The unit incoming direction is (0.707107, 0, -0.707107); its mirror
    // about the normal flips the z component exactly.
    assert_eq!(scattered.dir, Vec3::new(707_107, 0, 707_107));
}

#[test]
fn dielectric_attenuation_is_white() {
    let glass = Material::new_dielectric(1_500_000);
    let s = Sphere::new(Vec3::new(0, 0, -2 * ONE), ONE, glass);
    let r = Ray::new(Vec3::new(0, 0, 0), Vec3::new(0, 0, -ONE));
    let rec = s.hit(&r, T_MIN, T_MAX).expect("hit");
    let (attenuation, _, does_scatter) = scatter(&r, &rec);
    assert!(does_scatter);
    assert_eq!(attenuation, Vec3::new(ONE, ONE, ONE));
}

#[test]
fn absorbed_bounce_multiplies_to_black() {
    // Depth one: the first bounce recurses into a spent budget, so a hit
    // pixel is black whatever the material.
    let mut scene = HittableList::new();
    scene.add(Sphere::new(
        Vec3::new(0, 0, -ONE),
        500_000,
        Material::new_lambertian(Vec3::new(500_000, 500_000, 500_000)),
    ));
    let r = Ray::new(Vec3::new(0, 0, 0), Vec3::new(0, 0, -ONE));
    assert_eq!(ray_colour(&r, &scene, 1), Vec3::new(0, 0, 0));
}

#[test]
fn gamma_and_clamp_to_rgb() {
    let pixel = Vec3::new(ONE, 0, 250_000);
    assert_eq!(colour_to_rgb(&pixel, 1), (255, 0, 128));

    // Averaging over samples divides first: four samples of a summed
    // channel of one give a quarter, whose square root is one half.
    let accumulated = Vec3::new(ONE, ONE, ONE);
    assert_eq!(colour_to_rgb(&accumulated, 4), (128, 128, 128));

    // Negative accumulations clamp to black, overbright to full.
    let odd = Vec3::new(-3 * ONE, 9 * ONE, 0);
    assert_eq!(colour_to_rgb(&odd, 1), (0, 255, 0));
}

#[test]
fn material_constructors() {
    let albedo = Vec3::new(100_000, 900_000, 400_000);
    assert_eq!(
        Material::new_lambertian(albedo),
        Material::Lambertian { albedo }
    );
    assert_eq!(
        Material::new_metal(albedo, 2 * ONE),
        Material::Metal { albedo, fuzz: ONE }
    );
    assert_eq!(
        Material::new_metal(albedo, 300_000),
        Material::Metal { albedo, fuzz: 300_000 }
    );
    assert_eq!(
        Material::new_metal(albedo, -5),
        Material::Metal { albedo, fuzz: 0 }
    );
    assert_eq!(
        Material::new_dielectric(1_500_000),
        Material::Dielectric { index_of_refraction: 1_500_000 }
    );
    assert_eq!(
        Material::default(),
        Material::Lambertian { albedo: Vec3::new(0, 0, 0) }
    );
}
