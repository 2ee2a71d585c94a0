//! The camera, the random helpers, the stock scene, and a small
//! end-to-end render.

use ray_tracer::camera::Camera;
use ray_tracer::hittable::HittableList;
use ray_tracer::material::Material;
use ray_tracer::ray::Ray;
use ray_tracer::render::{random_scene, ray_colour};
use ray_tracer::sphere::Sphere;
use ray_tracer::utils::{random_in_range, random_in_unit_sphere, random_unit,
    random_unit_vector};
use ray_tracer::vec3::Vec3;

const ONE: i128 = 1_000_000;

#[test]
fn get_ray_spans_the_viewport() {
    // A hand-built camera with a 4 x 2 viewport one unit in front.
    let cam = Camera {
        origin: Vec3::new(0, 0, 0),
        lower_left_corner: Vec3::new(-2 * ONE, -ONE, -ONE),
        horizontal: Vec3::new(4 * ONE, 0, 0),
        vertical: Vec3::new(0, 2 * ONE, 0),
    };
    let centre = cam.get_ray(500_000, 500_000);
    assert_eq!(centre.orig, Vec3::new(0, 0, 0));
    assert_eq!(centre.dir, Vec3::new(0, 0, -ONE));
    let corner = cam.get_ray(0, 0);
    assert_eq!(corner.dir, Vec3::new(-2 * ONE, -ONE, -ONE));
    let other_corner = cam.get_ray(ONE, ONE);
    assert_eq!(other_corner.dir, Vec3::new(2 * ONE, ONE, -ONE));
}

#[test]
fn ninety_degree_camera_has_unit_half_height() {
    // tan(45 degrees) is one, up to the polynomial's rounding.
    let cam = Camera::new(90 * ONE, 16_000_000 / 9);
    let h = cam.vertical.y / 2;
    assert!(
        (h - ONE).abs() <= 10,
        "half-height {h} differs from one unit"
    );
    assert_eq!(cam.origin, Vec3::new(0, 0, 0));
    assert_eq!(cam.lower_left_corner.z, -ONE);
}

#[test]
fn random_draws_stay_in_range() {
    let mut all_equal = true;
    let first = random_unit();
    for _ in 0..64 {
        let r = random_unit();
        assert!((0..ONE).contains(&r));
        if r != first {
            all_equal = false;
        }
    }
    assert!(!all_equal, "sixty-four uniform draws all came out identical");
    for _ in 0..32 {
        let r = random_in_range(-3, 7);
        assert!((-3..=7).contains(&r));
    }
    assert_eq!(random_in_range(5, 5), 5);
}

#[test]
fn sampled_points_lie_in_the_unit_ball() {
    for _ in 0..16 {
        let p = random_in_unit_sphere();
        assert!(p.length_squared() < ONE);
    }
}

#[test]
fn sampled_directions_are_unit_length() {
    for _ in 0..16 {
        let u = random_unit_vector();
        let ls = u.length_squared();
        assert!(
            (ls - ONE).abs() <= 5_000,
            "squared length {ls} is far from one"
        );
    }
}

#[test]
fn stock_scene_layout() {
    let world = random_scene();
    let n = world.objects.len();
    assert!(n >= 4);
    assert_eq!(
        world.objects[0],
        Sphere::new(
            Vec3::new(0, -1000 * ONE, 0),
            1000 * ONE,
            Material::new_lambertian(Vec3::new(500_000, 500_000, 500_000)),
        )
    );
    assert_eq!(
        world.objects[n - 3],
        Sphere::new(Vec3::new(0, ONE, 0), ONE, Material::new_dielectric(1_500_000))
    );
    assert_eq!(
        world.objects[n - 2],
        Sphere::new(
            Vec3::new(-4 * ONE, ONE, 0),
            ONE,
            Material::new_lambertian(Vec3::new(400_000, 200_000, 100_000)),
        )
    );
    assert_eq!(
        world.objects[n - 1],
        Sphere::new(
            Vec3::new(4 * ONE, ONE, 0),
            ONE,
            Material::new_metal(Vec3::new(700_000, 600_000, 500_000), 0),
        )
    );
    for s in &world.objects {
        assert!(s.radius.abs() >= 1000);
        assert!(s.center.x.abs() <= 10_000_000_000);
    }
    // Every member between the ground and the three feature spheres is a
    // small field sphere resting at height 0.2, clear of (4, 0.2, 0).
    for s in &world.objects[1..n - 3] {
        assert_eq!(s.radius, 200_000);
        assert_eq!(s.center.y, 200_000);
        assert!(s.center.x.abs() <= 11 * ONE);
        assert!(s.center.z.abs() <= 11 * ONE);
        let off = s.center.sub(&Vec3::new(4 * ONE, 200_000, 0));
        assert!(off.length() > 900_000);
    }
}

#[test]
fn end_to_end_two_sphere_frame() {
    // One sphere in front of the camera and a large ground sphere, a
    // four-hundred pixel wide sixteen-by-nine frame, one sample, one
    // bounce: the centre pixel strikes the foreground sphere (and with a
    // single bounce comes out black), while the top row sees the sky
    // gradient.
    let mut world = HittableList::new();
    world.add(Sphere::new(
        Vec3::new(0, 0, -ONE),
        500_000,
        Material::new_lambertian(Vec3::new(500_000, 500_000, 500_000)),
    ));
    world.add(Sphere::new(
        Vec3::new(0, -100_500_000, -ONE),
        100 * ONE,
        Material::new_lambertian(Vec3::new(500_000, 500_000, 500_000)),
    ));
    let width: i128 = 400;
    let height: i128 = 225;
    let cam = Camera::new(90 * ONE, 16_000_000 / 9);

    let centre_u = (width / 2) * ONE / (width - 1);
    let centre_v = (height / 2) * ONE / (height - 1);
    let centre_ray = cam.get_ray(centre_u, centre_v);
    let centre_pixel = ray_colour(&centre_ray, &world, 1);
    assert_eq!(centre_pixel, Vec3::new(0, 0, 0));

    let top_v = ONE;
    let top_ray = cam.get_ray(centre_u, top_v);
    let top_pixel = ray_colour(&top_ray, &world, 1);
    // The sky gradient: full blue channel, and more green than red.
    assert_eq!(top_pixel.z, ONE);
    assert!(top_pixel.y > top_pixel.x);
    assert!(top_pixel.x > 0);
}

#[test]
fn rays_from_the_camera_are_well_formed() {
    let cam = Camera::new(20 * ONE, 1_500_000);
    let r: Ray = cam.get_ray(250_000, 750_000);
    assert!(ray_tracer::hittable::ray_wf_check(&r));
}
