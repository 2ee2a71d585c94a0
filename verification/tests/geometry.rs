//! Ray/sphere intersection and the closest-hit scene aggregate.

use ray_tracer::hittable::{Hittable, HittableList};
use ray_tracer::material::Material;
use ray_tracer::ray::Ray;
use ray_tracer::sphere::Sphere;
use ray_tracer::vec3::Vec3;

const ONE: i128 = 1_000_000;
const T_MIN: i128 = 1000;
const T_MAX: i128 = 1_000_000_000_000_000_000;

fn grey() -> Material {
    Material::new_lambertian(Vec3::new(500_000, 500_000, 500_000))
}

#[test]
fn sphere_hit_head_on() {
    let s = Sphere::new(Vec3::new(0, 0, -ONE), 500_000, grey());
    let r = Ray::new(Vec3::new(0, 0, 0), Vec3::new(0, 0, -ONE));
    let rec = s.hit(&r, T_MIN, T_MAX).expect("the ray points straight at the sphere");
    assert_eq!(rec.t, 500_000);
    assert_eq!(rec.p, Vec3::new(0, 0, -500_000));
    assert_eq!(rec.normal, Vec3::new(0, 0, ONE));
    assert!(rec.front_face);
    assert_eq!(rec.material, grey());
}

#[test]
fn hit_point_lies_on_the_sphere() {
    // The distance from the hit point to the centre equals the radius,
    // up to grid rounding.
    let s = Sphere::new(Vec3::new(0, 0, -ONE), 500_000, grey());
    let r = Ray::new(Vec3::new(300_000, 100_000, 0), Vec3::new(-100_000, 0, -900_000));
    let rec = s.hit(&r, T_MIN, T_MAX).expect("the ray still points at the sphere");
    let offset = rec.p.sub(&s.center);
    let dist = offset.length();
    assert!((dist - 500_000).abs() <= 10, "distance {dist} is not the radius");
    assert!(T_MIN <= rec.t && rec.t <= T_MAX);
}

#[test]
fn sphere_miss_returns_none() {
    let s = Sphere::new(Vec3::new(0, 0, -ONE), 500_000, grey());
    let up = Ray::new(Vec3::new(0, 0, 0), Vec3::new(0, ONE, 0));
    assert!(s.hit(&up, T_MIN, T_MAX).is_none());
    let behind = Ray::new(Vec3::new(0, 0, 0), Vec3::new(0, 0, ONE));
    assert!(s.hit(&behind, T_MIN, T_MAX).is_none());
}

#[test]
fn window_excludes_hits() {
    let s = Sphere::new(Vec3::new(0, 0, -ONE), 500_000, grey());
    let r = Ray::new(Vec3::new(0, 0, 0), Vec3::new(0, 0, -ONE));
    // Both roots (t = 0.5 and t = 1.5) lie beyond a narrow window.
    assert!(s.hit(&r, T_MIN, 400_000).is_none());
    // A window past the near root returns the far one.
    let rec = s.hit(&r, 600_000, T_MAX).expect("the far root is in range");
    assert_eq!(rec.t, 1_500_000);
    assert!(!rec.front_face);
    assert_eq!(rec.normal, Vec3::new(0, 0, ONE));
}

#[test]
fn front_face_always_opposes_the_ray() {
    // From outside and from inside the sphere, the stored normal opposes
    // the incoming direction.
    let s = Sphere::new(Vec3::new(0, 0, 0), ONE, grey());
    let inside = Ray::new(Vec3::new(0, 0, 0), Vec3::new(0, 0, -ONE));
    let rec = s.hit(&inside, T_MIN, T_MAX).expect("an interior ray always exits");
    assert!(!rec.front_face);
    assert!(Vec3::dot(&inside.dir, &rec.normal) <= 0);

    let outside = Ray::new(Vec3::new(0, 0, 3 * ONE), Vec3::new(0, 0, -ONE));
    let rec2 = s.hit(&outside, T_MIN, T_MAX).expect("the ray points at the sphere");
    assert!(rec2.front_face);
    assert!(Vec3::dot(&outside.dir, &rec2.normal) <= 0);
}

#[test]
fn negative_radius_flips_the_surface() {
    let s = Sphere::new(Vec3::new(0, 0, -ONE), -500_000, grey());
    let r = Ray::new(Vec3::new(0, 0, 0), Vec3::new(0, 0, -ONE));
    let rec = s.hit(&r, T_MIN, T_MAX).expect("geometry is unchanged by the sign");
    assert_eq!(rec.t, 500_000);
    // The outward normal points inward, so the ray sees a back face.
    assert!(!rec.front_face);
    assert_eq!(rec.normal, Vec3::new(0, 0, ONE));
}

#[test]
fn scene_returns_the_nearest_hit() {
    let near = Sphere::new(Vec3::new(0, 0, -ONE), 500_000, grey());
    let far = Sphere::new(Vec3::new(0, 0, -2 * ONE), 500_000, grey());
    let r = Ray::new(Vec3::new(0, 0, 0), Vec3::new(0, 0, -ONE));

    let mut scene = HittableList::new();
    scene.add(near);
    scene.add(far);
    let rec = scene.hit(&r, T_MIN, T_MAX).expect("both spheres are in front");
    assert_eq!(rec.t, 500_000);

    // Insertion order does not change the winner.
    let mut reversed = HittableList::new();
    reversed.add(far);
    reversed.add(near);
    let rec2 = reversed.hit(&r, T_MIN, T_MAX).expect("both spheres are in front");
    assert_eq!(rec2.t, 500_000);
    assert_eq!(rec, rec2);
}

#[test]
fn scene_agrees_with_single_sphere() {
    let lone = Sphere::new(Vec3::new(0, 0, -3 * ONE), ONE, grey());
    let r = Ray::new(Vec3::new(0, 0, 0), Vec3::new(0, 0, -ONE));
    let direct = lone.hit(&r, T_MIN, T_MAX).expect("hit");

    let mut scene = HittableList::new();
    scene.add(lone);
    let through = scene.hit(&r, T_MIN, T_MAX).expect("hit");
    assert_eq!(direct, through);
}

#[test]
fn empty_scene_misses() {
    let scene = HittableList::new();
    let r = Ray::new(Vec3::new(0, 0, 0), Vec3::new(0, 0, -ONE));
    assert!(scene.hit(&r, T_MIN, T_MAX).is_none());
}

#[test]
fn clear_empties_the_scene() {
    let mut scene = HittableList::new();
    scene.add(Sphere::new(Vec3::new(0, 0, -ONE), 500_000, grey()));
    let r = Ray::new(Vec3::new(0, 0, 0), Vec3::new(0, 0, -ONE));
    assert!(scene.hit(&r, T_MIN, T_MAX).is_some());
    scene.clear();
    assert!(scene.hit(&r, T_MIN, T_MAX).is_none());
}

#[test]
fn ray_evaluates_along_its_direction() {
    let r = Ray::new(Vec3::new(ONE, 0, 0), Vec3::new(0, 0, -2 * ONE));
    assert_eq!(r.at(500_000), Vec3::new(ONE, 0, -ONE));
    assert_eq!(r.at(0), Vec3::new(ONE, 0, 0));
}

#[test]
fn set_face_normal_orients_against_the_ray() {
    let mut rec = ray_tracer::hittable::HitRecord {
        p: Vec3::new(0, 0, 0),
        normal: Vec3::new(0, 0, 0),
        t: 0,
        front_face: false,
        material: grey(),
    };
    let r = Ray::new(Vec3::new(0, 0, 0), Vec3::new(0, 0, -ONE));
    let outward = Vec3::new(0, 0, ONE);
    rec.set_face_normal(&r, &outward);
    assert!(rec.front_face);
    assert_eq!(rec.normal, Vec3::new(0, 0, ONE));

    let inward = Vec3::new(0, 0, -ONE);
    rec.set_face_normal(&r, &inward);
    assert!(!rec.front_face);
    assert_eq!(rec.normal, Vec3::new(0, 0, ONE));
}
