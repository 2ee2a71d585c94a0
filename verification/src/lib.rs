//! A CPU path tracer whose arithmetic is exact fixed-point: every scalar is
//! an `i128` counting millionths of a unit, so geometry, shading and the
//! recursive integrator all carry machine-checked contracts.

pub mod camera;
pub mod fixed;
pub mod hittable;
pub mod material;
pub mod ray;
pub mod render;
pub mod sphere;
pub mod utils;
pub mod vec3;

pub use camera::Camera;
pub use hittable::HitRecord;
pub use hittable::Hittable;
pub use hittable::HittableList;
pub use ray::Ray;
pub use sphere::Sphere;
pub use vec3::Colour;
pub use vec3::Point3;
pub use vec3::Vec3;
