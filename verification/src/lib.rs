//! A deterministic path-tracing kernel over fixed-point arithmetic.
//!
//! Geometry, colors and ray parameters are carried as signed 16.16
//! fixed-point values: the `i64` raw value `v` stands for the real number
//! `v / 65536`. Every arithmetic step is specified exactly over the
//! mathematical integers, so the whole rendering pipeline -- vector algebra,
//! sphere intersection, material scattering, camera ray generation and the
//! recursive radiance estimate -- is verified against truncating fixed-point
//! semantics rather than floating point.

pub mod camera;
pub mod color;
pub mod fixed;
pub mod hittable;
pub mod hittable_list;
pub mod material;
pub mod prng;
pub mod ray;
pub mod render;
pub mod rtweekend;
pub mod sphere;
pub mod vec3;

pub use camera::Camera;
pub use hittable::HitRecord;
pub use hittable::Hittable;
pub use hittable_list::HittableList;
pub use material::Dielectric;
pub use material::Lambertian;
pub use material::Material;
pub use material::Metal;
pub use sphere::Sphere;
pub use vec3::Vec3;

use vstd::prelude::*;

verus! {

/// A color, carried as a vector of three fixed-point channels.
pub type Color = Vec3;

/// A point in space, carried as a vector of three fixed-point coordinates.
pub type Point3 = Vec3;

} // verus!
