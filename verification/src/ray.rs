//! A parametrized line: origin plus scaled direction.

use crate::fixed::fmul_ok;
use crate::vec3::{add_ok, Vec3, V3};
use vstd::prelude::*;

verus! {

/// A ray; the direction is not required to be normalized.
#[derive(Clone, Copy, Debug, PartialEq, Eq, Structural)]
pub struct Ray {
    pub origin: Vec3,
    pub direction: Vec3,
}

/// The point a ray reaches at parameter `t`: `origin + t * direction`.
pub open spec fn ray_at_s(r: Ray, t: int) -> V3 {
    r.origin@.add(r.direction@.scale(t))
}

/// The scaling and sums inside `Ray::at` stay in range.
pub open spec fn ray_at_ok(r: Ray, t: int) -> bool {
    fmul_ok(r.direction@.x, t) && fmul_ok(r.direction@.y, t) && fmul_ok(r.direction@.z, t)
        && add_ok(r.origin@, r.direction@.scale(t))
}

impl Ray {
    /// The degenerate ray at the origin.
    pub fn new0() -> (r: Ray)
        ensures
            r.origin@ == V3::zero(),
            r.direction@ == V3::zero(),
    {
        Ray { origin: Vec3::new0(), direction: Vec3::new0() }
    }

    /// A ray from its origin and direction.
    pub fn new(origin: &Vec3, direction: &Vec3) -> (r: Ray)
        ensures
            r.origin == *origin,
            r.direction == *direction,
    {
        Ray { origin: *origin, direction: *direction }
    }

    /// The point reached at parameter `t`.
    pub fn at(&self, t: i64) -> (r: Vec3)
        requires
            ray_at_ok(*self, t as int),
        ensures
            r@ == ray_at_s(*self, t as int),
    {
        self.origin.add(&self.direction.scale(t))
    }
}

} // verus!
