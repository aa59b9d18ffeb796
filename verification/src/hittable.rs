//! The intersection record and the polymorphic intersection capability.

use crate::material::Material;
use crate::ray::Ray;
use crate::sphere::{lemma_sphere_rec_props, sphere_hit_ok, sphere_hit_s, sphere_wf, Sphere};
use crate::vec3::{quad_ok, Vec3, V3};
use vstd::prelude::*;

verus! {

/// What an intersection test reports: the hit point, the normal (oriented
/// against the incoming ray), the ray parameter, the material, and whether
/// the ray struck the front (outward-facing) side.
#[derive(Clone, Copy)]
pub struct HitRecord {
    pub p: Vec3,
    pub normal: Vec3,
    pub mat_ptr: Option<Material>,
    pub t: i64,
    pub front_face: bool,
}

/// The mathematical model of a hit record.
pub ghost struct HitView {
    pub p: V3,
    pub normal: V3,
    pub mat_ptr: Option<Material>,
    pub t: int,
    pub front_face: bool,
}

impl View for HitRecord {
    type V = HitView;

    open spec fn view(&self) -> HitView {
        HitView {
            p: self.p@,
            normal: self.normal@,
            mat_ptr: self.mat_ptr,
            t: self.t as int,
            front_face: self.front_face,
        }
    }
}

impl HitRecord {
    /// An empty record.
    pub fn new() -> (r: HitRecord)
        ensures
            r.p@ == V3::zero(),
            r.normal@ == V3::zero(),
            r.mat_ptr is None,
            r.t == 0,
            !r.front_face,
    {
        HitRecord {
            p: Vec3::new0(),
            normal: Vec3::new0(),
            mat_ptr: None,
            t: 0,
            front_face: false,
        }
    }

    /// Orient the stored normal against the incoming ray: the outward normal
    /// is kept if the ray arrives from outside (`front_face`), and flipped
    /// otherwise.
    pub fn set_face_normal(&mut self, ray: &Ray, outward_normal: &Vec3)
        requires
            quad_ok(ray.direction@),
            quad_ok(outward_normal@),
        ensures
            final(self).front_face == (ray.direction@.dot(outward_normal@) < 0),
            final(self).normal@ == if ray.direction@.dot(outward_normal@) < 0 {
                outward_normal@
            } else {
                outward_normal@.neg()
            },
            final(self).p == old(self).p,
            final(self).t == old(self).t,
            final(self).mat_ptr == old(self).mat_ptr,
    {
        self.front_face = ray.direction.dot(outward_normal) < 0;
        self.normal = if self.front_face {
            *outward_normal
        } else {
            outward_normal.neg()
        };
    }
}

/// A scene primitive: a closed set of shapes, dispatched by variant.
#[derive(Clone, Copy)]
pub enum Hittable {
    Sphere(Sphere),
}

/// What `Hittable::hit` reports, by variant.
pub open spec fn hittable_hit_s(h: Hittable, ray: Ray, t_min: int, t_max: int) -> Option<
    HitView,
> {
    match h {
        Hittable::Sphere(s) => sphere_hit_s(s, ray, t_min, t_max),
    }
}

/// The intersection arithmetic of `Hittable::hit` stays in range.
pub open spec fn hittable_hit_ok(h: Hittable, ray: Ray) -> bool {
    match h {
        Hittable::Sphere(s) => sphere_hit_ok(s, ray),
    }
}

/// A well-formed scene primitive: bounded geometry and a well-formed
/// material.
pub open spec fn hittable_wf(h: Hittable) -> bool {
    match h {
        Hittable::Sphere(s) => sphere_wf(s),
    }
}

/// A hit on a well-formed primitive reports a well-formed material, a normal
/// the scattering arithmetic accepts, and a parameter inside the window.
pub proof fn lemma_hittable_rec_props(h: Hittable, ray: Ray, t_min: int, t_max: int)
    requires
        hittable_wf(h),
    ensures
        match hittable_hit_s(h, ray, t_min, t_max) {
            Some(hv) => (hv.mat_ptr matches Some(m) ==> crate::material::material_wf(m))
                && quad_ok(hv.normal) && t_min <= hv.t <= t_max,
            None => true,
        },
{
    match h {
        Hittable::Sphere(s) => {
            lemma_sphere_rec_props(s, ray, t_min, t_max);
        },
    }
}

impl Hittable {
    /// Whether the primitive is in the ranges the intersection and
    /// scattering arithmetic are defined for.
    pub fn is_well_formed(&self) -> (b: bool)
        ensures
            b == hittable_wf(*self),
    {
        match self {
            Hittable::Sphere(s) => s.is_well_formed(),
        }
    }

    /// Intersect `ray` with this primitive over the parameter window
    /// `[t_min, t_max]`; on a hit, fill `rec` and return true.
    pub fn hit(&self, ray: &Ray, t_min: i64, t_max: i64, rec: &mut HitRecord) -> (b: bool)
        requires
            hittable_hit_ok(*self, *ray),
            0 < t_min <= t_max <= 0x4_0000_0000,
        ensures
            b == (hittable_hit_s(*self, *ray, t_min as int, t_max as int) is Some),
            b ==> Some(final(rec)@) == hittable_hit_s(*self, *ray, t_min as int, t_max as int),
            b ==> t_min <= final(rec).t <= t_max,
            !b ==> *final(rec) == *old(rec),
    {
        match self {
            Hittable::Sphere(s) => s.hit(ray, t_min, t_max, rec),
        }
    }
}

} // verus!
