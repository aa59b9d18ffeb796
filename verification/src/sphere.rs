//! The sphere primitive and its ray-intersection arithmetic.
//!
//! A negative radius is a valid configuration: the outward normal is
//! computed as `(hit_point - center) / radius`, so the sign of the radius
//! flips the normal, which models a hollow sphere.

use crate::fixed::{
    div_trunc, fdiv, fdiv_s, fmul, fmul_ok, fmul_s, fsqrt, fsqrt_s, lemma_abs_mul,
    lemma_fdiv_le_one, lemma_fmul_le, lemma_fmul_self_nonneg, lemma_isqrt_s, ONE,
};
use crate::hittable::{HitRecord, HitView};
use crate::material::Material;
use crate::ray::{ray_at_s, Ray};
use crate::vec3::{quad_ok, sub_ok, Vec3, V3};
use vstd::prelude::*;

verus! {

/// A sphere with a material handle.
#[derive(Clone, Copy)]
pub struct Sphere {
    pub center: Vec3,
    pub radius: i64,
    pub mat_ptr: Option<Material>,
}

impl Sphere {
    /// A sphere from its center, radius and material.
    pub fn new(center: &Vec3, radius: i64, material: Option<Material>) -> (r: Sphere)
        ensures
            r.center == *center,
            r.radius == radius,
            r.mat_ptr == material,
    {
        Sphere { center: *center, radius, mat_ptr: material }
    }
}

/// The sphere's geometry lives within `2^26` raw units (1024 in real value)
/// per component, and the radius is non-zero.
pub open spec fn sphere_geom_ok(s: Sphere) -> bool {
    s.center@.bounded(0x400_0000) && s.radius != 0 && -0x400_0000 <= s.radius <= 0x400_0000
}

/// The ray lives within `2^26` raw units per component.
pub open spec fn scene_ray_ok(ray: Ray) -> bool {
    ray.origin@.bounded(0x400_0000) && ray.direction@.bounded(0x400_0000)
}

/// A well-formed scene sphere: bounded geometry and a well-formed material.
pub open spec fn sphere_wf(s: Sphere) -> bool {
    sphere_geom_ok(s) && (s.mat_ptr matches Some(m) ==> crate::material::material_wf(m))
}

/// The intersection arithmetic of `Sphere::hit` stays in range.
pub open spec fn sphere_hit_ok(s: Sphere, ray: Ray) -> bool {
    sphere_geom_ok(s) && scene_ray_ok(ray)
}

/// A sphere hit reports the sphere's own material, a normal the scattering
/// arithmetic accepts, and a parameter inside the window.
pub proof fn lemma_sphere_rec_props(s: Sphere, ray: Ray, t_min: int, t_max: int)
    ensures
        match sphere_hit_s(s, ray, t_min, t_max) {
            Some(h) => h.mat_ptr == s.mat_ptr && quad_ok(h.normal) && t_min <= h.t <= t_max,
            None => true,
        },
{
}

/// The quadratic discriminant of the ray-sphere equation, in fixed point.
pub open spec fn sphere_disc_s(s: Sphere, ray: Ray) -> int {
    let oc = ray.origin@.sub(s.center@);
    let half_b = oc.dot(ray.direction@);
    let a = ray.direction@.length_squared();
    let c = oc.length_squared() - fmul_s(s.radius as int, s.radius as int);
    fmul_s(half_b, half_b) - fmul_s(a, c)
}

/// The ray parameter chosen by the intersection test: the smaller root if it
/// lies within the window, else the larger root.
pub open spec fn sphere_root_s(s: Sphere, ray: Ray, t_min: int, t_max: int) -> int {
    let oc = ray.origin@.sub(s.center@);
    let half_b = oc.dot(ray.direction@);
    let a = ray.direction@.length_squared();
    let sqrtd = fsqrt_s(sphere_disc_s(s, ray));
    let root1 = fdiv_s(-half_b - sqrtd, a);
    if root1 < t_min || t_max < root1 {
        fdiv_s(-half_b + sqrtd, a)
    } else {
        root1
    }
}

/// The outward normal at parameter `root`: `(point - center) / radius`.
pub open spec fn sphere_outward_s(s: Sphere, ray: Ray, root: int) -> V3 {
    ray_at_s(ray, root).sub(s.center@).div(s.radius as int)
}

/// The record of a hit at parameter `root`, unless the outward normal falls
/// outside the range the later arithmetic accepts.
///
/// The stored normal is exactly `(point - center) / radius` in fixed point
/// (or its flip). Its length is one only up to truncation, and only as far
/// as the hit point's computed distance to the center matches the radius;
/// the contracts pin the defining formula, not a unit-length claim.
pub open spec fn sphere_rec_s(s: Sphere, ray: Ray, root: int) -> Option<HitView> {
    let outward = sphere_outward_s(s, ray, root);
    if !quad_ok(outward) {
        None
    } else {
        let front = ray.direction@.dot(outward) < 0;
        Some(
            HitView {
                p: ray_at_s(ray, root),
                normal: if front {
                    outward
                } else {
                    outward.neg()
                },
                mat_ptr: s.mat_ptr,
                t: root,
                front_face: front,
            },
        )
    }
}

/// What `Sphere::hit` reports: no hit when the discriminant is negative,
/// the direction is degenerate, or no root lies in the window; otherwise the
/// record at the chosen root.
pub open spec fn sphere_hit_s(s: Sphere, ray: Ray, t_min: int, t_max: int) -> Option<HitView> {
    let a = ray.direction@.length_squared();
    if sphere_disc_s(s, ray) < 0 || a <= 0 {
        None
    } else {
        let root = sphere_root_s(s, ray, t_min, t_max);
        if root < t_min || t_max < root {
            None
        } else {
            sphere_rec_s(s, ray, root)
        }
    }
}

/// Law: a ray that starts outside (or on) the sphere and points away from it
/// reports no hit. "Outside" is `|origin - center|^2 >= radius^2` and
/// "points away" is a non-negative projection of the direction onto
/// `origin - center`, both in fixed point.
pub proof fn lemma_ray_aimed_away_misses(s: Sphere, ray: Ray, t_min: int, t_max: int)
    requires
        0 < t_min <= t_max,
        ray.origin@.sub(s.center@).dot(ray.direction@) >= 0,
        ray.origin@.sub(s.center@).length_squared() >= fmul_s(s.radius as int, s.radius as int),
    ensures
        sphere_hit_s(s, ray, t_min, t_max) is None,
{
    let oc = ray.origin@.sub(s.center@);
    let d = ray.direction@;
    let a = d.length_squared();
    let half_b = oc.dot(d);
    let c = oc.length_squared() - fmul_s(s.radius as int, s.radius as int);
    let disc = sphere_disc_s(s, ray);
    lemma_fmul_self_nonneg(d.x);
    lemma_fmul_self_nonneg(d.y);
    lemma_fmul_self_nonneg(d.z);
    if disc >= 0 && a > 0 {
        crate::fixed::lemma_fmul_nonneg(a, c);
        crate::fixed::lemma_fmul_self_nonneg(half_b);
        crate::fixed::lemma_div_trunc_mul_le(half_b * half_b, ONE as int);
        let sqrtd = fsqrt_s(disc);
        assert(disc * (ONE as int) <= half_b * half_b) by (nonlinear_arith)
            requires
                disc <= fmul_s(half_b, half_b),
                fmul_s(half_b, half_b) * (ONE as int) <= half_b * half_b,
        ;
        crate::fixed::lemma_isqrt_monotone((disc * (ONE as int)) as nat, (half_b * half_b) as nat);
        crate::fixed::lemma_isqrt_square(half_b);
        assert(sqrtd <= half_b);
        crate::fixed::lemma_div_trunc_nonpos((-half_b - sqrtd) * (ONE as int), a);
        crate::fixed::lemma_div_trunc_nonpos((-half_b + sqrtd) * (ONE as int), a);
        crate::fixed::lemma_isqrt_s((disc * (ONE as int)) as nat);
    }
}

/// Law (partial): a ray aimed exactly at the sphere's center always has a
/// non-negative intersection discriminant, so such a test is never rejected
/// for lack of real roots; with a non-degenerate direction, only the
/// parameter-window and normal-range checks can make it miss.
pub proof fn lemma_aimed_at_center_has_real_roots(s: Sphere, ray: Ray)
    requires
        ray.direction@ == s.center@.sub(ray.origin@),
    ensures
        sphere_disc_s(s, ray) >= 0,
{
    let oc = ray.origin@.sub(s.center@);
    let d = ray.direction@;
    let a = d.length_squared();
    let rr = fmul_s(s.radius as int, s.radius as int);
    lemma_neg_products(oc.x, d.x);
    lemma_neg_products(oc.y, d.y);
    lemma_neg_products(oc.z, d.z);
    assert(oc.dot(d) == -a && oc.length_squared() == a);
    lemma_fmul_self_nonneg(d.x);
    lemma_fmul_self_nonneg(d.y);
    lemma_fmul_self_nonneg(d.z);
    lemma_fmul_self_nonneg(s.radius as int);
    let half_b = oc.dot(d);
    assert(fmul_s(half_b, half_b) == fmul_s(a, a)) by {
        assert((-a) * (-a) == a * a) by (nonlinear_arith);
    }
    assert(a * (a - rr) <= a * a) by (nonlinear_arith)
        requires
            a >= 0,
            rr >= 0,
    ;
    crate::fixed::lemma_div_trunc_monotone(a * (a - rr), a * a, ONE as int);
}

/// Law: a ray aimed exactly at the center of a sphere of radius at least
/// one, starting outside it with a direction of real length at least one
/// (the vector to the center of a sphere the ray starts outside of), reports
/// a hit with a positive parameter whenever the window reaches `[1, 2]`.
pub proof fn lemma_aimed_at_center_hits(s: Sphere, ray: Ray, t_min: int, t_max: int)
    requires
        sphere_hit_ok(s, ray),
        ray.direction@ == s.center@.sub(ray.origin@),
        ray.direction@.length_squared() >= ONE as int,
        ray.origin@.sub(s.center@).length_squared() >= fmul_s(s.radius as int, s.radius as int),
        ONE as int <= crate::fixed::iabs(s.radius as int),
        0 < t_min <= ONE as int,
        2 * ONE as int <= t_max,
    ensures
        match sphere_hit_s(s, ray, t_min, t_max) {
            Some(h) => t_min <= h.t <= 2 * ONE as int,
            None => false,
        },
{
    let one = ONE as int;
    let o = ray.origin@;
    let cc = s.center@;
    let d = ray.direction@;
    let oc = o.sub(cc);
    let a = d.length_squared();
    let rr = fmul_s(s.radius as int, s.radius as int);
    lemma_neg_products(oc.x, d.x);
    lemma_neg_products(oc.y, d.y);
    lemma_neg_products(oc.z, d.z);
    assert(oc.dot(d) == -a && oc.length_squared() == a);
    lemma_fmul_self_nonneg(d.x);
    lemma_fmul_self_nonneg(d.y);
    lemma_fmul_self_nonneg(d.z);
    lemma_fmul_self_nonneg(s.radius as int);
    lemma_aimed_at_center_has_real_roots(s, ray);
    let disc = sphere_disc_s(s, ray);
    assert(fmul_s(-a, -a) == fmul_s(a, a)) by {
        assert((-a) * (-a) == a * a) by (nonlinear_arith);
    }

    // The discriminant, rescaled, stays below (a + 1)^2.
    crate::fixed::lemma_div_trunc_remainder(a * a, one);
    assert(a * (a - rr) >= 0 && a * (a - rr) <= a * a - a * rr + 0) by (nonlinear_arith)
        requires
            0 <= rr <= a,
    ;
    crate::fixed::lemma_div_trunc_remainder(a * (a - rr), one);
    assert(a * (a - rr) == a * a - a * rr) by (nonlinear_arith);
    assert(disc * one < a * rr + one + one) by (nonlinear_arith)
        requires
            disc == div_trunc(a * a, one) - div_trunc(a * (a - rr), one),
            div_trunc(a * a, one) * one <= a * a,
            div_trunc(a * (a - rr), one) * one > a * (a - rr) - one,
            a * (a - rr) == a * a - a * rr,
            one == 65536,
    ;
    assert(a * rr <= a * a) by (nonlinear_arith)
        requires
            0 <= rr <= a,
    ;
    assert(disc * one < (a + 1) * (a + 1)) by (nonlinear_arith)
        requires
            disc * one < a * a + 2 * one,
            a >= 65536,
            one == 65536,
    ;
    let sq = fsqrt_s(disc);
    lemma_isqrt_s((disc * one) as nat);
    assert(0 <= sq <= a) by (nonlinear_arith)
        requires
            sq >= 0,
            sq * sq <= disc * one,
            disc * one < (a + 1) * (a + 1),
            a >= 0,
    ;

    // Both candidate roots are at most 2, and the larger is at least 1.
    assert(div_trunc(a * one, a) == one && div_trunc((2 * a) * one, a) == 2 * one)
        by (nonlinear_arith)
        requires
            a >= 1,
            one == 65536,
    ;
    crate::fixed::lemma_div_trunc_monotone((a - sq) * one, a * one, a);
    crate::fixed::lemma_div_trunc_monotone(a * one, (a + sq) * one, a);
    crate::fixed::lemma_div_trunc_monotone((a + sq) * one, (2 * a) * one, a);
    let root1 = fdiv_s(-oc.dot(d) - sq, a);
    let root2 = fdiv_s(-oc.dot(d) + sq, a);
    assert(root1 == div_trunc((a - sq) * one, a) && root2 == div_trunc((a + sq) * one, a));
    assert(root1 <= one && one <= root2 <= 2 * one);
    let root = sphere_root_s(s, ray, t_min, t_max);
    assert(t_min <= root <= 2 * one);

    // The hit point and the outward normal stay in range, so the record is
    // reported.
    lemma_abs_mul(d.x, root, 0x800_0000, 0x2_0000);
    lemma_abs_mul(d.y, root, 0x800_0000, 0x2_0000);
    lemma_abs_mul(d.z, root, 0x800_0000, 0x2_0000);
    lemma_fmul_le(d.x, root, 0x1000_0000);
    lemma_fmul_le(d.y, root, 0x1000_0000);
    lemma_fmul_le(d.z, root, 0x1000_0000);
    let p = crate::ray::ray_at_s(ray, root);
    let delta = p.sub(cc);
    assert(delta.bounded(0x2000_0000));
    lemma_outward_comp(delta.x, s.radius as int);
    lemma_outward_comp(delta.y, s.radius as int);
    lemma_outward_comp(delta.z, s.radius as int);
    assert(quad_ok(sphere_outward_s(s, ray, root)));
}

/// A hit-point offset divided by a radius of magnitude at least one keeps
/// its own magnitude bound.
proof fn lemma_outward_comp(x: int, r: int)
    requires
        -0x2000_0000 <= x <= 0x2000_0000,
        crate::fixed::iabs(r) >= ONE as int,
    ensures
        -0x2000_0000 <= fdiv_s(x, r) <= 0x2000_0000,
{
    let one = ONE as int;
    if r > 0 {
        assert(0x2000_0000 * r >= 0x2000_0000 * one) by (nonlinear_arith)
            requires
                r >= one,
                one == 65536,
        ;
        crate::fixed::lemma_div_trunc_le(x * one, r, 0x2000_0000);
    } else {
        assert(0x2000_0000 * (-r) >= 0x2000_0000 * one) by (nonlinear_arith)
            requires
                -r >= one,
                one == 65536,
        ;
        crate::fixed::lemma_div_trunc_le(-(x * one), -r, 0x2000_0000);
    }
}

/// For a direction opposite to an offset, the fixed-point products relating
/// the two are exact negations and squares agree.
proof fn lemma_neg_products(ocx: int, dx: int)
    requires
        ocx == -dx,
    ensures
        fmul_s(ocx, dx) == -fmul_s(dx, dx),
        fmul_s(ocx, ocx) == fmul_s(dx, dx),
{
    assert(ocx * dx == -(dx * dx) && ocx * ocx == dx * dx) by (nonlinear_arith)
        requires
            ocx == -dx,
    ;
}

/// Law: whenever a hit is reported, `front_face` states exactly whether the
/// ray direction opposes the outward normal `(point - center) / radius`, and
/// the stored normal is that outward normal or its flip accordingly. Since
/// the outward normal divides by the signed radius, a negative radius flips
/// the reported orientation: the hollow-sphere convention.
pub proof fn lemma_hit_normal_orientation(s: Sphere, ray: Ray, t_min: int, t_max: int)
    ensures
        match sphere_hit_s(s, ray, t_min, t_max) {
            Some(h) => {
                let outward = sphere_outward_s(s, ray, h.t);
                h.front_face == (ray.direction@.dot(outward) < 0) && h.normal == (
                if h.front_face {
                    outward
                } else {
                    outward.neg()
                }) && h.p == ray_at_s(ray, h.t) && t_min <= h.t <= t_max
            },
            None => true,
        },
{
}

/// Magnitude bounds for every intermediate of the intersection arithmetic.
proof fn lemma_sphere_ranges(s: Sphere, ray: Ray)
    requires
        sphere_hit_ok(s, ray),
    ensures
        sub_ok(ray.origin@, s.center@),
        ({
            let oc = ray.origin@.sub(s.center@);
            let half_b = oc.dot(ray.direction@);
            let a = ray.direction@.length_squared();
            let c = oc.length_squared() - fmul_s(s.radius as int, s.radius as int);
            quad_ok(oc) && quad_ok(ray.direction@) && -0x60_0000_0000 <= half_b
                <= 0x60_0000_0000 && 0 <= a <= 0x30_0000_0000 && 0 <= oc.length_squared()
                <= 0xC0_0000_0000 && 0 <= fmul_s(s.radius as int, s.radius as int)
                <= 0x10_0000_0000 && -0x10_0000_0000 <= c <= 0xC0_0000_0000 && fmul_ok(
                half_b,
                half_b,
            ) && fmul_ok(a, c) && -0x2400_0000_0000_0000 <= fmul_s(half_b, half_b)
                <= 0x2400_0000_0000_0000 && -0x2400_0000_0000_0000 <= fmul_s(a, c)
                <= 0x2400_0000_0000_0000
        }),
{
    let oc = ray.origin@.sub(s.center@);
    let d = ray.direction@;
    lemma_abs_mul(oc.x, d.x, 0x800_0000, 0x400_0000);
    lemma_abs_mul(oc.y, d.y, 0x800_0000, 0x400_0000);
    lemma_abs_mul(oc.z, d.z, 0x800_0000, 0x400_0000);
    lemma_fmul_le(oc.x, d.x, 0x20_0000_0000);
    lemma_fmul_le(oc.y, d.y, 0x20_0000_0000);
    lemma_fmul_le(oc.z, d.z, 0x20_0000_0000);
    lemma_abs_mul(d.x, d.x, 0x400_0000, 0x400_0000);
    lemma_abs_mul(d.y, d.y, 0x400_0000, 0x400_0000);
    lemma_abs_mul(d.z, d.z, 0x400_0000, 0x400_0000);
    lemma_fmul_le(d.x, d.x, 0x10_0000_0000);
    lemma_fmul_le(d.y, d.y, 0x10_0000_0000);
    lemma_fmul_le(d.z, d.z, 0x10_0000_0000);
    lemma_fmul_self_nonneg(d.x);
    lemma_fmul_self_nonneg(d.y);
    lemma_fmul_self_nonneg(d.z);
    lemma_abs_mul(oc.x, oc.x, 0x800_0000, 0x800_0000);
    lemma_abs_mul(oc.y, oc.y, 0x800_0000, 0x800_0000);
    lemma_abs_mul(oc.z, oc.z, 0x800_0000, 0x800_0000);
    lemma_fmul_le(oc.x, oc.x, 0x40_0000_0000);
    lemma_fmul_le(oc.y, oc.y, 0x40_0000_0000);
    lemma_fmul_le(oc.z, oc.z, 0x40_0000_0000);
    lemma_fmul_self_nonneg(oc.x);
    lemma_fmul_self_nonneg(oc.y);
    lemma_fmul_self_nonneg(oc.z);
    lemma_abs_mul(s.radius as int, s.radius as int, 0x400_0000, 0x400_0000);
    lemma_fmul_le(s.radius as int, s.radius as int, 0x10_0000_0000);
    lemma_fmul_self_nonneg(s.radius as int);
    let half_b = oc.dot(d);
    let a = d.length_squared();
    let c = oc.length_squared() - fmul_s(s.radius as int, s.radius as int);
    lemma_abs_mul(half_b, half_b, 0x60_0000_0000, 0x60_0000_0000);
    lemma_fmul_le(half_b, half_b, 0x2400_0000_0000_0000);
    lemma_abs_mul(a, c, 0x30_0000_0000, 0xC0_0000_0000);
    lemma_fmul_le(a, c, 0x2400_0000_0000_0000);
}

impl Sphere {
    /// Whether the sphere's geometry and material are in the ranges the
    /// intersection and scattering arithmetic are defined for.
    pub fn is_well_formed(&self) -> (b: bool)
        ensures
            b == sphere_wf(*self),
    {
        self.center.in_range(0x400_0000) && self.radius != 0 && -0x400_0000 <= self.radius
            && self.radius <= 0x400_0000 && (match &self.mat_ptr {
            Some(m) => m.is_well_formed(),
            None => true,
        })
    }

    /// Intersect `ray` with the sphere over the parameter window
    /// `[t_min, t_max]`; on a hit, fill `rec` and return true.
    pub fn hit(&self, ray: &Ray, t_min: i64, t_max: i64, rec: &mut HitRecord) -> (b: bool)
        requires
            sphere_hit_ok(*self, *ray),
            0 < t_min <= t_max <= 0x4_0000_0000,
        ensures
            b == (sphere_hit_s(*self, *ray, t_min as int, t_max as int) is Some),
            b ==> Some(final(rec)@) == sphere_hit_s(*self, *ray, t_min as int, t_max as int),
            b ==> t_min <= final(rec).t <= t_max,
            !b ==> *final(rec) == *old(rec),
    {
        proof {
            lemma_sphere_ranges(*self, *ray);
        }
        let oc: Vec3 = ray.origin.sub(&self.center);
        let a: i64 = ray.direction.length_squared();
        let half_b: i64 = oc.dot(&ray.direction);
        let c: i64 = oc.length_squared() - fmul(self.radius, self.radius);
        let discriminant: i64 = fmul(half_b, half_b) - fmul(a, c);

        if discriminant < 0 {
            return false;
        }
        if a <= 0 {
            // A direction too short to register at fixed-point precision
            // cannot be intersected meaningfully.
            return false;
        }

        let sqrtd: i64 = fsqrt(discriminant);

        proof {
            lemma_fdiv_le_one(
                -(half_b as int) - (sqrtd as int),
                a as int,
                0x1000_0000_0000_0000,
            );
            lemma_fdiv_le_one(
                -(half_b as int) + (sqrtd as int),
                a as int,
                0x1000_0000_0000_0000,
            );
        }
        // Find the nearest root that lies in the acceptable range.
        let mut root: i64 = fdiv(-half_b - sqrtd, a);
        if root < t_min || t_max < root {
            root = fdiv(-half_b + sqrtd, a);
            if root < t_min || t_max < root {
                return false;
            }
        }

        proof {
            lemma_abs_mul(ray.direction@.x, root as int, 0x400_0000, 0x4_0000_0000);
            lemma_abs_mul(ray.direction@.y, root as int, 0x400_0000, 0x4_0000_0000);
            lemma_abs_mul(ray.direction@.z, root as int, 0x400_0000, 0x4_0000_0000);
            lemma_fmul_le(ray.direction@.x, root as int, 0x1000_0000_0000);
            lemma_fmul_le(ray.direction@.y, root as int, 0x1000_0000_0000);
            lemma_fmul_le(ray.direction@.z, root as int, 0x1000_0000_0000);
        }
        let p: Vec3 = ray.at(root);
        let delta: Vec3 = p.sub(&self.center);
        proof {
            lemma_fdiv_le_one(delta@.x, self.radius as int, 0x4000_0000_0000_0000);
            lemma_fdiv_le_one(delta@.y, self.radius as int, 0x4000_0000_0000_0000);
            lemma_fdiv_le_one(delta@.z, self.radius as int, 0x4000_0000_0000_0000);
        }
        let outward_normal: Vec3 = delta.div(self.radius);
        if !outward_normal.in_range(0x20_0000_0000) {
            // The normal fell outside the range the scattering arithmetic
            // accepts; report no reliable hit.
            return false;
        }

        rec.t = root;
        rec.p = p;
        rec.set_face_normal(ray, &outward_normal);
        rec.mat_ptr = self.mat_ptr;

        true
    }
}

} // verus!
