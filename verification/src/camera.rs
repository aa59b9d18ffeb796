//! The camera: maps normalized image-plane coordinates (plus lens-sampling
//! jitter) to outgoing rays, including depth-of-field.

use crate::fixed::{
    div_trunc, div_trunc_i64, fdiv, fdiv_s, fmul, fmul_s, lemma_abs_mul, lemma_div_trunc_le,
    lemma_div_trunc_nonneg, lemma_fmul_le, lemma_fmul_nonneg, ONE,
};
use crate::prng::Prng;
use crate::ray::Ray;
use crate::rtweekend::{cos_fx, cos_fx_s, degrees_to_radians, disk_sample_s, random_in_unit_disk,
    sin_fx, sin_fx_s, RAD_PER_DEG, SAMPLE_ATTEMPTS};
use crate::vec3::{in_disk, Vec3, V3};
use vstd::prelude::*;

verus! {

/// Half the vertical field of view, in fixed-point radians.
pub open spec fn half_theta_s(vfov: int) -> int {
    div_trunc(fmul_s(vfov, RAD_PER_DEG as int), 2)
}

/// The fixed-point tangent of half the vertical field of view.
pub open spec fn tan_half_s(vfov: int) -> int {
    fdiv_s(sin_fx_s(half_theta_s(vfov)), cos_fx_s(half_theta_s(vfov)))
}

/// An immutable camera configuration: the eye position, the viewport corner
/// and span vectors, the orthonormal basis, and the lens radius.
pub struct Camera {
    pub origin: Vec3,
    pub lower_left_corner: Vec3,
    pub horizontal: Vec3,
    pub vertical: Vec3,
    pub u: Vec3,
    pub v: Vec3,
    pub w: Vec3,
    pub lens_radius: i64,
}

/// The ranges under which `Camera::new` stays in range: geometry within
/// `2^26` raw units, a field of view in (0, 160] degrees whose cosine
/// approximation stays clearly positive, moderate aspect ratio, aperture and
/// focus distance, a distinct look-at point, and an up vector not parallel
/// to the view direction.
pub open spec fn camera_new_ok(
    lookfrom: Vec3,
    lookat: Vec3,
    vup: Vec3,
    vfov: int,
    aspect_ratio: int,
    aperture: int,
    focus_dist: int,
) -> bool {
    lookfrom@.bounded(0x400_0000) && lookat@.bounded(0x400_0000) && vup@.bounded(0x400_0000) && 0
        < vfov <= 0xA0_0000 && 0 <= aspect_ratio <= 0x8_0000 && 0 <= aperture <= 0x20_0000 && 0
        <= focus_dist <= 0x20_0000 && cos_fx_s(half_theta_s(vfov)) >= 0x800 && lookfrom@.sub(
        lookat@,
    ).length_squared() >= 1 && vup@.cross(lookfrom@.sub(lookat@).unit()).length_squared() >= 1
}

/// The field values the constructor derives, as one predicate.
pub open spec fn camera_fields_s(
    c: Camera,
    lookfrom: Vec3,
    lookat: Vec3,
    vup: Vec3,
    vfov: int,
    aspect_ratio: int,
    aperture: int,
    focus_dist: int,
) -> bool {
    let w = lookfrom@.sub(lookat@).unit();
    let u = vup@.cross(w).unit();
    let v = w.cross(u);
    let vh = 2 * tan_half_s(vfov);
    let vw = fmul_s(aspect_ratio, vh);
    let horizontal = u.scale(fmul_s(focus_dist, vw));
    let vertical = v.scale(fmul_s(focus_dist, vh));
    c.origin == lookfrom && c.w@ == w && c.u@ == u && c.v@ == v && c.horizontal@ == horizontal
        && c.vertical@ == vertical && c.lower_left_corner@ == lookfrom@.sub(
        horizontal.div(2 * ONE as int),
    ).sub(vertical.div(2 * ONE as int)).sub(w.scale(focus_dist)) && c.lens_radius == div_trunc(
        aperture,
        2,
    )
}

/// The field ranges under which `Camera::get_ray` stays in range.
pub open spec fn camera_wf(c: Camera) -> bool {
    c.origin@.bounded(0x80_0000) && c.lower_left_corner@.bounded(0x80_0000)
        && c.horizontal@.bounded(0x80_0000) && c.vertical@.bounded(0x80_0000) && c.u@.bounded(
        0x4_0000,
    ) && c.v@.bounded(0x4_0000) && c.w@.bounded(0x4_0000) && 0 <= c.lens_radius <= 0x10_0000
}

/// The lens offset a disk sample produces: `u * rd.x + v * rd.y`, each
/// coordinate scaled by the lens radius.
pub open spec fn cam_offset_s(c: Camera, rd: V3) -> V3 {
    c.u@.scale(fmul_s(c.lens_radius as int, rd.x)).add(
        c.v@.scale(fmul_s(c.lens_radius as int, rd.y)),
    )
}

/// The origin of a generated ray: the eye offset within the lens plane.
pub open spec fn cam_origin_s(c: Camera, rd: V3) -> V3 {
    c.origin@.add(cam_offset_s(c, rd))
}

/// The direction of a generated ray: from the offset origin to the viewport
/// point at normalized coordinates `(s, t)`.
pub open spec fn cam_dir_s(c: Camera, s: int, t: int, rd: V3) -> V3 {
    c.lower_left_corner@.add(c.horizontal@.scale(s)).add(c.vertical@.scale(t)).sub(
        c.origin@,
    ).sub(cam_offset_s(c, rd))
}

impl Camera {
    /// Derive a camera from the eye position (`lookfrom`), the point looked
    /// at, the view-up vector, the vertical field of view in fixed-point
    /// degrees, the aspect ratio, the aperture and the focus distance.
    pub fn new(
        lookfrom: Vec3,
        lookat: Vec3,
        vup: Vec3,
        vfov: i64,
        aspect_ratio: i64,
        aperture: i64,
        focus_dist: i64,
    ) -> (r: Camera)
        requires
            camera_new_ok(
                lookfrom,
                lookat,
                vup,
                vfov as int,
                aspect_ratio as int,
                aperture as int,
                focus_dist as int,
            ),
        ensures
            camera_fields_s(
                r,
                lookfrom,
                lookat,
                vup,
                vfov as int,
                aspect_ratio as int,
                aperture as int,
                focus_dist as int,
            ),
    {
        proof {
            lemma_fmul_nonneg(vfov as int, RAD_PER_DEG as int);
            lemma_abs_mul(vfov as int, RAD_PER_DEG as int, 0xA0_0000, 1144);
            lemma_fmul_le(vfov as int, RAD_PER_DEG as int, 183040);
            lemma_div_trunc_le(fmul_s(vfov as int, RAD_PER_DEG as int), 2, 183040);
            lemma_div_trunc_nonneg(fmul_s(vfov as int, RAD_PER_DEG as int), 2);
        }
        let theta: i64 = degrees_to_radians(vfov);
        let half: i64 = div_trunc_i64(theta, 2);
        let sh: i64 = sin_fx(half);
        let ch: i64 = cos_fx(half);
        proof {
            assert(0x1000_0000 * (ch as int) >= 0x80_0000 * 0x1_0000) by (nonlinear_arith)
                requires
                    ch >= 0x800,
            ;
            lemma_div_trunc_le(sh as int * (ONE as int), ch as int, 0x1000_0000);
        }
        let h: i64 = fdiv(sh, ch);
        let viewport_height: i64 = 2 * h;
        proof {
            lemma_abs_mul(aspect_ratio as int, viewport_height as int, 0x8_0000, 0x2000_0000);
            lemma_fmul_le(aspect_ratio as int, viewport_height as int, 0x1_0000_0000);
        }
        let viewport_width: i64 = fmul(aspect_ratio, viewport_height);

        let w: Vec3 = lookfrom.sub(&lookat).unit_vector();
        let uc: Vec3 = vup.cross(&w);
        proof {
            lemma_cross_bound(vup@, w@, 0x400_0000, 0x4_0000, 0x1000_0000);
        }
        let u: Vec3 = uc.unit_vector();
        let v: Vec3 = w.cross(&u);
        proof {
            lemma_cross_bound(w@, u@, 0x4_0000, 0x4_0000, 0x10_0000);
        }

        proof {
            lemma_abs_mul(focus_dist as int, viewport_width as int, 0x20_0000, 0x1_0000_0000);
            lemma_fmul_le(focus_dist as int, viewport_width as int, 0x20_0000_0000);
            lemma_abs_mul(focus_dist as int, viewport_height as int, 0x20_0000, 0x2000_0000);
            lemma_fmul_le(focus_dist as int, viewport_height as int, 0x4_0000_0000);
        }
        let fw: i64 = fmul(focus_dist, viewport_width);
        let fh: i64 = fmul(focus_dist, viewport_height);
        proof {
            lemma_scale_fmul(u@, fw as int, 0x4_0000, 0x20_0000_0000, 0x80_0000_0000);
            lemma_scale_fmul(v@, fh as int, 0x20_0000, 0x4_0000_0000, 0x80_0000_0000);
        }
        let horizontal: Vec3 = u.scale(fw);
        let vertical: Vec3 = v.scale(fh);
        proof {
            lemma_half_vec(horizontal@, 0x40_0000_0000);
            lemma_half_vec(vertical@, 0x40_0000_0000);
            lemma_scale_fmul(w@, focus_dist as int, 0x4_0000, 0x20_0000, 0x80_0000);
        }
        let half_h: Vec3 = horizontal.div(2 * ONE);
        let half_v: Vec3 = vertical.div(2 * ONE);
        let wf: Vec3 = w.scale(focus_dist);
        let lower_left_corner: Vec3 = lookfrom.sub(&half_h).sub(&half_v).sub(&wf);

        proof {
            lemma_div_trunc_le(aperture as int, 2, 0x10_0000);
        }
        let lens_radius: i64 = div_trunc_i64(aperture, 2);

        Camera { origin: lookfrom, lower_left_corner, horizontal, vertical, u, v, w, lens_radius }
    }

    /// Whether the derived fields are in the ranges `get_ray` accepts.
    pub fn is_well_formed(&self) -> (b: bool)
        ensures
            b == camera_wf(*self),
    {
        self.origin.in_range(0x80_0000) && self.lower_left_corner.in_range(0x80_0000)
            && self.horizontal.in_range(0x80_0000) && self.vertical.in_range(0x80_0000)
            && self.u.in_range(0x4_0000) && self.v.in_range(0x4_0000) && self.w.in_range(0x4_0000)
            && 0 <= self.lens_radius && self.lens_radius <= 0x10_0000
    }

    /// The ray for normalized image-plane coordinates `(s, t)`: a random
    /// point on the lens disk offsets the origin, and the direction aims at
    /// the viewport point, which produces depth-of-field blur. With a zero
    /// lens radius (zero aperture) the ray leaves exactly from the eye,
    /// whatever the random draw.
    pub fn get_ray(&self, s: i64, t: i64, rng: &mut Prng) -> (r: Ray)
        requires
            camera_wf(*self),
            0 <= s <= 2 * ONE as int,
            0 <= t <= 2 * ONE as int,
        ensures
            exists|rd: V3|
                #[trigger] in_disk(rd) && r.origin@ == cam_origin_s(*self, rd) && r.direction@
                    == cam_dir_s(*self, s as int, t as int, rd),
            ({
                let rd = disk_sample_s(old(rng).state, SAMPLE_ATTEMPTS as nat).0;
                r.origin@ == cam_origin_s(*self, rd) && r.direction@ == cam_dir_s(
                    *self,
                    s as int,
                    t as int,
                    rd,
                )
            }),
            final(rng).state == disk_sample_s(old(rng).state, SAMPLE_ATTEMPTS as nat).1,
            self.lens_radius == 0 ==> r.origin@ == self.origin@,
            r.origin@.bounded(0x100_0000),
            r.direction@.bounded(0x400_0000),
    {
        let rd: Vec3 = random_in_unit_disk(rng);
        proof {
            lemma_abs_mul(self.lens_radius as int, rd@.x, 0x10_0000, ONE as int);
            lemma_abs_mul(self.lens_radius as int, rd@.y, 0x10_0000, ONE as int);
            lemma_fmul_le(self.lens_radius as int, rd@.x, 0x10_0000);
            lemma_fmul_le(self.lens_radius as int, rd@.y, 0x10_0000);
        }
        let rx: i64 = fmul(self.lens_radius, rd.x);
        let ry: i64 = fmul(self.lens_radius, rd.y);
        proof {
            lemma_scale_fmul(self.u@, rx as int, 0x4_0000, 0x10_0000, 0x40_0000);
            lemma_scale_fmul(self.v@, ry as int, 0x4_0000, 0x10_0000, 0x40_0000);
        }
        let offset: Vec3 = self.u.scale(rx).add(&self.v.scale(ry));
        let origin: Vec3 = self.origin.add(&offset);
        proof {
            lemma_scale_fmul(self.horizontal@, s as int, 0x80_0000, 2 * ONE as int, 0x100_0000);
            lemma_scale_fmul(self.vertical@, t as int, 0x80_0000, 2 * ONE as int, 0x100_0000);
        }
        let direction: Vec3 = self.lower_left_corner.add(&self.horizontal.scale(s)).add(
            &self.vertical.scale(t),
        ).sub(&self.origin).sub(&offset);
        proof {
            assert(in_disk(rd@) && origin@ == cam_origin_s(*self, rd@) && direction@
                == cam_dir_s(*self, s as int, t as int, rd@));
            if self.lens_radius == 0 {
                assert(0int * rd@.x == 0 && 0int * rd@.y == 0) by (nonlinear_arith);
                assert(fmul_s(0, rd@.x) == 0 && fmul_s(0, rd@.y) == 0);
                assert(self.u@.x * 0 == 0 && self.u@.y * 0 == 0 && self.u@.z * 0 == 0)
                    by (nonlinear_arith);
                assert(self.v@.x * 0 == 0 && self.v@.y * 0 == 0 && self.v@.z * 0 == 0)
                    by (nonlinear_arith);
                assert(origin@ == self.origin@);
            }
        }
        Ray { origin, direction }
    }
}

/// Each component of a cross product of vectors bounded by `ba` and `bb` is
/// within `2 * cf` when each pairwise product is within `cf * ONE`.
proof fn lemma_cross_bound(a: V3, b: V3, ba: int, bb: int, cf: int)
    requires
        a.bounded(ba),
        b.bounded(bb),
        0 <= ba,
        0 <= bb,
        0 <= cf,
        ba * bb <= cf * (ONE as int),
    ensures
        a.cross(b).bounded(2 * cf),
{
    lemma_abs_mul(a.y, b.z, ba, bb);
    lemma_abs_mul(a.z, b.y, ba, bb);
    lemma_abs_mul(a.z, b.x, ba, bb);
    lemma_abs_mul(a.x, b.z, ba, bb);
    lemma_abs_mul(a.x, b.y, ba, bb);
    lemma_abs_mul(a.y, b.x, ba, bb);
    lemma_fmul_le(a.y, b.z, cf);
    lemma_fmul_le(a.z, b.y, cf);
    lemma_fmul_le(a.z, b.x, cf);
    lemma_fmul_le(a.x, b.z, cf);
    lemma_fmul_le(a.x, b.y, cf);
    lemma_fmul_le(a.y, b.x, cf);
}

/// Scaling a vector bounded by `bv` by a scalar bounded by `bk` keeps every
/// component within `cf` when `bv * bk <= cf * ONE`, and in range.
proof fn lemma_scale_fmul(v: V3, k: int, bv: int, bk: int, cf: int)
    requires
        v.bounded(bv),
        -bk <= k <= bk,
        0 <= bv,
        0 <= bk,
        0 <= cf <= i64::MAX as int,
        bv * bk <= cf * (ONE as int),
    ensures
        v.scale(k).bounded(cf),
        crate::fixed::fmul_ok(v.x, k) && crate::fixed::fmul_ok(v.y, k) && crate::fixed::fmul_ok(
            v.z,
            k,
        ),
{
    lemma_abs_mul(v.x, k, bv, bk);
    lemma_abs_mul(v.y, k, bv, bk);
    lemma_abs_mul(v.z, k, bv, bk);
    assert(cf * (ONE as int) <= (ONE as int) * (i64::MAX as int)) by (nonlinear_arith)
        requires
            0 <= cf <= i64::MAX as int,
    ;
    lemma_fmul_le(v.x, k, cf);
    lemma_fmul_le(v.y, k, cf);
    lemma_fmul_le(v.z, k, cf);
}

/// Halving a vector bounded by `2 * b` (division by two in fixed point)
/// stays in range and is bounded by `b`.
proof fn lemma_half_vec(v: V3, b: int)
    requires
        0 <= b <= i64::MAX as int,
        v.bounded(2 * b),
    ensures
        crate::fixed::fdiv_ok(v.x, 2 * ONE as int),
        crate::fixed::fdiv_ok(v.y, 2 * ONE as int),
        crate::fixed::fdiv_ok(v.z, 2 * ONE as int),
        v.div(2 * ONE as int).bounded(b),
{
    assert(-(b * (2 * ONE as int)) <= v.x * (ONE as int) <= b * (2 * ONE as int)
        && -(b * (2 * ONE as int)) <= v.y * (ONE as int) <= b * (2 * ONE as int)
        && -(b * (2 * ONE as int)) <= v.z * (ONE as int) <= b * (2 * ONE as int))
        by (nonlinear_arith)
        requires
            b >= 0,
            v.bounded(2 * b),
    ;
    lemma_div_trunc_le(v.x * (ONE as int), 2 * ONE as int, b);
    lemma_div_trunc_le(v.y * (ONE as int), 2 * ONE as int, b);
    lemma_div_trunc_le(v.z * (ONE as int), 2 * ONE as int, b);
}

} // verus!
