//! The material scattering models: diffuse, reflective and refractive.
//!
//! Each scatter call is a single transition producing either a scattered ray
//! with an attenuation (return value true) or an absorption (false).

use crate::fixed::{
    div_trunc, fdiv, fdiv_s, fmul, fmul_s, fsqrt, fsqrt_s, iabs, imin, lemma_abs_mul,
    lemma_div_trunc_le, lemma_fmul_le, lemma_fmul_self_nonneg, ONE,
};
use crate::hittable::HitRecord;
use crate::prng::Prng;
use crate::ray::Ray;
use crate::rtweekend::{
    random_in_unit_sphere, random_unit_vector, sphere_sample_s, unit_sample_s, SAMPLE_ATTEMPTS,
};
use crate::vec3::{in_ball, is_unit_sample, lemma_reflect_unit_bound, quad_ok, Vec3, V3};
use vstd::prelude::*;

verus! {

/// The diffuse scatter direction: surface normal plus a unit sample, falling
/// back to the bare normal when the sum is degenerate.
pub open spec fn lambertian_dir_s(n: V3, u: V3) -> V3 {
    let d = n.add(u);
    if d.near_zero() {
        n
    } else {
        d
    }
}

/// What a Lambertian scatter guarantees: it always scatters, attenuates by
/// the albedo, and sends the ray from the hit point along the normal plus
/// some unit sample (or the bare normal if that sum degenerates).
pub open spec fn scatter_post_lambertian(
    l: Lambertian,
    rec: HitRecord,
    att: Vec3,
    sc: Ray,
    b: bool,
) -> bool {
    b && att == l.albedo && sc.origin == rec.p && exists|u: V3|
        #[trigger] is_unit_sample(u) && sc.direction@ == lambertian_dir_s(rec.normal@, u)
}

/// What a Metal scatter guarantees: it attenuates by the albedo, reflects
/// the unit incoming direction about the normal, perturbs by `fuzz` times a
/// point in the unit ball (exactly the reflection when `fuzz` is zero), and
/// succeeds exactly when the result still points away from the surface.
pub open spec fn scatter_post_metal(
    m: Metal,
    r_in: Ray,
    rec: HitRecord,
    att: Vec3,
    sc: Ray,
    b: bool,
) -> bool {
    att == m.albedo && sc.origin == rec.p && b == (sc.direction@.dot(rec.normal@) > 0) && (exists|
        s: V3,
    |
        #[trigger] in_ball(s) && sc.direction@ == r_in.direction@.unit().reflect(
            rec.normal@,
        ).add(s.scale(m.fuzz as int))) && (m.fuzz == 0 ==> sc.direction@
        == r_in.direction@.unit().reflect(rec.normal@))
}

/// Whether refraction is geometrically impossible (total internal
/// reflection): `ratio * sin(theta) > 1` in fixed point.
pub open spec fn cannot_refract_s(ud: V3, n: V3, ratio: int) -> bool {
    let cos = imin(ud.neg().dot(n), ONE as int);
    let sin = fsqrt_s(iabs(ONE as int - fmul_s(cos, cos)));
    fmul_s(ratio, sin) > ONE as int
}

/// The refraction ratio a dielectric applies: the reciprocal of its index
/// when the ray enters from outside, the index itself otherwise.
pub open spec fn refraction_ratio_s(d: Dielectric, front_face: bool) -> int {
    if front_face {
        fdiv_s(ONE as int, d.ir as int)
    } else {
        d.ir as int
    }
}

/// What a Dielectric scatter guarantees: it always scatters, does not
/// attenuate, and sends the ray from the hit point as a mirror reflection
/// exactly when refraction is geometrically impossible (total internal
/// reflection) or Schlick's reflectance exceeds the uniform draw `q`, and as
/// the Snell refraction of the unit incoming direction otherwise.
pub open spec fn scatter_post_dielectric(
    d: Dielectric,
    r_in: Ray,
    rec: HitRecord,
    att: Vec3,
    sc: Ray,
    b: bool,
    q: int,
) -> bool {
    let ud = r_in.direction@.unit();
    let ratio = refraction_ratio_s(d, rec.front_face);
    let cos = imin(ud.neg().dot(rec.normal@), ONE as int);
    b && att@ == (V3 { x: ONE as int, y: ONE as int, z: ONE as int }) && sc.origin == rec.p
        && sc.direction@ == (if cannot_refract_s(ud, rec.normal@, ratio)
        || Dielectric::reflectance_s(cos, ratio) > q {
        ud.reflect(rec.normal@)
    } else {
        ud.refract(rec.normal@, ratio)
    })
}

/// A diffuse (Lambertian) material.
#[derive(Clone, Copy)]
pub struct Lambertian {
    pub albedo: Vec3,
}

impl Lambertian {
    /// A diffuse material with the given base color.
    pub fn new(albedo: &Vec3) -> (r: Lambertian)
        ensures
            r.albedo == *albedo,
    {
        Lambertian { albedo: *albedo }
    }

    /// Diffuse scatter: always succeeds; the new direction is the normal
    /// plus a random unit vector, or the bare normal if that degenerates.
    pub fn scatter(
        &self,
        _r_in: &Ray,
        rec: &HitRecord,
        attenuation: &mut Vec3,
        scattered: &mut Ray,
        rng: &mut Prng,
    ) -> (b: bool)
        requires
            rec.normal@.bounded(0x4_0000),
        ensures
            scatter_post_lambertian(*self, *rec, *final(attenuation), *final(scattered), b),
            b,
            final(scattered).direction@ == lambertian_dir_s(
                rec.normal@,
                unit_sample_s(old(rng).state, SAMPLE_ATTEMPTS as nat).0,
            ),
            final(rng).state == unit_sample_s(old(rng).state, SAMPLE_ATTEMPTS as nat).1,
    {
        let ruv: Vec3 = random_unit_vector(rng);
        let sum: Vec3 = rec.normal.add(&ruv);
        let scatter_direction: Vec3 = if sum.near_zero() {
            rec.normal
        } else {
            sum
        };
        *scattered = Ray::new(&rec.p, &scatter_direction);
        *attenuation = self.albedo;
        proof {
            assert(is_unit_sample(ruv@) && scattered.direction@ == lambertian_dir_s(
                rec.normal@,
                ruv@,
            ));
        }
        true
    }
}

/// A reflective (metal) material with a fuzz parameter.
#[derive(Clone, Copy)]
pub struct Metal {
    pub albedo: Vec3,
    pub fuzz: i64,
}

impl Metal {
    /// A metal with the given base color; the fuzz is capped at one.
    pub fn new(albedo: &Vec3, f: i64) -> (r: Metal)
        ensures
            r.albedo == *albedo,
            r.fuzz == if f < ONE {
                f
            } else {
                ONE
            },
    {
        Metal { albedo: *albedo, fuzz: if f < ONE { f } else { ONE } }
    }

    /// Specular scatter: reflect the unit incoming direction about the
    /// normal, perturb by `fuzz` times a random interior point, and succeed
    /// only if the result still points away from the surface.
    pub fn scatter(
        &self,
        r_in: &Ray,
        rec: &HitRecord,
        attenuation: &mut Vec3,
        scattered: &mut Ray,
        rng: &mut Prng,
    ) -> (b: bool)
        requires
            rec.normal@.bounded(0x4_0000),
            quad_ok(r_in.direction@),
            r_in.direction@.length_squared() >= 1,
            0 <= self.fuzz <= ONE,
        ensures
            scatter_post_metal(*self, *r_in, *rec, *final(attenuation), *final(scattered), b),
            final(scattered).direction@ == r_in.direction@.unit().reflect(rec.normal@).add(
                sphere_sample_s(old(rng).state, SAMPLE_ATTEMPTS as nat).0.scale(self.fuzz as int),
            ),
            final(rng).state == sphere_sample_s(old(rng).state, SAMPLE_ATTEMPTS as nat).1,
    {
        let uv: Vec3 = r_in.direction.unit_vector();
        let reflected: Vec3 = uv.reflect(&rec.normal);
        proof {
            lemma_reflect_unit_bound(uv@, rec.normal@);
        }
        let s: Vec3 = random_in_unit_sphere(rng);
        proof {
            lemma_abs_mul(s@.x, self.fuzz as int, ONE as int, ONE as int);
            lemma_abs_mul(s@.y, self.fuzz as int, ONE as int, ONE as int);
            lemma_abs_mul(s@.z, self.fuzz as int, ONE as int, ONE as int);
            lemma_fmul_le(s@.x, self.fuzz as int, ONE as int);
            lemma_fmul_le(s@.y, self.fuzz as int, ONE as int);
            lemma_fmul_le(s@.z, self.fuzz as int, ONE as int);
        }
        let fuzzed: Vec3 = s.scale(self.fuzz);
        let dir: Vec3 = reflected.add(&fuzzed);
        *scattered = Ray::new(&rec.p, &dir);
        *attenuation = self.albedo;
        proof {
            assert(in_ball(s@) && dir@ == r_in.direction@.unit().reflect(rec.normal@).add(
                s@.scale(self.fuzz as int),
            ));
            if self.fuzz == 0 {
                assert(s@.x * 0 == 0) by (nonlinear_arith);
                assert(s@.y * 0 == 0) by (nonlinear_arith);
                assert(s@.z * 0 == 0) by (nonlinear_arith);
                assert(fmul_s(s@.x, 0) == 0 && fmul_s(s@.y, 0) == 0 && fmul_s(s@.z, 0) == 0);
                assert(dir@ == r_in.direction@.unit().reflect(rec.normal@));
            }
        }
        dir.dot(&rec.normal) > 0
    }
}

/// A refractive (dielectric) material.
#[derive(Clone, Copy)]
pub struct Dielectric {
    /// Index of refraction, in fixed point.
    pub ir: i64,
}

impl Dielectric {
    /// A dielectric with the given index of refraction.
    pub fn new(index_of_refraction: i64) -> (r: Dielectric)
        ensures
            r.ir == index_of_refraction,
    {
        Dielectric { ir: index_of_refraction }
    }

    /// Schlick's reflectance approximation:
    /// `r0 + (1 - r0) * (1 - cos)^5` with `r0 = ((1 - n) / (1 + n))^2`.
    pub open spec fn reflectance_s(cosine: int, ref_idx: int) -> int {
        let r0a = fdiv_s(ONE as int - ref_idx, ONE as int + ref_idx);
        let r0 = fmul_s(r0a, r0a);
        r0 + fmul_s(ONE as int - r0, pow5_s(ONE as int - cosine))
    }

    /// Schlick's reflectance approximation, in fixed point.
    fn reflectance(cosine: i64, ref_idx: i64) -> (r: i64)
        requires
            0x800 <= ref_idx <= 0x20_0000,
            -0x30_0000 <= cosine <= ONE,
        ensures
            r == Dielectric::reflectance_s(cosine as int, ref_idx as int),
    {
        proof {
            lemma_div_trunc_le(
                (ONE as int - ref_idx) * (ONE as int),
                ONE as int + ref_idx,
                ONE as int,
            );
        }
        let r0a: i64 = fdiv(ONE - ref_idx, ONE + ref_idx);
        proof {
            lemma_abs_mul(r0a as int, r0a as int, ONE as int, ONE as int);
            lemma_fmul_le(r0a as int, r0a as int, ONE as int);
            lemma_fmul_self_nonneg(r0a as int);
        }
        let r0: i64 = fmul(r0a, r0a);
        let p: i64 = ONE - cosine;
        proof {
            lemma_pow5_ranges(p as int);
        }
        let p2: i64 = fmul(p, p);
        let p3: i64 = fmul(p2, p);
        let p4: i64 = fmul(p3, p);
        let p5: i64 = fmul(p4, p);
        proof {
            lemma_abs_mul(ONE as int - r0, p5 as int, ONE as int, 0x4000_0000_0000);
        }
        r0 + fmul(ONE - r0, p5)
    }

    /// Refractive scatter: always succeeds with no attenuation; reflect under
    /// total internal reflection or with probability given by Schlick's
    /// approximation, refract otherwise.
    pub fn scatter(
        &self,
        r_in: &Ray,
        rec: &HitRecord,
        attenuation: &mut Vec3,
        scattered: &mut Ray,
        rng: &mut Prng,
    ) -> (b: bool)
        requires
            rec.normal@.bounded(0x4_0000),
            quad_ok(r_in.direction@),
            r_in.direction@.length_squared() >= 1,
            0x800 <= self.ir <= 0x20_0000,
        ensures
            scatter_post_dielectric(
                *self,
                *r_in,
                *rec,
                *final(attenuation),
                *final(scattered),
                b,
                (crate::prng::next_state(old(rng).state) % 65536) as int,
            ),
            b,
            ({
                let ud = r_in.direction@.unit();
                let ratio = refraction_ratio_s(*self, rec.front_face);
                final(rng).state == if cannot_refract_s(ud, rec.normal@, ratio) {
                    old(rng).state
                } else {
                    crate::prng::next_state(old(rng).state)
                }
            }),
    {
        *attenuation = Vec3 { x: ONE, y: ONE, z: ONE };
        proof {
            lemma_div_trunc_le(
                (ONE as int) * (ONE as int),
                self.ir as int,
                0x20_0000,
            );
            lemma_ratio_lower(self.ir as int);
        }
        let refraction_ratio: i64 = if rec.front_face {
            fdiv(ONE, self.ir)
        } else {
            self.ir
        };

        let unit_direction: Vec3 = r_in.direction.unit_vector();
        proof {
            let ud = r_in.direction@.unit();
            lemma_abs_mul(-ud.x, rec.normal@.x, 0x4_0000, 0x4_0000);
            lemma_abs_mul(-ud.y, rec.normal@.y, 0x4_0000, 0x4_0000);
            lemma_abs_mul(-ud.z, rec.normal@.z, 0x4_0000, 0x4_0000);
            lemma_fmul_le(-ud.x, rec.normal@.x, 0x10_0000);
            lemma_fmul_le(-ud.y, rec.normal@.y, 0x10_0000);
            lemma_fmul_le(-ud.z, rec.normal@.z, 0x10_0000);
        }
        let cos0: i64 = unit_direction.neg().dot(&rec.normal);
        let cos_theta: i64 = if cos0 < ONE {
            cos0
        } else {
            ONE
        };
        proof {
            lemma_abs_mul(cos_theta as int, cos_theta as int, 0x30_0000, 0x30_0000);
            lemma_fmul_le(cos_theta as int, cos_theta as int, 0x900_0000);
        }
        let cc: i64 = fmul(cos_theta, cos_theta);
        let k: i64 = ONE - cc;
        let ka: i64 = if k >= 0 {
            k
        } else {
            -k
        };
        let sin_theta: i64 = fsqrt(ka);
        proof {
            lemma_abs_mul(refraction_ratio as int, sin_theta as int, 0x20_0000, 0x100_0000_0000);
        }
        let cannot_refract: bool = fmul(refraction_ratio, sin_theta) > ONE;

        let direction: Vec3 = if cannot_refract || Dielectric::reflectance(
            cos_theta,
            refraction_ratio,
        ) > rng.next_unit() {
            unit_direction.reflect(&rec.normal)
        } else {
            unit_direction.refract(&rec.normal, refraction_ratio)
        };

        *scattered = Ray::new(&rec.p, &direction);

        true
    }
}

/// The fifth power under repeated fixed-point multiplication.
pub open spec fn pow5_s(p: int) -> int {
    fmul_s(fmul_s(fmul_s(fmul_s(p, p), p), p), p)
}

/// Ranges of the intermediate powers in `pow5_s` for the base values
/// Schlick's approximation uses.
proof fn lemma_pow5_ranges(p: int)
    requires
        0 <= p <= 0x31_0000,
    ensures
        -0x1000_0000 <= fmul_s(p, p) <= 0x1000_0000,
        -0x4_0000_0000 <= fmul_s(fmul_s(p, p), p) <= 0x4_0000_0000,
        -0x100_0000_0000 <= fmul_s(fmul_s(fmul_s(p, p), p), p) <= 0x100_0000_0000,
        -0x4000_0000_0000 <= pow5_s(p) <= 0x4000_0000_0000,
        fmul_ok_chain(p),
{
    lemma_abs_mul(p, p, 0x31_0000, 0x31_0000);
    lemma_fmul_le(p, p, 0x1000_0000);
    lemma_abs_mul(fmul_s(p, p), p, 0x1000_0000, 0x31_0000);
    lemma_fmul_le(fmul_s(p, p), p, 0x4_0000_0000);
    lemma_abs_mul(fmul_s(fmul_s(p, p), p), p, 0x4_0000_0000, 0x31_0000);
    lemma_fmul_le(fmul_s(fmul_s(p, p), p), p, 0x100_0000_0000);
    lemma_abs_mul(fmul_s(fmul_s(fmul_s(p, p), p), p), p, 0x100_0000_0000, 0x31_0000);
    lemma_fmul_le(fmul_s(fmul_s(fmul_s(p, p), p), p), p, 0x4000_0000_0000);
}

/// All four products in the fifth-power chain stay in range.
pub open spec fn fmul_ok_chain(p: int) -> bool {
    crate::fixed::fmul_ok(p, p) && crate::fixed::fmul_ok(fmul_s(p, p), p)
        && crate::fixed::fmul_ok(fmul_s(fmul_s(p, p), p), p) && crate::fixed::fmul_ok(
        fmul_s(fmul_s(fmul_s(p, p), p), p),
        p,
    )
}

/// The reciprocal of an index in `[1/32, 32]` is itself at least `1/32`.
proof fn lemma_ratio_lower(ir: int)
    requires
        0x800 <= ir <= 0x20_0000,
    ensures
        div_trunc((ONE as int) * (ONE as int), ir) >= 0x800,
        fdiv_s(ONE as int, ir) >= 0x800,
{
    assert(0x1_0000_0000int / ir >= 0x800) by (nonlinear_arith)
        requires
            0x800 <= ir <= 0x20_0000,
    ;
}

/// Law: a dielectric with refractive index one applies refraction ratio one
/// on both faces, and the head-on refraction through it (incidence opposite
/// an exactly unit-length normal) leaves the incident direction unchanged:
/// such a medium does not bend light. (Away from head-on incidence the same
/// holds only up to truncation error.)
pub proof fn lemma_dielectric_index_one_head_on(d: Dielectric, front_face: bool, n: V3)
    requires
        d.ir == ONE,
        n.length_squared() == ONE as int,
    ensures
        refraction_ratio_s(d, front_face) == ONE as int,
        n.neg().refract(n, refraction_ratio_s(d, front_face)) == n.neg(),
{
    assert((65536int * 65536) / 65536 == 65536) by (nonlinear_arith);
    assert(fdiv_s(ONE as int, ONE as int) == ONE as int);
    let v = n.neg();
    crate::fixed::lemma_fmul_one(n.x);
    crate::fixed::lemma_fmul_one(n.y);
    crate::fixed::lemma_fmul_one(n.z);
    crate::fixed::lemma_fmul_one(ONE as int);
    crate::fixed::lemma_fmul_one(0);
    assert(v.neg() == n);
    assert(v.neg().dot(n) == n.length_squared());
    assert(v.add(n.scale(ONE as int)) == V3::zero());
    assert(v.add(n.scale(ONE as int)).scale(ONE as int) == V3::zero());
    assert(V3::zero().length_squared() == 0);
    crate::fixed::lemma_isqrt_square(ONE as int);
    assert(fsqrt_s(ONE as int) == ONE as int);
    assert(v.refract(n, ONE as int) == V3::zero().add(n.scale(-(ONE as int))));
}

/// A scene material: a closed set of scattering models, dispatched by
/// variant.
#[derive(Clone, Copy)]
pub enum Material {
    Lambertian(Lambertian),
    Metal(Metal),
    Dielectric(Dielectric),
}

/// The parameter ranges under which a material's scatter arithmetic is
/// defined: fuzz in `[0, 1]`, refractive index in `[1/32, 32]`.
pub open spec fn material_wf(m: Material) -> bool {
    match m {
        Material::Lambertian(_) => true,
        Material::Metal(mm) => 0 <= mm.fuzz <= ONE as int,
        Material::Dielectric(d) => 0x800 <= d.ir <= 0x20_0000,
    }
}

impl Material {
    /// Whether the material's parameters are in the ranges its scatter
    /// arithmetic is defined for.
    pub fn is_well_formed(&self) -> (b: bool)
        ensures
            b == material_wf(*self),
    {
        match self {
            Material::Lambertian(_) => true,
            Material::Metal(m) => 0 <= m.fuzz && m.fuzz <= ONE,
            Material::Dielectric(d) => 0x800 <= d.ir && d.ir <= 0x20_0000,
        }
    }

    /// Scatter an incoming ray at a hit: dispatch to the variant's model.
    pub fn scatter(
        &self,
        r_in: &Ray,
        rec: &HitRecord,
        attenuation: &mut Vec3,
        scattered: &mut Ray,
        rng: &mut Prng,
    ) -> (b: bool)
        requires
            material_wf(*self),
            rec.normal@.bounded(0x4_0000),
            quad_ok(r_in.direction@),
            r_in.direction@.length_squared() >= 1,
        ensures
            *self matches Material::Lambertian(l) ==> scatter_post_lambertian(
                l,
                *rec,
                *final(attenuation),
                *final(scattered),
                b,
            ),
            *self matches Material::Metal(m) ==> scatter_post_metal(
                m,
                *r_in,
                *rec,
                *final(attenuation),
                *final(scattered),
                b,
            ),
            *self matches Material::Dielectric(d) ==> scatter_post_dielectric(
                d,
                *r_in,
                *rec,
                *final(attenuation),
                *final(scattered),
                b,
                (crate::prng::next_state(old(rng).state) % 65536) as int,
            ),
            *self matches Material::Lambertian(l) ==> final(scattered).direction@
                == lambertian_dir_s(
                rec.normal@,
                unit_sample_s(old(rng).state, SAMPLE_ATTEMPTS as nat).0,
            ) && final(rng).state == unit_sample_s(old(rng).state, SAMPLE_ATTEMPTS as nat).1,
            *self matches Material::Metal(m) ==> final(scattered).direction@
                == r_in.direction@.unit().reflect(rec.normal@).add(
                sphere_sample_s(old(rng).state, SAMPLE_ATTEMPTS as nat).0.scale(m.fuzz as int),
            ) && final(rng).state == sphere_sample_s(old(rng).state, SAMPLE_ATTEMPTS as nat).1,
            *self matches Material::Dielectric(d) ==> final(rng).state == (if cannot_refract_s(
                r_in.direction@.unit(),
                rec.normal@,
                refraction_ratio_s(d, rec.front_face),
            ) {
                old(rng).state
            } else {
                crate::prng::next_state(old(rng).state)
            }),
    {
        match self {
            Material::Lambertian(l) => l.scatter(r_in, rec, attenuation, scattered, rng),
            Material::Metal(m) => m.scatter(r_in, rec, attenuation, scattered, rng),
            Material::Dielectric(d) => d.scatter(r_in, rec, attenuation, scattered, rng),
        }
    }
}

} // verus!
