//! The radiance integrator and the pixel sampling loop.

use crate::camera::{cam_dir_s, cam_origin_s, camera_wf, Camera};
use crate::color::{rgb8_channel_s, to_rgb8};
use crate::fixed::{
    fdiv, fmul, lemma_abs_mul, lemma_div_trunc_le, lemma_div_trunc_nonneg, lemma_fmul_le, ONE,
};
use crate::hittable::{HitRecord, Hittable};
use crate::hittable_list::{lemma_list_hit_props, list_hit_s, list_wf, HittableList};
use crate::prng::Prng;
use crate::ray::Ray;
use crate::sphere::scene_ray_ok;
use crate::vec3::{in_disk, Vec3, V3};
use vstd::prelude::*;

verus! {

/// The lower ray-parameter bound used for every intersection: about 0.001,
/// which suppresses self-intersection of bounced rays at their origin.
pub const T_MIN_SHADOW: i64 = 66;

/// The upper ray-parameter bound: far beyond any in-range scene.
pub const T_FAR: i64 = 0x4_0000_0000;

/// The background gradient, the scene's only light source: a linear blend
/// from white to sky blue by the unit direction's height.
pub open spec fn background_s(ray: Ray) -> V3 {
    let ud = ray.direction@.unit();
    let t = fmul_s_half(ud.y + ONE as int);
    let white = V3 { x: ONE as int, y: ONE as int, z: ONE as int };
    let sky = V3 { x: 32768, y: 45875, z: ONE as int };
    white.scale(ONE as int - t).add(sky.scale(t))
}

/// Half of a fixed-point value, by fixed-point product with 0.5.
pub open spec fn fmul_s_half(a: int) -> int {
    crate::fixed::fmul_s(32768, a)
}

/// Law: for a ray whose normalized direction has height within one (every
/// true unit direction), the background gradient is a color: each channel
/// lies in `[0, 1]`.
pub proof fn lemma_background_unit_range(ray: Ray)
    requires
        -(ONE as int) <= ray.direction@.unit().y <= ONE as int,
    ensures
        ({
            let b = background_s(ray);
            0 <= b.x <= ONE as int && 0 <= b.y <= ONE as int && 0 <= b.z <= ONE as int
        }),
{
    let uy = ray.direction@.unit().y;
    let t = fmul_s_half(uy + ONE as int);
    assert(0 <= (32768 * (uy + 65536)) / 65536 <= 65536) by (nonlinear_arith)
        requires
            0 <= uy + 65536 <= 2 * 65536,
    ;
    crate::fixed::lemma_fmul_one(ONE as int - t);
    crate::fixed::lemma_fmul_nonneg(32768, t);
    crate::fixed::lemma_fmul_nonneg(45875, t);
    crate::fixed::lemma_fmul_nonneg(ONE as int, t);
    assert(32768 * t <= 65536 * t && 45875 * t <= 65536 * t) by (nonlinear_arith)
        requires
            t >= 0,
    ;
    crate::fixed::lemma_div_trunc_monotone(32768 * t, 65536 * t, 65536);
    crate::fixed::lemma_div_trunc_monotone(45875 * t, 65536 * t, 65536);
    crate::fixed::lemma_fmul_one(t);
}

/// What one scatter call may report, by material variant (the dielectric's
/// uniform draw is abstracted as some value in `[0, ONE)`).
pub open spec fn scatter_post_any(
    m: crate::material::Material,
    r_in: Ray,
    rec: HitRecord,
    att: Vec3,
    sc: Ray,
    b: bool,
) -> bool {
    match m {
        crate::material::Material::Lambertian(l) => crate::material::scatter_post_lambertian(
            l,
            rec,
            att,
            sc,
            b,
        ),
        crate::material::Material::Metal(mm) => crate::material::scatter_post_metal(
            mm,
            r_in,
            rec,
            att,
            sc,
            b,
        ),
        crate::material::Material::Dielectric(d) => exists|q: int|
            0 <= q < ONE as int && #[trigger] crate::material::scatter_post_dielectric(
                d,
                r_in,
                rec,
                att,
                sc,
                b,
                q,
            ),
    }
}

/// The radiance relation: everything `ray_color` is allowed to return.
///
/// The result is pinned exactly on an exhausted bounce budget, a degenerate
/// direction, a miss (the background gradient), and a hit without a material
/// or with a normal outside the scattering range. On a scattering hit the
/// result must be the componentwise product of the scatter's attenuation
/// with a color recursively related to the scattered ray, the scatter itself
/// satisfying its material's postcondition -- so a body that skipped the
/// bounce could not meet this relation.
pub open spec fn radiance_rel(objs: Seq<Hittable>, ray: Ray, depth: int, c: Vec3) -> bool
    decreases (if depth <= 0 {
        0int
    } else {
        depth
    }),
{
    if depth <= 0 {
        c@ == V3::zero()
    } else if ray.direction@.length_squared() < 1 {
        c@ == V3::zero()
    } else {
        match list_hit_s(objs, ray, T_MIN_SHADOW as int, T_FAR as int, objs.len() as int) {
            None => c@ == background_s(ray),
            Some(h) => match h.mat_ptr {
                None => c@ == V3::zero(),
                Some(m) => (!h.normal.bounded(0x4_0000) && c@ == V3::zero()) || exists|
                    rec: HitRecord,
                    att: Vec3,
                    sc: Ray,
                    b: bool,
                    rc: Vec3,
                |
                    #![trigger scatter_post_any(m, ray, rec, att, sc, b), rc.view()]
                    rec@ == h && scatter_post_any(m, ray, rec, att, sc, b) && (if !b {
                        c@ == V3::zero()
                    } else if !(sc.origin@.bounded(0x400_0000) && sc.direction@.bounded(
                        0x400_0000,
                    )) {
                        c@ == V3::zero()
                    } else if !att@.bounded(ONE as int) {
                        c@ == V3::zero()
                    } else {
                        radiance_rel(objs, sc, depth - 1, rc) && c@ == att@.mul(rc@)
                    }),
            },
        }
    }
}

/// What one scatter call returns, as a function of the material, the
/// incoming ray, the hit and the generator state: the scattered direction,
/// whether it scattered, the attenuation, and the state left behind.
pub open spec fn scatter_s(
    m: crate::material::Material,
    ray: Ray,
    h: crate::hittable::HitView,
    s: u64,
) -> (V3, bool, V3, u64) {
    match m {
        crate::material::Material::Lambertian(l) => {
            let u = crate::rtweekend::unit_sample_s(s, crate::rtweekend::SAMPLE_ATTEMPTS as nat);
            (crate::material::lambertian_dir_s(h.normal, u.0), true, l.albedo@, u.1)
        },
        crate::material::Material::Metal(mm) => {
            let sp = crate::rtweekend::sphere_sample_s(
                s,
                crate::rtweekend::SAMPLE_ATTEMPTS as nat,
            );
            let d = ray.direction@.unit().reflect(h.normal).add(sp.0.scale(mm.fuzz as int));
            (d, d.dot(h.normal) > 0, mm.albedo@, sp.1)
        },
        crate::material::Material::Dielectric(dd) => {
            let ud = ray.direction@.unit();
            let ratio = crate::material::refraction_ratio_s(dd, h.front_face);
            let cos = crate::fixed::imin(ud.neg().dot(h.normal), ONE as int);
            let white = V3 { x: ONE as int, y: ONE as int, z: ONE as int };
            if crate::material::cannot_refract_s(ud, h.normal, ratio) {
                (ud.reflect(h.normal), true, white, s)
            } else {
                let q = (crate::prng::next_state(s) % 65536) as int;
                let dir = if crate::material::Dielectric::reflectance_s(cos, ratio) > q {
                    ud.reflect(h.normal)
                } else {
                    ud.refract(h.normal, ratio)
                };
                (dir, true, white, crate::prng::next_state(s))
            }
        },
    }
}

/// The exact radiance function: the color `ray_color` returns and the
/// generator state it leaves, as a function of its inputs alone. The
/// integrator is therefore deterministic: one seed, one result.
pub open spec fn ray_color_s(objs: Seq<Hittable>, ray: Ray, depth: int, s: u64) -> (V3, u64)
    decreases (if depth <= 0 {
        0int
    } else {
        depth
    }),
{
    if depth <= 0 {
        (V3::zero(), s)
    } else if ray.direction@.length_squared() < 1 {
        (V3::zero(), s)
    } else {
        match list_hit_s(objs, ray, T_MIN_SHADOW as int, T_FAR as int, objs.len() as int) {
            None => (background_s(ray), s),
            Some(h) => match h.mat_ptr {
                None => (V3::zero(), s),
                Some(m) => if !h.normal.bounded(0x4_0000) {
                    (V3::zero(), s)
                } else {
                    let step = scatter_s(m, ray, h, s);
                    let dir = step.0;
                    let b = step.1;
                    let att = step.2;
                    let s1 = step.3;
                    if !b {
                        (V3::zero(), s1)
                    } else if !(h.p.bounded(0x400_0000) && dir.bounded(0x400_0000)) {
                        (V3::zero(), s1)
                    } else {
                        let sc = Ray {
                            origin: Vec3 { x: h.p.x as i64, y: h.p.y as i64, z: h.p.z as i64 },
                            direction: Vec3 { x: dir.x as i64, y: dir.y as i64, z: dir.z as i64 },
                        };
                        let rec = ray_color_s(objs, sc, depth - 1, s1);
                        if !att.bounded(ONE as int) {
                            (V3::zero(), rec.1)
                        } else {
                            (att.mul(rec.0), rec.1)
                        }
                    }
                },
            },
        }
    }
}

/// The per-variant scatter postconditions together give `scatter_post_any`
/// (the dielectric's consumed draw becomes the abstracted one).
proof fn lemma_scatter_post_any(
    m: crate::material::Material,
    r_in: Ray,
    rec: HitRecord,
    att: Vec3,
    sc: Ray,
    b: bool,
    s_pre: u64,
)
    requires
        m matches crate::material::Material::Lambertian(l)
            ==> crate::material::scatter_post_lambertian(l, rec, att, sc, b),
        m matches crate::material::Material::Metal(mm) ==> crate::material::scatter_post_metal(
            mm,
            r_in,
            rec,
            att,
            sc,
            b,
        ),
        m matches crate::material::Material::Dielectric(d)
            ==> crate::material::scatter_post_dielectric(
            d,
            r_in,
            rec,
            att,
            sc,
            b,
            (crate::prng::next_state(s_pre) % 65536) as int,
        ),
    ensures
        scatter_post_any(m, r_in, rec, att, sc, b),
{
    match m {
        crate::material::Material::Dielectric(d) => {
            let q = (crate::prng::next_state(s_pre) % 65536) as int;
            assert(0 <= q < ONE as int);
            assert(crate::material::scatter_post_dielectric(d, r_in, rec, att, sc, b, q));
        },
        _ => {},
    }
}

/// The scattering step of the radiance relation: a reported hit with a
/// well-ranged normal, a scatter meeting its postcondition, and a result
/// that is black on absorption or an out-of-range bounce and the attenuated
/// recursive color otherwise, together satisfy the relation.
proof fn lemma_radiance_step(
    objs: Seq<Hittable>,
    ray: Ray,
    depth: int,
    m: crate::material::Material,
    rec: HitRecord,
    att: Vec3,
    sc: Ray,
    b: bool,
    rc: Vec3,
    c: Vec3,
)
    requires
        depth > 0,
        ray.direction@.length_squared() >= 1,
        list_hit_s(objs, ray, T_MIN_SHADOW as int, T_FAR as int, objs.len() as int) == Some(rec@),
        rec@.mat_ptr == Some(m),
        rec@.normal.bounded(0x4_0000),
        scatter_post_any(m, ray, rec, att, sc, b),
        b && sc.origin@.bounded(0x400_0000) && sc.direction@.bounded(0x400_0000) && att@.bounded(
            ONE as int,
        ) ==> radiance_rel(objs, sc, depth - 1, rc) && c@ == att@.mul(rc@),
        !(b && sc.origin@.bounded(0x400_0000) && sc.direction@.bounded(0x400_0000)
            && att@.bounded(ONE as int)) ==> c@ == V3::zero(),
    ensures
        radiance_rel(objs, ray, depth, c),
{
    assert(rec@ == rec@ && scatter_post_any(m, ray, rec, att, sc, b) && rc@ == rc@);
}

/// The estimated radiance along `ray` through the scene `world`, bouncing at
/// most `depth` times.
///
/// The contract pins the result exactly where no sampling is involved: an
/// exhausted bounce budget returns black; a ray that misses every primitive
/// (in particular, any ray into an empty scene) returns the background
/// gradient. Directions too short to register at fixed-point precision
/// cannot be normalized and return black, as do bounces whose scattered ray
/// leaves the arithmetic range of the scene. On a scattering hit the
/// radiance relation forces the result to be the attenuated, recursively
/// related color of the scattered ray.
pub fn ray_color(ray: &Ray, world: &HittableList, depth: i32, rng: &mut Prng) -> (c: Vec3)
    requires
        list_wf(world.objects@),
        scene_ray_ok(*ray),
    ensures
        c@.bounded(0x6_0000),
        c@ == ray_color_s(world.objects@, *ray, depth as int, old(rng).state).0,
        final(rng).state == ray_color_s(world.objects@, *ray, depth as int, old(rng).state).1,
        radiance_rel(world.objects@, *ray, depth as int, c),
        depth <= 0 ==> c@ == V3::zero(),
        depth > 0 && ray.direction@.length_squared() < 1 ==> c@ == V3::zero(),
        depth > 0 && ray.direction@.length_squared() >= 1 && list_hit_s(
            world.objects@,
            *ray,
            T_MIN_SHADOW as int,
            T_FAR as int,
            world.objects@.len() as int,
        ) is None ==> c@ == background_s(*ray),
        depth > 0 && ray.direction@.length_squared() >= 1 && (match list_hit_s(
            world.objects@,
            *ray,
            T_MIN_SHADOW as int,
            T_FAR as int,
            world.objects@.len() as int,
        ) {
            Some(h) => h.mat_ptr is None,
            None => false,
        }) ==> c@ == V3::zero(),
    decreases depth,
{
    // If we've exceeded the ray bounce limit, no more light is gathered.
    if depth <= 0 {
        return Vec3::new0();
    }
    if ray.direction.length_squared() < 1 {
        return Vec3::new0();
    }

    let mut rec: HitRecord = HitRecord::new();
    if world.hit(ray, T_MIN_SHADOW, T_FAR, &mut rec) {
        proof {
            lemma_list_hit_props(
                world.objects@,
                *ray,
                T_MIN_SHADOW as int,
                T_FAR as int,
                world.objects@.len() as int,
            );
        }
        match rec.mat_ptr {
            Some(m) => {
                if !rec.normal.in_range(0x4_0000) {
                    // The normal left the range the scattering models
                    // accept; treat the bounce as absorbed.
                    return Vec3::new0();
                }
                let mut scattered: Ray = Ray::new0();
                let mut attenuation: Vec3 = Vec3::new0();
                let ghost s_pre: u64 = rng.state;
                if m.scatter(ray, &rec, &mut attenuation, &mut scattered, rng) {
                    proof {
                        lemma_scatter_post_any(m, *ray, rec, attenuation, scattered, true, s_pre);
                        let step = scatter_s(m, *ray, rec@, s_pre);
                        match m {
                            crate::material::Material::Lambertian(_) => {
                                assert(scattered.direction@ == step.0 && attenuation@ == step.2
                                    && rng.state == step.3 && step.1);
                            },
                            crate::material::Material::Metal(_) => {
                                assert(scattered.direction@ == step.0 && attenuation@ == step.2
                                    && rng.state == step.3 && step.1);
                            },
                            crate::material::Material::Dielectric(_) => {
                                assert(scattered.direction@ == step.0 && attenuation@ == step.2
                                    && rng.state == step.3 && step.1);
                            },
                        }
                    }
                    if !scattered.origin.in_range(0x400_0000) || !scattered.direction.in_range(
                        0x400_0000,
                    ) {
                        // The scattered ray left the scene's arithmetic
                        // range; treat the bounce as absorbed.
                        let black: Vec3 = Vec3::new0();
                        proof {
                            lemma_radiance_step(
                                world.objects@,
                                *ray,
                                depth as int,
                                m,
                                rec,
                                attenuation,
                                scattered,
                                true,
                                black,
                                black,
                            );
                        }
                        return black;
                    }
                    proof {
                        let step = scatter_s(m, *ray, rec@, s_pre);
                        let sc_spec = Ray {
                            origin: Vec3 {
                                x: rec@.p.x as i64,
                                y: rec@.p.y as i64,
                                z: rec@.p.z as i64,
                            },
                            direction: Vec3 {
                                x: step.0.x as i64,
                                y: step.0.y as i64,
                                z: step.0.z as i64,
                            },
                        };
                        assert(scattered == sc_spec);
                    }
                    let rc: Vec3 = ray_color(&scattered, world, depth - 1, rng);
                    if !attenuation.in_range(ONE) {
                        let black: Vec3 = Vec3::new0();
                        proof {
                            lemma_radiance_step(
                                world.objects@,
                                *ray,
                                depth as int,
                                m,
                                rec,
                                attenuation,
                                scattered,
                                true,
                                rc,
                                black,
                            );
                        }
                        return black;
                    }
                    proof {
                        lemma_abs_mul(attenuation@.x, rc@.x, ONE as int, 0x6_0000);
                        lemma_abs_mul(attenuation@.y, rc@.y, ONE as int, 0x6_0000);
                        lemma_abs_mul(attenuation@.z, rc@.z, ONE as int, 0x6_0000);
                        lemma_fmul_le(attenuation@.x, rc@.x, 0x6_0000);
                        lemma_fmul_le(attenuation@.y, rc@.y, 0x6_0000);
                        lemma_fmul_le(attenuation@.z, rc@.z, 0x6_0000);
                    }
                    let result: Vec3 = attenuation.mul(&rc);
                    proof {
                        lemma_radiance_step(
                            world.objects@,
                            *ray,
                            depth as int,
                            m,
                            rec,
                            attenuation,
                            scattered,
                            true,
                            rc,
                            result,
                        );
                    }
                    return result;
                }
                let black: Vec3 = Vec3::new0();
                proof {
                    lemma_scatter_post_any(m, *ray, rec, attenuation, scattered, false, s_pre);
                    let step = scatter_s(m, *ray, rec@, s_pre);
                    match m {
                        crate::material::Material::Lambertian(_) => {
                            assert(scattered.direction@ == step.0 && rng.state == step.3
                                && step.1);
                        },
                        crate::material::Material::Metal(_) => {
                            assert(scattered.direction@ == step.0 && rng.state == step.3
                                && !step.1);
                        },
                        crate::material::Material::Dielectric(_) => {
                            assert(scattered.direction@ == step.0 && rng.state == step.3
                                && step.1);
                        },
                    }
                    lemma_radiance_step(
                        world.objects@,
                        *ray,
                        depth as int,
                        m,
                        rec,
                        attenuation,
                        scattered,
                        false,
                        black,
                        black,
                    );
                }
                return black;
            },
            None => {
                return Vec3::new0();
            },
        }
    }

    let unit_direction: Vec3 = ray.direction.unit_vector();
    proof {
        lemma_abs_mul(32768, unit_direction@.y + ONE as int, 32768, 0x5_0000);
        lemma_fmul_le(32768, unit_direction@.y + ONE as int, 0x2_8000);
    }
    let t: i64 = fmul(32768, unit_direction.y + ONE);
    let white: Vec3 = Vec3 { x: ONE, y: ONE, z: ONE };
    let sky: Vec3 = Vec3 { x: 32768, y: 45875, z: ONE };
    proof {
        lemma_abs_mul(ONE as int, ONE as int - t as int, ONE as int, 0x3_8000);
        lemma_fmul_le(ONE as int, ONE as int - t as int, 0x3_8000);
        lemma_abs_mul(32768, t as int, ONE as int, 0x2_8000);
        lemma_abs_mul(45875, t as int, ONE as int, 0x2_8000);
        lemma_abs_mul(ONE as int, t as int, ONE as int, 0x2_8000);
        lemma_fmul_le(32768, t as int, 0x2_8000);
        lemma_fmul_le(45875, t as int, 0x2_8000);
        lemma_fmul_le(ONE as int, t as int, 0x2_8000);
    }
    white.scale(ONE - t).add(&sky.scale(t))
}

/// An empty scene has no hit to report, whatever the ray and the window.
pub proof fn lemma_empty_scene_misses(objs: Seq<Hittable>, ray: Ray, t_min: int, t_max: int)
    requires
        objs.len() == 0,
    ensures
        list_hit_s(objs, ray, t_min, t_max, objs.len() as int) is None,
{
}

/// The jittered normalized coordinate `(k + jit) / (limit - 1)`, where
/// `jit` is a fixed-point fraction in `[0, 1)`.
pub open spec fn jitter_s(k: int, limit: int, jit: int) -> int {
    crate::fixed::fdiv_s(k * (ONE as int) + jit, (limit - 1) * (ONE as int))
}

/// One antialiasing sample for pixel `(i, j)`: a ray the camera generates
/// for jittered normalized coordinates of that pixel, and a color related to
/// it by the radiance relation.
pub open spec fn sample_ok(
    cam: Camera,
    objs: Seq<Hittable>,
    i: int,
    j: int,
    w: int,
    h: int,
    depth: int,
    ray: Ray,
    col: Vec3,
) -> bool {
    (exists|rd: V3, ju: int, jv: int|
        #![trigger cam_dir_s(cam, jitter_s(i, w, ju), jitter_s(j, h, jv), rd)]
        in_disk(rd) && 0 <= ju < ONE as int && 0 <= jv < ONE as int && ray.origin@
            == cam_origin_s(cam, rd) && ray.direction@ == cam_dir_s(
            cam,
            jitter_s(i, w, ju),
            jitter_s(j, h, jv),
            rd,
        )) && radiance_rel(objs, ray, depth, col)
}

/// The componentwise sum of the colors of a sample trace.
pub open spec fn trace_sum(tr: Seq<(Ray, Vec3)>) -> V3
    decreases tr.len(),
{
    if tr.len() == 0 {
        V3::zero()
    } else {
        trace_sum(tr.drop_last()).add(tr.last().1@)
    }
}

/// What a pixel's accumulated color must be: the sum of the colors of some
/// trace of `samples` valid antialiasing samples for that pixel.
pub open spec fn pixel_sum_ok(
    cam: Camera,
    objs: Seq<Hittable>,
    i: int,
    j: int,
    w: int,
    h: int,
    samples: int,
    depth: int,
    c: V3,
) -> bool {
    exists|tr: Seq<(Ray, Vec3)>|
        #![trigger trace_sum(tr)]
        tr.len() == samples && (forall|k: int|
            0 <= k < tr.len() ==> #[trigger] sample_ok(cam, objs, i, j, w, h, depth, tr[k].0, tr[k].1))
            && c == trace_sum(tr)
}

/// What an emitted pixel must be: the gamma-corrected, clamped, quantized
/// channels of some accumulated color satisfying `pixel_sum_ok`.
pub open spec fn pixel_rgb_ok(
    cam: Camera,
    objs: Seq<Hittable>,
    i: int,
    j: int,
    w: int,
    h: int,
    samples: int,
    depth: int,
    rgb: (u8, u8, u8),
) -> bool {
    exists|sum: V3|
        #[trigger] pixel_sum_ok(cam, objs, i, j, w, h, samples, depth, sum) && rgb.0 as int
            == rgb8_channel_s(sum.x, samples) && rgb.1 as int == rgb8_channel_s(sum.y, samples)
            && rgb.2 as int == rgb8_channel_s(sum.z, samples)
}

/// The pixel at row `jj` (from the top) and column `ii` of a row-major
/// pixel sequence.
pub open spec fn pixel_entry(pixels: Seq<(u8, u8, u8)>, w: int, jj: int, ii: int) -> (u8, u8, u8) {
    pixels[jj * w + ii]
}

/// The generator state after rendering the first `n` pixels of the
/// row-major scan, starting from state `s`.
pub open spec fn pixels_state_s(
    cam: Camera,
    objs: Seq<Hittable>,
    w: int,
    h: int,
    samples: int,
    depth: int,
    n: int,
    s: u64,
) -> u64
    decreases (if n <= 0 {
        0int
    } else {
        n
    }),
{
    if n <= 0 {
        s
    } else {
        let prev = pixels_state_s(cam, objs, w, h, samples, depth, n - 1, s);
        pixel_s(cam, objs, (n - 1) % w, h - 1 - (n - 1) / w, w, h, samples, depth, prev).1
    }
}

/// The exact triple of the row-major pixel at index `p`, for a render that
/// started from state `s`: the quantized channels of that pixel's exact
/// color sum, taken from the state the earlier pixels left behind.
pub open spec fn pixel_exact_s(
    cam: Camera,
    objs: Seq<Hittable>,
    w: int,
    h: int,
    samples: int,
    depth: int,
    p: int,
    s: u64,
    rgb: (u8, u8, u8),
) -> bool {
    let c = pixel_s(
        cam,
        objs,
        p % w,
        h - 1 - p / w,
        w,
        h,
        samples,
        depth,
        pixels_state_s(cam, objs, w, h, samples, depth, p, s),
    ).0;
    rgb.0 as int == rgb8_channel_s(c.x, samples) && rgb.1 as int == rgb8_channel_s(c.y, samples)
        && rgb.2 as int == rgb8_channel_s(c.z, samples)
}

/// The exact color sum of one pixel and the generator state left behind, as
/// a function of the inputs alone: for each sample, two jitter draws, the
/// lens-disk sample, the camera ray and its exact radiance, summed.
pub open spec fn pixel_s(
    cam: Camera,
    objs: Seq<Hittable>,
    i: int,
    j: int,
    w: int,
    h: int,
    samples: int,
    depth: int,
    s: u64,
) -> (V3, u64)
    decreases (if samples <= 0 {
        0int
    } else {
        samples
    }),
{
    if samples <= 0 {
        (V3::zero(), s)
    } else {
        let s1 = crate::prng::next_state(s);
        let s2 = crate::prng::next_state(s1);
        let u = jitter_s(i, w, (s1 % 65536) as int);
        let v = jitter_s(j, h, (s2 % 65536) as int);
        let dres = crate::rtweekend::disk_sample_s(s2, crate::rtweekend::SAMPLE_ATTEMPTS as nat);
        let o = cam_origin_s(cam, dres.0);
        let d = cam_dir_s(cam, u, v, dres.0);
        let ray = Ray {
            origin: Vec3 { x: o.x as i64, y: o.y as i64, z: o.z as i64 },
            direction: Vec3 { x: d.x as i64, y: d.y as i64, z: d.z as i64 },
        };
        let cres = ray_color_s(objs, ray, depth, dres.1);
        let rest = pixel_s(cam, objs, i, j, w, h, samples - 1, depth, cres.1);
        (rest.0.add(cres.0), rest.1)
    }
}

/// The accumulated color of one pixel: `samples_per_pixel` rays jittered
/// within the pixel, their radiance estimates summed (the antialiasing
/// mechanism). The caller divides by the sample count when quantizing.
pub fn render_pixel(
    camera: &Camera,
    world: &HittableList,
    i: usize,
    j: usize,
    image_width: usize,
    image_height: usize,
    samples_per_pixel: usize,
    max_depth: i32,
    rng: &mut Prng,
) -> (c: Vec3)
    requires
        camera_wf(*camera),
        list_wf(world.objects@),
        2 <= image_width <= 0x8000,
        2 <= image_height <= 0x8000,
        i < image_width,
        j < image_height,
        1 <= samples_per_pixel <= 0x10000,
    ensures
        c@.bounded(0x6_0000 * samples_per_pixel as int),
        pixel_sum_ok(
            *camera,
            world.objects@,
            i as int,
            j as int,
            image_width as int,
            image_height as int,
            samples_per_pixel as int,
            max_depth as int,
            c@,
        ),
        ({
            let px = pixel_s(
                *camera,
                world.objects@,
                i as int,
                j as int,
                image_width as int,
                image_height as int,
                samples_per_pixel as int,
                max_depth as int,
                old(rng).state,
            );
            c@ == px.0 && final(rng).state == px.1
        }),
{
    let ghost s0: u64 = rng.state;
    let mut pixel_color: Vec3 = Vec3::new0();
    let ghost mut trace: Seq<(Ray, Vec3)> = Seq::empty();
    let mut s: usize = 0;
    while s < samples_per_pixel
        invariant
            camera_wf(*camera),
            list_wf(world.objects@),
            2 <= image_width <= 0x8000,
            2 <= image_height <= 0x8000,
            i < image_width,
            j < image_height,
            1 <= samples_per_pixel <= 0x10000,
            s <= samples_per_pixel,
            pixel_color@.bounded(0x6_0000 * s as int),
            trace.len() == s as int,
            forall|k: int|
                0 <= k < trace.len() ==> #[trigger] sample_ok(
                    *camera,
                    world.objects@,
                    i as int,
                    j as int,
                    image_width as int,
                    image_height as int,
                    max_depth as int,
                    trace[k].0,
                    trace[k].1,
                ),
            pixel_color@ == trace_sum(trace),
            s0 == old(rng).state,
            ({
                let full = pixel_s(
                    *camera,
                    world.objects@,
                    i as int,
                    j as int,
                    image_width as int,
                    image_height as int,
                    samples_per_pixel as int,
                    max_depth as int,
                    s0,
                );
                let left = pixel_s(
                    *camera,
                    world.objects@,
                    i as int,
                    j as int,
                    image_width as int,
                    image_height as int,
                    samples_per_pixel as int - s as int,
                    max_depth as int,
                    rng.state,
                );
                full.0 == pixel_color@.add(left.0) && full.1 == left.1
            }),
        decreases samples_per_pixel - s,
    {
        let ghost s_at: u64 = rng.state;
        let u: i64 = jitter_coord(i, image_width, rng);
        let v: i64 = jitter_coord(j, image_height, rng);
        let r: Ray = camera.get_ray(u, v, rng);
        let rc: Vec3 = ray_color(&r, world, max_depth, rng);
        proof {
            let ju = choose|jit: int|
                0 <= jit < ONE as int && u as int == #[trigger] jitter_s(
                    i as int,
                    image_width as int,
                    jit,
                );
            let jv = choose|jit: int|
                0 <= jit < ONE as int && v as int == #[trigger] jitter_s(
                    j as int,
                    image_height as int,
                    jit,
                );
            let rd = choose|rd: V3|
                #[trigger] in_disk(rd) && r.origin@ == cam_origin_s(*camera, rd) && r.direction@
                    == cam_dir_s(*camera, u as int, v as int, rd);
            assert(in_disk(rd) && 0 <= ju < ONE as int && 0 <= jv < ONE as int && r.origin@
                == cam_origin_s(*camera, rd) && r.direction@ == cam_dir_s(
                *camera,
                jitter_s(i as int, image_width as int, ju),
                jitter_s(j as int, image_height as int, jv),
                rd,
            ));
            assert(sample_ok(
                *camera,
                world.objects@,
                i as int,
                j as int,
                image_width as int,
                image_height as int,
                max_depth as int,
                r,
                rc,
            ));
        }
        proof {
            let dres = crate::rtweekend::disk_sample_s(
                crate::prng::next_state(crate::prng::next_state(s_at)),
                crate::rtweekend::SAMPLE_ATTEMPTS as nat,
            );
            let o = cam_origin_s(*camera, dres.0);
            let d = cam_dir_s(*camera, u as int, v as int, dres.0);
            let ray_spec = Ray {
                origin: Vec3 { x: o.x as i64, y: o.y as i64, z: o.z as i64 },
                direction: Vec3 { x: d.x as i64, y: d.y as i64, z: d.z as i64 },
            };
            assert(r == ray_spec);
        }
        pixel_color = pixel_color.add(&rc);
        proof {
            let prev = trace;
            trace = trace.push((r, rc));
            assert(trace.drop_last() =~= prev);
            assert(trace.last() == (r, rc));
        }
        s = s + 1;
    }
    proof {
        assert(trace.len() == samples_per_pixel as int && pixel_color@ == trace_sum(trace));
    }
    pixel_color
}

/// The jittered normalized coordinate `(k + random[0,1)) / (limit - 1)`, in
/// `[0, 2]` of real value.
fn jitter_coord(k: usize, limit: usize, rng: &mut Prng) -> (u: i64)
    requires
        2 <= limit <= 0x8000,
        k < limit,
    ensures
        0 <= u <= 2 * ONE as int,
        u as int == jitter_s(
            k as int,
            limit as int,
            (crate::prng::next_state(old(rng).state) % 65536) as int,
        ),
        final(rng).state == crate::prng::next_state(old(rng).state),
        exists|jit: int|
            0 <= jit < ONE as int && u as int == #[trigger] jitter_s(k as int, limit as int, jit),
{
    let jit: i64 = rng.next_unit();
    let num: i64 = (k as i64) * ONE + jit;
    let den: i64 = ((limit - 1) as i64) * ONE;
    proof {
        lemma_div_trunc_nonneg(num as int * (ONE as int), den as int);
        lemma_div_trunc_le(num as int * (ONE as int), den as int, 2 * ONE as int);
    }
    let u: i64 = fdiv(num, den);
    proof {
        assert(0 <= jit < ONE as int && u as int == jitter_s(k as int, limit as int, jit as int));
    }
    u
}

/// Render the whole image: scan rows top to bottom, pixels left to right,
/// and emit one gamma-corrected, clamped, 8-bit-quantized triple per pixel.
/// The contract states every pixel twice over: as the quantization of a sum
/// of valid antialiasing samples for its own coordinates, and exactly, as a
/// pure function of the arguments and the seed (`pixel_exact_s`) -- so
/// rendering with a fixed seed is deterministic by contract.
pub fn render(
    world: &HittableList,
    camera: &Camera,
    image_width: usize,
    image_height: usize,
    samples_per_pixel: usize,
    max_depth: i32,
    seed: u64,
) -> (pixels: Vec<(u8, u8, u8)>)
    requires
        camera_wf(*camera),
        list_wf(world.objects@),
        2 <= image_width <= 0x8000,
        2 <= image_height <= 0x8000,
        1 <= samples_per_pixel <= 0x10000,
    ensures
        pixels@.len() == image_width * image_height,
        forall|j2: int, i2: int|
            0 <= j2 < image_height as int && 0 <= i2 < image_width as int ==> pixel_rgb_ok(
                *camera,
                world.objects@,
                i2,
                image_height as int - 1 - j2,
                image_width as int,
                image_height as int,
                samples_per_pixel as int,
                max_depth as int,
                #[trigger] pixel_entry(pixels@, image_width as int, j2, i2),
            ),
        forall|p: int|
            0 <= p < pixels@.len() ==> pixel_exact_s(
                *camera,
                world.objects@,
                image_width as int,
                image_height as int,
                samples_per_pixel as int,
                max_depth as int,
                p,
                if seed == 0 {
                    crate::prng::SEED_FALLBACK
                } else {
                    seed
                },
                #[trigger] pixels@[p],
            ),
{
    let ghost s_init: u64 = if seed == 0 {
        crate::prng::SEED_FALLBACK
    } else {
        seed
    };
    let mut rng: Prng = Prng::new(seed);
    let mut pixels: Vec<(u8, u8, u8)> = Vec::new();
    let mut jj: usize = 0;
    while jj < image_height
        invariant
            camera_wf(*camera),
            list_wf(world.objects@),
            2 <= image_width <= 0x8000,
            2 <= image_height <= 0x8000,
            1 <= samples_per_pixel <= 0x10000,
            jj <= image_height,
            pixels@.len() == jj * image_width,
            s_init == if seed == 0 {
                crate::prng::SEED_FALLBACK
            } else {
                seed
            },
            rng.state == pixels_state_s(
                *camera,
                world.objects@,
                image_width as int,
                image_height as int,
                samples_per_pixel as int,
                max_depth as int,
                pixels@.len() as int,
                s_init,
            ),
            forall|p: int|
                0 <= p < pixels@.len() ==> pixel_exact_s(
                    *camera,
                    world.objects@,
                    image_width as int,
                    image_height as int,
                    samples_per_pixel as int,
                    max_depth as int,
                    p,
                    s_init,
                    #[trigger] pixels@[p],
                ),
            forall|j2: int, i2: int|
                0 <= j2 < jj as int && 0 <= i2 < image_width as int ==> pixel_rgb_ok(
                    *camera,
                    world.objects@,
                    i2,
                    image_height as int - 1 - j2,
                    image_width as int,
                    image_height as int,
                    samples_per_pixel as int,
                    max_depth as int,
                    #[trigger] pixel_entry(pixels@, image_width as int, j2, i2),
                ),
        decreases image_height - jj,
    {
        let j: usize = image_height - 1 - jj;
        let mut i: usize = 0;
        while i < image_width
            invariant
                camera_wf(*camera),
                list_wf(world.objects@),
                2 <= image_width <= 0x8000,
                2 <= image_height <= 0x8000,
                1 <= samples_per_pixel <= 0x10000,
                jj < image_height,
                j as int == image_height as int - 1 - jj as int,
                i <= image_width,
                pixels@.len() == jj * image_width + i,
                s_init == if seed == 0 {
                    crate::prng::SEED_FALLBACK
                } else {
                    seed
                },
                rng.state == pixels_state_s(
                    *camera,
                    world.objects@,
                    image_width as int,
                    image_height as int,
                    samples_per_pixel as int,
                    max_depth as int,
                    pixels@.len() as int,
                    s_init,
                ),
                forall|p: int|
                    0 <= p < pixels@.len() ==> pixel_exact_s(
                        *camera,
                        world.objects@,
                        image_width as int,
                        image_height as int,
                        samples_per_pixel as int,
                        max_depth as int,
                        p,
                        s_init,
                        #[trigger] pixels@[p],
                    ),
                forall|j2: int, i2: int|
                    0 <= j2 < jj as int && 0 <= i2 < image_width as int ==> pixel_rgb_ok(
                        *camera,
                        world.objects@,
                        i2,
                        image_height as int - 1 - j2,
                        image_width as int,
                        image_height as int,
                        samples_per_pixel as int,
                        max_depth as int,
                        #[trigger] pixel_entry(pixels@, image_width as int, j2, i2),
                    ),
                forall|i2: int|
                    0 <= i2 < i as int ==> pixel_rgb_ok(
                        *camera,
                        world.objects@,
                        i2,
                        j as int,
                        image_width as int,
                        image_height as int,
                        samples_per_pixel as int,
                        max_depth as int,
                        #[trigger] pixel_entry(pixels@, image_width as int, jj as int, i2),
                    ),
            decreases image_width - i,
        {
            let ghost rs_pre: u64 = rng.state;
            let pc: Vec3 = render_pixel(
                camera,
                world,
                i,
                j,
                image_width,
                image_height,
                samples_per_pixel,
                max_depth,
                &mut rng,
            );
            proof {
                lemma_sample_sum_in_rgb_range(samples_per_pixel as int);
            }
            let rgb: (u8, u8, u8) = to_rgb8(&pc, samples_per_pixel);
            let ghost pre_pixels = pixels@;
            pixels.push(rgb);
            proof {
                let wi = image_width as int;
                let hi = image_height as int;
                let sp = samples_per_pixel as int;
                let md = max_depth as int;
                assert(pixels@ == pre_pixels.push(rgb));
                assert(pixel_entry(pixels@, wi, jj as int, i as int) == rgb);
                let n_old = pre_pixels.len() as int;
                assert(n_old % wi == i as int && n_old / wi == jj as int) by (nonlinear_arith)
                    requires
                        n_old == (jj as int) * wi + (i as int),
                        0 <= (i as int),
                        (i as int) < wi,
                        (jj as int) >= 0,
                        wi > 0,
                ;
                assert(rng.state == pixels_state_s(
                    *camera,
                    world.objects@,
                    wi,
                    hi,
                    sp,
                    md,
                    n_old + 1,
                    s_init,
                ));
                assert(pixel_exact_s(
                    *camera,
                    world.objects@,
                    wi,
                    hi,
                    sp,
                    md,
                    n_old,
                    s_init,
                    pixels@[n_old],
                ));
                assert forall|p: int| 0 <= p < pixels@.len() as int implies pixel_exact_s(
                    *camera,
                    world.objects@,
                    wi,
                    hi,
                    sp,
                    md,
                    p,
                    s_init,
                    #[trigger] pixels@[p],
                ) by {
                    if p < n_old {
                        assert(pixels@[p] == pre_pixels[p]);
                        assert(pixel_exact_s(
                            *camera,
                            world.objects@,
                            wi,
                            hi,
                            sp,
                            md,
                            p,
                            s_init,
                            pre_pixels[p],
                        ));
                    }
                }
                assert(pixel_sum_ok(*camera, world.objects@, i as int, j as int, wi, hi, sp, md, pc@));
                assert(pixel_rgb_ok(
                    *camera,
                    world.objects@,
                    i as int,
                    j as int,
                    wi,
                    hi,
                    sp,
                    md,
                    pixel_entry(pixels@, wi, jj as int, i as int),
                ));
                assert forall|i2: int| 0 <= i2 < i as int + 1 implies pixel_rgb_ok(
                    *camera,
                    world.objects@,
                    i2,
                    j as int,
                    wi,
                    hi,
                    sp,
                    md,
                    pixel_entry(pixels@, wi, jj as int, i2),
                ) by {
                    if i2 < i as int {
                        assert(pixel_entry(pixels@, wi, jj as int, i2) == pixel_entry(
                            pre_pixels,
                            wi,
                            jj as int,
                            i2,
                        ));
                        assert(pixel_rgb_ok(
                            *camera,
                            world.objects@,
                            i2,
                            j as int,
                            wi,
                            hi,
                            sp,
                            md,
                            pixel_entry(pre_pixels, wi, jj as int, i2),
                        ));
                    }
                }
                assert forall|j2: int, i2: int|
                    0 <= j2 < jj as int && 0 <= i2 < wi implies pixel_rgb_ok(
                    *camera,
                    world.objects@,
                    i2,
                    hi - 1 - j2,
                    wi,
                    hi,
                    sp,
                    md,
                    pixel_entry(pixels@, wi, j2, i2),
                ) by {
                    assert(j2 * wi + i2 < jj as int * wi) by (nonlinear_arith)
                        requires
                            0 <= j2 < jj as int,
                            0 <= i2 < wi,
                            wi > 0,
                    ;
                    assert(pixel_entry(pixels@, wi, j2, i2) == pixel_entry(pre_pixels, wi, j2, i2));
                    assert(pixel_rgb_ok(
                        *camera,
                        world.objects@,
                        i2,
                        hi - 1 - j2,
                        wi,
                        hi,
                        sp,
                        md,
                        pixel_entry(pre_pixels, wi, j2, i2),
                    ));
                }
            }
            i = i + 1;
        }
        proof {
            assert((jj + 1) * image_width == jj * image_width + image_width) by (nonlinear_arith);
            let wi = image_width as int;
            assert forall|j2: int, i2: int|
                0 <= j2 < jj as int + 1 && 0 <= i2 < wi implies pixel_rgb_ok(
                *camera,
                world.objects@,
                i2,
                image_height as int - 1 - j2,
                wi,
                image_height as int,
                samples_per_pixel as int,
                max_depth as int,
                pixel_entry(pixels@, wi, j2, i2),
            ) by {
                if j2 == jj as int {
                    assert(pixel_rgb_ok(
                        *camera,
                        world.objects@,
                        i2,
                        j as int,
                        wi,
                        image_height as int,
                        samples_per_pixel as int,
                        max_depth as int,
                        pixel_entry(pixels@, wi, jj as int, i2),
                    ));
                }
            }
        }
        jj = jj + 1;
    }
    proof {
        assert(image_height * image_width == image_width * image_height) by (nonlinear_arith);
    }
    pixels
}

/// A pixel's accumulated sum over at most `2^16` samples fits well inside
/// the range the quantizer accepts.
proof fn lemma_sample_sum_in_rgb_range(samples: int)
    by (nonlinear_arith)
    requires
        1 <= samples <= 0x10000,
    ensures
        0x20_0000 * samples <= 0x2_0000_0000_0000,
{
}

} // verus!
