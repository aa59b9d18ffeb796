use ray_tracing::camera::Camera;
use ray_tracing::color::to_rgb8;
use ray_tracing::fixed::{fdiv, fmul, ONE};
use ray_tracing::hittable::{HitRecord, Hittable};
use ray_tracing::hittable_list::HittableList;
use ray_tracing::material::{Dielectric, Lambertian, Material, Metal};
use ray_tracing::prng::Prng;
use ray_tracing::ray::Ray;
use ray_tracing::render::{ray_color, render, render_pixel};
use ray_tracing::rtweekend::{clamp, degrees_to_radians};
use ray_tracing::sphere::Sphere;
use ray_tracing::Vec3;

const T_MIN: i64 = 66;
const T_FAR: i64 = 0x4_0000_0000;

fn unit_sphere_at_origin() -> Sphere {
    let albedo = Vec3 { x: 32768, y: 32768, z: 32768 };
    Sphere::new(
        &Vec3::new0(),
        ONE,
        Some(Material::Lambertian(Lambertian::new(&albedo))),
    )
}

#[test]
fn test_sphere_hit_aimed_at_center() {
    // From outside, aimed straight at the center: a hit with t > 0 and an
    // outward (front-face) normal.
    let s = unit_sphere_at_origin();
    let origin = Vec3 { x: 0, y: 0, z: -3 * ONE };
    let direction = Vec3 { x: 0, y: 0, z: 3 * ONE };
    let ray = Ray::new(&origin, &direction);
    let mut rec = HitRecord::new();
    assert!(s.hit(&ray, T_MIN, T_FAR, &mut rec));
    assert!(rec.t > 0);
    assert_eq!(rec.t, 43690);
    assert!(rec.front_face);
    assert_eq!(rec.normal.x, 0);
    assert_eq!(rec.normal.y, 0);
    assert_eq!(rec.normal.z, -65538);
}

#[test]
fn test_sphere_hit_aimed_away_misses() {
    let s = unit_sphere_at_origin();
    let origin = Vec3 { x: 0, y: 0, z: -3 * ONE };
    let direction = Vec3 { x: 0, y: 0, z: -3 * ONE };
    let ray = Ray::new(&origin, &direction);
    let mut rec = HitRecord::new();
    assert!(!s.hit(&ray, T_MIN, T_FAR, &mut rec));
    // The record is untouched on a miss.
    assert_eq!(rec.t, 0);
    assert!(!rec.front_face);
}

#[test]
fn test_sphere_negative_radius_inward_normal() {
    // The hollow-sphere convention: hit from inside a negative-radius shell,
    // the reported normal points inward while front_face still reflects
    // dot(direction, outward_normal) < 0.
    let s = Sphere::new(&Vec3::new0(), -ONE, None);
    let origin = Vec3::new0();
    let direction = Vec3 { x: 0, y: 0, z: ONE };
    let ray = Ray::new(&origin, &direction);
    let mut rec = HitRecord::new();
    assert!(s.hit(&ray, T_MIN, T_FAR, &mut rec));
    assert_eq!(rec.t, ONE);
    assert!(rec.front_face);
    // The ray travels toward +z and strikes the shell at +z, yet the normal
    // points toward -z (inward), because the negative radius flips it.
    assert_eq!(rec.normal.z, -ONE);
    assert_eq!(direction.dot(&rec.normal) < 0, rec.front_face);
}

#[test]
fn test_list_keeps_nearest_hit() {
    let near = Hittable::Sphere(Sphere::new(&Vec3 { x: 0, y: 0, z: 3 * ONE }, ONE, None));
    let far = Hittable::Sphere(Sphere::new(&Vec3 { x: 0, y: 0, z: 6 * ONE }, ONE, None));
    let origin = Vec3::new0();
    let direction = Vec3 { x: 0, y: 0, z: ONE };
    let ray = Ray::new(&origin, &direction);

    let mut world = HittableList::new();
    world.add(far);
    world.add(near);
    let mut rec = HitRecord::new();
    assert!(world.hit(&ray, T_MIN, T_FAR, &mut rec));
    assert_eq!(rec.t, 2 * ONE);

    // Order does not matter: nearest-hit semantics are independent of it.
    let mut world2 = HittableList::new();
    world2.add(near);
    world2.add(far);
    let mut rec2 = HitRecord::new();
    assert!(world2.hit(&ray, T_MIN, T_FAR, &mut rec2));
    assert_eq!(rec2.t, 2 * ONE);

    let mut empty = HittableList::new();
    let mut rec3 = HitRecord::new();
    assert!(!empty.hit(&ray, T_MIN, T_FAR, &mut rec3));
    empty.add(near);
    empty.clear();
    let mut rec4 = HitRecord::new();
    assert!(!empty.hit(&ray, T_MIN, T_FAR, &mut rec4));
}

fn hit_record_at(p: Vec3, normal: Vec3, front_face: bool) -> HitRecord {
    HitRecord { p, normal, mat_ptr: None, t: ONE, front_face }
}

#[test]
fn test_lambertian_always_scatters() {
    let albedo = Vec3 { x: 32768, y: 16384, z: 8192 };
    let lam = Lambertian::new(&albedo);
    let rec = hit_record_at(
        Vec3 { x: ONE, y: ONE, z: ONE },
        Vec3 { x: 0, y: ONE, z: 0 },
        true,
    );
    let r_in = Ray::new(&Vec3::new0(), &Vec3 { x: ONE, y: -ONE, z: 0 });
    let mut rng = Prng::new(7);
    for _ in 0..20 {
        let mut attenuation = Vec3::new0();
        let mut scattered = Ray::new0();
        let b = lam.scatter(&r_in, &rec, &mut attenuation, &mut scattered, &mut rng);
        assert!(b);
        assert_eq!(attenuation.x, albedo.x);
        assert_eq!(attenuation.y, albedo.y);
        assert_eq!(attenuation.z, albedo.z);
        assert_eq!(scattered.origin.x, rec.p.x);
        assert_eq!(scattered.origin.y, rec.p.y);
        assert_eq!(scattered.origin.z, rec.p.z);
    }
}

#[test]
fn test_metal_zero_fuzz_is_specular() {
    let albedo = Vec3 { x: ONE, y: ONE, z: ONE };
    let metal = Metal::new(&albedo, 0);
    assert_eq!(metal.fuzz, 0);
    let normal = Vec3 { x: 0, y: ONE, z: 0 };
    let rec = hit_record_at(Vec3::new0(), normal, true);
    let direction = Vec3 { x: ONE, y: -ONE, z: 0 };
    let r_in = Ray::new(&Vec3 { x: -ONE, y: ONE, z: 0 }, &direction);
    let expected = direction.unit_vector().reflect(&normal);
    let mut rng = Prng::new(11);
    for _ in 0..5 {
        let mut attenuation = Vec3::new0();
        let mut scattered = Ray::new0();
        let b = metal.scatter(&r_in, &rec, &mut attenuation, &mut scattered, &mut rng);
        // Deterministic specular reflection, whatever the random draws.
        assert_eq!(scattered.direction.x, expected.x);
        assert_eq!(scattered.direction.y, expected.y);
        assert_eq!(scattered.direction.z, expected.z);
        assert_eq!(b, scattered.direction.dot(&normal) > 0);
        assert!(b);
    }
    // The constructor caps the fuzz at one.
    let capped = Metal::new(&albedo, 3 * ONE);
    assert_eq!(capped.fuzz, ONE);
}

#[test]
fn test_dielectric_unit_index_head_on() {
    let d = Dielectric::new(ONE);
    assert_eq!(d.ir, ONE);
    let normal = Vec3 { x: 0, y: ONE, z: 0 };
    let rec = hit_record_at(Vec3::new0(), normal, true);
    let direction = Vec3 { x: 0, y: -ONE, z: 0 };
    let r_in = Ray::new(&Vec3 { x: 0, y: ONE, z: 0 }, &direction);
    let mut rng = Prng::new(13);
    for _ in 0..20 {
        let mut attenuation = Vec3::new0();
        let mut scattered = Ray::new0();
        let b = d.scatter(&r_in, &rec, &mut attenuation, &mut scattered, &mut rng);
        assert!(b);
        // A dielectric never absorbs: attenuation is pure white.
        assert_eq!(attenuation.x, ONE);
        assert_eq!(attenuation.y, ONE);
        assert_eq!(attenuation.z, ONE);
        // Head-on with index one: either refracted (straight through,
        // unchanged) or Schlick-reflected (straight back).
        assert_eq!(scattered.direction.x, 0);
        assert_eq!(scattered.direction.z, 0);
        assert!(scattered.direction.y == -ONE || scattered.direction.y == ONE);
    }
}

fn test_camera() -> Camera {
    Camera::new(
        Vec3 { x: -2 * ONE, y: 2 * ONE, z: ONE },
        Vec3 { x: 0, y: 0, z: -ONE },
        Vec3 { x: 0, y: ONE, z: 0 },
        20 * ONE,
        fdiv(16 * ONE, 9 * ONE),
        0,
        ONE,
    )
}

#[test]
fn test_get_ray_zero_aperture_origin() {
    // With aperture zero there is no lens jitter: every ray leaves exactly
    // from lookfrom, whatever the random draws.
    let cam = test_camera();
    assert_eq!(cam.lens_radius, 0);
    assert!(cam.is_well_formed());
    let mut rng = Prng::new(99);
    for k in 0..20u64 {
        let s = (k as i64 * 3001) % ONE;
        let t = (k as i64 * 7919) % ONE;
        let r = cam.get_ray(s, t, &mut rng);
        assert_eq!(r.origin.x, -2 * ONE);
        assert_eq!(r.origin.y, 2 * ONE);
        assert_eq!(r.origin.z, ONE);
    }
}

#[test]
fn test_ray_color_depth_zero_is_black() {
    let mut world = HittableList::new();
    world.add(Hittable::Sphere(unit_sphere_at_origin()));
    let ray = Ray::new(&Vec3 { x: 0, y: 0, z: -3 * ONE }, &Vec3 { x: 0, y: 0, z: 3 * ONE });
    let mut rng = Prng::new(1);
    let c = ray_color(&ray, &world, 0, &mut rng);
    assert_eq!((c.x, c.y, c.z), (0, 0, 0));
    let c2 = ray_color(&ray, &world, -5, &mut rng);
    assert_eq!((c2.x, c2.y, c2.z), (0, 0, 0));
}

fn background_of(direction: &Vec3) -> Vec3 {
    let ud = direction.unit_vector();
    let t = fmul(32768, ud.y + ONE);
    let white = Vec3 { x: ONE, y: ONE, z: ONE };
    let sky = Vec3 { x: 32768, y: 45875, z: ONE };
    white.scale(ONE - t).add(&sky.scale(t))
}

#[test]
fn test_ray_color_empty_scene_is_background() {
    let world = HittableList::new();
    let dirs = [
        Vec3 { x: 0, y: 2 * ONE, z: 0 },
        Vec3 { x: ONE, y: -ONE, z: 3 * ONE },
        Vec3 { x: -ONE, y: 0, z: -ONE },
    ];
    for depth in [1, 2, 50] {
        for d in dirs.iter() {
            let ray = Ray::new(&Vec3::new0(), d);
            let mut rng = Prng::new(5);
            let c = ray_color(&ray, &world, depth, &mut rng);
            let bg = background_of(d);
            assert_eq!((c.x, c.y, c.z), (bg.x, bg.y, bg.z));
        }
    }
    // Straight up: the pure sky color.
    let mut rng = Prng::new(5);
    let up = Ray::new(&Vec3::new0(), &Vec3 { x: 0, y: 2 * ONE, z: 0 });
    let c = ray_color(&up, &world, 3, &mut rng);
    assert_eq!((c.x, c.y, c.z), (32768, 45875, ONE));
}

#[test]
fn test_to_rgb8_exact_values() {
    let c = Vec3 { x: ONE, y: 16384, z: 0 };
    assert_eq!(to_rgb8(&c, 1), (255, 128, 0));
    // Values above one are clamped before quantization.
    let over = Vec3 { x: 2 * ONE, y: -ONE, z: ONE };
    assert_eq!(to_rgb8(&over, 1), (255, 0, 255));
    // Averaging over samples: four samples of the same color.
    let sum = Vec3 { x: 4 * ONE, y: 4 * 16384, z: 0 };
    assert_eq!(to_rgb8(&sum, 4), (255, 128, 0));
}

#[test]
fn test_render_deterministic_with_seed() {
    // A single unit sphere at the origin with a Lambertian material,
    // rendered at one sample per pixel and depth one: a fixed seed gives
    // identical output, run after run.
    let mut world = HittableList::new();
    world.add(Hittable::Sphere(unit_sphere_at_origin()));
    let cam = test_camera();
    assert!(cam.is_well_formed());
    let a = render(&world, &cam, 8, 6, 1, 1, 42);
    let b = render(&world, &cam, 8, 6, 1, 1, 42);
    assert_eq!(a.len(), 48);
    assert_eq!(a, b);
    // A different seed is allowed to differ; the size never does.
    let c = render(&world, &cam, 8, 6, 1, 1, 43);
    assert_eq!(c.len(), 48);
}

#[test]
fn test_render_empty_scene_matches_gradient() {
    // A scene with zero objects reproduces the sky gradient exactly at
    // every pixel: replay the sampling stream and compare against the
    // background formula.
    let world = HittableList::new();
    let cam = test_camera();
    let (w, h, seed) = (6usize, 4usize, 1234u64);
    let pixels = render(&world, &cam, w, h, 1, 7, seed);
    assert_eq!(pixels.len(), w * h);

    let mut rng = Prng::new(seed);
    let mut idx = 0;
    for jj in 0..h {
        let j = h - 1 - jj;
        for i in 0..w {
            let u = fdiv((i as i64) * ONE + rng.next_unit(), ((w - 1) as i64) * ONE);
            let v = fdiv((j as i64) * ONE + rng.next_unit(), ((h - 1) as i64) * ONE);
            let ray = cam.get_ray(u, v, &mut rng);
            let expected = to_rgb8(&background_of(&ray.direction), 1);
            assert_eq!(pixels[idx], expected);
            idx += 1;
        }
    }
}

#[test]
fn test_render_pixel_accumulates_samples() {
    let world = HittableList::new();
    let cam = test_camera();
    let mut rng = Prng::new(2);
    let c = render_pixel(&cam, &world, 0, 0, 8, 6, 4, 3, &mut rng);
    // Four sky samples: each channel is within four times the brightest
    // channel of the gradient, up to truncation slack.
    assert!(c.x >= 0 && c.x <= 4 * ONE + 256);
    assert!(c.y >= 0 && c.y <= 4 * ONE + 256);
    assert!(c.z >= 0 && c.z <= 4 * ONE + 256);
}

#[test]
fn test_random_double_in_unit_interval() {
    for _ in 0..200 {
        let r = ray_tracing::rtweekend::random_double();
        assert!(0 <= r && r < ONE);
    }
    let x = ray_tracing::rtweekend::random_double_range(-2 * ONE, 2 * ONE);
    assert!(-2 * ONE <= x && x < 2 * ONE);
    assert_eq!(ray_tracing::rtweekend::random_double_range(5, 5), 5);
}

#[test]
fn test_prng_deterministic() {
    let mut a = Prng::new(77);
    let mut b = Prng::new(77);
    for _ in 0..10 {
        assert_eq!(a.next_u64(), b.next_u64());
    }
    // A zero seed falls back to a fixed non-zero state.
    let z = Prng::new(0);
    assert_ne!(z.state, 0);
}

#[test]
fn test_samplers_stay_in_bounds() {
    let mut rng = Prng::new(31);
    for _ in 0..50 {
        let p = ray_tracing::rtweekend::random_in_unit_sphere(&mut rng);
        assert!(p.length_squared() < ONE);
        let d = ray_tracing::rtweekend::random_in_unit_disk(&mut rng);
        assert!(d.length_squared() < ONE && d.z == 0);
        let u = ray_tracing::rtweekend::random_unit_vector(&mut rng);
        assert!((u.length() - ONE).abs() <= 8);
    }
}

#[test]
fn test_scene_well_formed_check() {
    let mut world = HittableList::new();
    assert!(world.is_well_formed());
    world.add(Hittable::Sphere(unit_sphere_at_origin()));
    assert!(world.is_well_formed());
    // A zero radius is out of range.
    world.add(Hittable::Sphere(Sphere::new(&Vec3::new0(), 0, None)));
    assert!(!world.is_well_formed());
    // So is a metal fuzz above one (the constructor caps it, but the field
    // is public).
    let mut world2 = HittableList::new();
    let bad = Material::Metal(Metal { albedo: Vec3::new0(), fuzz: 2 * ONE });
    world2.add(Hittable::Sphere(Sphere::new(&Vec3::new0(), ONE, Some(bad))));
    assert!(!world2.is_well_formed());
}

#[test]
fn test_clamp_and_degrees() {
    assert_eq!(clamp(5, 0, 10), 5);
    assert_eq!(clamp(-5, 0, 10), 0);
    assert_eq!(clamp(15, 0, 10), 10);
    // 180 degrees is pi: 1144 * 180 = 205920, close to pi * 65536 = 205887.
    assert_eq!(degrees_to_radians(180 * ONE), 180 * 1144);
}
