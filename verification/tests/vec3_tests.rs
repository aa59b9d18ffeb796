use ray_tracing::fixed::ONE;
use ray_tracing::Vec3;

#[test]
fn test_constructor() {
    let v0 = Vec3::new0();
    assert_eq!(v0.x, 0);
    assert_eq!(v0.y, 0);
    assert_eq!(v0.z, 0);

    let v1 = Vec3 { x: ONE, y: 2 * ONE, z: 3 * ONE };
    assert_eq!(v1.x, ONE);
    assert_eq!(v1.y, 2 * ONE);
    assert_eq!(v1.z, 3 * ONE);

    let v2 = Vec3::new([3 * ONE, 2 * ONE, ONE]);
    assert_eq!(v2.x, 3 * ONE);
    assert_eq!(v2.y, 2 * ONE);
    assert_eq!(v2.z, ONE);
}

#[test]
fn test_macro() {
    let v0 = Vec3::new0();
    assert_eq!(v0.x, 0);
    assert_eq!(v0.y, 0);
    assert_eq!(v0.z, 0);

    let v1 = Vec3::new([ONE, 2 * ONE, 3 * ONE]);
    assert_eq!(v1.x, ONE);
    assert_eq!(v1.y, 2 * ONE);
    assert_eq!(v1.z, 3 * ONE);

    let v2 = Vec3::new([3 * ONE, 2 * ONE, ONE]);
    assert_eq!(v2.x, 3 * ONE);
    assert_eq!(v2.y, 2 * ONE);
    assert_eq!(v2.z, ONE);
}

fn eq_arr(v: &Vec3, a: [i64; 3]) -> bool {
    v.x == a[0] && v.y == a[1] && v.z == a[2]
}

#[test]
fn test_arr_eq() {
    let v1 = Vec3 { x: ONE, y: 2 * ONE, z: 3 * ONE };
    assert!(eq_arr(&v1, [ONE, 2 * ONE, 3 * ONE]));
    assert!(!eq_arr(&v1, [0, 2 * ONE, 3 * ONE]));
    assert!(!eq_arr(&v1, [ONE, 0, 3 * ONE]));
    assert!(!eq_arr(&v1, [ONE, 2 * ONE, 0]));
    assert!(!eq_arr(&v1, [ONE / 10, 2 * ONE / 10, 3 * ONE / 10]));
}

#[test]
fn test_neg() {
    let v1 = Vec3 { x: ONE, y: 2 * ONE, z: 3 * ONE };
    let v2 = v1.neg();
    assert!(eq_arr(&v2, [-ONE, -2 * ONE, -3 * ONE]));
}

#[test]
fn test_add() {
    let v1 = Vec3 { x: ONE, y: 2 * ONE, z: 3 * ONE };
    let v2 = Vec3 { x: 3 * ONE, y: 2 * ONE, z: ONE };
    let v3 = v1.add(&v2);
    assert!(eq_arr(&v3, [4 * ONE, 4 * ONE, 4 * ONE]));
}

#[test]
fn test_sub() {
    let v1 = Vec3 { x: ONE, y: 2 * ONE, z: 3 * ONE };
    let v2 = Vec3 { x: 3 * ONE, y: 2 * ONE, z: ONE };
    let v3 = v1.sub(&v2);
    assert!(eq_arr(&v3, [-2 * ONE, 0, 2 * ONE]));
}

#[test]
fn test_mul() {
    let v1 = Vec3 { x: ONE, y: 2 * ONE, z: 3 * ONE };
    let v2 = Vec3 { x: 3 * ONE, y: 2 * ONE, z: ONE };
    let v3 = v1.mul(&v2);
    assert!(eq_arr(&v3, [3 * ONE, 4 * ONE, 3 * ONE]));

    let v2 = Vec3::new([3 * ONE, 2 * ONE, ONE]);
    let v3 = v2.scale(ONE / 2).scale(3 * ONE);
    assert!(eq_arr(&v3, [294912, 196608, 98304]));
}

#[test]
fn test_div() {
    let v1 = Vec3::new([3 * ONE, 2 * ONE, ONE]);
    let v2 = v1.div(2 * ONE);
    assert!(eq_arr(&v2, [98304, ONE, 32768]));
}

#[test]
fn test_index() {
    let v1 = Vec3 { x: ONE, y: 2 * ONE, z: 3 * ONE };
    assert_eq!(v1.index(0), ONE);
    assert_eq!(v1.index(1), 2 * ONE);
    assert_eq!(v1.index(2), 3 * ONE);
}

#[test]
fn test_length_squared() {
    let v1 = Vec3 { x: ONE, y: 2 * ONE, z: 3 * ONE };
    assert_eq!(v1.length_squared(), 14 * ONE);

    let v1 = Vec3 { x: ONE, y: 2 * ONE, z: 3 * ONE };
    let v2 = v1.neg();
    assert_eq!(v2.length_squared(), 14 * ONE);
    assert_eq!(v1.length_squared(), v2.length_squared());
}

#[test]
fn test_length() {
    let v1 = Vec3 { x: ONE, y: 2 * ONE, z: 3 * ONE };
    assert_eq!(v1.length(), 245213);

    let v1 = Vec3 { x: 4 * ONE, y: 0, z: 3 * ONE };
    assert_eq!(v1.length(), 5 * ONE);
}

#[test]
fn test_dot() {
    let v1 = Vec3 { x: ONE, y: 2 * ONE, z: 3 * ONE };
    let v2 = Vec3 { x: 3 * ONE, y: 2 * ONE, z: ONE };
    assert_eq!(v1.dot(&v2), 10 * ONE);
}

#[test]
fn test_cross() {
    let v1 = Vec3 { x: ONE, y: 2 * ONE, z: 3 * ONE };
    let v2 = Vec3 { x: 3 * ONE, y: 2 * ONE, z: ONE };
    let v3 = v1.cross(&v2);
    assert!(eq_arr(&v3, [-4 * ONE, 8 * ONE, -4 * ONE]));
}

#[test]
fn test_unit_vector() {
    let v1 = Vec3 { x: 4 * ONE, y: 0, z: 3 * ONE };
    let v2 = v1.unit_vector();
    assert!(eq_arr(&v2, [52428, 0, 39321]));
}

#[test]
fn test_dot_self_is_length_squared() {
    let vs = [
        Vec3 { x: ONE, y: 2 * ONE, z: 3 * ONE },
        Vec3 { x: -ONE, y: 7, z: 12345 },
        Vec3 { x: 0, y: 0, z: 0 },
    ];
    for v in vs.iter() {
        assert_eq!(v.dot(v), v.length_squared());
    }
}

#[test]
fn test_cross_antisymmetric() {
    let a = Vec3 { x: ONE, y: -2 * ONE, z: 12345 };
    let b = Vec3 { x: 777, y: 3 * ONE, z: -ONE };
    let ab = a.cross(&b);
    let ba = b.cross(&a);
    assert!(eq_arr(&ab, [-ba.x, -ba.y, -ba.z]));
}

#[test]
fn test_unit_vector_length_near_one() {
    // Normalization is exact up to truncation: the length of a normalized
    // vector stays within a few raw units of 1.0.
    let v1 = Vec3 { x: ONE, y: 2 * ONE, z: 3 * ONE };
    let u = v1.unit_vector();
    assert!((u.length() - ONE).abs() <= 4);
    assert_eq!(u.length(), 65534);

    let v2 = Vec3 { x: -5 * ONE, y: 17, z: 9 * ONE };
    let u2 = v2.unit_vector();
    assert!((u2.length() - ONE).abs() <= 4);
}

#[test]
fn test_reflect_inverts_normal_component() {
    // About an axis-aligned unit normal the reflection law is exact.
    let v = Vec3 { x: 3 * ONE, y: -2 * ONE, z: 12345 };
    let n = Vec3 { x: 0, y: ONE, z: 0 };
    let r = v.reflect(&n);
    assert_eq!(r.dot(&n), -v.dot(&n));
    assert!(eq_arr(&r, [3 * ONE, 2 * ONE, 12345]));
}

#[test]
fn test_near_zero() {
    assert!(Vec3::new0().near_zero());
    assert!(Vec3 { x: 15, y: -15, z: 0 }.near_zero());
    assert!(!Vec3 { x: 16, y: 0, z: 0 }.near_zero());
    assert!(!Vec3 { x: 0, y: 0, z: ONE }.near_zero());
}

#[test]
fn test_refract_identity_head_on() {
    // A refraction ratio of one does not bend a head-on ray.
    let n = Vec3 { x: 0, y: 0, z: ONE };
    let v = Vec3 { x: 0, y: 0, z: -ONE };
    let r = v.refract(&n, ONE);
    assert!(eq_arr(&r, [0, 0, -ONE]));
}

#[test]
fn test_random_in_unit_range() {
    for _ in 0..100 {
        let v = Vec3::random();
        assert!(0 <= v.x && v.x < ONE);
        assert!(0 <= v.y && v.y < ONE);
        assert!(0 <= v.z && v.z < ONE);
    }
    let w = Vec3::random_range(-ONE, ONE);
    assert!(-ONE <= w.x && w.x < ONE);
    assert!(-ONE <= w.y && w.y < ONE);
    assert!(-ONE <= w.z && w.z < ONE);
    let fixed = Vec3::random_range(42, 42);
    assert!(eq_arr(&fixed, [42, 42, 42]));
}
