//! Three-component vectors over 16.16 fixed-point scalars.
//!
//! `V3` is the mathematical model (components as unbounded integers); `Vec3`
//! is the executable type. Every operation's contract states the result
//! exactly over the model.

use crate::fixed::{
    div_trunc, fdiv, fdiv_ok, fdiv_s, fmul, fmul_ok, fmul_s, fsqrt, fsqrt_s, iabs, imin,
    is_isqrt, lemma_abs_mul, lemma_div_trunc_le, lemma_fmul_le, lemma_isqrt_s, ONE,
};
use crate::rtweekend::{random_double, random_double_range};
use vstd::prelude::*;

verus! {

/// Magnitude threshold below which a component counts as zero
/// (used to catch degenerate scatter directions).
pub const NEAR_EPS: i64 = 16;

/// The mathematical model of a vector: three unbounded integers, each a raw
/// 16.16 fixed-point value.
pub ghost struct V3 {
    pub x: int,
    pub y: int,
    pub z: int,
}

impl V3 {
    pub open spec fn zero() -> V3 {
        V3 { x: 0, y: 0, z: 0 }
    }

    pub open spec fn neg(self) -> V3 {
        V3 { x: -self.x, y: -self.y, z: -self.z }
    }

    pub open spec fn add(self, o: V3) -> V3 {
        V3 { x: self.x + o.x, y: self.y + o.y, z: self.z + o.z }
    }

    pub open spec fn sub(self, o: V3) -> V3 {
        V3 { x: self.x - o.x, y: self.y - o.y, z: self.z - o.z }
    }

    /// Componentwise fixed-point product.
    pub open spec fn mul(self, o: V3) -> V3 {
        V3 { x: fmul_s(self.x, o.x), y: fmul_s(self.y, o.y), z: fmul_s(self.z, o.z) }
    }

    /// Fixed-point product with a scalar.
    pub open spec fn scale(self, k: int) -> V3 {
        V3 { x: fmul_s(self.x, k), y: fmul_s(self.y, k), z: fmul_s(self.z, k) }
    }

    /// Fixed-point quotient by a scalar.
    pub open spec fn div(self, k: int) -> V3 {
        V3 { x: fdiv_s(self.x, k), y: fdiv_s(self.y, k), z: fdiv_s(self.z, k) }
    }

    /// Fixed-point dot product.
    pub open spec fn dot(self, o: V3) -> int {
        fmul_s(self.x, o.x) + fmul_s(self.y, o.y) + fmul_s(self.z, o.z)
    }

    /// Fixed-point cross product.
    pub open spec fn cross(self, o: V3) -> V3 {
        V3 {
            x: fmul_s(self.y, o.z) - fmul_s(self.z, o.y),
            y: fmul_s(self.z, o.x) - fmul_s(self.x, o.z),
            z: fmul_s(self.x, o.y) - fmul_s(self.y, o.x),
        }
    }

    /// Fixed-point squared length.
    pub open spec fn length_squared(self) -> int {
        fmul_s(self.x, self.x) + fmul_s(self.y, self.y) + fmul_s(self.z, self.z)
    }

    /// Fixed-point length.
    pub open spec fn length(self) -> int {
        fsqrt_s(self.length_squared())
    }

    /// The vector scaled to (approximately) unit length.
    pub open spec fn unit(self) -> V3 {
        self.div(self.length())
    }

    /// All components below the degeneracy threshold in magnitude.
    pub open spec fn near_zero(self) -> bool {
        -(NEAR_EPS as int) < self.x < NEAR_EPS as int
            && -(NEAR_EPS as int) < self.y < NEAR_EPS as int
            && -(NEAR_EPS as int) < self.z < NEAR_EPS as int
    }

    /// Mirror reflection about the normal `n`: `v - 2 (v . n) n`.
    pub open spec fn reflect(self, n: V3) -> V3 {
        self.sub(n.scale(2 * self.dot(n)))
    }

    /// Snell refraction of `self` about the normal `n`, with the given ratio
    /// of refractive indices, decomposed into perpendicular and parallel
    /// parts.
    pub open spec fn refract(self, n: V3, eta: int) -> V3 {
        let cos = imin(self.neg().dot(n), ONE as int);
        let perp = self.add(n.scale(cos)).scale(eta);
        let k = iabs(ONE as int - perp.length_squared());
        perp.add(n.scale(-fsqrt_s(k)))
    }

    /// All components bounded by `b` in magnitude.
    pub open spec fn bounded(self, b: int) -> bool {
        -b <= self.x <= b && -b <= self.y <= b && -b <= self.z <= b
    }
}

/// Componentwise sums fit in an `i64`.
pub open spec fn add_ok(a: V3, b: V3) -> bool {
    i64::MIN as int <= a.x + b.x <= i64::MAX as int
        && i64::MIN as int <= a.y + b.y <= i64::MAX as int
        && i64::MIN as int <= a.z + b.z <= i64::MAX as int
}

/// Componentwise differences fit in an `i64`.
pub open spec fn sub_ok(a: V3, b: V3) -> bool {
    i64::MIN as int <= a.x - b.x <= i64::MAX as int
        && i64::MIN as int <= a.y - b.y <= i64::MAX as int
        && i64::MIN as int <= a.z - b.z <= i64::MAX as int
}

/// Componentwise magnitude bound under which the quadratic operations
/// (dot, cross, length) stay in range.
pub open spec fn quad_ok(v: V3) -> bool {
    v.bounded(0x20_0000_0000)
}

/// A point strictly inside the fixed-point unit ball.
pub open spec fn in_ball(v: V3) -> bool {
    v.bounded(ONE as int) && v.length_squared() < ONE as int
}

/// A point strictly inside the fixed-point unit disk of the xy-plane.
pub open spec fn in_disk(v: V3) -> bool {
    in_ball(v) && v.z == 0
}

/// A direction produced by normalizing a rejection-sampled interior point:
/// what a "random unit vector" is guaranteed to be.
pub open spec fn is_unit_sample(u: V3) -> bool {
    u.bounded(4 * ONE as int) && exists|s: V3|
        quad_ok(s) && 1 <= s.length_squared() < ONE as int && #[trigger] s.unit() == u
}

/// A three-component fixed-point vector. The raw `i64` value `v` of each
/// component stands for the real number `v / 65536`.
#[derive(Clone, Copy, Debug, PartialEq, Eq, Structural)]
pub struct Vec3 {
    pub x: i64,
    pub y: i64,
    pub z: i64,
}

impl View for Vec3 {
    type V = V3;

    open spec fn view(&self) -> V3 {
        V3 { x: self.x as int, y: self.y as int, z: self.z as int }
    }
}

impl Vec3 {
    /// The zero vector.
    pub fn new0() -> (r: Vec3)
        ensures
            r@ == V3::zero(),
    {
        Vec3 { x: 0, y: 0, z: 0 }
    }

    /// A vector from its three raw components.
    pub fn new(e: [i64; 3]) -> (r: Vec3)
        ensures
            r@ == (V3 { x: e[0] as int, y: e[1] as int, z: e[2] as int }),
    {
        Vec3 { x: e[0], y: e[1], z: e[2] }
    }

    /// The component at `index` (0, 1 or 2).
    pub fn index(&self, index: usize) -> (r: i64)
        requires
            index < 3,
        ensures
            index == 0 ==> r == self.x,
            index == 1 ==> r == self.y,
            index == 2 ==> r == self.z,
    {
        if index == 0 {
            self.x
        } else if index == 1 {
            self.y
        } else {
            self.z
        }
    }

    /// Componentwise negation.
    pub fn neg(&self) -> (r: Vec3)
        requires
            self@.bounded(i64::MAX as int),
        ensures
            r@ == self@.neg(),
    {
        Vec3 { x: -self.x, y: -self.y, z: -self.z }
    }

    /// Componentwise sum.
    pub fn add(&self, rhs: &Vec3) -> (r: Vec3)
        requires
            add_ok(self@, rhs@),
        ensures
            r@ == self@.add(rhs@),
    {
        Vec3 { x: self.x + rhs.x, y: self.y + rhs.y, z: self.z + rhs.z }
    }

    /// Componentwise difference.
    pub fn sub(&self, rhs: &Vec3) -> (r: Vec3)
        requires
            sub_ok(self@, rhs@),
        ensures
            r@ == self@.sub(rhs@),
    {
        Vec3 { x: self.x - rhs.x, y: self.y - rhs.y, z: self.z - rhs.z }
    }

    /// Componentwise fixed-point product.
    pub fn mul(&self, rhs: &Vec3) -> (r: Vec3)
        requires
            fmul_ok(self@.x, rhs@.x),
            fmul_ok(self@.y, rhs@.y),
            fmul_ok(self@.z, rhs@.z),
        ensures
            r@ == self@.mul(rhs@),
    {
        Vec3 { x: fmul(self.x, rhs.x), y: fmul(self.y, rhs.y), z: fmul(self.z, rhs.z) }
    }

    /// Fixed-point product with a scalar.
    pub fn scale(&self, k: i64) -> (r: Vec3)
        requires
            fmul_ok(self@.x, k as int),
            fmul_ok(self@.y, k as int),
            fmul_ok(self@.z, k as int),
        ensures
            r@ == self@.scale(k as int),
    {
        Vec3 { x: fmul(self.x, k), y: fmul(self.y, k), z: fmul(self.z, k) }
    }

    /// Fixed-point quotient by a scalar.
    pub fn div(&self, k: i64) -> (r: Vec3)
        requires
            fdiv_ok(self@.x, k as int),
            fdiv_ok(self@.y, k as int),
            fdiv_ok(self@.z, k as int),
        ensures
            r@ == self@.div(k as int),
    {
        Vec3 { x: fdiv(self.x, k), y: fdiv(self.y, k), z: fdiv(self.z, k) }
    }

    /// Fixed-point squared length. Never negative.
    pub fn length_squared(&self) -> (r: i64)
        requires
            quad_ok(self@),
        ensures
            r == self@.length_squared(),
            r >= 0,
    {
        proof {
            lemma_quad_products(self@, self@);
            crate::fixed::lemma_fmul_self_nonneg(self@.x);
            crate::fixed::lemma_fmul_self_nonneg(self@.y);
            crate::fixed::lemma_fmul_self_nonneg(self@.z);
        }
        fmul(self.x, self.x) + fmul(self.y, self.y) + fmul(self.z, self.z)
    }

    /// Fixed-point length.
    pub fn length(&self) -> (r: i64)
        requires
            quad_ok(self@),
        ensures
            r == self@.length(),
            r >= 0,
    {
        fsqrt(self.length_squared())
    }

    /// Fixed-point dot product.
    pub fn dot(&self, rhs: &Vec3) -> (r: i64)
        requires
            quad_ok(self@),
            quad_ok(rhs@),
        ensures
            r == self@.dot(rhs@),
    {
        proof {
            lemma_quad_products(self@, rhs@);
        }
        fmul(self.x, rhs.x) + fmul(self.y, rhs.y) + fmul(self.z, rhs.z)
    }

    /// Fixed-point cross product.
    pub fn cross(&self, rhs: &Vec3) -> (r: Vec3)
        requires
            quad_ok(self@),
            quad_ok(rhs@),
        ensures
            r@ == self@.cross(rhs@),
    {
        proof {
            lemma_quad_products(self@, rhs@);
            lemma_quad_products(rhs@, self@);
        }
        Vec3 {
            x: fmul(self.y, rhs.z) - fmul(self.z, rhs.y),
            y: fmul(self.z, rhs.x) - fmul(self.x, rhs.z),
            z: fmul(self.x, rhs.y) - fmul(self.y, rhs.x),
        }
    }

    /// The vector scaled to (approximately) unit length. The caller must
    /// rule out (near-)zero vectors, whose direction is undefined.
    pub fn unit_vector(&self) -> (r: Vec3)
        requires
            quad_ok(self@),
            self@.length_squared() >= 1,
        ensures
            r@ == self@.unit(),
            r@.bounded(4 * ONE as int),
    {
        let ls: i64 = self.length_squared();
        let l: i64 = fsqrt(ls);
        proof {
            lemma_isqrt_s((ls * ONE) as nat);
            lemma_unit_in_range(self@, ls as int, l as int);
        }
        Vec3 { x: fdiv(self.x, l), y: fdiv(self.y, l), z: fdiv(self.z, l) }
    }

    /// Whether every component is within `b` in magnitude.
    pub fn in_range(&self, b: i64) -> (r: bool)
        requires
            0 <= b,
        ensures
            r == self@.bounded(b as int),
    {
        -b <= self.x && self.x <= b && -b <= self.y && self.y <= b && -b <= self.z && self.z
            <= b
    }

    /// True if every component is below the degeneracy threshold.
    pub fn near_zero(&self) -> (r: bool)
        ensures
            r == self@.near_zero(),
    {
        let s: i64 = NEAR_EPS;
        -s < self.x && self.x < s && -s < self.y && self.y < s && -s < self.z && self.z < s
    }

    /// Mirror reflection about the normal `n`: `v - 2 (v . n) n`.
    pub fn reflect(&self, n: &Vec3) -> (r: Vec3)
        requires
            self@.bounded(0x4000_0000),
            n@.bounded(0x4_0000),
        ensures
            r@ == self@.reflect(n@),
            r@.bounded(0x80_0000_0000),
    {
        proof {
            lemma_reflect_in_range(self@, n@);
        }
        let d: i64 = self.dot(n);
        let dd: i64 = 2 * d;
        Vec3 {
            x: self.x - fmul(dd, n.x),
            y: self.y - fmul(dd, n.y),
            z: self.z - fmul(dd, n.z),
        }
    }
}

impl Vec3 {
    /// A vector with three independent random components in `[0, ONE)`.
    pub fn random() -> (r: Vec3)
        ensures
            0 <= r@.x < ONE as int,
            0 <= r@.y < ONE as int,
            0 <= r@.z < ONE as int,
    {
        Vec3 { x: random_double(), y: random_double(), z: random_double() }
    }

    /// A vector with three independent random components in `[min, max)`
    /// (each exactly `min` when the interval is empty).
    pub fn random_range(min: i64, max: i64) -> (r: Vec3)
        requires
            min <= max,
            -0x2000_0000_0000 <= min <= 0x2000_0000_0000,
            -0x2000_0000_0000 <= max <= 0x2000_0000_0000,
        ensures
            min < max ==> r@.bounded(0x2000_0000_0000) && min <= r@.x < max && min <= r@.y
                < max && min <= r@.z < max,
            min == max ==> r@ == (V3 { x: min as int, y: min as int, z: min as int }),
    {
        Vec3 {
            x: random_double_range(min, max),
            y: random_double_range(min, max),
            z: random_double_range(min, max),
        }
    }

    /// Snell refraction of `self` about the normal `n`, with the given
    /// ratio of refractive indices.
    pub fn refract(&self, n: &Vec3, etai_over_etat: i64) -> (r: Vec3)
        requires
            self@.bounded(0x4_0000),
            n@.bounded(0x4_0000),
            0 <= etai_over_etat <= 0x20_0000,
        ensures
            r@ == self@.refract(n@, etai_over_etat as int),
    {
        proof {
            lemma_abs_mul(-self@.x, n@.x, 0x4_0000, 0x4_0000);
            lemma_abs_mul(-self@.y, n@.y, 0x4_0000, 0x4_0000);
            lemma_abs_mul(-self@.z, n@.z, 0x4_0000, 0x4_0000);
            lemma_fmul_le(-self@.x, n@.x, 0x10_0000);
            lemma_fmul_le(-self@.y, n@.y, 0x10_0000);
            lemma_fmul_le(-self@.z, n@.z, 0x10_0000);
        }
        let cos0: i64 = self.neg().dot(n);
        let cos_theta: i64 = if cos0 < ONE {
            cos0
        } else {
            ONE
        };
        proof {
            lemma_abs_mul(n@.x, cos_theta as int, 0x4_0000, 0x30_0000);
            lemma_abs_mul(n@.y, cos_theta as int, 0x4_0000, 0x30_0000);
            lemma_abs_mul(n@.z, cos_theta as int, 0x4_0000, 0x30_0000);
            lemma_fmul_le(n@.x, cos_theta as int, 0xC0_0000);
            lemma_fmul_le(n@.y, cos_theta as int, 0xC0_0000);
            lemma_fmul_le(n@.z, cos_theta as int, 0xC0_0000);
        }
        let base: Vec3 = self.add(&n.scale(cos_theta));
        proof {
            lemma_abs_mul(base@.x, etai_over_etat as int, 0xC4_0000, 0x20_0000);
            lemma_abs_mul(base@.y, etai_over_etat as int, 0xC4_0000, 0x20_0000);
            lemma_abs_mul(base@.z, etai_over_etat as int, 0xC4_0000, 0x20_0000);
            lemma_fmul_le(base@.x, etai_over_etat as int, 0x1880_0000);
            lemma_fmul_le(base@.y, etai_over_etat as int, 0x1880_0000);
            lemma_fmul_le(base@.z, etai_over_etat as int, 0x1880_0000);
        }
        let r_out_perp: Vec3 = base.scale(etai_over_etat);
        let k: i64 = ONE - r_out_perp.length_squared();
        let ka: i64 = if k >= 0 {
            k
        } else {
            -k
        };
        let sq: i64 = fsqrt(ka);
        proof {
            lemma_abs_mul(n@.x, -(sq as int), 0x4_0000, 0x100_0000_0000);
            lemma_abs_mul(n@.y, -(sq as int), 0x4_0000, 0x100_0000_0000);
            lemma_abs_mul(n@.z, -(sq as int), 0x4_0000, 0x100_0000_0000);
            lemma_fmul_le(n@.x, -(sq as int), 0x400_0000_0000);
            lemma_fmul_le(n@.y, -(sq as int), 0x400_0000_0000);
            lemma_fmul_le(n@.z, -(sq as int), 0x400_0000_0000);
        }
        let r_out_parallel: Vec3 = n.scale(-sq);
        r_out_perp.add(&r_out_parallel)
    }
}

/// All the pairwise fixed-point products of two quad-bounded vectors are in
/// range, and each is at most `2^58` in magnitude.
proof fn lemma_quad_products(a: V3, b: V3)
    requires
        quad_ok(a),
        quad_ok(b),
    ensures
        fmul_ok(a.x, b.x) && fmul_ok(a.y, b.y) && fmul_ok(a.z, b.z),
        fmul_ok(a.y, b.z) && fmul_ok(a.z, b.y) && fmul_ok(a.z, b.x),
        fmul_ok(a.x, b.z) && fmul_ok(a.x, b.y) && fmul_ok(a.y, b.x),
        -0x400_0000_0000_0000 <= fmul_s(a.x, b.x) <= 0x400_0000_0000_0000,
        -0x400_0000_0000_0000 <= fmul_s(a.y, b.y) <= 0x400_0000_0000_0000,
        -0x400_0000_0000_0000 <= fmul_s(a.z, b.z) <= 0x400_0000_0000_0000,
        -0x400_0000_0000_0000 <= fmul_s(a.y, b.z) <= 0x400_0000_0000_0000,
        -0x400_0000_0000_0000 <= fmul_s(a.z, b.y) <= 0x400_0000_0000_0000,
        -0x400_0000_0000_0000 <= fmul_s(a.z, b.x) <= 0x400_0000_0000_0000,
        -0x400_0000_0000_0000 <= fmul_s(a.x, b.z) <= 0x400_0000_0000_0000,
        -0x400_0000_0000_0000 <= fmul_s(a.x, b.y) <= 0x400_0000_0000_0000,
        -0x400_0000_0000_0000 <= fmul_s(a.y, b.x) <= 0x400_0000_0000_0000,
{
    let m: int = 0x20_0000_0000;
    let c: int = 0x400_0000_0000_0000;
    lemma_abs_mul(a.x, b.x, m, m);
    lemma_abs_mul(a.y, b.y, m, m);
    lemma_abs_mul(a.z, b.z, m, m);
    lemma_abs_mul(a.y, b.z, m, m);
    lemma_abs_mul(a.z, b.y, m, m);
    lemma_abs_mul(a.z, b.x, m, m);
    lemma_abs_mul(a.x, b.z, m, m);
    lemma_abs_mul(a.x, b.y, m, m);
    lemma_abs_mul(a.y, b.x, m, m);
    lemma_fmul_le(a.x, b.x, c);
    lemma_fmul_le(a.y, b.y, c);
    lemma_fmul_le(a.z, b.z, c);
    lemma_fmul_le(a.y, b.z, c);
    lemma_fmul_le(a.z, b.y, c);
    lemma_fmul_le(a.z, b.x, c);
    lemma_fmul_le(a.x, b.z, c);
    lemma_fmul_le(a.x, b.y, c);
    lemma_fmul_le(a.y, b.x, c);
}

/// Each component of a quad-bounded vector, rescaled by `ONE` and divided by
/// the fixed-point length, is within `4 * ONE` and fits in an `i64`.
proof fn lemma_unit_in_range(v: V3, ls: int, l: int)
    requires
        quad_ok(v),
        ls == v.length_squared(),
        ls >= 1,
        is_isqrt(ls * ONE as int, l),
    ensures
        fdiv_ok(v.x, l) && fdiv_ok(v.y, l) && fdiv_ok(v.z, l),
        l >= 1,
        -4 * ONE as int <= fdiv_s(v.x, l) <= 4 * ONE as int,
        -4 * ONE as int <= fdiv_s(v.y, l) <= 4 * ONE as int,
        -4 * ONE as int <= fdiv_s(v.z, l) <= 4 * ONE as int,
{
    lemma_quad_products(v, v);
    crate::fixed::lemma_fmul_self_nonneg(v.x);
    crate::fixed::lemma_fmul_self_nonneg(v.y);
    crate::fixed::lemma_fmul_self_nonneg(v.z);
    assert(l >= 256) by (nonlinear_arith)
        requires
            is_isqrt(ls * 65536, l),
            ls >= 1,
    ;
    lemma_unit_component(v.x, ls, l);
    lemma_unit_component(v.y, ls, l);
    lemma_unit_component(v.z, ls, l);
}

/// One component of the normalization: `|x * ONE / l| <= 4 * ONE` when `l`
/// is the fixed-point length of a vector with component `x`.
proof fn lemma_unit_component(x: int, ls: int, l: int)
    requires
        -0x20_0000_0000 <= x <= 0x20_0000_0000,
        ls >= fmul_s(x, x),
        ls >= 1,
        is_isqrt(ls * ONE as int, l),
        l >= 256,
    ensures
        -4 * ONE as int <= div_trunc(x * ONE as int, l) <= 4 * ONE as int,
        fdiv_ok(x, l),
{
    let one: int = ONE as int;
    assert(ls * one >= x * x - one) by (nonlinear_arith)
        requires
            ls >= div_trunc(x * x, one),
            one == 65536,
    ;
    assert(4 * l >= x && 4 * l >= -x) by (nonlinear_arith)
        requires
            l >= 256,
            (l + 1) * (l + 1) > ls * one,
            ls * one >= x * x - one,
            one == 65536,
            -0x20_0000_0000 <= x <= 0x20_0000_0000,
    ;
    assert(-((4 * one) * l) <= x * one <= (4 * one) * l) by (nonlinear_arith)
        requires
            4 * l >= x,
            4 * l >= -x,
            l >= 1,
            one == 65536,
    ;
    lemma_div_trunc_le(x * one, l, 4 * one);
}

/// The products inside a reflection stay in range, and the result is bounded.
proof fn lemma_reflect_in_range(v: V3, n: V3)
    requires
        v.bounded(0x4000_0000),
        n.bounded(0x4_0000),
    ensures
        fmul_ok(2 * v.dot(n), n.x),
        fmul_ok(2 * v.dot(n), n.y),
        fmul_ok(2 * v.dot(n), n.z),
        v.reflect(n).bounded(0x80_0000_0000),
        -0x8_0000_0000 <= 2 * v.dot(n) <= 0x8_0000_0000,
{
    let c: int = 0x1_0000_0000;
    lemma_abs_mul(v.x, n.x, 0x4000_0000, 0x4_0000);
    lemma_abs_mul(v.y, n.y, 0x4000_0000, 0x4_0000);
    lemma_abs_mul(v.z, n.z, 0x4000_0000, 0x4_0000);
    lemma_fmul_le(v.x, n.x, 0x4_0000_0000);
    lemma_fmul_le(v.y, n.y, 0x4_0000_0000);
    lemma_fmul_le(v.z, n.z, 0x4_0000_0000);
    let d: int = 2 * v.dot(n);
    lemma_abs_mul(d, n.x, 0x18_0000_0000, 0x4_0000);
    lemma_abs_mul(d, n.y, 0x18_0000_0000, 0x4_0000);
    lemma_abs_mul(d, n.z, 0x18_0000_0000, 0x4_0000);
    lemma_fmul_le(d, n.x, 0x60_0000_0000);
    lemma_fmul_le(d, n.y, 0x60_0000_0000);
    lemma_fmul_le(d, n.z, 0x60_0000_0000);
}

/// A reflection of a near-unit vector about a near-unit normal is bounded
/// by `2^25`.
pub proof fn lemma_reflect_unit_bound(v: V3, n: V3)
    requires
        v.bounded(0x4_0000),
        n.bounded(0x4_0000),
    ensures
        v.reflect(n).bounded(0x200_0000),
{
    lemma_abs_mul(v.x, n.x, 0x4_0000, 0x4_0000);
    lemma_abs_mul(v.y, n.y, 0x4_0000, 0x4_0000);
    lemma_abs_mul(v.z, n.z, 0x4_0000, 0x4_0000);
    lemma_fmul_le(v.x, n.x, 0x10_0000);
    lemma_fmul_le(v.y, n.y, 0x10_0000);
    lemma_fmul_le(v.z, n.z, 0x10_0000);
    let d: int = 2 * v.dot(n);
    lemma_abs_mul(d, n.x, 0x60_0000, 0x4_0000);
    lemma_abs_mul(d, n.y, 0x60_0000, 0x4_0000);
    lemma_abs_mul(d, n.z, 0x60_0000, 0x4_0000);
    lemma_fmul_le(d, n.x, 0x180_0000);
    lemma_fmul_le(d, n.y, 0x180_0000);
    lemma_fmul_le(d, n.z, 0x180_0000);
}

/// One normalized component, squared: `(u L)^2` differs from `(x ONE)^2` by
/// at most the cross term of one truncation step.
proof fn lemma_unit_comp_sq(x: int, l: int)
    requires
        l >= 1,
        -(l + 258) <= x <= l + 258,
    ensures
        ({
            let u = div_trunc(x * (ONE as int), l);
            -(2 * (l + 258) * (ONE as int) * l + l * l) <= u * u * (l * l) - (x * x) * ((
            ONE as int) * (ONE as int)) <= 2 * (l + 258) * (ONE as int) * l + l * l
        }),
{
    let one = ONE as int;
    crate::fixed::lemma_div_trunc_remainder(x * one, l);
    let u = div_trunc(x * one, l);
    assert(-l <= u * l - x * one <= l);
    assert(u * u * (l * l) == (u * l) * (u * l)) by (nonlinear_arith);
    assert((x * x) * (one * one) == (x * one) * (x * one)) by (nonlinear_arith);
    assert(-(2 * (l + 258) * one * l + l * l) <= (u * l) * (u * l) - (x * one) * (x * one) <= 2
        * (l + 258) * one * l + l * l) by (nonlinear_arith)
        requires
            -l <= u * l - x * one <= l,
            -((l + 258) * one) <= x * one <= (l + 258) * one,
            l >= 1,
            one == 65536,
    ;
}

/// Law (for vectors of real length at least one): normalization yields a
/// vector whose fixed-point length is one, up to a few raw units of
/// truncation error. (Vectors much shorter than one cannot be normalized
/// reliably in fixed point: `(443, 0, 0)` normalizes to a vector of length
/// about 1.22.)
pub proof fn lemma_unit_vector_length_near_one(v: V3)
    requires
        quad_ok(v),
        v.length_squared() >= ONE as int,
    ensures
        ONE as int - 16 <= v.unit().length() <= ONE as int + 16,
{
    let one = ONE as int;
    let ls = v.length_squared();
    let lsp = v.x * v.x + v.y * v.y + v.z * v.z;
    crate::fixed::lemma_fmul_self_nonneg(v.x);
    crate::fixed::lemma_fmul_self_nonneg(v.y);
    crate::fixed::lemma_fmul_self_nonneg(v.z);
    crate::fixed::lemma_div_trunc_remainder(v.x * v.x, one);
    crate::fixed::lemma_div_trunc_remainder(v.y * v.y, one);
    crate::fixed::lemma_div_trunc_remainder(v.z * v.z, one);
    assert(ls * one <= lsp < ls * one + 3 * one);

    let l = v.length();
    lemma_isqrt_s((ls * one) as nat);
    crate::fixed::lemma_isqrt_monotone((one * one) as nat, (ls * one) as nat);
    crate::fixed::lemma_isqrt_square(one);
    assert(l >= one);
    assert(l * l <= ls * one < (l + 1) * (l + 1));

    assert(v.x * v.x <= lsp && v.y * v.y <= lsp && v.z * v.z <= lsp);
    assert(lsp < (l + 1) * (l + 1) + 3 * one);
    assert(-(l + 258) <= v.x <= l + 258 && -(l + 258) <= v.y <= l + 258 && -(l + 258) <= v.z <= l
        + 258) by (nonlinear_arith)
        requires
            v.x * v.x <= lsp,
            v.y * v.y <= lsp,
            v.z * v.z <= lsp,
            lsp < (l + 1) * (l + 1) + 3 * 65536,
            l >= 65536,
    ;

    lemma_unit_comp_sq(v.x, l);
    lemma_unit_comp_sq(v.y, l);
    lemma_unit_comp_sq(v.z, l);
    let ux = div_trunc(v.x * one, l);
    let uy = div_trunc(v.y * one, l);
    let uz = div_trunc(v.z * one, l);
    let b = ux * ux + uy * uy + uz * uz;
    let e = 2 * (l + 258) * one * l + l * l;
    assert(b * (l * l) == ux * ux * (l * l) + uy * uy * (l * l) + uz * uz * (l * l))
        by (nonlinear_arith)
        requires
            b == ux * ux + uy * uy + uz * uz,
    ;
    assert(lsp * (one * one) - 3 * e <= b * (l * l) <= lsp * (one * one) + 3 * e);
    assert(3 * e <= 7 * one * (l * l)) by (nonlinear_arith)
        requires
            l >= 65536,
            e == 2 * (l + 258) * 65536 * l + l * l,
            one == 65536,
    ;
    assert((l * l) * (one * one) <= lsp * (one * one)) by (nonlinear_arith)
        requires
            l * l <= lsp,
    ;
    assert(lsp * (one * one) <= ((l + 1) * (l + 1) + 3 * one) * (one * one))
        by (nonlinear_arith)
        requires
            lsp <= (l + 1) * (l + 1) + 3 * one,
            one == 65536,
    ;
    assert(b >= one * one - 7 * one) by (nonlinear_arith)
        requires
            b * (l * l) >= (l * l) * (one * one) - 7 * one * (l * l),
            l >= 1,
            one == 65536,
    ;
    assert(b <= one * one + 13 * one) by (nonlinear_arith)
        requires
            b * (l * l) <= ((l + 1) * (l + 1) + 3 * one) * (one * one) + 7 * one * (l * l),
            l >= one,
            one == 65536,
    ;

    let u = v.unit();
    assert(u.x == ux && u.y == uy && u.z == uz);
    crate::fixed::lemma_div_trunc_remainder(ux * ux, one);
    crate::fixed::lemma_div_trunc_remainder(uy * uy, one);
    crate::fixed::lemma_div_trunc_remainder(uz * uz, one);
    assert(ux * ux >= 0 && uy * uy >= 0 && uz * uz >= 0) by (nonlinear_arith);
    let lsu = u.length_squared();
    assert(b - 3 * one < lsu * one <= b);

    let lenu = u.length();
    lemma_isqrt_s((lsu * one) as nat);
    assert(lenu * lenu <= lsu * one < (lenu + 1) * (lenu + 1));
    assert(one - 16 <= lenu <= one + 16) by (nonlinear_arith)
        requires
            lenu >= 0,
            lenu * lenu <= lsu * one,
            lsu * one < (lenu + 1) * (lenu + 1),
            one * one - 10 * one < lsu * one,
            lsu * one <= one * one + 13 * one,
            one == 65536,
    ;
}

/// A normal aligned with a coordinate axis, of exactly unit length.
pub open spec fn is_axis_unit(n: V3) -> bool {
    n == (V3 { x: ONE as int, y: 0, z: 0 }) || n == (V3 { x: -(ONE as int), y: 0, z: 0 }) || n
        == (V3 { x: 0, y: ONE as int, z: 0 }) || n == (V3 { x: 0, y: -(ONE as int), z: 0 }) || n
        == (V3 { x: 0, y: 0, z: ONE as int }) || n == (V3 { x: 0, y: 0, z: -(ONE as int) })
}

/// Law: reflecting about an axis-aligned unit normal inverts exactly the
/// normal component of the incidence: `reflect(v, n) . n == -(v . n)`.
/// (About a general fixed-point unit normal the same holds only up to
/// truncation error.)
pub proof fn lemma_reflect_inverts_normal_component(v: V3, n: V3)
    requires
        is_axis_unit(n),
    ensures
        v.reflect(n).dot(n) == -v.dot(n),
{
    crate::fixed::lemma_fmul_one(v.x);
    crate::fixed::lemma_fmul_one(v.y);
    crate::fixed::lemma_fmul_one(v.z);
    crate::fixed::lemma_fmul_one(2 * v.dot(n));
    let r = v.reflect(n);
    crate::fixed::lemma_fmul_one(r.x);
    crate::fixed::lemma_fmul_one(r.y);
    crate::fixed::lemma_fmul_one(r.z);
}

/// Law: the dot product of a vector with itself is exactly its squared
/// length.
pub proof fn lemma_dot_self_is_length_squared(v: V3)
    ensures
        v.dot(v) == v.length_squared(),
{
}

/// Law: the cross product is antisymmetric, exactly, including the
/// truncation of every fixed-point product.
pub proof fn lemma_cross_antisymmetric(a: V3, b: V3)
    ensures
        a.cross(b) == b.cross(a).neg(),
{
    assert(a.y * b.z == b.z * a.y) by (nonlinear_arith);
    assert(a.z * b.y == b.y * a.z) by (nonlinear_arith);
    assert(a.z * b.x == b.x * a.z) by (nonlinear_arith);
    assert(a.x * b.z == b.z * a.x) by (nonlinear_arith);
    assert(a.x * b.y == b.y * a.x) by (nonlinear_arith);
    assert(a.y * b.x == b.x * a.y) by (nonlinear_arith);
}

} // verus!
