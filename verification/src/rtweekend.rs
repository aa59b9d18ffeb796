//! Scalar utilities and random sampling.

use crate::fixed::{
    div_trunc, div_trunc_i64, fmul, fmul_ok, fmul_s, lemma_abs_mul, lemma_div_trunc_le,
    lemma_fmul_le, lemma_fmul_nonneg, ONE,
};
use crate::prng::Prng;
use crate::vec3::{quad_ok, Vec3, V3};
use vstd::prelude::*;

verus! {

/// Raw fixed-point value of pi / 180 (rounded to nearest).
pub const RAD_PER_DEG: i64 = 1144;

/// Degrees to radians, in fixed point.
pub fn degrees_to_radians(degrees: i64) -> (r: i64)
    requires
        fmul_ok(degrees as int, RAD_PER_DEG as int),
    ensures
        r == fmul_s(degrees as int, RAD_PER_DEG as int),
{
    fmul(degrees, RAD_PER_DEG)
}

/// `x` clamped into `[min, max]`.
pub fn clamp(x: i64, min: i64, max: i64) -> (r: i64)
    requires
        min <= max,
    ensures
        x < min ==> r == min,
        x > max ==> r == max,
        min <= x <= max ==> r == x,
{
    if x < min {
        min
    } else if x > max {
        max
    } else {
        x
    }
}

/// The fixed-point sine Taylor polynomial:
/// `x - x^3/6 + x^5/120 - x^7/5040`.
pub open spec fn sin_fx_s(x: int) -> int {
    let x2 = fmul_s(x, x);
    let x3 = fmul_s(x2, x);
    let x5 = fmul_s(x3, x2);
    let x7 = fmul_s(x5, x2);
    x - div_trunc(x3, 6) + div_trunc(x5, 120) - div_trunc(x7, 5040)
}

/// The fixed-point cosine Taylor polynomial:
/// `1 - x^2/2 + x^4/24 - x^6/720`.
pub open spec fn cos_fx_s(x: int) -> int {
    let x2 = fmul_s(x, x);
    let x4 = fmul_s(x2, x2);
    let x6 = fmul_s(x4, x2);
    ONE as int - div_trunc(x2, 2) + div_trunc(x4, 24) - div_trunc(x6, 720)
}

/// Ranges of the powers used by the two Taylor polynomials, for arguments
/// up to 1.5 radians.
proof fn lemma_trig_ranges(x: int)
    requires
        0 <= x <= 0x1_8000,
    ensures
        0 <= fmul_s(x, x) <= 0x2_4000,
        -0x4_0000 <= fmul_s(fmul_s(x, x), x) <= 0x4_0000,
        -0x9_0000 <= fmul_s(fmul_s(x, x), fmul_s(x, x)) <= 0x9_0000,
        -0x10_0000 <= fmul_s(fmul_s(fmul_s(x, x), x), fmul_s(x, x)) <= 0x10_0000,
        -0x16_0000 <= fmul_s(fmul_s(fmul_s(x, x), fmul_s(x, x)), fmul_s(x, x)) <= 0x16_0000,
        -0x40_0000 <= fmul_s(fmul_s(fmul_s(fmul_s(x, x), x), fmul_s(x, x)), fmul_s(x, x))
            <= 0x40_0000,
{
    lemma_fmul_nonneg(x, x);
    lemma_abs_mul(x, x, 0x1_8000, 0x1_8000);
    lemma_fmul_le(x, x, 0x2_4000);
    let x2 = fmul_s(x, x);
    lemma_abs_mul(x2, x, 0x2_4000, 0x1_8000);
    lemma_fmul_le(x2, x, 0x4_0000);
    let x3 = fmul_s(x2, x);
    lemma_abs_mul(x2, x2, 0x2_4000, 0x2_4000);
    lemma_fmul_le(x2, x2, 0x9_0000);
    let x4 = fmul_s(x2, x2);
    lemma_abs_mul(x3, x2, 0x4_0000, 0x2_4000);
    lemma_fmul_le(x3, x2, 0x10_0000);
    let x5 = fmul_s(x3, x2);
    lemma_abs_mul(x4, x2, 0x9_0000, 0x2_4000);
    lemma_fmul_le(x4, x2, 0x16_0000);
    lemma_abs_mul(x5, x2, 0x10_0000, 0x2_4000);
    lemma_fmul_le(x5, x2, 0x40_0000);
}

/// Fixed-point sine, for arguments in `[0, 1.5]` radians.
pub fn sin_fx(x: i64) -> (r: i64)
    requires
        0 <= x <= 0x1_8000,
    ensures
        r == sin_fx_s(x as int),
        -0x80_0000 <= r <= 0x80_0000,
{
    proof {
        lemma_trig_ranges(x as int);
        lemma_div_trunc_le(fmul_s(fmul_s(x as int, x as int), x as int), 6, 0x4_0000);
        lemma_div_trunc_le(
            fmul_s(fmul_s(fmul_s(x as int, x as int), x as int), fmul_s(x as int, x as int)),
            120,
            0x10_0000,
        );
        lemma_div_trunc_le(
            fmul_s(
                fmul_s(fmul_s(fmul_s(x as int, x as int), x as int), fmul_s(x as int, x as int)),
                fmul_s(x as int, x as int),
            ),
            5040,
            0x40_0000,
        );
    }
    let x2: i64 = fmul(x, x);
    let x3: i64 = fmul(x2, x);
    let x5: i64 = fmul(x3, x2);
    let x7: i64 = fmul(x5, x2);
    x - div_trunc_i64(x3, 6) + div_trunc_i64(x5, 120) - div_trunc_i64(x7, 5040)
}

/// Fixed-point cosine, for arguments in `[0, 1.5]` radians.
pub fn cos_fx(x: i64) -> (r: i64)
    requires
        0 <= x <= 0x1_8000,
    ensures
        r == cos_fx_s(x as int),
        -0x80_0000 <= r <= 0x80_0000,
{
    proof {
        lemma_trig_ranges(x as int);
        lemma_div_trunc_le(fmul_s(x as int, x as int), 2, 0x2_4000);
        lemma_div_trunc_le(
            fmul_s(fmul_s(x as int, x as int), fmul_s(x as int, x as int)),
            24,
            0x9_0000,
        );
        lemma_div_trunc_le(
            fmul_s(
                fmul_s(fmul_s(x as int, x as int), fmul_s(x as int, x as int)),
                fmul_s(x as int, x as int),
            ),
            720,
            0x16_0000,
        );
    }
    let x2: i64 = fmul(x, x);
    let x4: i64 = fmul(x2, x2);
    let x6: i64 = fmul(x4, x2);
    ONE - div_trunc_i64(x2, 2) + div_trunc_i64(x4, 24) - div_trunc_i64(x6, 720)
}

/// Relies on rand::random: a value of the target type drawn from the
/// thread-local generator. Nothing can be promised about which value
/// comes back.
pub assume_specification<T>[ rand::random::<T> ]() -> (r: T)
    where
        rand::distributions::Standard: rand::distributions::Distribution<T>,
;

/// A random fixed-point value in `[0, ONE)`, that is, in `[0, 1)` of real
/// value, drawn from the process-wide entropy source.
pub fn random_double() -> (r: i64)
    ensures
        0 <= r < ONE,
{
    let bits: u64 = rand::random();
    (bits % 65536) as i64
}

/// A random fixed-point value in `[min, max)` (or exactly `min` when the
/// interval is empty).
pub fn random_double_range(min: i64, max: i64) -> (r: i64)
    requires
        min <= max,
        -0x2000_0000_0000 <= min <= 0x2000_0000_0000,
        -0x2000_0000_0000 <= max <= 0x2000_0000_0000,
    ensures
        min < max ==> min <= r < max,
        min == max ==> r == min,
{
    let u: i64 = random_double();
    let diff: i64 = max - min;
    proof {
        lemma_abs_mul(diff as int, u as int, 0x4000_0000_0000, 65535);
        lemma_unit_scale_range(diff as int, u as int);
    }
    min + fmul(diff, u)
}

/// Scaling a non-negative quantity by a fixed-point fraction below one
/// cannot reach the quantity itself (and never goes negative).
proof fn lemma_unit_scale_range(d: int, u: int)
    requires
        d >= 0,
        0 <= u < 65536,
    ensures
        0 <= fmul_s(d, u),
        d >= 1 ==> fmul_s(d, u) <= d - 1,
        d == 0 ==> fmul_s(d, u) == 0,
{
    if d == 0 {
        assert(d * u == 0) by (nonlinear_arith)
            requires
                d == 0,
        ;
    }
    assert(0 <= d * u) by (nonlinear_arith)
        requires
            d >= 0,
            u >= 0,
    ;
    assert(d * u >= 0 ==> div_trunc(d * u, 65536) == (d * u) / 65536);
    assert((d * u) / 65536 >= 0) by (nonlinear_arith)
        requires
            d * u >= 0,
    ;
    if d >= 1 {
        assert(d * u <= d * 65536 - d) by (nonlinear_arith)
            requires
                d >= 1,
                0 <= u < 65536,
        ;
        assert((d * u) / 65536 <= d - 1) by (nonlinear_arith)
            requires
                d * u <= d * 65536 - d,
                d >= 1,
                d * u >= 0,
        ;
    }
}

/// How many rejection-sampling draws are attempted before falling back to
/// a fixed interior point (each attempt rejects with probability below
/// one half, so the fallback is vanishingly rare).
pub const SAMPLE_ATTEMPTS: u32 = 64;

/// One symmetric fixed-point draw in `[-ONE, ONE]` from a generator state.
pub open spec fn sym_of(s: u64) -> int {
    ((crate::prng::next_state(s) % 131073) as int) - 65536
}

/// What rejection sampling in the unit ball returns, as a function of the
/// generator state and the remaining attempts: the first triple of
/// symmetric draws with squared length below one, with the state that
/// follows it, or the fixed fallback point once the attempts run out.
pub open spec fn sphere_sample_s(s: u64, fuel: nat) -> (V3, u64)
    decreases fuel,
{
    if fuel == 0 {
        (V3 { x: 0, y: 32768, z: 0 }, s)
    } else {
        let s1 = crate::prng::next_state(s);
        let s2 = crate::prng::next_state(s1);
        let s3 = crate::prng::next_state(s2);
        let p = V3 { x: sym_of(s), y: sym_of(s1), z: sym_of(s2) };
        if p.length_squared() < ONE as int {
            (p, s3)
        } else {
            sphere_sample_s(s3, (fuel - 1) as nat)
        }
    }
}

/// What rejection sampling in the unit disk returns, as a function of the
/// generator state and the remaining attempts.
pub open spec fn disk_sample_s(s: u64, fuel: nat) -> (V3, u64)
    decreases fuel,
{
    if fuel == 0 {
        (V3::zero(), s)
    } else {
        let s1 = crate::prng::next_state(s);
        let s2 = crate::prng::next_state(s1);
        let p = V3 { x: sym_of(s), y: sym_of(s1), z: 0 };
        if p.length_squared() < ONE as int {
            (p, s2)
        } else {
            disk_sample_s(s2, (fuel - 1) as nat)
        }
    }
}

/// What the unit-direction sampler returns, as a function of the generator
/// state and the remaining attempts: the first rejection-sampled shell
/// point, normalized (or the normalized fallback point).
pub open spec fn unit_sample_s(s: u64, fuel: nat) -> (V3, u64)
    decreases fuel,
{
    if fuel == 0 {
        ((V3 { x: 0, y: 32768, z: 0 }).unit(), s)
    } else {
        let s1 = crate::prng::next_state(s);
        let s2 = crate::prng::next_state(s1);
        let s3 = crate::prng::next_state(s2);
        let p = V3 { x: sym_of(s), y: sym_of(s1), z: sym_of(s2) };
        if 16384 <= p.length_squared() < ONE as int {
            (p.unit(), s3)
        } else {
            unit_sample_s(s3, (fuel - 1) as nat)
        }
    }
}

/// A random point inside the unit ball, by bounded rejection sampling: an
/// exact function of the generator state.
pub fn random_in_unit_sphere(rng: &mut Prng) -> (r: Vec3)
    ensures
        r@.length_squared() < ONE,
        r@.bounded(ONE as int),
        r@ == sphere_sample_s(old(rng).state, SAMPLE_ATTEMPTS as nat).0,
        final(rng).state == sphere_sample_s(old(rng).state, SAMPLE_ATTEMPTS as nat).1,
{
    let ghost s0: u64 = rng.state;
    let mut i: u32 = 0;
    while i < SAMPLE_ATTEMPTS
        invariant
            i <= SAMPLE_ATTEMPTS,
            s0 == old(rng).state,
            sphere_sample_s(s0, SAMPLE_ATTEMPTS as nat) == sphere_sample_s(
                rng.state,
                (SAMPLE_ATTEMPTS - i) as nat,
            ),
        decreases SAMPLE_ATTEMPTS - i,
    {
        let ghost s_at: u64 = rng.state;
        let p = Vec3 { x: rng.next_sym(), y: rng.next_sym(), z: rng.next_sym() };
        let ls: i64 = p.length_squared();
        proof {
            assert(p@ == (V3 {
                x: sym_of(s_at),
                y: sym_of(crate::prng::next_state(s_at)),
                z: sym_of(crate::prng::next_state(crate::prng::next_state(s_at))),
            }));
        }
        if ls < ONE {
            proof {
                assert(sphere_sample_s(s_at, (SAMPLE_ATTEMPTS - i) as nat) == (p@, rng.state));
            }
            return p;
        }
        proof {
            assert(sphere_sample_s(s_at, (SAMPLE_ATTEMPTS - i) as nat) == sphere_sample_s(
                rng.state,
                (SAMPLE_ATTEMPTS - i - 1) as nat,
            ));
        }
        i = i + 1;
    }
    proof {
        assert(sphere_sample_s(rng.state, (SAMPLE_ATTEMPTS - i) as nat) == (
            V3 { x: 0, y: 32768, z: 0 },
            rng.state,
        ));
    }
    Vec3 { x: 0, y: 32768, z: 0 }
}

/// A random direction of (approximately) unit length: a rejection-sampled
/// point in the unit ball, normalized -- an exact function of the generator
/// state.
pub fn random_unit_vector(rng: &mut Prng) -> (r: Vec3)
    ensures
        exists|s: V3|
            quad_ok(s) && 1 <= s.length_squared() < ONE && #[trigger] s.unit() == r@,
        r@.bounded(4 * ONE as int),
        r@ == unit_sample_s(old(rng).state, SAMPLE_ATTEMPTS as nat).0,
        final(rng).state == unit_sample_s(old(rng).state, SAMPLE_ATTEMPTS as nat).1,
{
    let ghost s0: u64 = rng.state;
    let mut i: u32 = 0;
    while i < SAMPLE_ATTEMPTS
        invariant
            i <= SAMPLE_ATTEMPTS,
            s0 == old(rng).state,
            unit_sample_s(s0, SAMPLE_ATTEMPTS as nat) == unit_sample_s(
                rng.state,
                (SAMPLE_ATTEMPTS - i) as nat,
            ),
        decreases SAMPLE_ATTEMPTS - i,
    {
        let ghost s_at: u64 = rng.state;
        let p = Vec3 { x: rng.next_sym(), y: rng.next_sym(), z: rng.next_sym() };
        let ls: i64 = p.length_squared();
        proof {
            assert(p@ == (V3 {
                x: sym_of(s_at),
                y: sym_of(crate::prng::next_state(s_at)),
                z: sym_of(crate::prng::next_state(crate::prng::next_state(s_at))),
            }));
        }
        if 16384 <= ls && ls < ONE {
            let u = p.unit_vector();
            proof {
                assert(quad_ok(p@) && 1 <= p@.length_squared() < ONE && p@.unit() == u@);
                assert(unit_sample_s(s_at, (SAMPLE_ATTEMPTS - i) as nat) == (p@.unit(), rng.state));
            }
            return u;
        }
        proof {
            assert(unit_sample_s(s_at, (SAMPLE_ATTEMPTS - i) as nat) == unit_sample_s(
                rng.state,
                (SAMPLE_ATTEMPTS - i - 1) as nat,
            ));
        }
        i = i + 1;
    }
    let q = Vec3 { x: 0, y: 32768, z: 0 };
    let u = q.unit_vector();
    proof {
        assert(quad_ok(q@) && 1 <= q@.length_squared() < ONE && q@.unit() == u@);
        assert(unit_sample_s(rng.state, (SAMPLE_ATTEMPTS - i) as nat) == (q@.unit(), rng.state));
    }
    u
}

/// A random point inside the unit disk of the xy-plane: an exact function
/// of the generator state.
pub fn random_in_unit_disk(rng: &mut Prng) -> (r: Vec3)
    ensures
        r@.length_squared() < ONE,
        r@.bounded(ONE as int),
        r@.z == 0,
        r@ == disk_sample_s(old(rng).state, SAMPLE_ATTEMPTS as nat).0,
        final(rng).state == disk_sample_s(old(rng).state, SAMPLE_ATTEMPTS as nat).1,
{
    let ghost s0: u64 = rng.state;
    let mut i: u32 = 0;
    while i < SAMPLE_ATTEMPTS
        invariant
            i <= SAMPLE_ATTEMPTS,
            s0 == old(rng).state,
            disk_sample_s(s0, SAMPLE_ATTEMPTS as nat) == disk_sample_s(
                rng.state,
                (SAMPLE_ATTEMPTS - i) as nat,
            ),
        decreases SAMPLE_ATTEMPTS - i,
    {
        let ghost s_at: u64 = rng.state;
        let p = Vec3 { x: rng.next_sym(), y: rng.next_sym(), z: 0 };
        let ls: i64 = p.length_squared();
        proof {
            assert(p@ == (V3 { x: sym_of(s_at), y: sym_of(crate::prng::next_state(s_at)), z: 0 }));
        }
        if ls < ONE {
            proof {
                assert(disk_sample_s(s_at, (SAMPLE_ATTEMPTS - i) as nat) == (p@, rng.state));
            }
            return p;
        }
        proof {
            assert(disk_sample_s(s_at, (SAMPLE_ATTEMPTS - i) as nat) == disk_sample_s(
                rng.state,
                (SAMPLE_ATTEMPTS - i - 1) as nat,
            ));
        }
        i = i + 1;
    }
    proof {
        assert(disk_sample_s(rng.state, (SAMPLE_ATTEMPTS - i) as nat) == (V3::zero(), rng.state));
    }
    Vec3 { x: 0, y: 0, z: 0 }
}

} // verus!
