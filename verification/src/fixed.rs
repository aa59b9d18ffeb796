//! Signed 16.16 fixed-point scalars.
//!
//! A raw `i64` value `v` stands for the real number `v / ONE`. Products and
//! quotients are rescaled by `ONE` and truncated toward zero, the same
//! convention at the spec level (over `int`) and in the executable code.

use vstd::prelude::*;

verus! {

/// Raw units per 1.0: the fixed-point scale.
pub const ONE: i64 = 65536;

/// Division truncated toward zero (the executable convention), defined from
/// Euclidean division on magnitudes. `q` must be positive.
pub open spec fn div_trunc(p: int, q: int) -> int
    recommends
        q > 0,
{
    if p >= 0 {
        p / q
    } else {
        -((-p) / q)
    }
}

/// The fixed-point product: `a * b` rescaled by `ONE`, truncated toward zero.
pub open spec fn fmul_s(a: int, b: int) -> int {
    div_trunc(a * b, ONE as int)
}

/// The fixed-point quotient: `a / b` rescaled by `ONE`, truncated toward zero.
pub open spec fn fdiv_s(a: int, b: int) -> int
    recommends
        b != 0,
{
    if b > 0 {
        div_trunc(a * ONE, b)
    } else {
        div_trunc(-(a * ONE), -b)
    }
}

/// The raw product fits once rescaled by `ONE`: the precondition of `fmul`.
pub open spec fn fmul_ok(a: int, b: int) -> bool {
    -(ONE as int) * (i64::MAX as int) <= a * b <= (ONE as int) * (i64::MAX as int)
}

/// The rescaled quotient fits in an `i64`: the precondition of `fdiv`.
pub open spec fn fdiv_ok(a: int, b: int) -> bool {
    b != 0 && -(i64::MAX as int) <= fdiv_s(a, b) <= i64::MAX as int
}

/// Division truncated toward zero on `i128`, by a positive divisor.
fn div_trunc_i128(p: i128, q: i128) -> (r: i128)
    requires
        q > 0,
        p > i128::MIN,
    ensures
        r == div_trunc(p as int, q as int),
{
    if p >= 0 {
        let m: u128 = (p as u128) / (q as u128);
        proof {
            lemma_div_le_self(p as int, q as int);
        }
        m as i128
    } else {
        let m: u128 = ((-p) as u128) / (q as u128);
        proof {
            lemma_div_le_self(-(p as int), q as int);
        }
        -(m as i128)
    }
}

/// `0 <= p` and `1 <= q` give `p / q <= p`.
proof fn lemma_div_le_self(p: int, q: int)
    by (nonlinear_arith)
    requires
        p >= 0,
        q >= 1,
    ensures
        0 <= p / q <= p,
{
}

/// Magnitude bound for truncated division: `|p| <= b * q` gives
/// `|div_trunc(p, q)| <= b`.
pub proof fn lemma_div_trunc_le(p: int, q: int, b: int)
    by (nonlinear_arith)
    requires
        q > 0,
        b >= 0,
        -(b * q) <= p <= b * q,
    ensures
        -b <= div_trunc(p, q) <= b,
{
}

/// A fixed-point square is never negative.
pub proof fn lemma_fmul_self_nonneg(a: int)
    ensures
        fmul_s(a, a) >= 0,
        a * a >= 0,
{
    assert(a * a >= 0) by (nonlinear_arith);
    assert((a * a) / 65536 >= 0) by (nonlinear_arith)
        requires
            a * a >= 0,
    ;
}

/// Product magnitude bound: componentwise bounds multiply.
pub proof fn lemma_abs_mul(a: int, b: int, ba: int, bb: int)
    by (nonlinear_arith)
    requires
        -ba <= a <= ba,
        -bb <= b <= bb,
    ensures
        -(ba * bb) <= a * b <= ba * bb,
{
}

/// `|a * b| <= c * ONE` gives `|fmul_s(a, b)| <= c`.
pub proof fn lemma_fmul_le(a: int, b: int, c: int)
    requires
        c >= 0,
        -(c * (ONE as int)) <= a * b <= c * (ONE as int),
    ensures
        -c <= fmul_s(a, b) <= c,
{
    lemma_div_trunc_le(a * b, ONE as int, c);
}

/// Quotient magnitude bound for a divisor of magnitude at least one:
/// `|a * ONE| <= c` gives `|fdiv_s(a, b)| <= c`.
pub proof fn lemma_fdiv_le_one(a: int, b: int, c: int)
    requires
        b != 0,
        c >= 0,
        -c <= a * (ONE as int) <= c,
    ensures
        -c <= fdiv_s(a, b) <= c,
        fdiv_ok(a, b) || c > i64::MAX as int,
{
    if b > 0 {
        assert(c * b >= c) by (nonlinear_arith)
            requires
                b >= 1,
                c >= 0,
        ;
        lemma_div_trunc_le(a * (ONE as int), b, c);
    } else {
        assert(c * (-b) >= c) by (nonlinear_arith)
            requires
                -b >= 1,
                c >= 0,
        ;
        lemma_div_trunc_le(-(a * (ONE as int)), -b, c);
    }
}

/// Fixed-point multiplication.
pub fn fmul(a: i64, b: i64) -> (r: i64)
    requires
        fmul_ok(a as int, b as int),
    ensures
        r == fmul_s(a as int, b as int),
{
    let p: i128 = (a as i128) * (b as i128);
    let q: i128 = div_trunc_i128(p, ONE as i128);
    proof {
        lemma_div_trunc_le(p as int, ONE as int, i64::MAX as int);
    }
    q as i64
}

/// Fixed-point division. The divisor must be non-zero and the rescaled
/// quotient must fit in an `i64`.
pub fn fdiv(a: i64, b: i64) -> (r: i64)
    requires
        fdiv_ok(a as int, b as int),
    ensures
        r == fdiv_s(a as int, b as int),
{
    proof {
        assert(-(0x8000_0000_0000_0000i128 as int) * 65536 <= (a as int) * 65536
            <= (0x7fff_ffff_ffff_ffffi128 as int) * 65536) by (nonlinear_arith)
            requires
                -0x8000_0000_0000_0000 <= a as int <= 0x7fff_ffff_ffff_ffff,
        ;
    }
    let p: i128 = (a as i128) * (ONE as i128);
    let q: i128 = if b > 0 {
        div_trunc_i128(p, b as i128)
    } else {
        div_trunc_i128(-p, -(b as i128))
    };
    q as i64
}

/// Truncated division of non-positive by positive never goes positive.
pub proof fn lemma_div_trunc_nonpos(p: int, q: int)
    requires
        p <= 0,
        q > 0,
    ensures
        div_trunc(p, q) <= 0,
{
    if p >= 0 {
        assert(p / q == 0) by (nonlinear_arith)
            requires
                p == 0,
                q > 0,
        ;
    } else {
        assert((-p) / q >= 0) by (nonlinear_arith)
            requires
                -p >= 0,
                q > 0,
        ;
    }
}

/// Truncated division is monotone in the dividend.
pub proof fn lemma_div_trunc_monotone(p1: int, p2: int, q: int)
    requires
        p1 <= p2,
        q > 0,
    ensures
        div_trunc(p1, q) <= div_trunc(p2, q),
{
    if p1 >= 0 {
        assert(p1 / q <= p2 / q) by (nonlinear_arith)
            requires
                0 <= p1 <= p2,
                q > 0,
        ;
    } else if p2 >= 0 {
        lemma_div_trunc_nonpos(p1, q);
        lemma_div_trunc_nonneg(p2, q);
    } else {
        assert((-p2) / q <= (-p1) / q) by (nonlinear_arith)
            requires
                p1 <= p2 < 0,
                q > 0,
        ;
    }
}

/// Truncated division undoes at most the full dividend:
/// `div_trunc(p, q) * q <= p` for non-negative `p`.
pub proof fn lemma_div_trunc_mul_le(p: int, q: int)
    requires
        p >= 0,
        q > 0,
    ensures
        div_trunc(p, q) * q <= p,
{
    assert((p / q) * q <= p) by (nonlinear_arith)
        requires
            p >= 0,
            q > 0,
    ;
}

/// Truncated division leaves a remainder smaller than the divisor, on the
/// dividend's side of zero.
pub proof fn lemma_div_trunc_remainder(p: int, q: int)
    requires
        q > 0,
    ensures
        p >= 0 ==> p - q < div_trunc(p, q) * q <= p,
        p < 0 ==> p <= div_trunc(p, q) * q < p + q,
{
    if p >= 0 {
        assert(p - q < (p / q) * q <= p) by (nonlinear_arith)
            requires
                p >= 0,
                q > 0,
        ;
    } else {
        assert((-p) - q < ((-p) / q) * q <= -p) by (nonlinear_arith)
            requires
                -p >= 0,
                q > 0,
        ;
        assert((-((-p) / q)) * q == -(((-p) / q) * q)) by (nonlinear_arith);
    }
}

/// Multiplying by one, minus one or zero in fixed point is exact.
pub proof fn lemma_fmul_one(x: int)
    ensures
        fmul_s(x, ONE as int) == x,
        fmul_s(ONE as int, x) == x,
        fmul_s(x, -(ONE as int)) == -x,
        fmul_s(-(ONE as int), x) == -x,
        fmul_s(x, 0) == 0,
        fmul_s(0, x) == 0,
{
    assert((x * 65536) / 65536 == x && ((-x) * 65536) / 65536 == -x) by (nonlinear_arith);
    assert(x * 65536 == 65536 * x && x * (-65536) == -(x * 65536) && (-65536) * x == -(65536
        * x) && x * 0 == 0 && 0 * x == 0) by (nonlinear_arith);
}

/// Integer absolute value.
pub open spec fn iabs(a: int) -> int {
    if a >= 0 {
        a
    } else {
        -a
    }
}

/// Integer minimum.
pub open spec fn imin(a: int, b: int) -> int {
    if a <= b {
        a
    } else {
        b
    }
}

/// Truncated division of non-negative by positive never goes negative.
pub proof fn lemma_div_trunc_nonneg(p: int, q: int)
    requires
        p >= 0,
        q > 0,
    ensures
        div_trunc(p, q) >= 0,
{
    assert(p / q >= 0) by (nonlinear_arith)
        requires
            p >= 0,
            q > 0,
    ;
}

/// A fixed-point product of non-negative factors is non-negative.
pub proof fn lemma_fmul_nonneg(a: int, b: int)
    requires
        a >= 0,
        b >= 0,
    ensures
        fmul_s(a, b) >= 0,
        a * b >= 0,
{
    assert(a * b >= 0) by (nonlinear_arith)
        requires
            a >= 0,
            b >= 0,
    ;
    lemma_div_trunc_nonneg(a * b, ONE as int);
}

/// Division truncated toward zero on `i64`, by a positive divisor.
pub fn div_trunc_i64(a: i64, q: i64) -> (r: i64)
    requires
        q > 0,
        a > i64::MIN,
    ensures
        r == div_trunc(a as int, q as int),
{
    if a >= 0 {
        let m: u64 = (a as u64) / (q as u64);
        proof {
            lemma_div_le_self(a as int, q as int);
        }
        m as i64
    } else {
        let m: u64 = ((-a) as u64) / (q as u64);
        proof {
            lemma_div_le_self(-(a as int), q as int);
        }
        -(m as i64)
    }
}

/// Whether `r` is the integer square root (floor) of `n`.
pub open spec fn is_isqrt(n: int, r: int) -> bool {
    r >= 0 && r * r <= n && n < (r + 1) * (r + 1)
}

/// The integer square root, as a recursive definition.
pub open spec fn isqrt_s(n: nat) -> nat
    decreases n,
{
    if n == 0 {
        0
    } else {
        let r = isqrt_s((n - 1) as nat);
        if (r + 1) * (r + 1) <= n {
            r + 1
        } else {
            r
        }
    }
}

/// `isqrt_s(n)` is the integer square root of `n`.
pub proof fn lemma_isqrt_s(n: nat)
    ensures
        is_isqrt(n as int, isqrt_s(n) as int),
    decreases n,
{
    if n == 0 {
    } else {
        lemma_isqrt_s((n - 1) as nat);
        let r = isqrt_s((n - 1) as nat) as int;
        if (r + 1) * (r + 1) <= n {
            assert((r + 2) * (r + 2) > r * r + 2 * r + 1) by (nonlinear_arith)
                requires
                    r >= 0,
            ;
            assert((r + 1) * (r + 1) == r * r + 2 * r + 1) by (nonlinear_arith);
        } else {
        }
    }
}

/// The integer square root is unique.
pub proof fn lemma_isqrt_unique(n: int, r1: int, r2: int)
    by (nonlinear_arith)
    requires
        is_isqrt(n, r1),
        is_isqrt(n, r2),
    ensures
        r1 == r2,
{
}

/// Larger arguments have larger square roots.
pub proof fn lemma_isqrt_monotone(a: nat, b: nat)
    requires
        a <= b,
    ensures
        isqrt_s(a) <= isqrt_s(b),
{
    lemma_isqrt_s(a);
    lemma_isqrt_s(b);
    let ra = isqrt_s(a) as int;
    let rb = isqrt_s(b) as int;
    assert(ra <= rb) by (nonlinear_arith)
        requires
            ra >= 0,
            rb >= 0,
            ra * ra <= a,
            b < (rb + 1) * (rb + 1),
            a <= b,
    ;
}

/// The integer square root of a perfect square is its root.
pub proof fn lemma_isqrt_square(h: int)
    requires
        h >= 0,
    ensures
        isqrt_s((h * h) as nat) == h,
{
    assert(h * h >= 0 && h * h < (h + 1) * (h + 1)) by (nonlinear_arith)
        requires
            h >= 0,
    ;
    lemma_isqrt_s((h * h) as nat);
    lemma_isqrt_unique((h * h) as int, isqrt_s((h * h) as nat) as int, h);
}

/// Integer square root of a `u128`, by bisection.
pub fn isqrt_u128(n: u128) -> (r: u128)
    ensures
        is_isqrt(n as int, r as int),
        r as int == isqrt_s(n as nat),
{
    let mut lo: u128 = 0;
    let mut hi: u128 = 0x1_0000_0000_0000_0000u128;
    proof {
        assert((hi as int) * (hi as int) > u128::MAX as int) by (nonlinear_arith)
            requires
                hi == 0x1_0000_0000_0000_0000u128,
        ;
    }
    while lo + 1 < hi
        invariant
            lo < hi,
            hi <= 0x1_0000_0000_0000_0000u128,
            (lo as int) * (lo as int) <= n as int,
            (n as int) < (hi as int) * (hi as int),
        decreases hi - lo,
    {
        let mid: u128 = lo + (hi - lo) / 2;
        proof {
            assert((mid as int) * (mid as int) <= u128::MAX as int) by (nonlinear_arith)
                requires
                    0 <= mid as int <= 0xffff_ffff_ffff_ffffu64 as int,
            ;
        }
        if mid * mid <= n {
            lo = mid;
        } else {
            hi = mid;
        }
    }
    proof {
        lemma_isqrt_s(n as nat);
        lemma_isqrt_unique(n as int, lo as int, isqrt_s(n as nat) as int);
    }
    lo
}

/// The fixed-point square root: `isqrt(a * ONE)` approximates
/// `sqrt(a / ONE) * ONE` from below.
pub open spec fn fsqrt_s(a: int) -> int
    recommends
        a >= 0,
{
    isqrt_s((a * ONE) as nat) as int
}

/// Fixed-point square root of a non-negative value.
pub fn fsqrt(a: i64) -> (r: i64)
    requires
        a >= 0,
    ensures
        r == fsqrt_s(a as int),
        0 <= r < 0x100_0000_0000i64,
{
    proof {
        assert((a as int) * 65536 <= (0x7fff_ffff_ffff_ffffi64 as int) * 65536)
            by (nonlinear_arith)
            requires
                0 <= a as int <= 0x7fff_ffff_ffff_ffff,
        ;
    }
    let n: u128 = (a as u128) * (ONE as u128);
    let r = isqrt_u128(n);
    proof {
        assert((r as int) < 0x100_0000_0000) by (nonlinear_arith)
            requires
                (r as int) * (r as int) <= n as int,
                r >= 0,
                n as int <= (i64::MAX as int) * (ONE as int),
        ;
    }
    r as i64
}

} // verus!
