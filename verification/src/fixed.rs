//! Saturating fixed-point arithmetic with 16 fractional bits.
//!
//! A raw `i64` value `v` stands for the real number `v / FX_ONE`.
//! Products are truncated toward zero (as hardware float products
//! round toward a representable value, the model rounds toward zero)
//! and every operation saturates at the `i64` range instead of
//! wrapping, so the scalar type is closed under the lighting math.

use vstd::prelude::*;

verus! {

/// Fixed-point scalar: `v` stands for `v / FX_ONE`.
pub type Fx = i64;

/// The fixed-point representation of one (2^16).
pub const FX_ONE: i64 = 65536;

/// Clamps a mathematical integer into the `i64` range.
pub open spec fn sat64(x: int) -> int {
    if x > i64::MAX as int {
        i64::MAX as int
    } else if x < i64::MIN as int {
        i64::MIN as int
    } else {
        x
    }
}

/// Division truncated toward zero, for a positive divisor.
/// (Spec-mode `/` is Euclidean; executable integer division
/// truncates, so specs about executable results use this form.)
pub open spec fn tz_div(a: int, d: int) -> int {
    if a >= 0 {
        a / d
    } else {
        -((-a) / d)
    }
}

/// Saturating fixed-point sum.
pub open spec fn fx_add_spec(a: int, b: int) -> int {
    sat64(a + b)
}

/// Saturating fixed-point difference.
pub open spec fn fx_sub_spec(a: int, b: int) -> int {
    sat64(a - b)
}

/// Saturating fixed-point product, truncated toward zero.
pub open spec fn fx_mul_spec(a: int, b: int) -> int {
    sat64(tz_div(a * b, FX_ONE as int))
}

pub fn fx_add(a: Fx, b: Fx) -> (r: Fx)
    ensures
        r as int == fx_add_spec(a as int, b as int),
{
    let s: i128 = a as i128 + b as i128;
    if s > i64::MAX as i128 {
        i64::MAX
    } else if s < i64::MIN as i128 {
        i64::MIN
    } else {
        s as i64
    }
}

pub fn fx_sub(a: Fx, b: Fx) -> (r: Fx)
    ensures
        r as int == fx_sub_spec(a as int, b as int),
{
    let s: i128 = a as i128 - b as i128;
    if s > i64::MAX as i128 {
        i64::MAX
    } else if s < i64::MIN as i128 {
        i64::MIN
    } else {
        s as i64
    }
}

/// Magnitude of an `i64`, as a `u64` (total: the magnitude of
/// `i64::MIN` still fits).
pub(crate) fn abs_mag(a: i64) -> (m: u64)
    ensures
        m as int == if a >= 0 { a as int } else { -(a as int) },
{
    if a >= 0 {
        a as u64
    } else {
        let n: i128 = -(a as i128);
        n as u64
    }
}

pub fn fx_mul(a: Fx, b: Fx) -> (r: Fx)
    ensures
        r as int == fx_mul_spec(a as int, b as int),
{
    let ma: u128 = abs_mag(a) as u128;
    let mb: u128 = abs_mag(b) as u128;
    proof {
        assert(ma * mb <= 0x8000000000000000 * 0x8000000000000000) by (nonlinear_arith)
            requires
                ma <= 0x8000000000000000,
                mb <= 0x8000000000000000,
        ;
    }
    let p: u128 = ma * mb;
    let q: u128 = p / (FX_ONE as u128);
    let neg: bool = (a < 0) != (b < 0);
    proof {
        lemma_product_sign(a as int, b as int, ma as int, mb as int);
        vstd::arithmetic::div_mod::lemma_div_is_ordered(p as int, ma * mb, FX_ONE as int);
    }
    if neg {
        if q >= 0x8000000000000000u128 {
            i64::MIN
        } else {
            -(q as i64)
        }
    } else {
        if q >= 0x8000000000000000u128 {
            i64::MAX
        } else {
            q as i64
        }
    }
}

/// The product of two `i64` values, written over their magnitudes:
/// it is the product of the magnitudes, negated exactly when the
/// signs differ.
proof fn lemma_product_sign(a: int, b: int, ma: int, mb: int)
    requires
        ma == if a >= 0 { a } else { -a },
        mb == if b >= 0 { b } else { -b },
    ensures
        a * b == if (a < 0) != (b < 0) { -(ma * mb) } else { ma * mb },
{
    assert(a * b == if (a < 0) != (b < 0) { -(ma * mb) } else { ma * mb }) by (nonlinear_arith)
        requires
            ma == if a >= 0 { a } else { -a },
            mb == if b >= 0 { b } else { -b },
    ;
}

/// Halves a value, truncating toward zero.
pub fn half_tz(a: Fx) -> (r: Fx)
    ensures
        r as int == tz_div(a as int, 2),
{
    if a >= 0 {
        ((a as u64) / 2) as i64
    } else {
        let m: u64 = abs_mag(a);
        let h: u64 = m / 2;
        -(h as i64)
    }
}

/// The smaller of two fixed-point values.
pub fn fx_min(a: Fx, b: Fx) -> (r: Fx)
    ensures
        r as int == if a as int <= b as int { a as int } else { b as int },
{
    if a <= b {
        a
    } else {
        b
    }
}

/// `r` is the integer square root of `n` rounded down.
pub open spec fn is_sqrt_floor(n: int, r: int) -> bool {
    0 <= r && r * r <= n && n < (r + 1) * (r + 1)
}

/// The integer square root of `n` rounded down (meaningful for
/// `n >= 0`; see `lemma_sqrt_floor_exists`).
pub open spec fn sqrt_floor(n: int) -> int {
    choose|r: int| is_sqrt_floor(n, r)
}

pub proof fn lemma_sqrt_floor_exists(n: int)
    requires
        n >= 0,
    ensures
        is_sqrt_floor(n, sqrt_floor(n)),
    decreases n,
{
    if n == 0 {
        assert(is_sqrt_floor(0, 0));
        assert(exists|r: int| is_sqrt_floor(n, r));
    } else {
        lemma_sqrt_floor_exists(n - 1);
        let r = sqrt_floor(n - 1);
        if n < (r + 1) * (r + 1) {
            assert(is_sqrt_floor(n, r));
        } else {
            assert((r + 1) * (r + 1) <= n);
            assert(n <= (r + 1) * (r + 1)) by {
                assert(n - 1 < (r + 1) * (r + 1));
            }
            assert(n < (r + 2) * (r + 2)) by (nonlinear_arith)
                requires
                    r >= 0,
                    n <= (r + 1) * (r + 1),
            ;
            assert(is_sqrt_floor(n, r + 1));
        }
        assert(exists|r0: int| is_sqrt_floor(n, r0));
    }
}

pub proof fn lemma_sqrt_floor_unique(n: int, r: int)
    requires
        is_sqrt_floor(n, r),
    ensures
        r == sqrt_floor(n),
{
    assert(exists|r0: int| is_sqrt_floor(n, r0));
    let r2 = sqrt_floor(n);
    assert(is_sqrt_floor(n, r2));
    assert(r == r2) by (nonlinear_arith)
        requires
            is_sqrt_floor(n, r),
            is_sqrt_floor(n, r2),
    ;
}

pub proof fn lemma_sqrt_floor_monotone(m: int, n: int)
    requires
        0 <= m <= n,
    ensures
        sqrt_floor(m) <= sqrt_floor(n),
{
    lemma_sqrt_floor_exists(m);
    lemma_sqrt_floor_exists(n);
    let sm = sqrt_floor(m);
    let sn = sqrt_floor(n);
    if sm > sn {
        assert(false) by (nonlinear_arith)
            requires
                is_sqrt_floor(m, sm),
                is_sqrt_floor(n, sn),
                m <= n,
                sm > sn,
        ;
    }
}

/// Integer square root of a `u128`, rounded down.
pub fn isqrt_u128(n: u128) -> (r: u128)
    ensures
        is_sqrt_floor(n as int, r as int),
{
    let mut lo: u128 = 0;
    let mut hi: u128 = 0x10000000000000000u128;
    proof {
        assert((hi as int) * (hi as int) > u128::MAX as int) by (nonlinear_arith)
            requires
                hi == 0x10000000000000000u128,
        ;
    }
    while lo + 1 < hi
        invariant
            lo < hi,
            hi <= 0x10000000000000000u128,
            (lo as int) * (lo as int) <= n as int,
            (n as int) < (hi as int) * (hi as int),
        decreases hi - lo,
    {
        let mid: u128 = lo + (hi - lo) / 2;
        proof {
            assert(mid * mid <= 0xffffffffffffffff * 0xffffffffffffffff) by (nonlinear_arith)
                requires
                    mid <= 0xffffffffffffffffu128,
            ;
        }
        if mid * mid <= n {
            lo = mid;
        } else {
            hi = mid;
        }
    }
    lo
}

} // verus!
