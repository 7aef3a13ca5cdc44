//! Bit-level model of IEEE 754 binary32 and binary64 values.
//!
//! The file format stores single-precision floats little-endian; the analysis
//! layer works on the doubles derived from them.  Here both are carried as
//! their raw bit patterns (`u32` / `u64`).  A finite float's magnitude is
//! modelled as an exact integer in units of the smallest subnormal
//! (`2^-149` for binary32, `2^-1074` for binary64), which lets widening and
//! ordering be stated and proved exactly, with no floating-point arithmetic.
//!
//! Ordering uses the sign-magnitude key: for two non-NaN patterns the key
//! comparison agrees with IEEE `<`/`>` (both zeros share key 0), and any NaN
//! compares as neither smaller nor greater, as IEEE prescribes.

use vstd::prelude::*;
use vstd::arithmetic::power2::pow2;
use vstd::arithmetic::div_mod::lemma_fundamental_div_mod_converse;

verus! {

// ---------------------------------------------------------------------------
// Field extraction, stated arithmetically so that proofs stay linear.
// ---------------------------------------------------------------------------

/// The pattern with the sign bit cleared.
pub open spec fn f32_abs(b: u32) -> u32 {
    if b >= 0x8000_0000 {
        (b - 0x8000_0000) as u32
    } else {
        b
    }
}

/// True when the sign bit is set (negative, including -0.0 and negative NaN).
pub open spec fn f32_sign(b: u32) -> bool {
    b >= 0x8000_0000
}

pub open spec fn f32_exp(b: u32) -> u32 {
    f32_abs(b) / 0x80_0000
}

pub open spec fn f32_frac(b: u32) -> u32 {
    f32_abs(b) % 0x80_0000
}

pub open spec fn f32_is_nan(b: u32) -> bool {
    f32_abs(b) > 0x7f80_0000
}

pub open spec fn f32_is_infinite(b: u32) -> bool {
    f32_abs(b) == 0x7f80_0000
}

pub open spec fn f32_is_finite(b: u32) -> bool {
    f32_abs(b) < 0x7f80_0000
}

pub open spec fn f64_abs(b: u64) -> u64 {
    if b >= 0x8000_0000_0000_0000 {
        (b - 0x8000_0000_0000_0000) as u64
    } else {
        b
    }
}

pub open spec fn f64_sign(b: u64) -> bool {
    b >= 0x8000_0000_0000_0000
}

pub open spec fn f64_exp(b: u64) -> u64 {
    f64_abs(b) / 0x10_0000_0000_0000
}

pub open spec fn f64_frac(b: u64) -> u64 {
    f64_abs(b) % 0x10_0000_0000_0000
}

pub open spec fn f64_is_nan(b: u64) -> bool {
    f64_abs(b) > 0x7ff0_0000_0000_0000
}

pub open spec fn f64_is_infinite(b: u64) -> bool {
    f64_abs(b) == 0x7ff0_0000_0000_0000
}

pub open spec fn f64_is_finite(b: u64) -> bool {
    f64_abs(b) < 0x7ff0_0000_0000_0000
}

// ---------------------------------------------------------------------------
// Exact magnitudes of finite values.
// ---------------------------------------------------------------------------

/// Magnitude of a finite binary32 pattern in units of 2^-149: the subnormal
/// fraction itself, or the fraction with its hidden bit scaled by the
/// (biased) exponent.
pub open spec fn f32_mag_scaled(b: u32) -> nat {
    if f32_exp(b) == 0 {
        f32_frac(b) as nat
    } else {
        ((0x80_0000 + f32_frac(b)) * pow2((f32_exp(b) - 1) as nat)) as nat
    }
}

/// Signed value of a finite binary32 pattern in units of 2^-149.
pub open spec fn f32_scaled(b: u32) -> int {
    if f32_sign(b) {
        -(f32_mag_scaled(b) as int)
    } else {
        f32_mag_scaled(b) as int
    }
}

/// Magnitude of a finite binary64 pattern in units of 2^-1074.
pub open spec fn f64_mag_scaled(b: u64) -> nat {
    if f64_exp(b) == 0 {
        f64_frac(b) as nat
    } else {
        ((0x10_0000_0000_0000 + f64_frac(b)) * pow2((f64_exp(b) - 1) as nat)) as nat
    }
}

/// Signed value of a finite binary64 pattern in units of 2^-1074.
pub open spec fn f64_scaled(b: u64) -> int {
    if f64_sign(b) {
        -(f64_mag_scaled(b) as int)
    } else {
        f64_mag_scaled(b) as int
    }
}

// ---------------------------------------------------------------------------
// Ordering.
// ---------------------------------------------------------------------------

/// Sign-magnitude comparison key.  For non-NaN patterns, key order is exactly
/// the IEEE order of the represented values (+0.0 and -0.0 share key 0).
pub open spec fn f32_key(b: u32) -> int {
    if f32_sign(b) {
        -(f32_abs(b) as int)
    } else {
        f32_abs(b) as int
    }
}

pub open spec fn f64_key(b: u64) -> int {
    if f64_sign(b) {
        -(f64_abs(b) as int)
    } else {
        f64_abs(b) as int
    }
}

/// IEEE `<` on binary32 patterns: false whenever either side is NaN.
pub open spec fn spec_f32_lt(a: u32, b: u32) -> bool {
    !f32_is_nan(a) && !f32_is_nan(b) && f32_key(a) < f32_key(b)
}

/// IEEE `>` on binary32 patterns.
pub open spec fn spec_f32_gt(a: u32, b: u32) -> bool {
    spec_f32_lt(b, a)
}

/// IEEE `<` on binary64 patterns: false whenever either side is NaN.
pub open spec fn spec_f64_lt(a: u64, b: u64) -> bool {
    !f64_is_nan(a) && !f64_is_nan(b) && f64_key(a) < f64_key(b)
}

/// IEEE `>` on binary64 patterns.
pub open spec fn spec_f64_gt(a: u64, b: u64) -> bool {
    spec_f64_lt(b, a)
}

pub fn f32_lt(a: u32, b: u32) -> (r: bool)
    ensures
        r == spec_f32_lt(a, b),
{
    let ka: i64 = if a >= 0x8000_0000 { -((a - 0x8000_0000) as i64) } else { a as i64 };
    let kb: i64 = if b >= 0x8000_0000 { -((b - 0x8000_0000) as i64) } else { b as i64 };
    let nan_a: bool = (if a >= 0x8000_0000 { a - 0x8000_0000 } else { a }) > 0x7f80_0000;
    let nan_b: bool = (if b >= 0x8000_0000 { b - 0x8000_0000 } else { b }) > 0x7f80_0000;
    !nan_a && !nan_b && ka < kb
}

pub fn f32_gt(a: u32, b: u32) -> (r: bool)
    ensures
        r == spec_f32_gt(a, b),
{
    f32_lt(b, a)
}

pub fn f64_lt(a: u64, b: u64) -> (r: bool)
    ensures
        r == spec_f64_lt(a, b),
{
    let abs_a: u64 = if a >= 0x8000_0000_0000_0000 { a - 0x8000_0000_0000_0000 } else { a };
    let abs_b: u64 = if b >= 0x8000_0000_0000_0000 { b - 0x8000_0000_0000_0000 } else { b };
    if abs_a > 0x7ff0_0000_0000_0000 || abs_b > 0x7ff0_0000_0000_0000 {
        return false;
    }
    if a >= 0x8000_0000_0000_0000 {
        if b >= 0x8000_0000_0000_0000 {
            abs_b < abs_a
        } else {
            abs_a > 0 || abs_b > 0
        }
    } else {
        if b >= 0x8000_0000_0000_0000 {
            false
        } else {
            abs_a < abs_b
        }
    }
}

pub fn f64_gt(a: u64, b: u64) -> (r: bool)
    ensures
        r == spec_f64_gt(a, b),
{
    f64_lt(b, a)
}

/// Key-based total order used for sorting doubles: a consistent total order
/// in which every negative NaN sorts below -inf and every positive NaN above
/// +inf, and which agrees with IEEE order on everything else.
pub open spec fn spec_f64_key_le(a: u64, b: u64) -> bool {
    f64_key(a) <= f64_key(b)
}

pub fn f64_key_le(a: u64, b: u64) -> (r: bool)
    ensures
        r == spec_f64_key_le(a, b),
{
    let abs_a: u64 = if a >= 0x8000_0000_0000_0000 { a - 0x8000_0000_0000_0000 } else { a };
    let abs_b: u64 = if b >= 0x8000_0000_0000_0000 { b - 0x8000_0000_0000_0000 } else { b };
    if a >= 0x8000_0000_0000_0000 {
        if b >= 0x8000_0000_0000_0000 { abs_b <= abs_a } else { true }
    } else {
        if b >= 0x8000_0000_0000_0000 { abs_a == 0 && abs_b == 0 } else { abs_a <= abs_b }
    }
}

// ---------------------------------------------------------------------------
// min / max with the NaN-ignoring semantics of Rust's f64::min / f64::max:
// a NaN argument yields the other argument; on a key tie the first argument
// is kept.
// ---------------------------------------------------------------------------

pub open spec fn spec_f64_max(a: u64, b: u64) -> u64 {
    if f64_is_nan(a) {
        b
    } else if f64_is_nan(b) {
        a
    } else if f64_key(a) >= f64_key(b) {
        a
    } else {
        b
    }
}

pub open spec fn spec_f64_min(a: u64, b: u64) -> u64 {
    if f64_is_nan(a) {
        b
    } else if f64_is_nan(b) {
        a
    } else if f64_key(a) <= f64_key(b) {
        a
    } else {
        b
    }
}

pub fn f64_max(a: u64, b: u64) -> (r: u64)
    ensures
        r == spec_f64_max(a, b),
{
    let abs_a: u64 = if a >= 0x8000_0000_0000_0000 { a - 0x8000_0000_0000_0000 } else { a };
    let abs_b: u64 = if b >= 0x8000_0000_0000_0000 { b - 0x8000_0000_0000_0000 } else { b };
    if abs_a > 0x7ff0_0000_0000_0000 {
        b
    } else if abs_b > 0x7ff0_0000_0000_0000 {
        a
    } else if f64_key_le(b, a) {
        a
    } else {
        b
    }
}

pub fn f64_min(a: u64, b: u64) -> (r: u64)
    ensures
        r == spec_f64_min(a, b),
{
    let abs_a: u64 = if a >= 0x8000_0000_0000_0000 { a - 0x8000_0000_0000_0000 } else { a };
    let abs_b: u64 = if b >= 0x8000_0000_0000_0000 { b - 0x8000_0000_0000_0000 } else { b };
    if abs_a > 0x7ff0_0000_0000_0000 {
        b
    } else if abs_b > 0x7ff0_0000_0000_0000 {
        a
    } else if f64_key_le(a, b) {
        a
    } else {
        b
    }
}

/// IEEE absolute value: clear the sign bit (NaN stays NaN).
pub fn f64_abs_bits(b: u64) -> (r: u64)
    ensures
        r == f64_abs(b),
{
    if b >= 0x8000_0000_0000_0000 {
        b - 0x8000_0000_0000_0000
    } else {
        b
    }
}

// ---------------------------------------------------------------------------
// Exact conversions into binary64.
// ---------------------------------------------------------------------------

/// How many doublings bring `m` into the normalized mantissa range
/// [2^52, 2^53).
pub open spec fn norm_shift(m: nat) -> nat
    decreases 0x20_0000_0000_0000 - m,
        when 1 <= m < 0x20_0000_0000_0000
{
    if m >= 0x10_0000_0000_0000 {
        0
    } else {
        1 + norm_shift(m * 2)
    }
}

/// The normal binary64 pattern whose magnitude is exactly `m * 2^p` in units
/// of 2^-1074, with the given sign.  Meaningful whenever that magnitude is
/// at least 2^52 (a normal double) and small enough to be finite.
pub open spec fn spec_pack_f64(sign: bool, m: nat, p: int) -> u64 {
    let s = norm_shift(m);
    let mm = m * pow2(s);
    let e = p - s + 1;
    ((if sign {
        0x8000_0000_0000_0000int
    } else {
        0int
    }) + e * 0x10_0000_0000_0000 + (mm - 0x10_0000_0000_0000)) as u64
}

/// Packs the exact value `m * 2^p` (in units of 2^-1074) with the given sign
/// into a normal binary64 pattern.  Every call site supplies a value that is
/// exactly representable, so no rounding happens anywhere in this crate.
fn pack_f64(sign: bool, m: u64, p: u32) -> (r: u64)
    requires
        1 <= m < 0x20_0000_0000_0000,
        m * pow2(p as nat) >= pow2(52),
        p <= 2045,
    ensures
        r == spec_pack_f64(sign, m as nat, p as int),
        f64_is_finite(r),
        f64_sign(r) == sign,
        f64_mag_scaled(r) == m * pow2(p as nat),
{
    let mut mm: u64 = m;
    let mut pp: u32 = p;
    proof {
        vstd::arithmetic::power2::lemma2_to64();
        vstd::arithmetic::power2::lemma2_to64_rest();
        assert(mm == m * pow2((p - pp) as nat));
    }
    while mm < 0x10_0000_0000_0000
        invariant
            1 <= mm < 0x20_0000_0000_0000,
            pp <= p <= 2045,
            mm * pow2(pp as nat) == m * pow2(p as nat),
            m * pow2(p as nat) >= pow2(52),
            pow2(52) == 0x10_0000_0000_0000,
            mm == m * pow2((p - pp) as nat),
            norm_shift(m as nat) == (p - pp) + norm_shift(mm as nat),
        decreases 0x20_0000_0000_0000 - mm,
    {
        proof {
            // mm < 2^52 and mm * 2^pp >= 2^52 force pp >= 1.
            if pp == 0 {
                assert(pow2(0) == 1) by {
                    vstd::arithmetic::power2::lemma2_to64();
                }
                assert(mm * 1 == mm);
                assert(false);
            }
            assert(pow2(pp as nat) == 2 * pow2((pp - 1) as nat)) by {
                vstd::arithmetic::power2::lemma_pow2_unfold(pp as nat);
            }
            assert((2 * mm) * pow2((pp - 1) as nat) == mm * pow2(pp as nat))
                by (nonlinear_arith)
                requires pow2(pp as nat) == 2 * pow2((pp - 1) as nat),
            ;
            assert(pow2((p - pp + 1) as nat) == 2 * pow2((p - pp) as nat)) by {
                vstd::arithmetic::power2::lemma_pow2_unfold((p - pp + 1) as nat);
            }
            assert(2 * (m * pow2((p - pp) as nat)) == m * (2 * pow2((p - pp) as nat)))
                by (nonlinear_arith);
            assert(norm_shift(mm as nat) == 1 + norm_shift((2 * mm) as nat));
        }
        mm = mm * 2;
        pp = pp - 1;
    }
    proof {
        assert(norm_shift(mm as nat) == 0);
        assert(norm_shift(m as nat) == p - pp);
    }
    let e: u64 = (pp + 1) as u64;
    let frac: u64 = mm - 0x10_0000_0000_0000;
    let abs: u64 = e * 0x10_0000_0000_0000 + frac;
    let r: u64 = if sign { abs + 0x8000_0000_0000_0000 } else { abs };
    proof {
        assert(abs == e * 0x10_0000_0000_0000 + frac);
        assert(f64_abs(r) == abs);
        lemma_fundamental_div_mod_converse(abs as int, 0x10_0000_0000_0000, e as int, frac as int);
        assert(f64_exp(r) == e);
        assert(f64_frac(r) == frac);
        assert(f64_mag_scaled(r) == (0x10_0000_0000_0000 + frac) * pow2(pp as nat));
        assert(0x10_0000_0000_0000 + frac == mm);
    }
    r
}

/// The binary64 pattern that exact widening of a binary32 pattern yields:
/// finite values keep their exact magnitude (scaled by 2^925 to move from
/// units of 2^-149 to units of 2^-1074), infinities map to infinities, NaN
/// maps to the canonical quiet NaN.
pub open spec fn spec_widen_f32(b: u32) -> u64 {
    if f32_is_nan(b) {
        0x7ff8_0000_0000_0000u64
    } else if f32_is_infinite(b) {
        if f32_sign(b) {
            0xfff0_0000_0000_0000u64
        } else {
            0x7ff0_0000_0000_0000u64
        }
    } else if f32_exp(b) == 0 && f32_frac(b) == 0 {
        if f32_sign(b) {
            0x8000_0000_0000_0000u64
        } else {
            0u64
        }
    } else if f32_exp(b) == 0 {
        spec_pack_f64(f32_sign(b), f32_frac(b) as nat, 925)
    } else {
        spec_pack_f64(f32_sign(b), (0x80_0000 + f32_frac(b)) as nat, 924 + f32_exp(b))
    }
}

/// Exact widening of a binary32 pattern to binary64, as Rust's `as f64` cast
/// performs it.
pub fn widen_f32_bits(b: u32) -> (r: u64)
    ensures
        r == spec_widen_f32(b),
        f32_is_nan(b) ==> f64_is_nan(r),
        f32_is_infinite(b) ==> f64_is_infinite(r) && f64_sign(r) == f32_sign(b),
        f32_is_finite(b) ==> f64_is_finite(r) && f64_sign(r) == f32_sign(b)
            && f64_mag_scaled(r) == f32_mag_scaled(b) * pow2(925),
{
    let sign: bool = b >= 0x8000_0000;
    let abs: u32 = if sign { b - 0x8000_0000 } else { b };
    let exp: u32 = abs / 0x80_0000;
    let frac: u32 = abs % 0x80_0000;
    proof {
        vstd::arithmetic::power2::lemma2_to64();
        vstd::arithmetic::power2::lemma2_to64_rest();
    }
    if exp == 255 {
        if frac == 0 {
            if sign { 0xfff0_0000_0000_0000 } else { 0x7ff0_0000_0000_0000 }
        } else {
            0x7ff8_0000_0000_0000
        }
    } else if exp == 0 {
        if frac == 0 {
            proof {
                assert(f32_mag_scaled(b) == 0);
                assert(0nat * pow2(925) == 0) by (nonlinear_arith);
            }
            if sign { 0x8000_0000_0000_0000 } else { 0 }
        } else {
            proof {
                lemma_pow2_at_least(925, 52);
                assert(frac as u64 * pow2(925) >= pow2(925)) by (nonlinear_arith)
                    requires frac >= 1,
                ;
            }
            pack_f64(sign, frac as u64, 925)
        }
    } else {
        let m: u64 = 0x80_0000 + frac as u64;
        proof {
            lemma_pow2_monotone(52, (924 + exp) as nat);
            assert(m * pow2((924 + exp) as nat) >= pow2((924 + exp) as nat)) by (nonlinear_arith)
                requires m >= 1,
            ;
        }
        let r = pack_f64(sign, m, 924 + exp);
        proof {
            assert(pow2((924 + exp) as nat) == pow2((exp - 1) as nat) * pow2(925)) by {
                vstd::arithmetic::power2::lemma_pow2_adds((exp - 1) as nat, 925);
            }
            assert(m * (pow2((exp - 1) as nat) * pow2(925))
                == (m * pow2((exp - 1) as nat)) * pow2(925)) by (nonlinear_arith);
            assert(f64_mag_scaled(r) == m * pow2((924 + exp) as nat));
            assert(f32_mag_scaled(b) == (0x80_0000 + f32_frac(b)) * pow2((f32_exp(b) - 1) as nat));
            assert(m == 0x80_0000 + f32_frac(b));
            assert(f64_mag_scaled(r) == f32_mag_scaled(b) * pow2(925));
        }
        r
    }
}

proof fn lemma_pow2_at_least(n: nat, k: nat)
    requires
        k <= n,
    ensures
        pow2(n) >= pow2(k),
{
    lemma_pow2_monotone(k, n);
}

proof fn lemma_pow2_monotone(a: nat, b: nat)
    requires
        a <= b,
    ensures
        pow2(a) <= pow2(b),
{
    if a < b {
        vstd::arithmetic::power2::lemma_pow2_strictly_increases(a, b);
    }
}

/// The binary64 pattern of a 32-bit integer: every such integer is exactly
/// representable; zero maps to +0.0.
pub open spec fn spec_f64_of_i32(v: i32) -> u64 {
    if v == 0 {
        0u64
    } else if v > 0 {
        spec_pack_f64(false, v as nat, 1074)
    } else {
        spec_pack_f64(true, (-(v as int)) as nat, 1074)
    }
}

/// Exact conversion of an `i32` to binary64, as Rust's `as f64` cast performs
/// it: every 32-bit integer is exactly representable; zero maps to +0.0.
pub fn f64_bits_of_i32(v: i32) -> (r: u64)
    ensures
        r == spec_f64_of_i32(v),
        f64_is_finite(r),
        f64_scaled(r) == v * pow2(1074),
        v == 0 ==> r == 0,
        v != 0 ==> f64_sign(r) == (v < 0),
{
    proof {
        vstd::arithmetic::power2::lemma2_to64();
        vstd::arithmetic::power2::lemma2_to64_rest();
    }
    if v == 0 {
        0
    } else {
        let sign: bool = v < 0;
        let mag: u64 = if v < 0 { (-(v as i64)) as u64 } else { v as u64 };
        proof {
            lemma_pow2_at_least(1074, 52);
            assert(mag * pow2(1074) >= 1 * pow2(1074)) by (nonlinear_arith)
                requires mag >= 1,
            ;
        }
        let r = pack_f64(sign, mag, 1074);
        proof {
            if sign {
                assert(f64_scaled(r) == -(f64_mag_scaled(r) as int));
                assert(mag == -(v as int));
                assert(-((mag * pow2(1074)) as int) == v * pow2(1074)) by (nonlinear_arith)
                    requires mag == -(v as int),
                ;
            } else {
                assert(mag == v as int);
            }
        }
        r
    }
}

// ---------------------------------------------------------------------------
// The ordering model agrees with the value model.
// ---------------------------------------------------------------------------

/// A strictly larger magnitude pattern represents a strictly larger
/// magnitude: the exponent/fraction layout is ordered.
proof fn lemma_mag_strict(x: u64, y: u64)
    requires
        f64_is_finite(x),
        f64_is_finite(y),
        f64_abs(x) < f64_abs(y),
    ensures
        f64_mag_scaled(x) < f64_mag_scaled(y),
{
    vstd::arithmetic::power2::lemma2_to64();
    vstd::arithmetic::power2::lemma2_to64_rest();
    let e1 = f64_exp(x) as int;
    let f1 = f64_frac(x) as int;
    let e2 = f64_exp(y) as int;
    let f2 = f64_frac(y) as int;
    assert(f64_abs(x) == e1 * 0x10_0000_0000_0000 + f1) by {
        vstd::arithmetic::div_mod::lemma_fundamental_div_mod(
            f64_abs(x) as int,
            0x10_0000_0000_0000,
        );
    }
    assert(f64_abs(y) == e2 * 0x10_0000_0000_0000 + f2) by {
        vstd::arithmetic::div_mod::lemma_fundamental_div_mod(
            f64_abs(y) as int,
            0x10_0000_0000_0000,
        );
    }
    assert(e1 <= e2) by (nonlinear_arith)
        requires
            e1 * 0x10_0000_0000_0000 + f1 < e2 * 0x10_0000_0000_0000 + f2,
            0 <= f1 < 0x10_0000_0000_0000,
            0 <= f2 < 0x10_0000_0000_0000,
    ;
    if e1 == e2 {
        assert(f1 < f2);
        if e1 == 0 {
        } else {
            lemma_pow2_pos_helper((e1 - 1) as nat);
            assert((0x10_0000_0000_0000 + f1) * pow2((e1 - 1) as nat) < (0x10_0000_0000_0000
                + f2) * pow2((e1 - 1) as nat)) by (nonlinear_arith)
                requires f1 < f2, pow2((e1 - 1) as nat) >= 1,
            ;
        }
    } else {
        assert(e1 < e2);
        // mag(x) < 2^(52 + e1) <= mag(y).
        let bound = pow2((52 + e1) as nat);
        if e1 == 0 {
            assert(f64_mag_scaled(x) == f1);
            assert(bound == 0x10_0000_0000_0000);
        } else {
            assert(pow2((52 + e1) as nat) == pow2(53) * pow2((e1 - 1) as nat)) by {
                vstd::arithmetic::power2::lemma_pow2_adds(53, (e1 - 1) as nat);
            }
            lemma_pow2_pos_helper((e1 - 1) as nat);
            assert((0x10_0000_0000_0000 + f1) * pow2((e1 - 1) as nat) < pow2(53) * pow2(
                (e1 - 1) as nat,
            )) by (nonlinear_arith)
                requires 0x10_0000_0000_0000 + f1 < pow2(53), pow2((e1 - 1) as nat) >= 1,
            ;
        }
        assert(pow2((52 + e2 - 1) as nat) == pow2(52) * pow2((e2 - 1) as nat)) by {
            vstd::arithmetic::power2::lemma_pow2_adds(52, (e2 - 1) as nat);
        }
        assert(pow2((52 + e1) as nat) <= pow2((52 + e2 - 1) as nat)) by {
            lemma_pow2_monotone((52 + e1) as nat, (52 + e2 - 1) as nat);
        }
        lemma_pow2_pos_helper((e2 - 1) as nat);
        assert(pow2(52) * pow2((e2 - 1) as nat) <= (0x10_0000_0000_0000 + f2) * pow2(
            (e2 - 1) as nat,
        )) by (nonlinear_arith)
            requires pow2(52) <= 0x10_0000_0000_0000 + f2, pow2((e2 - 1) as nat) >= 1,
        ;
        assert(f64_mag_scaled(x) < bound);
        assert(bound <= f64_mag_scaled(y));
    }
}

proof fn lemma_pow2_pos_helper(n: nat)
    ensures
        pow2(n) >= 1,
{
    vstd::arithmetic::power2::lemma_pow2_pos(n);
}

/// Equal magnitude patterns represent equal magnitudes, and conversely for
/// finite patterns the magnitude determines the pattern.
proof fn lemma_mag_reflects(x: u64, y: u64)
    requires
        f64_is_finite(x),
        f64_is_finite(y),
    ensures
        f64_abs(x) < f64_abs(y) <==> f64_mag_scaled(x) < f64_mag_scaled(y),
        f64_abs(x) == f64_abs(y) <==> f64_mag_scaled(x) == f64_mag_scaled(y),
{
    if f64_abs(x) < f64_abs(y) {
        lemma_mag_strict(x, y);
    } else if f64_abs(y) < f64_abs(x) {
        lemma_mag_strict(y, x);
    }
}

/// A finite pattern has magnitude zero exactly when its non-sign bits are
/// all zero.
proof fn lemma_mag_zero(x: u64)
    requires
        f64_is_finite(x),
    ensures
        f64_mag_scaled(x) == 0 <==> f64_abs(x) == 0,
{
    vstd::arithmetic::div_mod::lemma_fundamental_div_mod(f64_abs(x) as int, 0x10_0000_0000_0000);
    if f64_exp(x) != 0 {
        lemma_pow2_pos_helper((f64_exp(x) - 1) as nat);
        vstd::arithmetic::power2::lemma2_to64();
        vstd::arithmetic::power2::lemma2_to64_rest();
        assert((0x10_0000_0000_0000 + f64_frac(x)) * pow2((f64_exp(x) - 1) as nat) >= pow2(52))
            by (nonlinear_arith)
            requires
                0x10_0000_0000_0000 + f64_frac(x) >= 0x10_0000_0000_0000,
                pow2((f64_exp(x) - 1) as nat) >= 1,
                pow2(52) == 0x10_0000_0000_0000,
        ;
    }
}

/// For finite patterns, the sign-magnitude comparison key orders exactly as
/// the represented values do: the bit-level ordering model used throughout
/// the analysis layer agrees with the exact value model.
pub proof fn lemma_key_orders_finite_values(a: u64, b: u64)
    requires
        f64_is_finite(a),
        f64_is_finite(b),
    ensures
        f64_key(a) < f64_key(b) <==> f64_scaled(a) < f64_scaled(b),
        f64_key(a) == f64_key(b) <==> f64_scaled(a) == f64_scaled(b),
{
    lemma_mag_reflects(a, b);
    lemma_mag_zero(a);
    lemma_mag_zero(b);
    if f64_sign(a) {
        if f64_sign(b) {
            assert(f64_key(a) < f64_key(b) <==> f64_abs(b) < f64_abs(a));
            assert(f64_scaled(a) < f64_scaled(b) <==> f64_mag_scaled(b) < f64_mag_scaled(a));
        } else {
            // key(a) <= 0 <= key(b); strict unless both magnitudes vanish.
            assert(f64_key(a) < f64_key(b) <==> !(f64_abs(a) == 0 && f64_abs(b) == 0));
            assert(f64_scaled(a) < f64_scaled(b) <==> !(f64_mag_scaled(a) == 0
                && f64_mag_scaled(b) == 0));
        }
    } else {
        if f64_sign(b) {
            assert(!(f64_key(a) < f64_key(b)));
            assert(!(f64_scaled(a) < f64_scaled(b)));
            assert(f64_key(a) == f64_key(b) <==> (f64_abs(a) == 0 && f64_abs(b) == 0));
            assert(f64_scaled(a) == f64_scaled(b) <==> (f64_mag_scaled(a) == 0
                && f64_mag_scaled(b) == 0));
        } else {
            assert(f64_key(a) < f64_key(b) <==> f64_abs(a) < f64_abs(b));
            assert(f64_scaled(a) < f64_scaled(b) <==> f64_mag_scaled(a) < f64_mag_scaled(b));
        }
    }
}

} // verus!
