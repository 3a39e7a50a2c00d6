//! Double-precision words.
//!
//! All double-precision quantities of the engine are carried as their IEEE
//! 754 bit patterns (`u64`), called d.p. words. This module holds the
//! verified integer logic over such words: the sign/magnitude decomposition,
//! a monotone order key (coinciding with the numeric order on words that are
//! not NaN, with both zeroes equal), the exact encoding of integers, exact
//! truncation back to integers, and the correctly rounded encoding of
//! decimal literals.

use vstd::prelude::*;
use vstd::arithmetic::power2::pow2;
use vstd::arithmetic::power2::lemma_pow2_unfold;
use vstd::arithmetic::power2::lemma_pow2_adds;
use vstd::arithmetic::power2::lemma_pow2_pos;
use vstd::arithmetic::power2::lemma_pow2_strictly_increases;
use vstd::arithmetic::power2::lemma2_to64;
use vstd::arithmetic::power2::lemma2_to64_rest;
use vstd::arithmetic::div_mod::lemma_fundamental_div_mod;
use vstd::arithmetic::div_mod::lemma_fundamental_div_mod_converse;
use vstd::arithmetic::mul::lemma_mul_inequality;

verus! {

/// The sign bit of a d.p. word.
pub const DW_SIGN_BIT: u64 = 0x8000_0000_0000_0000;

/// 2^52: the weight of the exponent field, and the implicit mantissa bit.
pub const DW_IMPLICIT_BIT: u64 = 0x10_0000_0000_0000;

/// The sign of a word (true = negative).
pub open spec fn dw_sign(b: u64) -> bool {
    b >= DW_SIGN_BIT
}

/// The magnitude bits of a word (the word with its sign bit cleared).
pub open spec fn dw_mag(b: u64) -> u64 {
    (b % DW_SIGN_BIT) as u64
}

/// The biased exponent field of a word (0 ..= 2047).
pub open spec fn dw_exp(b: u64) -> int {
    dw_mag(b) as int / DW_IMPLICIT_BIT as int
}

/// The fraction field of a word (52 bits).
pub open spec fn dw_frac(b: u64) -> int {
    (b % DW_IMPLICIT_BIT) as int
}

/// Whether a word denotes NaN.
pub open spec fn dw_is_nan(b: u64) -> bool {
    dw_exp(b) == 0x7FF && dw_frac(b) != 0
}

/// Whether a word denotes zero (either sign).
pub open spec fn dw_is_zero(b: u64) -> bool {
    dw_mag(b) == 0
}

/// Monotone order key of a word: negative words map to the negated
/// magnitude, so that the key order coincides with the numeric order of the
/// denoted values on all words that are not NaN, and the two zeroes are
/// equal. NaN words order by their payload beyond the infinities.
pub open spec fn dw_key(b: u64) -> int {
    if dw_sign(b) {
        -(dw_mag(b) as int)
    } else {
        dw_mag(b) as int
    }
}

/// Compare two words: is `a` at most `b` in the key order?
pub fn dw_le(a: u64, b: u64) -> (r: bool)
    ensures
        r == (dw_key(a) <= dw_key(b)),
{
    let sa = a >= DW_SIGN_BIT;
    let sb = b >= DW_SIGN_BIT;
    if sa && sb {
        a >= b
    } else if sa {
        true
    } else if sb {
        a == 0 && b == DW_SIGN_BIT
    } else {
        a <= b
    }
}

/// Compare two words: is `a` strictly below `b` in the key order?
pub fn dw_lt(a: u64, b: u64) -> (r: bool)
    ensures
        r == (dw_key(a) < dw_key(b)),
{
    let le = dw_le(b, a);
    !le
}

// ---------------------------------------------------------------------------
// Exact integer encoding
// ---------------------------------------------------------------------------

/// Position of the most significant bit of a positive integer
/// (floor of the base-2 logarithm).
pub open spec fn spec_msb(m: int) -> int
    recommends
        m >= 1,
    decreases m,
{
    if m < 2 {
        0
    } else {
        1 + spec_msb(m / 2)
    }
}

proof fn lemma_msb_bounds(m: int)
    requires
        m >= 1,
    ensures
        spec_msb(m) >= 0,
        pow2(spec_msb(m) as nat) <= m < 2 * pow2(spec_msb(m) as nat),
    decreases m,
{
    if m < 2 {
        lemma2_to64();
    } else {
        lemma_msb_bounds(m / 2);
        let e = spec_msb(m / 2);
        lemma_pow2_unfold((e + 1) as nat);
        lemma_fundamental_div_mod(m, 2);
    }
}

proof fn lemma_msb_le(m: int, e: nat)
    requires
        1 <= m,
        m < pow2(e),
    ensures
        spec_msb(m) < e,
{
    lemma_msb_bounds(m);
    if spec_msb(m) >= e {
        if spec_msb(m) > e {
            lemma_pow2_strictly_increases(e, spec_msb(m) as nat);
        }
    }
}

/// The bit pattern (as an integer) of the double that exactly encodes the
/// positive integer `m` (valid for 1 <= m < 2^53).
pub open spec fn dw_of_pos(m: int) -> int
    recommends
        1 <= m < 0x20_0000_0000_0000,
{
    let e = spec_msb(m);
    (1023 + e) * (DW_IMPLICIT_BIT as int) + m * pow2((52 - e) as nat) - (DW_IMPLICIT_BIT as int)
}

/// The d.p. word exactly encoding the integer `v` (valid for |v| < 2^53).
pub open spec fn dw_of_int(v: int) -> u64
    recommends
        -0x20_0000_0000_0000 < v < 0x20_0000_0000_0000,
{
    if v == 0 {
        0u64
    } else if v > 0 {
        dw_of_pos(v) as u64
    } else {
        (dw_of_pos(-v) + DW_SIGN_BIT as int) as u64
    }
}

/// Encode a non-negative integer below 2^53 as a d.p. word.
fn dw_encode_pos(m0: u64) -> (r: u64)
    requires
        1 <= m0 < 0x20_0000_0000_0000,
    ensures
        r == dw_of_pos(m0 as int),
        r < DW_SIGN_BIT,
{
    // locate the most significant bit
    let mut t: u64 = m0;
    let mut e: u64 = 0;
    while t >= 2
        invariant
            t >= 1,
            e <= 63,
            spec_msb(m0 as int) == e + spec_msb(t as int),
            t <= m0,
        decreases t,
    {
        proof {
            lemma_msb_bounds(t as int);
            lemma_msb_bounds((t / 2) as int);
            lemma2_to64();
            lemma_msb_le(m0 as int, 64);
            lemma_msb_bounds(m0 as int);
        }
        t = t / 2;
        e = e + 1;
    }
    proof {
        assert(spec_msb(t as int) == 0);
        lemma_msb_bounds(m0 as int);
        lemma_pow2_53();
        lemma_msb_le(m0 as int, 53);
    }
    // e == spec_msb(m0) and e <= 52
    let shift = 52 - e;
    let mut p: u64 = 1;
    let mut j: u64 = 0;
    proof {
        lemma2_to64();
    }
    while j < shift
        invariant
            j <= shift,
            shift <= 52,
            p == pow2(j as nat),
            p <= 0x10_0000_0000_0000,
        decreases shift - j,
    {
        proof {
            lemma_pow2_unfold((j + 1) as nat);
            if j + 1 < 52 {
                lemma_pow2_strictly_increases((j + 1) as nat, 52);
            }
            lemma_pow2_52();
        }
        p = p * 2;
        j = j + 1;
    }
    // mantissa field: m0 * 2^(52-e), in [2^52, 2^53)
    proof {
        lemma_msb_bounds(m0 as int);
        let eint = e as int;
        assert(p == pow2((52 - eint) as nat));
        lemma_pow2_adds(e as nat, (52 - eint) as nat);
        lemma_pow2_adds((e + 1) as nat, (52 - eint) as nat);
        lemma_pow2_unfold((e + 1) as nat);
        lemma_pow2_52();
        lemma_pow2_53();
        lemma_pow2_pos((52 - eint) as nat);
        assert(DW_IMPLICIT_BIT <= m0 * p < 0x20_0000_0000_0000) by (nonlinear_arith)
            requires
                pow2(e as nat) <= m0 < 2 * pow2(e as nat),
                p == pow2((52 - e as int) as nat),
                pow2(e as nat) * pow2((52 - e as int) as nat) == pow2(52),
                pow2((e + 1) as nat) * pow2((52 - e as int) as nat) == pow2(53),
                pow2((e + 1) as nat) == 2 * pow2(e as nat),
                pow2(52) == DW_IMPLICIT_BIT,
                pow2(53) == 0x20_0000_0000_0000,
                p >= 1,
        {}
    }
    let mant = m0 * p;
    let bits = (1023 + e) * DW_IMPLICIT_BIT + (mant - DW_IMPLICIT_BIT);
    bits
}

proof fn lemma_pow2_52()
    ensures
        pow2(52) == 0x10_0000_0000_0000,
{
    lemma2_to64_rest();
}

proof fn lemma_pow2_53()
    ensures
        pow2(53) == 0x20_0000_0000_0000,
{
    lemma2_to64_rest();
}

/// Encode an `i64` whose magnitude is below 2^53 as a d.p. word (exact).
pub fn dw_from_i64(v: i64) -> (r: u64)
    requires
        -0x20_0000_0000_0000 < v < 0x20_0000_0000_0000,
    ensures
        r == dw_of_int(v as int),
{
    if v == 0 {
        0
    } else if v > 0 {
        dw_encode_pos(v as u64)
    } else {
        let mag = (-v) as u64;
        dw_encode_pos(mag) + DW_SIGN_BIT
    }
}

/// Encode an `i32` as a d.p. word (always exact).
pub fn dw_from_i32(v: i32) -> (r: u64)
    ensures
        r == dw_of_int(v as int),
{
    dw_from_i64(v as i64)
}

// ---------------------------------------------------------------------------
// Truncation back to integers (round toward zero, saturating; NaN to 0)
// ---------------------------------------------------------------------------

/// The magnitude of a word truncated toward zero, as an unbounded integer;
/// infinity and NaN map to a value above every finite magnitude.
pub open spec fn dw_trunc_mag(b: u64) -> int {
    let e = dw_exp(b);
    let m = DW_IMPLICIT_BIT + dw_frac(b);
    if e == 0x7FF {
        0x20_0000_0000_0000 * (pow2(2048) as int)
    } else if e == 0 {
        0  // subnormal or zero: magnitude below 1
    } else if e <= 1075 {
        m / (pow2((1075 - e) as nat) as int)
    } else {
        m * (pow2((e - 1075) as nat) as int)
    }
}

/// A word's value truncated toward zero and saturated to `i32`, with NaN
/// mapping to 0 (the semantics of Rust's saturating float-to-int cast).
pub open spec fn dw_as_i32_spec(b: u64) -> i32 {
    if dw_is_nan(b) {
        0i32
    } else {
        let t = if dw_sign(b) {
            -dw_trunc_mag(b)
        } else {
            dw_trunc_mag(b)
        };
        if t < i32::MIN as int {
            i32::MIN
        } else if t > i32::MAX as int {
            i32::MAX
        } else {
            t as i32
        }
    }
}

/// A word's value truncated toward zero and saturated to `u64`, with NaN
/// and negative values mapping to 0.
pub open spec fn dw_as_u64_spec(b: u64) -> u64 {
    if dw_is_nan(b) {
        0u64
    } else if dw_sign(b) {
        0u64
    } else if dw_trunc_mag(b) > u64::MAX as int {
        u64::MAX
    } else {
        dw_trunc_mag(b) as u64
    }
}

/// For finite words with exponent at least 1023, the truncated magnitude is
/// at least 2^(e - 1023).
proof fn lemma_trunc_mag_lower(b: u64)
    requires
        dw_exp(b) != 0x7FF,
        dw_exp(b) >= 1023,
    ensures
        dw_trunc_mag(b) >= pow2((dw_exp(b) - 1023) as nat),
{
    let e = dw_exp(b);
    let m = DW_IMPLICIT_BIT + dw_frac(b);
    lemma_pow2_52();
    if e <= 1075 {
        let d = pow2((1075 - e) as nat) as int;
        let k = pow2((e - 1023) as nat) as int;
        lemma_pow2_pos((1075 - e) as nat);
        lemma_pow2_pos((e - 1023) as nat);
        lemma_pow2_adds((1075 - e) as nat, (e - 1023) as nat);
        assert(d * k == pow2(52));
        assert(m / d >= k) by (nonlinear_arith)
            requires
                d >= 1,
                k >= 1,
                m >= d * k,
        {
            lemma_fundamental_div_mod(m as int, d);
            assert(m == d * (m as int / d) + (m as int % d));
            if m as int / d < k {
                assert(m as int / d <= k - 1);
                assert(d * (m as int / d) <= d * (k - 1)) by (nonlinear_arith)
                    requires
                        d >= 1,
                        m as int / d <= k - 1,
                {}
            }
        }
    } else {
        lemma_pow2_pos((e - 1075) as nat);
        lemma_pow2_adds(52, (e - 1075) as nat);
        assert(m * (pow2((e - 1075) as nat) as int) >= pow2((e - 1023) as nat)) by (
        nonlinear_arith)
            requires
                m >= pow2(52),
                pow2(52) * pow2((e - 1075) as nat) == pow2((e - 1023) as nat),
                pow2((e - 1075) as nat) >= 1,
        {}
    }
}

/// Bounds on the truncated magnitude of finite words.
proof fn lemma_trunc_mag_upper(b: u64)
    requires
        dw_exp(b) != 0x7FF,
    ensures
        dw_exp(b) <= 1086 ==> dw_trunc_mag(b) <= u64::MAX as int,
        dw_exp(b) <= 1054 ==> dw_trunc_mag(b) < 0x1_0000_0000,
{
    let e = dw_exp(b);
    let m = DW_IMPLICIT_BIT + dw_frac(b);
    assert(m < 0x20_0000_0000_0000);
    lemma_pow2_53();
    if e == 0 {
    } else if e <= 1075 {
        let d = pow2((1075 - e) as nat) as int;
        lemma_pow2_pos((1075 - e) as nat);
        assert(m / d <= m) by (nonlinear_arith)
            requires
                d >= 1,
                m >= 0,
        {
            lemma_fundamental_div_mod(m as int, d);
        }
        if e <= 1054 {
            // the divisor is at least 2^21 and m < 2^53 = 2^21 * 2^32
            if e < 1054 {
                lemma_pow2_strictly_increases(21, (1075 - e) as nat);
            }
            lemma_pow2_adds(21, 32);
            lemma2_to64();
            assert(m / d < 0x1_0000_0000) by (nonlinear_arith)
                requires
                    d >= pow2(21),
                    pow2(21) * pow2(32) == pow2(53),
                    pow2(21) == 0x20_0000,
                    pow2(32) == 0x1_0000_0000,
                    pow2(53) == 0x20_0000_0000_0000,
                    0 <= m < pow2(53),
            {
                lemma_fundamental_div_mod(m as int, d);
            }
        }
    } else {
        if e <= 1086 {
            let p = pow2((e - 1075) as nat) as int;
            lemma_pow2_pos((e - 1075) as nat);
            if (e - 1075) < 11 {
                lemma_pow2_strictly_increases((e - 1075) as nat, 11);
            }
            lemma2_to64();
            assert(pow2(11) == 0x800);
            assert(m * p <= u64::MAX as int) by (nonlinear_arith)
                requires
                    0 <= m < 0x20_0000_0000_0000,
                    1 <= p <= 0x800,
            {}
        }
    }
}

/// Truncated magnitude of a finite word, computed on 64 bits; callers
/// guarantee the result fits.
fn dw_trunc_mag_u64(b: u64) -> (r: u64)
    requires
        dw_exp(b) != 0x7FF,
        dw_trunc_mag(b) <= u64::MAX as int,
    ensures
        r == dw_trunc_mag(b),
{
    let mag = b % DW_SIGN_BIT;
    let e = mag / DW_IMPLICIT_BIT;
    let f = b % DW_IMPLICIT_BIT;
    let m = DW_IMPLICIT_BIT + f;
    if e == 0 {
        return 0;
    }
    if e <= 1075 {
        // divide by 2^(1075 - e)
        let shift = 1075 - e;
        if shift >= 54 {
            proof {
                lemma_pow2_strictly_increases(53, shift as nat);
                lemma_pow2_53();
                lemma_pow2_pos(shift as nat);
                assert(m as int / (pow2(shift as nat) as int) == 0) by (nonlinear_arith)
                    requires
                        0 <= (m as int) < pow2(shift as nat),
                        pow2(shift as nat) >= 1,
                {
                    lemma_fundamental_div_mod(m as int, pow2(shift as nat) as int);
                    if m as int / (pow2(shift as nat) as int) > 0 {
                        assert((pow2(shift as nat) as int) * (m as int / (pow2(
                            shift as nat,
                        ) as int)) >= pow2(shift as nat));
                    }
                }
            }
            return 0;
        }
        let mut p: u64 = 1;
        let mut j: u64 = 0;
        proof {
            lemma2_to64();
        }
        while j < shift
            invariant
                j <= shift,
                shift <= 53,
                p == pow2(j as nat),
                p <= 0x20_0000_0000_0000,
            decreases shift - j,
        {
            proof {
                lemma_pow2_unfold((j + 1) as nat);
                if j + 1 < 53 {
                    lemma_pow2_strictly_increases((j + 1) as nat, 53);
                }
                lemma2_to64_rest();
            }
            p = p * 2;
            j = j + 1;
        }
        proof {
            lemma_pow2_pos(shift as nat);
        }
        return m / p;
    }
    // multiply by 2^(e - 1075)
    let shift = e - 1075;
    proof {
        // the result fits in u64, so the shift is at most 11
        lemma_pow2_pos(shift as nat);
        if shift >= 12 {
            lemma_pow2_adds(52, shift as nat);
            if 52 + shift > 64 {
                lemma_pow2_strictly_increases(64, (52 + shift) as nat);
            }
            lemma2_to64();
            lemma2_to64_rest();
            lemma_pow2_52();
            assert(m * (pow2(shift as nat) as int) >= pow2((52 + shift) as nat)) by (
            nonlinear_arith)
                requires
                    m >= pow2(52),
                    pow2(52) * pow2(shift as nat) == pow2((52 + shift) as nat),
                    pow2(shift as nat) >= 1,
            {}
            assert(false);
        }
    }
    let mut p: u64 = 1;
    let mut j: u64 = 0;
    proof {
        lemma2_to64();
    }
    while j < shift
        invariant
            j <= shift,
            shift <= 11,
            p == pow2(j as nat),
            p <= 0x800,
        decreases shift - j,
    {
        proof {
            lemma_pow2_unfold((j + 1) as nat);
            if j + 1 < 12 {
                lemma_pow2_strictly_increases((j + 1) as nat, 12);
            }
            lemma2_to64();
        }
        p = p * 2;
        j = j + 1;
    }
    proof {
        assert(m * p <= u64::MAX as u64) by (nonlinear_arith)
            requires
                0 <= m < 0x20_0000_0000_0000,
                1 <= p <= 0x800,
        {}
    }
    m * p
}

/// Truncate a word's value toward zero and saturate to `i32`; NaN maps
/// to 0.
pub fn dw_as_i32(b: u64) -> (r: i32)
    ensures
        r == dw_as_i32_spec(b),
{
    let mag = b % DW_SIGN_BIT;
    let e = mag / DW_IMPLICIT_BIT;
    let f = b % DW_IMPLICIT_BIT;
    let neg = b >= DW_SIGN_BIT;
    if e == 0x7FF {
        if f != 0 {
            return 0;
        }
        proof {
            lemma_pow2_pos(2048);
            assert(0x20_0000_0000_0000 * (pow2(2048) as int) >= 0x20_0000_0000_0000) by (
            nonlinear_arith)
                requires
                    pow2(2048) >= 1,
            {}
        }
        if neg {
            return i32::MIN;
        }
        return i32::MAX;
    }
    if e >= 1055 {
        // magnitude at least 2^32: saturates either way
        proof {
            lemma_trunc_mag_lower(b);
            if (e - 1023) > 32 {
                lemma_pow2_strictly_increases(32, (e - 1023) as nat);
            }
            lemma2_to64();
        }
        if neg {
            return i32::MIN;
        }
        return i32::MAX;
    }
    proof {
        lemma_trunc_mag_upper(b);
    }
    let t = dw_trunc_mag_u64(b);
    if neg {
        if t >= 0x8000_0000 {
            return i32::MIN;
        }
        return -(t as i32);
    }
    if t >= 0x8000_0000 {
        return i32::MAX;
    }
    t as i32
}

/// Truncate a word's value toward zero and saturate to `u64`; NaN and
/// negative words map to 0.
pub fn dw_as_u64(b: u64) -> (r: u64)
    ensures
        r == dw_as_u64_spec(b),
{
    let mag = b % DW_SIGN_BIT;
    let e = mag / DW_IMPLICIT_BIT;
    let f = b % DW_IMPLICIT_BIT;
    let neg = b >= DW_SIGN_BIT;
    if e == 0x7FF {
        if f != 0 {
            return 0;
        }
        proof {
            lemma_pow2_pos(2048);
            lemma_pow2_strictly_increases(64, 2048);
            lemma2_to64();
            assert(0x20_0000_0000_0000 * (pow2(2048) as int) > u64::MAX as int) by (
            nonlinear_arith)
                requires
                    pow2(2048) >= pow2(64),
                    pow2(64) == 0x1_0000_0000_0000_0000,
            {}
        }
        if neg {
            return 0;
        }
        return u64::MAX;
    }
    if neg {
        return 0;
    }
    if e >= 1087 {
        proof {
            lemma_trunc_mag_lower(b);
            if (e - 1023) > 64 {
                lemma_pow2_strictly_increases(64, (e - 1023) as nat);
            }
            lemma2_to64();
        }
        return u64::MAX;
    }
    proof {
        lemma_trunc_mag_upper(b);
    }
    dw_trunc_mag_u64(b)
}


// ---------------------------------------------------------------------------
// Correctly rounded encoding of decimal literals
// ---------------------------------------------------------------------------

/// 10 to the power `k`.
pub open spec fn pow10(k: nat) -> int
    decreases k,
{
    if k == 0 {
        1
    } else {
        10 * pow10((k - 1) as nat)
    }
}

/// Number of doublings of `n` needed to reach at least `d`.
pub open spec fn up_steps(n: int, d: int) -> nat
    recommends
        n >= 1,
        d >= 1,
    decreases (if n < d { d - n } else { 0 }),
{
    if n >= 1 && n < d {
        1 + up_steps(2 * n, d)
    } else {
        0
    }
}

/// Number of doublings of `d` needed so that `n` is below `2 * d`.
pub open spec fn dn_steps(n: int, d: int) -> nat
    recommends
        n >= 1,
        d >= 1,
    decreases (if n >= 2 * d { n - d } else { 0 }),
{
    if d >= 1 && n >= 2 * d {
        1 + dn_steps(n, 2 * d)
    } else {
        0
    }
}

/// The magnitude bits of the double nearest to the positive rational
/// `n / d` (ties to even), for operands below 2^127. The rational is
/// brought into `[d1, 2 * d1)` by doublings, 52 further quotient bits are
/// extracted exactly, and the remainder decides the rounding.
pub open spec fn spec_dw_round_pos(n: int, d: int) -> int
    recommends
        1 <= n < pow2(127),
        1 <= d < pow2(127),
{
    let u = up_steps(n, d);
    let n1 = n * pow2(u);
    let v = dn_steps(n1, d);
    let d1 = d * pow2(v);
    let q = (n1 * pow2(52)) / d1;
    let r = (n1 * pow2(52)) % d1;
    let q1 = if 2 * r > d1 || (2 * r == d1 && q % 2 == 1) {
        q + 1
    } else {
        q
    };
    if q1 == pow2(53) {
        (v - u + 1 + 1023) * pow2(52)
    } else {
        (v - u + 1023) * pow2(52) + (q1 - pow2(52))
    }
}

/// The d.p. word encoding `(-1)^neg * mant * 10^e10`, rounded to nearest
/// (ties to even); `None` when the scaling falls outside the supported
/// range (a power of ten beyond 10^38, or a scaled integer at or above
/// 2^127).
pub open spec fn spec_dw_of_decimal(neg: bool, mant: int, e10: int) -> Option<u64> {
    if mant == 0 {
        Some(
            if neg {
                DW_SIGN_BIT
            } else {
                0u64
            },
        )
    } else if e10 >= 0 {
        if mant * pow10(e10 as nat) < pow2(127) {
            Some(
                ((if neg {
                    DW_SIGN_BIT as int
                } else {
                    0
                }) + spec_dw_round_pos(mant * pow10(e10 as nat), 1)) as u64,
            )
        } else {
            None
        }
    } else {
        if e10 >= -38 {
            Some(
                ((if neg {
                    DW_SIGN_BIT as int
                } else {
                    0
                }) + spec_dw_round_pos(mant, pow10((-e10) as nat))) as u64,
            )
        } else {
            None
        }
    }
}

proof fn lemma_pow2_127()
    ensures
        pow2(127) == 0x8000_0000_0000_0000_0000_0000_0000_0000,
{
    lemma_pow2_adds(64, 63);
    lemma2_to64();
    lemma2_to64_rest();
}

proof fn lemma_pow2_128()
    ensures
        pow2(128) == 0x1_0000_0000_0000_0000_0000_0000_0000_0000,
{
    lemma_pow2_adds(64, 64);
    lemma2_to64();
}

/// Round the positive rational `n0 / d0` to the nearest double (ties to
/// even), returning its magnitude bits.
fn dw_round_pos(n0: u128, d0: u128) -> (r: u64)
    requires
        1 <= n0 < 0x8000_0000_0000_0000_0000_0000_0000_0000u128,
        1 <= d0 < 0x8000_0000_0000_0000_0000_0000_0000_0000u128,
    ensures
        r == spec_dw_round_pos(n0 as int, d0 as int),
        r < DW_SIGN_BIT,
{
    proof {
        lemma_pow2_127();
        lemma_pow2_128();
    }
    // scale the numerator up until n >= d
    let mut n: u128 = n0;
    let mut u: u32 = 0;
    proof {
        lemma2_to64();
    }
    while n < d0
        invariant
            1 <= n,
            1 <= n0,
            n == n0 * pow2(u as nat),
            up_steps(n0 as int, d0 as int) == u + up_steps(n as int, d0 as int),
            u > 0 ==> n < 2 * (d0 as int),
            d0 < 0x8000_0000_0000_0000_0000_0000_0000_0000u128,
            u <= 127,
        decreases 128 - u,
    {
        proof {
            lemma_pow2_unfold((u + 1) as nat);
            assert(n0 * pow2((u + 1) as nat) == 2 * (n0 * pow2(u as nat))) by (nonlinear_arith)
                requires
                    pow2((u + 1) as nat) == 2 * pow2(u as nat),
            {}
            // u stays below 127 because 2^u <= n < d0 < 2^127
            assert(pow2(u as nat) <= n0 * pow2(u as nat)) by (nonlinear_arith)
                requires
                    n0 >= 1,
                    pow2(u as nat) >= 0,
            {}
            lemma_pow2_127();
            if u + 1 > 127 {
                if u > 127 {
                    lemma_pow2_strictly_increases(127, u as nat);
                }
                assert(pow2(u as nat) >= pow2(127));
                assert(false);
            }
        }
        n = n * 2;
        u = u + 1;
    }
    let ghost n1 = n as int;
    let ghost uu = u;
    // scale the denominator up until n < 2 * d
    let mut d: u128 = d0;
    let mut v: u32 = 0;
    while n / 2 >= d
        invariant
            1 <= d,
            1 <= d0,
            n1 == n0 * pow2(uu as nat),
            n == n1,
            n >= d0,
            uu > 0 ==> n < 2 * (d0 as int),
            d == d0 * pow2(v as nat),
            dn_steps(n1, d0 as int) == v + dn_steps(n1, d as int),
            v > 0 ==> d <= n && n < 0x8000_0000_0000_0000_0000_0000_0000_0000u128,
            d < 0x8000_0000_0000_0000_0000_0000_0000_0000u128,
            d0 < 0x8000_0000_0000_0000_0000_0000_0000_0000u128,
            n0 < 0x8000_0000_0000_0000_0000_0000_0000_0000u128,
            v <= 127,
        decreases 128 - v,
    {
        proof {
            lemma_fundamental_div_mod(n as int, 2);
            lemma_pow2_unfold((v + 1) as nat);
            assert(d0 * pow2((v + 1) as nat) == 2 * (d0 * pow2(v as nat))) by (nonlinear_arith)
                requires
                    pow2((v + 1) as nat) == 2 * pow2(v as nat),
            {}
            // the loop only runs when the numerator was never scaled up,
            // so n is below 2^127 and d stays below it too
            lemma2_to64();
            assert(n >= 2 * (d as int));
            if v == 0 {
                assert(n >= 2 * (d0 as int));
                if uu > 0 {
                    assert(false);
                }
                assert(n == n0 * pow2(0));
                assert(n0 * pow2(0) == n0 * 1) by (nonlinear_arith)
                    requires
                        pow2(0) == 1,
                {}
                assert(n == n0);
            }
            assert(pow2(v as nat) <= d0 * pow2(v as nat)) by (nonlinear_arith)
                requires
                    d0 >= 1,
                    pow2(v as nat) >= 0,
            {}
            lemma_pow2_127();
            if v + 1 > 127 {
                if v > 127 {
                    lemma_pow2_strictly_increases(127, v as nat);
                }
                assert(pow2(v as nat) >= pow2(127));
                assert(false);
            }
        }
        d = d * 2;
        v = v + 1;
    }
    proof {
        assert(dn_steps(n1, d as int) == 0);
        assert(up_steps(n as int, d0 as int) == 0);
        assert(d <= n < 2 * (d as int));
    }
    // extract 52 more quotient bits exactly
    let mut q: u64 = 1;
    let mut rem: u128 = n - d;
    let mut j: u32 = 0;
    proof {
        lemma2_to64();
        lemma_fundamental_div_mod_converse(n as int, d as int, 1, (n - d) as int);
        assert(n1 * pow2(0) == n1);
    }
    while j < 52
        invariant
            j <= 52,
            d <= n < 2 * (d as int),
            1 <= d < 0x8000_0000_0000_0000_0000_0000_0000_0000u128,
            q == (n1 * pow2(j as nat)) / (d as int),
            rem == (n1 * pow2(j as nat)) % (d as int),
            n == n1,
            rem < d,
            q < pow2((j + 1) as nat),
            q >= pow2(j as nat),
        decreases 52 - j,
    {
        proof {
            lemma_pow2_unfold((j + 1) as nat);
            lemma_pow2_unfold((j + 2) as nat);
            if j + 1 < 53 {
                lemma_pow2_strictly_increases((j + 1) as nat, 53);
            }
            lemma2_to64_rest();
            lemma_fundamental_div_mod(n1 * pow2(j as nat), d as int);
            let qj = (n1 * pow2(j as nat)) / (d as int);
            let rj = (n1 * pow2(j as nat)) % (d as int);
            assert(n1 * pow2((j + 1) as nat) == (2 * qj) * (d as int) + 2 * rj) by (
            nonlinear_arith)
                requires
                    n1 * pow2(j as nat) == (d as int) * qj + rj,
                    pow2((j + 1) as nat) == 2 * pow2(j as nat),
            {}
            if 2 * rj >= d {
                assert(n1 * pow2((j + 1) as nat) == (2 * qj + 1) * (d as int) + (2 * rj
                    - d)) by (nonlinear_arith)
                    requires
                        n1 * pow2((j + 1) as nat) == (2 * qj) * (d as int) + 2 * rj,
                {}
                lemma_fundamental_div_mod_converse(
                    n1 * pow2((j + 1) as nat),
                    d as int,
                    2 * qj + 1,
                    2 * rj - d,
                );
            } else {
                lemma_fundamental_div_mod_converse(
                    n1 * pow2((j + 1) as nat),
                    d as int,
                    2 * qj,
                    2 * rj,
                );
            }
        }
        q = q * 2;
        rem = rem * 2;
        if rem >= d {
            rem = rem - d;
            q = q + 1;
        }
        j = j + 1;
    }
    proof {
        lemma2_to64_rest();
    }
    // round to nearest, ties to even
    let round_up = if rem > d - rem {
        true
    } else if d - rem == rem {
        q % 2 == 1
    } else {
        false
    };
    proof {
        assert((2 * (rem as int) > d as int) == (rem > d - rem));
        assert((2 * (rem as int) == d as int) == (d - rem == rem));
    }
    let q1 = if round_up {
        q + 1
    } else {
        q
    };
    let eb: i32 = (v as i32) - (u as i32);
    if q1 == 0x20_0000_0000_0000 {
        let ee: u64 = (eb + 1 + 1023) as u64;
        ee * DW_IMPLICIT_BIT
    } else {
        let ee: u64 = (eb + 1023) as u64;
        ee * DW_IMPLICIT_BIT + (q1 - DW_IMPLICIT_BIT)
    }
}

/// Encode `(-1)^neg * mant * 10^e10` as a correctly rounded d.p. word;
/// `None` when the scaling falls outside the supported range.
pub fn dw_from_decimal(neg: bool, mant: u128, e10: i64) -> (r: Option<u64>)
    requires
        mant < 0x8000_0000_0000_0000_0000_0000_0000_0000u128,
        -200_000 <= e10 <= 200_000,
    ensures
        r == spec_dw_of_decimal(neg, mant as int, e10 as int),
{
    proof {
        lemma_pow2_127();
    }
    if mant == 0 {
        if neg {
            return Some(DW_SIGN_BIT);
        }
        return Some(0);
    }
    if e10 >= 0 {
        // scale the integer up by 10^e10, watching for overflow
        let mut nn: u128 = mant;
        let mut k: i64 = 0;
        while k < e10
            invariant
                0 <= k <= e10,
                e10 <= 200_000,
                1 <= nn,
                nn < 0x8000_0000_0000_0000_0000_0000_0000_0000u128,
                nn == mant * pow10(k as nat),
            decreases e10 - k,
        {
            if nn > 0x8000_0000_0000_0000_0000_0000_0000_0000u128 / 10 {
                proof {
                    lemma_pow2_127();
                    lemma_pow10_monotone_factor(mant as int, (k + 1) as nat, (e10 as nat));
                    assert(mant * pow10((k + 1) as nat) == 10 * nn) by (nonlinear_arith)
                        requires
                            nn == mant * pow10(k as nat),
                            pow10((k + 1) as nat) == 10 * pow10(k as nat),
                    {}
                }
                return None;
            }
            proof {
                assert(pow10((k + 1) as nat) == 10 * pow10(k as nat));
                assert(mant * pow10((k + 1) as nat) == 10 * nn) by (nonlinear_arith)
                    requires
                        nn == mant * pow10(k as nat),
                        pow10((k + 1) as nat) == 10 * pow10(k as nat),
                {}
            }
            nn = nn * 10;
            k = k + 1;
        }
        let bits = dw_round_pos(nn, 1);
        if neg {
            return Some(bits + DW_SIGN_BIT);
        }
        return Some(bits);
    }
    // negative decimal exponent: divide by a power of ten
    let kneg = -e10;
    if kneg > 38 {
        return None;
    }
    let mut dd: u128 = 1;
    let mut k: i64 = 0;
    while k < kneg
        invariant
            0 <= k <= kneg <= 38,
            1 <= dd,
            dd == pow10(k as nat),
            dd < 0x8000_0000_0000_0000_0000_0000_0000_0000u128,
        decreases kneg - k,
    {
        proof {
            assert(pow10((k + 1) as nat) == 10 * pow10(k as nat));
            lemma_pow10_lt_127((k + 1) as nat);
            lemma_pow2_127();
        }
        dd = dd * 10;
        k = k + 1;
    }
    proof {
        lemma_pow2_127();
    }
    let bits = dw_round_pos(mant, dd);
    if neg {
        return Some(bits + DW_SIGN_BIT);
    }
    Some(bits)
}

/// Powers of ten grow with the exponent; scaling by a larger power gives at
/// least as large a product.
proof fn lemma_pow10_monotone_factor(m: int, a: nat, b: nat)
    requires
        m >= 0,
        a <= b,
    ensures
        m * pow10(a) <= m * pow10(b),
        pow10(a) >= 1,
    decreases b - a,
{
    if a == b {
        lemma_pow10_pos(a);
        assert(pow10(a) >= 1);
    } else {
        lemma_pow10_monotone_factor(m, a, (b - 1) as nat);
        lemma_pow10_pos((b - 1) as nat);
        assert(pow10(b) == 10 * pow10((b - 1) as nat));
        assert(m * pow10(b) >= m * pow10((b - 1) as nat)) by (nonlinear_arith)
            requires
                m >= 0,
                pow10(b) >= pow10((b - 1) as nat),
        {}
    }
}

proof fn lemma_pow10_pos(k: nat)
    ensures
        pow10(k) >= 1,
    decreases k,
{
    if k > 0 {
        lemma_pow10_pos((k - 1) as nat);
    }
}

/// Powers of a thousand stay below the matching powers of 1024.
proof fn lemma_pow10_3j(j: nat)
    ensures
        pow10(3 * j) <= pow2(10 * j),
    decreases j,
{
    if j == 0 {
        lemma2_to64();
    } else {
        lemma_pow10_3j((j - 1) as nat);
        assert(pow10(3 * j) == 10 * pow10((3 * j - 1) as nat));
        assert(pow10((3 * j - 1) as nat) == 10 * pow10((3 * j - 2) as nat));
        assert(pow10((3 * j - 2) as nat) == 10 * pow10((3 * (j - 1)) as nat));
        lemma_pow2_adds(10 * (j - 1) as nat, 10);
        lemma2_to64();
        lemma_pow10_pos((3 * (j - 1)) as nat);
        assert(1000 * pow10((3 * (j - 1)) as nat) <= 1024 * pow2(10 * (j - 1) as nat)) by (
        nonlinear_arith)
            requires
                pow10((3 * (j - 1)) as nat) <= pow2(10 * (j - 1) as nat),
                pow10((3 * (j - 1)) as nat) >= 0,
                pow2(10 * (j - 1) as nat) >= 0,
        {}
    }
}

/// Powers of ten up to 10^38 stay below 2^127.
proof fn lemma_pow10_lt_127(k: nat)
    requires
        k <= 38,
    ensures
        1 <= pow10(k) < pow2(127),
{
    lemma_pow10_pos(k);
    lemma_pow10_monotone_factor(1, k, 38);
    assert(1 * pow10(k) == pow10(k));
    assert(1 * pow10(38) == pow10(38));
    lemma_pow10_3j(12);
    assert(pow10(38) == 10 * pow10(37));
    assert(pow10(37) == 10 * pow10(36));
    lemma_pow2_adds(120, 7);
    lemma2_to64();
    lemma_pow10_pos(36);
    assert(100 * pow10(36) < 128 * pow2(120)) by (nonlinear_arith)
        requires
            pow10(36) <= pow2(120),
            pow10(36) >= 1,
            pow2(120) >= 0,
    {}
}


// ---------------------------------------------------------------------------
// Numeric tokens
// ---------------------------------------------------------------------------

/// Largest supported mantissa accumulator (10^37); longer mantissas are
/// out of the supported range.
pub const DW_MANT_CAP: u128 = 10_000_000_000_000_000_000_000_000_000_000_000_000;

/// Largest supported decimal exponent magnitude in a token.
pub const DW_EXP_CAP: u64 = 10_000;

/// Scan the mantissa part of a numeric token from position `i`: digits with
/// at most one decimal point, ended by the end of the token or an exponent
/// marker (`e`, `E`, `d`, `D`). Returns the accumulated integer mantissa,
/// the count of fractional digits, and the index of the exponent marker (or
/// the token's length); `None` if the shape is not a mantissa.
pub open spec fn scan_mant(
    s: Seq<char>,
    i: int,
    mant: int,
    fd: int,
    seen_digit: bool,
    seen_dot: bool,
) -> Option<(int, int, int)>
    decreases s.len() - i,
{
    if i < 0 || i > s.len() {
        None
    } else if i == s.len() {
        if seen_digit {
            Some((mant, fd, i))
        } else {
            None
        }
    } else {
        let c = s[i];
        if crate::text::digit_val(c) >= 0 {
            scan_mant(
                s,
                i + 1,
                mant * 10 + crate::text::digit_val(c),
                if seen_dot {
                    fd + 1
                } else {
                    fd
                },
                true,
                seen_dot,
            )
        } else if c == '.' && !seen_dot {
            scan_mant(s, i + 1, mant, fd, seen_digit, true)
        } else if (c == 'e' || c == 'E' || c == 'd' || c == 'D') && seen_digit {
            Some((mant, fd, i))
        } else {
            None
        }
    }
}

/// Scan an unsigned exponent from position `i`: one or more digits up to
/// the end of the token.
pub open spec fn scan_exp(s: Seq<char>, i: int, acc: int, seen: bool) -> Option<int>
    decreases s.len() - i,
{
    if i < 0 || i > s.len() {
        None
    } else if i == s.len() {
        if seen {
            Some(acc)
        } else {
            None
        }
    } else if crate::text::digit_val(s[i]) >= 0 {
        scan_exp(s, i + 1, acc * 10 + crate::text::digit_val(s[i]), true)
    } else {
        None
    }
}

/// The d.p. word spelled by a numeric token: an optional sign, digits with
/// at most one decimal point, and an optional exponent part introduced by
/// `e`, `E`, `d` or `D` with its own optional sign. `None` when the token
/// does not have this shape or falls outside the supported range.
pub open spec fn spec_dw_parse_token(s: Seq<char>) -> Option<u64> {
    let neg = s.len() > 0 && s[0] == '-';
    let signed = s.len() > 0 && (s[0] == '-' || s[0] == '+');
    let body = if signed {
        s.subrange(1, s.len() as int)
    } else {
        s
    };
    match scan_mant(body, 0, 0, 0, false, false) {
        None => None,
        Some((mant, fd, mi)) => {
            let expv = if mi == body.len() {
                Some(0int)
            } else {
                let j = mi + 1;
                let eneg = j < body.len() && body[j] == '-';
                let esigned = j < body.len() && (body[j] == '-' || body[j] == '+');
                let k = if esigned {
                    j + 1
                } else {
                    j
                };
                match scan_exp(body, k, 0, false) {
                    None => None,
                    Some(a) => Some(
                        if eneg {
                            -a
                        } else {
                            a
                        },
                    ),
                }
            };
            match expv {
                None => None,
                Some(ex) => {
                    if mant >= DW_MANT_CAP || fd > DW_EXP_CAP || ex > DW_EXP_CAP || ex
                        < -(DW_EXP_CAP as int) {
                        None
                    } else {
                        spec_dw_of_decimal(neg, mant, ex - fd)
                    }
                },
            }
        },
    }
}

/// A successful mantissa scan never shrinks the accumulated mantissa or the
/// fractional-digit count.
proof fn lemma_scan_mant_mono(
    s: Seq<char>,
    i: int,
    mant: int,
    fd: int,
    seen_digit: bool,
    seen_dot: bool,
)
    requires
        mant >= 0,
        fd >= 0,
        scan_mant(s, i, mant, fd, seen_digit, seen_dot) is Some,
    ensures
        ({
            let (m2, f2, _) = scan_mant(s, i, mant, fd, seen_digit, seen_dot)->0;
            m2 >= mant && f2 >= fd && m2 >= 0 && f2 >= 0
        }),
    decreases s.len() - i,
{
    if 0 <= i && i < s.len() {
        let c = s[i];
        if crate::text::digit_val(c) >= 0 {
            assert(mant * 10 + crate::text::digit_val(c) >= mant) by (nonlinear_arith)
                requires
                    mant >= 0,
                    crate::text::digit_val(c) >= 0,
            {}
            lemma_scan_mant_mono(
                s,
                i + 1,
                mant * 10 + crate::text::digit_val(c),
                if seen_dot {
                    fd + 1
                } else {
                    fd
                },
                true,
                seen_dot,
            );
        } else if c == '.' && !seen_dot {
            lemma_scan_mant_mono(s, i + 1, mant, fd, seen_digit, true);
        }
    }
}

/// A successful exponent scan never shrinks the accumulator.
proof fn lemma_scan_exp_mono(s: Seq<char>, i: int, acc: int, seen: bool)
    requires
        acc >= 0,
        scan_exp(s, i, acc, seen) is Some,
    ensures
        scan_exp(s, i, acc, seen)->0 >= acc,
        scan_exp(s, i, acc, seen)->0 >= 0,
    decreases s.len() - i,
{
    if 0 <= i && i < s.len() {
        if crate::text::digit_val(s[i]) >= 0 {
            assert(acc * 10 + crate::text::digit_val(s[i]) >= acc) by (nonlinear_arith)
                requires
                    acc >= 0,
                    crate::text::digit_val(s[i]) >= 0,
            {}
            lemma_scan_exp_mono(s, i + 1, acc * 10 + crate::text::digit_val(s[i]), true);
        }
    }
}

/// Parse a numeric token into a d.p. word: an optional sign, digits with at
/// most one decimal point, and an optional `e`/`E`/`d`/`D` exponent part.
pub fn dw_parse_token(v: &Vec<char>) -> (r: Option<u64>)
    ensures
        r == spec_dw_parse_token(v@),
{
    let n = v.len();
    let ghost s = v@;
    let signed = n > 0 && (v[0] == '-' || v[0] == '+');
    let neg = n > 0 && v[0] == '-';
    let start: usize = if signed {
        1
    } else {
        0
    };
    let ghost body = if signed {
        s.subrange(1, s.len() as int)
    } else {
        s
    };
    let mut mant: u128 = 0;
    let mut fd: u64 = 0;
    let mut seen_digit = false;
    let mut seen_dot = false;
    let mut ii: usize = 0;
    let blen = n - start;
    let mut marker: bool = false;
    while ii < blen && !marker
        invariant
            0 <= ii <= blen,
            blen == body.len(),
            n == s.len(),
            v@ == s,
            start == if signed {
                1int
            } else {
                0int
            },
            signed == (s.len() > 0 && (s[0] == '-' || s[0] == '+')),
            neg == (s.len() > 0 && s[0] == '-'),
            body == if signed {
                s.subrange(1, s.len() as int)
            } else {
                s
            },
            mant < 10 * DW_MANT_CAP,
            fd <= ii,
            !marker ==> scan_mant(body, 0, 0, 0, false, false) == scan_mant(
                body,
                ii as int,
                mant as int,
                fd as int,
                seen_digit,
                seen_dot,
            ),
            marker ==> (ii < blen && scan_mant(body, 0, 0, 0, false, false) == Some(
                (mant as int, fd as int, ii as int),
            )),
        decreases blen - ii, (if marker { 0int } else { 1int }),
    {
        let c = v[start + ii];
        assert(c == body[ii as int]);
        let d: u128 = match c {
            '0' => 0,
            '1' => 1,
            '2' => 2,
            '3' => 3,
            '4' => 4,
            '5' => 5,
            '6' => 6,
            '7' => 7,
            '8' => 8,
            '9' => 9,
            _ => 10,
        };
        if d < 10 {
            assert(d == crate::text::digit_val(c));
            if mant >= DW_MANT_CAP {
                proof {
                    if scan_mant(body, ii as int, mant as int, fd as int, seen_digit, seen_dot)
                        is Some {
                        lemma_scan_mant_mono(
                            body,
                            ii as int,
                            mant as int,
                            fd as int,
                            seen_digit,
                            seen_dot,
                        );
                    }
                }
                return None;
            }
            mant = mant * 10 + d;
            if seen_dot {
                fd = fd + 1;
            }
            seen_digit = true;
            ii = ii + 1;
        } else if c == '.' && !seen_dot {
            seen_dot = true;
            ii = ii + 1;
        } else if (c == 'e' || c == 'E' || c == 'd' || c == 'D') && seen_digit {
            marker = true;
        } else {
            return None;
        }
    }
    if mant >= DW_MANT_CAP {
        proof {
            if !marker && scan_mant(body, ii as int, mant as int, fd as int, seen_digit, seen_dot)
                is Some {
                lemma_scan_mant_mono(
                    body,
                    ii as int,
                    mant as int,
                    fd as int,
                    seen_digit,
                    seen_dot,
                );
            }
        }
        return None;
    }
    if !marker && !seen_digit {
        return None;
    }
    let ghost scanned = scan_mant(body, 0, 0, 0, false, false);
    proof {
        assert(scanned == Some((mant as int, fd as int, ii as int)));
    }
    // exponent part
    let mut ex: i64 = 0;
    if marker {
        let mut k = ii + 1;
        let esigned = k < blen && (v[start + k] == '-' || v[start + k] == '+');
        let eneg = k < blen && v[start + k] == '-';
        if esigned {
            k = k + 1;
        }
        let ghost k0: int = if esigned {
            ii + 2int
        } else {
            ii + 1int
        };
        let mut acc: u64 = 0;
        let mut seen = false;
        while k < blen
            invariant
                0 <= k <= blen,
                blen == body.len(),
                n == s.len(),
                v@ == s,
                start == if signed {
                    1int
                } else {
                    0int
                },
                signed == (s.len() > 0 && (s[0] == '-' || s[0] == '+')),
                neg == (s.len() > 0 && s[0] == '-'),
                body == if signed {
                    s.subrange(1, s.len() as int)
                } else {
                    s
                },
                scan_mant(body, 0, 0, 0, false, false) == Some(
                    (mant as int, fd as int, ii as int),
                ),
                marker,
                ii < blen,
                mant < DW_MANT_CAP,
                esigned == (ii + 1 < blen && (body[ii + 1int] == '-' || body[ii + 1int]
                    == '+')),
                eneg == (ii + 1 < blen && body[ii + 1int] == '-'),
                k0 == if esigned {
                    ii + 2int
                } else {
                    ii + 1int
                },
                k >= k0,
                acc <= 10 * DW_EXP_CAP + 9,
                scan_exp(body, k as int, acc as int, seen) == scan_exp(body, k0, 0, false),
            decreases blen - k,
        {
            let c = v[start + k];
            assert(c == body[k as int]);
            let d: u64 = match c {
                '0' => 0,
                '1' => 1,
                '2' => 2,
                '3' => 3,
                '4' => 4,
                '5' => 5,
                '6' => 6,
                '7' => 7,
                '8' => 8,
                '9' => 9,
                _ => 10,
            };
            if d == 10 {
                assert(crate::text::digit_val(c) < 0);
                return None;
            }
            assert(d == crate::text::digit_val(c));
            if acc > DW_EXP_CAP {
                proof {
                    if scan_exp(body, k as int, acc as int, seen) is Some {
                        lemma_scan_exp_mono(body, k as int, acc as int, seen);
                    }
                }
                return None;
            }
            acc = acc * 10 + d;
            seen = true;
            k = k + 1;
        }
        if !seen {
            return None;
        }
        if acc > DW_EXP_CAP {
            return None;
        }
        if eneg {
            ex = -(acc as i64);
        } else {
            ex = acc as i64;
        }
    }
    if fd > DW_EXP_CAP {
        return None;
    }
    let e10 = ex - (fd as i64);
    dw_from_decimal(neg, mant, e10)
}

} // verus!
