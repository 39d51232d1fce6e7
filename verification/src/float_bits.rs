//! Single-precision floating-point numbers as bit patterns.
//!
//! Audio arrives and leaves as 32-bit floats, and gain is a 32-bit float too, but
//! everything the bridge does with such a number is one correctly rounded operation
//! followed by a truncation. This module does that work on the IEEE 754 binary32 bit
//! pattern with integers alone, so that each result is known exactly.
//!
//! A bit pattern consists of a sign bit, an 8-bit biased exponent and a 23-bit
//! fraction. A finite pattern stands for the number
//! `significand * 2^(weight - 150)`, negated when the sign bit is set.

use vstd::arithmetic::power2::pow2;
use vstd::prelude::*;

verus! {

/// The first magnitude that needs more than 24 significant bits of storage.
pub const TWO_24: u64 = 0x100_0000;

/// The smallest full-width significand.
pub const TWO_23: u32 = 0x80_0000;

/// The sign bit, and the magnitude of the most negative sample.
pub const TWO_31: u32 = 0x8000_0000;

// ---------------------------------------------------------------------------
// Fields of a bit pattern
// ---------------------------------------------------------------------------

/// The sign bit is set.
pub open spec fn negative(bits: u32) -> bool {
    bits >= TWO_31
}

/// The biased exponent, `0..=255`.
pub open spec fn exponent(bits: u32) -> nat {
    (bits as nat / TWO_23 as nat) % 256
}

/// The fraction, `0..2^23`.
pub open spec fn fraction(bits: u32) -> nat {
    bits as nat % TWO_23 as nat
}

/// The pattern is not a number.
pub open spec fn is_nan(bits: u32) -> bool {
    exponent(bits) == 255 && fraction(bits) != 0
}

/// The significand of a finite pattern, with the hidden bit of a normal number.
pub open spec fn significand(bits: u32) -> nat {
    if exponent(bits) == 0 {
        fraction(bits)
    } else {
        fraction(bits) + TWO_23 as nat
    }
}

/// The exponent that scales the significand: subnormal numbers share that of the
/// smallest normal ones.
pub open spec fn weight(bits: u32) -> nat {
    if exponent(bits) == 0 {
        1
    } else {
        exponent(bits)
    }
}

/// `floor(|x| * 2^k)`, where `x` is the number that the finite pattern stands for.
pub open spec fn scaled_floor(bits: u32, k: nat) -> nat {
    if weight(bits) + k >= 150 {
        significand(bits) * pow2((weight(bits) + k - 150) as nat)
    } else {
        significand(bits) / pow2((150 - weight(bits) - k) as nat)
    }
}

/// The position of a number on the number line, as an integer that orders bit
/// patterns as the numbers they stand for are ordered. Both zeros are at 0.
pub open spec fn rank(bits: u32) -> int {
    if negative(bits) {
        TWO_31 - bits
    } else {
        bits as int
    }
}

/// `a < b` as floating-point numbers: false when either is not a number.
pub open spec fn less(a: u32, b: u32) -> bool {
    !is_nan(a) && !is_nan(b) && rank(a) < rank(b)
}

/// `a <= b` as floating-point numbers: false when either is not a number.
pub open spec fn at_most(a: u32, b: u32) -> bool {
    !is_nan(a) && !is_nan(b) && rank(a) <= rank(b)
}

// ---------------------------------------------------------------------------
// Rounding
// ---------------------------------------------------------------------------

/// How many low bits of `a` lie below its 24 leading bits.
pub open spec fn excess_bits(a: nat) -> nat
    decreases a,
{
    if a < TWO_24 {
        0
    } else {
        1 + excess_bits(a / 2)
    }
}

/// The multiple of `unit` nearest to `a`; of two that are equally near, the one with an
/// even quotient.
pub open spec fn nearest_multiple(a: nat, unit: nat) -> nat {
    let q = a / unit;
    let r = a % unit;
    if 2 * r > unit || (2 * r == unit && q % 2 == 1) {
        (q + 1) * unit
    } else {
        q * unit
    }
}

/// `a` rounded to 24 significant bits, to nearest, ties to even: the value of the
/// floating-point number that a conversion or a product of exact value `a` gives.
pub open spec fn round24(a: nat) -> nat {
    nearest_multiple(a, pow2(excess_bits(a)))
}

/// The index of the highest bit that is set in `n`.
pub open spec fn top_bit(n: nat) -> nat
    decreases n,
{
    if n < 2 {
        0
    } else {
        1 + top_bit(n / 2)
    }
}

/// The 24-bit significand of `n`: its leading one moved to bit 23.
pub open spec fn normalized(n: nat) -> nat {
    if top_bit(n) <= 23 {
        n * pow2((23 - top_bit(n)) as nat)
    } else {
        n / pow2((top_bit(n) - 23) as nat)
    }
}

/// The bit pattern of `n / 2^scale`, negated if `neg`, where `n` has at most 24
/// significant bits.
pub open spec fn pattern(neg: bool, n: nat, scale: nat) -> int {
    if n == 0 {
        0
    } else {
        (if neg {
            TWO_31 as int
        } else {
            0
        }) + (127 + top_bit(n) - scale) * TWO_23 + (normalized(n) - TWO_23)
    }
}

// ---------------------------------------------------------------------------
// Samples
// ---------------------------------------------------------------------------

/// The nearest `i32` to the number with this sign and magnitude.
pub open spec fn saturated(neg: bool, magnitude: nat) -> int {
    if neg {
        if magnitude >= TWO_31 {
            i32::MIN as int
        } else {
            -magnitude
        }
    } else if magnitude > i32::MAX {
        i32::MAX as int
    } else {
        magnitude as int
    }
}

/// The full-scale sample of a float: the float is limited to `-1.0..=1.0`, scaled by
/// `2^31`, truncated towards zero and saturated. What is not a number is silence.
pub open spec fn float_sample(bits: u32) -> int {
    if is_nan(bits) {
        0
    } else if exponent(bits) >= 127 {
        saturated(negative(bits), TWO_31 as nat)
    } else {
        saturated(negative(bits), scaled_floor(bits, 31))
    }
}

/// The absolute value of a sample.
pub open spec fn magnitude(s: i32) -> nat {
    if s < 0 {
        (-s) as nat
    } else {
        s as nat
    }
}

/// The float of a full-scale sample: the sample rounded to 24 significant bits, divided
/// by `2^31`.
pub open spec fn sample_float(s: i32) -> int {
    pattern(s < 0, round24(magnitude(s)), 31)
}

/// A sample times `gain / 256`: the sample and the product are each rounded to 24
/// significant bits, and the result is truncated towards zero and saturated.
pub open spec fn scaled_sample(s: i32, gain: u16) -> int {
    saturated(s < 0, round24(round24(magnitude(s)) * gain as nat) / 256)
}

// ---------------------------------------------------------------------------
// Lemmas
// ---------------------------------------------------------------------------

/// A number between two neighbouring powers of two has its top bit at the lower one.
proof fn lemma_top_bit(n: nat, k: nat)
    requires
        pow2(k) <= n < pow2(k + 1),
    ensures
        top_bit(n) == k,
    decreases k,
{
    vstd::arithmetic::power2::lemma_pow2_unfold(k + 1);
    if k == 0 {
        vstd::arithmetic::power2::lemma2_to64();
    } else {
        vstd::arithmetic::power2::lemma_pow2_unfold(k);
        vstd::arithmetic::power2::lemma_pow2_pos((k - 1) as nat);
        lemma_top_bit(n / 2, (k - 1) as nat);
    }
}

/// The top bit of a positive number bounds it from both sides.
proof fn lemma_top_bit_bounds(n: nat)
    requires
        n > 0,
    ensures
        pow2(top_bit(n)) <= n < pow2(top_bit(n) + 1),
    decreases n,
{
    vstd::arithmetic::power2::lemma2_to64();
    if n >= 2 {
        lemma_top_bit_bounds(n / 2);
        vstd::arithmetic::power2::lemma_pow2_unfold(top_bit(n));
        vstd::arithmetic::power2::lemma_pow2_unfold(top_bit(n) + 1);
    }
}

/// Halving a quotient is dividing by twice the divisor.
proof fn lemma_halve_quotient(a: nat, unit: nat)
    requires
        unit > 0,
    ensures
        (a / unit) / 2 == a / (2 * unit),
{
    vstd::arithmetic::div_mod::lemma_div_denominator(a as int, unit as int, 2);
}

/// `unit * (a / unit)` and the remainder make up `a`.
proof fn lemma_split(a: nat, unit: nat)
    requires
        unit > 0,
    ensures
        a == (a / unit) * unit + a % unit,
        a % unit < unit,
        (a / unit) * unit <= a,
{
    vstd::arithmetic::div_mod::lemma_fundamental_div_mod(a as int, unit as int);
    vstd::arithmetic::mul::lemma_mul_is_commutative(unit as int, (a / unit) as int);
}

/// The fields of a bit pattern put together give the pattern.
pub proof fn lemma_fields(bits: u32)
    ensures
        bits == (if negative(bits) {
            TWO_31 as int
        } else {
            0
        }) + exponent(bits) * TWO_23 + fraction(bits),
        exponent(bits) <= 255,
        fraction(bits) < TWO_23,
        significand(bits) < TWO_24,
{
}

/// Fields within their ranges are recovered from the pattern they make up.
pub proof fn lemma_compose(neg: bool, e: nat, f: nat, bits: u32)
    requires
        e <= 255,
        f < TWO_23,
        bits == (if neg {
            TWO_31 as int
        } else {
            0
        }) + e * TWO_23 + f,
    ensures
        negative(bits) == neg,
        exponent(bits) == e,
        fraction(bits) == f,
{
}

// ---------------------------------------------------------------------------
// Executable operations
// ---------------------------------------------------------------------------

/// `a < b` as floating-point numbers.
pub fn is_less(a: u32, b: u32) -> (r: bool)
    ensures
        r == less(a, b),
{
    if is_not_a_number(a) || is_not_a_number(b) {
        return false;
    }
    if a < TWO_31 {
        b < TWO_31 && a < b
    } else if b >= TWO_31 {
        b < a
    } else {
        a > TWO_31 || b > 0
    }
}

/// Tells the patterns that are not a number.
pub fn is_not_a_number(bits: u32) -> (r: bool)
    ensures
        r == is_nan(bits),
{
    (bits / TWO_23) % 256 == 255 && bits % TWO_23 != 0
}

/// Rounds to 24 significant bits, to nearest, ties to even.
pub fn round_to_24(a: u64) -> (r: u64)
    requires
        a < 0x1_0000_0000_0000,
    ensures
        r == round24(a as nat),
        r <= 2 * a,
{
    let mut q: u64 = a;
    let mut unit: u64 = 1;
    let ghost mut k: nat = 0;
    proof {
        vstd::arithmetic::power2::lemma2_to64();
        assert(a as nat / 1 == a as nat);
    }
    while q >= TWO_24
        invariant
            unit == pow2(k),
            unit >= 1,
            q == a as nat / unit as nat,
            excess_bits(a as nat) == k + excess_bits(q as nat),
            k > 0 ==> q >= 0x80_0000,
            a < 0x1_0000_0000_0000,
            unit <= a || unit == 1,
        decreases q,
    {
        proof {
            lemma_halve_quotient(a as nat, unit as nat);
            lemma_split(a as nat, unit as nat);
            vstd::arithmetic::power2::lemma_pow2_unfold(k + 1);
            assert(2 * unit <= q * unit) by (nonlinear_arith)
                requires
                    q >= 2,
                    unit >= 1,
            ;
        }
        q = q / 2;
        unit = unit * 2;
        proof {
            k = k + 1;
        }
    }
    proof {
        lemma_split(a as nat, unit as nat);
    }
    let r: u64 = a - q * unit;
    proof {
        assert(r == a as nat % unit as nat);
        assert((q + 1) * unit == q * unit + unit) by (nonlinear_arith);
    }
    if 2 * r > unit || (2 * r == unit && q % 2 == 1) {
        (q + 1) * unit
    } else {
        q * unit
    }
}

/// `floor(|x| * 2^k)` for the number `x` of a finite pattern.
pub fn floor_scaled(bits: u32, k: u32) -> (r: u64)
    requires
        weight(bits) + k <= 150 + 32,
    ensures
        r == scaled_floor(bits, k as nat),
{
    let e: u32 = (bits / TWO_23) % 256;
    let f: u32 = bits % TWO_23;
    let sig: u64 = if e == 0 {
        f as u64
    } else {
        (f + TWO_23) as u64
    };
    let w: u32 = if e == 0 {
        1
    } else {
        e
    };
    assert(sig == significand(bits) && w == weight(bits));
    if w + k >= 150 {
        let shift: u64 = (w + k - 150) as u64;
        proof {
            vstd::arithmetic::power2::lemma2_to64();
            if shift < 32 {
                vstd::arithmetic::power2::lemma_pow2_strictly_increases(shift as nat, 32);
            }
            assert(sig * pow2(shift as nat) <= 0x100_0000 * 0x1_0000_0000) by (nonlinear_arith)
                requires
                    sig < 0x100_0000,
                    pow2(shift as nat) <= 0x1_0000_0000,
            ;
            vstd::bits::lemma_u64_shl_is_mul(sig, shift);
        }
        sig << shift
    } else {
        let shift: u64 = (150 - w - k) as u64;
        if shift < 64 {
            proof {
                vstd::bits::lemma_u64_shr_is_div(sig, shift);
            }
            sig >> shift
        } else {
            proof {
                vstd::arithmetic::power2::lemma2_to64();
                vstd::arithmetic::power2::lemma_pow2_strictly_increases(24, shift as nat);
                vstd::arithmetic::div_mod::lemma_basic_div(sig as int, pow2(shift as nat) as int);
            }
            0
        }
    }
}

/// The bit pattern of `n / 2^scale`, negated if `neg`.
pub fn encode(neg: bool, n: u32, scale: u32) -> (r: u32)
    requires
        scale <= 31,
    ensures
        r == pattern(neg, n as nat, scale as nat),
        n > 0 ==> TWO_23 <= normalized(n as nat) < TWO_24,
{
    if n == 0 {
        return 0;
    }
    let mut sig: u32 = n;
    let mut p: u32 = 23;
    proof {
        vstd::arithmetic::power2::lemma2_to64();
        lemma_top_bit_bounds(n as nat);
        if top_bit(n as nat) > 31 {
            vstd::arithmetic::power2::lemma_pow2_strictly_increases(31, top_bit(n as nat));
            vstd::arithmetic::power2::lemma_pow2_unfold(32);
            if top_bit(n as nat) > 32 {
                vstd::arithmetic::power2::lemma_pow2_strictly_increases(32, top_bit(n as nat));
            }
        }
        assert(n * pow2(0) == n);
    }
    while sig < TWO_23
        invariant
            n > 0,
            0 < sig < TWO_24 || sig == n,
            p <= 23,
            sig == n * pow2((23 - p) as nat),
            top_bit(sig as nat) == top_bit(n as nat) + (23 - p),
        decreases p,
    {
        proof {
            vstd::arithmetic::power2::lemma_pow2_unfold((24 - p) as nat);
            assert(sig * 2 == n * (2 * pow2((23 - p) as nat))) by (nonlinear_arith)
                requires
                    sig == n * pow2((23 - p) as nat),
            ;
            assert((2 * sig) / 2 == sig);
            if p == 0 {
                vstd::arithmetic::power2::lemma2_to64();
                assert(n * pow2(23) >= 0x80_0000) by (nonlinear_arith)
                    requires
                        n >= 1,
                        pow2(23) == 0x80_0000,
                ;
            }
        }
        sig = sig * 2;
        p = p - 1;
    }
    if sig < TWO_24 as u32 {
        proof {
            vstd::arithmetic::power2::lemma2_to64();
            lemma_top_bit(sig as nat, 23);
        }
    } else {
        assert(p == 23 ==> n == sig) by {
            vstd::arithmetic::power2::lemma2_to64();
        }
        proof {
            vstd::arithmetic::power2::lemma2_to64();
            assert(n as nat / 1 == n as nat);
        }
        while sig >= TWO_24 as u32
            invariant
                sig >= TWO_23,
                23 <= p,
                sig == n as nat / pow2((p - 23) as nat),
                top_bit(n as nat) == top_bit(sig as nat) + (p - 23),
                top_bit(n as nat) <= 31,
            decreases sig,
        {
            proof {
                vstd::arithmetic::power2::lemma_pow2_pos((p - 23) as nat);
                vstd::arithmetic::power2::lemma_pow2_unfold((p - 22) as nat);
                lemma_halve_quotient(n as nat, pow2((p - 23) as nat));
            }
            sig = sig / 2;
            p = p + 1;
        }
        proof {
            vstd::arithmetic::power2::lemma2_to64();
            lemma_top_bit(sig as nat, 23);
        }
    }
    assert(p == top_bit(n as nat));
    assert(sig == normalized(n as nat));
    let sign: u32 = if neg {
        TWO_31
    } else {
        0
    };
    sign + (127 + p - scale) * TWO_23 + (sig - TWO_23)
}

/// The full-scale sample of a float.
pub fn float_to_sample(bits: u32) -> (r: i32)
    ensures
        r == float_sample(bits),
{
    if is_not_a_number(bits) {
        return 0;
    }
    let e: u32 = (bits / TWO_23) % 256;
    if e >= 127 {
        return if bits >= TWO_31 {
            i32::MIN
        } else {
            i32::MAX
        };
    }
    let m: u64 = floor_scaled(bits, 31);
    saturate(bits >= TWO_31, m)
}

/// The nearest `i32` to the number with this sign and magnitude.
pub fn saturate(neg: bool, m: u64) -> (r: i32)
    ensures
        r == saturated(neg, m as nat),
{
    if neg {
        if m >= TWO_31 as u64 {
            i32::MIN
        } else {
            -(m as i32)
        }
    } else if m > i32::MAX as u64 {
        i32::MAX
    } else {
        m as i32
    }
}

/// The absolute value of a sample.
pub fn sample_magnitude(s: i32) -> (r: u32)
    ensures
        r == magnitude(s),
        r <= TWO_31,
{
    if s < 0 {
        (-(s as i64)) as u32
    } else {
        s as u32
    }
}

/// The float of a full-scale sample.
pub fn sample_to_float(s: i32) -> (r: u32)
    ensures
        r == sample_float(s),
{
    let m: u32 = sample_magnitude(s);
    proof {
        vstd::arithmetic::power2::lemma2_to64();
        lemma_round24_within(m as nat, 31);
    }
    let n: u64 = round_to_24(m as u64);
    encode(s < 0, n as u32, 31)
}

/// A sample times `gain / 256`.
pub fn scale_sample(s: i32, gain: u16) -> (r: i32)
    ensures
        r == scaled_sample(s, gain),
{
    let m: u32 = sample_magnitude(s);
    proof {
        vstd::arithmetic::power2::lemma2_to64();
        lemma_round24_within(m as nat, 31);
    }
    let n: u64 = round_to_24(m as u64);
    assert(n * gain <= 0x8000_0000 * 0xffff) by (nonlinear_arith)
        requires
            n <= 0x8000_0000,
            gain <= 0xffff,
    ;
    let product: u64 = round_to_24(n * gain as u64);
    saturate(s < 0, product / 256)
}

// ---------------------------------------------------------------------------
// Laws
// ---------------------------------------------------------------------------

/// A number below `2^(24 + k)` has at most `k` excess bits.
proof fn lemma_excess_at_most(a: nat, k: nat)
    requires
        a < pow2(24 + k),
    ensures
        excess_bits(a) <= k,
    decreases k,
{
    vstd::arithmetic::power2::lemma2_to64();
    if a >= TWO_24 {
        if k > 0 {
            vstd::arithmetic::power2::lemma_pow2_unfold(24 + k);
            lemma_excess_at_most(a / 2, (k - 1) as nat);
        }
    }
}

/// The excess bits are those below the 24 bits that end at the top bit.
proof fn lemma_excess_is_top(a: nat)
    ensures
        excess_bits(a) == if top_bit(a) <= 23 {
            0
        } else {
            top_bit(a) - 23
        },
    decreases a,
{
    vstd::arithmetic::power2::lemma2_to64();
    if a < TWO_24 {
        if a > 0 {
            lemma_top_bit_bounds(a);
            if top_bit(a) > 23 {
                if top_bit(a) > 24 {
                    vstd::arithmetic::power2::lemma_pow2_strictly_increases(24, top_bit(a));
                }
                assert(false);
            }
        }
    } else {
        lemma_excess_is_top(a / 2);
        if a / 2 < TWO_24 {
            lemma_top_bit(a / 2, 23);
        }
    }
}

/// Rounding to a multiple of `unit` does not pass a multiple of `unit`.
proof fn lemma_nearest_within(a: nat, unit: nat, limit: nat)
    requires
        unit > 0,
        a <= limit * unit,
    ensures
        nearest_multiple(a, unit) <= limit * unit,
        nearest_multiple(a, unit) % unit == 0,
{
    lemma_split(a, unit);
    let q = a / unit;
    let r = a % unit;
    assert((q + 1) * unit == q * unit + unit) by (nonlinear_arith);
    assert(q <= limit) by (nonlinear_arith)
        requires
            q * unit <= limit * unit,
            unit > 0,
    ;
    if r > 0 {
        assert(q < limit) by (nonlinear_arith)
            requires
                q * unit < limit * unit,
                unit > 0,
        ;
        assert((q + 1) * unit <= limit * unit) by (nonlinear_arith)
            requires
                q + 1 <= limit,
                unit > 0,
        ;
    }
    vstd::arithmetic::div_mod::lemma_mod_multiples_basic(q as int, unit as int);
    vstd::arithmetic::div_mod::lemma_mod_multiples_basic((q + 1) as int, unit as int);
}

/// Rounding to 24 significant bits does not pass a power of two.
pub proof fn lemma_round24_within(a: nat, k: nat)
    requires
        a <= pow2(k),
        k >= 24,
    ensures
        round24(a) <= pow2(k),
        round24(a) % pow2(excess_bits(a)) == 0,
{
    vstd::arithmetic::power2::lemma_pow2_strictly_increases(k, k + 1);
    lemma_excess_at_most(a, (k + 1 - 24) as nat);
    let e = excess_bits(a);
    vstd::arithmetic::power2::lemma_pow2_pos(e);
    vstd::arithmetic::power2::lemma_pow2_adds((k - e) as nat, e);
    lemma_nearest_within(a, pow2(e), pow2((k - e) as nat));
}

/// A number that fits in 24 bits is not changed by rounding.
pub proof fn law_round24_exact(a: nat)
    requires
        a <= TWO_24,
    ensures
        round24(a) == a,
{
    vstd::arithmetic::power2::lemma2_to64();
    if a < TWO_24 {
        assert(a / 1 == a && a % 1 == 0);
    } else {
        assert(excess_bits(a / 2) == 0);
        assert(excess_bits(a) == 1);
        assert(a / 2 == 0x80_0000 && a % 2 == 0);
    }
}

/// What rounding gives has no bits below its 24 leading ones.
proof fn lemma_round24_has_24_bits(a: nat)
    ensures
        round24(a) % pow2(excess_bits(round24(a))) == 0,
{
    let n = round24(a);
    let e = excess_bits(a);
    let unit = pow2(e);
    vstd::arithmetic::power2::lemma_pow2_pos(e);
    vstd::arithmetic::power2::lemma2_to64();
    if a < TWO_24 {
        law_round24_exact(a);
        assert(n % 1 == 0);
    } else {
        lemma_excess_is_top(a);
        lemma_top_bit_bounds(a);
        // `a` lies in `[2^(23 + e), 2^(24 + e))`, and so does `n`, unless it is `2^(24 + e)`.
        vstd::arithmetic::power2::lemma_pow2_adds(24, e);
        vstd::arithmetic::power2::lemma_pow2_adds(23, e);
        lemma_nearest_within(a, unit, 0x100_0000);
        lemma_split(a, unit);
        let q = a / unit;
        if q < 0x80_0000 {
            assert(q * unit + unit <= 0x80_0000 * unit) by (nonlinear_arith)
                requires
                    q + 1 <= 0x80_0000,
                    unit > 0,
            ;
            assert(false);
        }
        assert(n >= q * unit && q * unit >= 0x80_0000 * unit) by (nonlinear_arith)
            requires
                q >= 0x80_0000,
                n == q * unit || n == (q + 1) * unit,
        ;
        if n < pow2(24 + e) {
            lemma_top_bit(n, 23 + e);
            lemma_excess_is_top(n);
        } else {
            assert(n == pow2(24 + e));
            vstd::arithmetic::power2::lemma_pow2_strictly_increases(24 + e, 25 + e);
            lemma_top_bit(n, 24 + e);
            lemma_excess_is_top(n);
            vstd::arithmetic::power2::lemma_pow2_adds(23, 1 + e);
            vstd::arithmetic::div_mod::lemma_mod_multiples_basic(0x80_0000, pow2(1 + e) as int);
        }
    }
}

/// A sample survives the way to a float and back up to the rounding to 24 significant
/// bits.
pub proof fn law_float_round_trip(s: i32, bits: u32)
    requires
        bits == sample_float(s),
    ensures
        float_sample(bits) == saturated(s < 0, round24(magnitude(s))),
        magnitude(s) <= TWO_24 ==> float_sample(bits) == s,
{
    let a = magnitude(s);
    let n = round24(a);
    vstd::arithmetic::power2::lemma2_to64();
    lemma_round24_within(a, 31);
    lemma_round24_has_24_bits(a);
    if a <= TWO_24 {
        law_round24_exact(a);
    }
    if n == 0 {
        vstd::arithmetic::power2::lemma_pow2_pos(118);
        vstd::arithmetic::div_mod::lemma_basic_div(0, pow2(118) as int);
        assert(scaled_floor(bits, 31) == 0);
    } else {
        let t = top_bit(n);
        lemma_top_bit_bounds(n);
        if t > 31 {
            vstd::arithmetic::power2::lemma_pow2_strictly_increases(31, t);
        }
        lemma_excess_is_top(n);
        lemma_normalized_bounds(n);
        lemma_compose(s < 0, (96 + t) as nat, (normalized(n) - TWO_23) as nat, bits);
        if t < 31 {
            if t <= 23 {
                vstd::arithmetic::power2::lemma_pow2_pos((23 - t) as nat);
                vstd::arithmetic::div_mod::lemma_div_by_multiple(
                    n as int,
                    pow2((23 - t) as nat) as int,
                );
                assert(n * pow2(0) == n);
            } else {
                vstd::arithmetic::power2::lemma_pow2_pos((t - 23) as nat);
                lemma_split(n, pow2((t - 23) as nat));
            }
            assert(scaled_floor(bits, 31) == n);
        } else {
            assert(n == TWO_31);
        }
    }
}

/// A normalized significand fills 24 bits.
proof fn lemma_normalized_bounds(n: nat)
    requires
        n > 0,
    ensures
        TWO_23 <= normalized(n) < TWO_24,
{
    let t = top_bit(n);
    lemma_top_bit_bounds(n);
    vstd::arithmetic::power2::lemma2_to64();
    if t <= 23 {
        let u = pow2((23 - t) as nat);
        vstd::arithmetic::power2::lemma_pow2_pos((23 - t) as nat);
        vstd::arithmetic::power2::lemma_pow2_adds(t, (23 - t) as nat);
        vstd::arithmetic::power2::lemma_pow2_adds(t + 1, (23 - t) as nat);
        assert(pow2(t) * u <= n * u && n * u < pow2(t + 1) * u) by (nonlinear_arith)
            requires
                u > 0,
                pow2(t) <= n < pow2(t + 1),
        ;
    } else {
        let u = pow2((t - 23) as nat);
        vstd::arithmetic::power2::lemma_pow2_pos((t - 23) as nat);
        vstd::arithmetic::power2::lemma_pow2_adds(23, (t - 23) as nat);
        vstd::arithmetic::power2::lemma_pow2_adds(24, (t - 23) as nat);
        lemma_split(n, u);
        let q = n / u;
        assert(0x80_0000 <= q < 0x100_0000) by (nonlinear_arith)
            requires
                n == q * u + n % u,
                0 <= n % u < u,
                0x80_0000 * u <= n < 0x100_0000 * u,
        ;
    }
}

/// The float of a sample fits in 32 bits.
pub proof fn lemma_sample_float_fits(s: i32)
    ensures
        0 <= sample_float(s) <= u32::MAX,
{
    let n = round24(magnitude(s));
    vstd::arithmetic::power2::lemma2_to64();
    lemma_round24_within(magnitude(s), 31);
    if n > 0 {
        lemma_top_bit_bounds(n);
        if top_bit(n) > 31 {
            vstd::arithmetic::power2::lemma_pow2_strictly_increases(31, top_bit(n));
        }
        lemma_normalized_bounds(n);
    }
}

/// The float is a whole number of sample steps: `|x| <= 1`, `|x| * 2^31` is an integer,
/// and it is not the negative zero.
pub open spec fn on_grid(bits: u32) -> bool {
    ||| bits == 0x3f80_0000 || bits == 0xbf80_0000
    ||| {
        &&& exponent(bits) < 127
        &&& bits != TWO_31
        &&& weight(bits) < 119 ==> significand(bits) % pow2((119 - weight(bits)) as nat) == 0
    }
}

/// A float that is a whole number of sample steps survives the way to a sample and back.
pub proof fn law_grid_round_trip(bits: u32)
    requires
        on_grid(bits),
    ensures
        i32::MIN <= float_sample(bits) <= i32::MAX,
        sample_float(float_sample(bits) as i32) == bits,
{
    vstd::arithmetic::power2::lemma2_to64();
    lemma_fields(bits);
    let s = float_sample(bits) as i32;
    if exponent(bits) >= 127 {
        let a = magnitude(s);
        lemma_round24_of_full_scale(a);
        vstd::arithmetic::power2::lemma_pow2_unfold(32);
        lemma_top_bit(TWO_31 as nat, 31);
        assert((TWO_31 as nat) / 256 == TWO_23);
        assert(normalized(TWO_31 as nat) == TWO_23);
    } else {
        let sig = significand(bits);
        let w = weight(bits);
        let n = scaled_floor(bits, 31);
        if sig == 0 {
            assert(bits == 0);
            vstd::arithmetic::power2::lemma_pow2_pos(118);
            vstd::arithmetic::div_mod::lemma_basic_div(0, pow2(118) as int);
            law_round24_exact(0);
        } else if w >= 119 {
            let d = (w - 119) as nat;
            let u = pow2(d);
            vstd::arithmetic::power2::lemma_pow2_pos(d);
            vstd::arithmetic::power2::lemma_pow2_adds(23, d);
            vstd::arithmetic::power2::lemma_pow2_adds(24, d);
            assert(0x80_0000 * u <= sig * u && sig * u < 0x100_0000 * u) by (nonlinear_arith)
                requires
                    u > 0,
                    0x80_0000 <= sig < 0x100_0000,
            ;
            if d < 7 {
                vstd::arithmetic::power2::lemma_pow2_strictly_increases(24 + d, 31);
            }
            assert(n < TWO_31);
            lemma_top_bit(n, 23 + d);
            lemma_excess_is_top(n);
            vstd::arithmetic::div_mod::lemma_div_by_multiple(sig as int, u as int);
            vstd::arithmetic::div_mod::lemma_mod_multiples_basic(sig as int, u as int);
            lemma_split(n, u);
            assert(round24(n) == n);
            assert(normalized(n) == sig) by {
                if d == 0 {
                    assert(sig * pow2(0) == sig);
                }
            }
        } else {
            let d = (119 - w) as nat;
            let u = pow2(d);
            vstd::arithmetic::power2::lemma_pow2_pos(d);
            lemma_split(sig, u);
            if d >= 24 {
                if d > 24 {
                    vstd::arithmetic::power2::lemma_pow2_strictly_increases(24, d);
                }
                vstd::arithmetic::div_mod::lemma_small_mod(sig, u);
                assert(false);
            }
            assert(n * u == sig);
            vstd::arithmetic::power2::lemma_pow2_adds((23 - d) as nat, d);
            vstd::arithmetic::power2::lemma_pow2_adds((24 - d) as nat, d);
            let lo = pow2((23 - d) as nat);
            let hi = pow2((24 - d) as nat);
            assert(lo <= n < hi) by (nonlinear_arith)
                requires
                    u > 0,
                    lo * u <= n * u,
                    n * u < hi * u,
            ;
            lemma_top_bit(n, (23 - d) as nat);
            if d > 0 {
                vstd::arithmetic::power2::lemma_pow2_strictly_increases((24 - d) as nat, 24);
            }
            law_round24_exact(n);
        }
        assert(magnitude(s) == n);
    }
}

/// Both ends of the sample range round to full scale.
proof fn lemma_round24_of_full_scale(a: nat)
    requires
        a == 0x7fff_ffff || a == 0x8000_0000,
    ensures
        round24(a) == TWO_31,
{
    vstd::arithmetic::power2::lemma2_to64();
    if a == 0x7fff_ffff {
        lemma_top_bit(a, 30);
        lemma_excess_is_top(a);
        assert(a / 128 == 0xff_ffff && a % 128 == 127);
    } else {
        vstd::arithmetic::power2::lemma_pow2_unfold(32);
        lemma_top_bit(a, 31);
        lemma_excess_is_top(a);
        assert(a / 256 == 0x80_0000 && a % 256 == 0);
    }
}

/// The magnitude of a float that is below 4, scaled by `2^8`, is below `2^10`.
pub proof fn lemma_scaled_floor_bound(bits: u32)
    requires
        exponent(bits) < 129,
    ensures
        scaled_floor(bits, 8) < 1024,
{
    lemma_fields(bits);
    let shift = (142 - weight(bits)) as nat;
    vstd::arithmetic::power2::lemma2_to64();
    if shift > 14 {
        vstd::arithmetic::power2::lemma_pow2_strictly_increases(14, shift);
    }
    let u = pow2(shift);
    lemma_split(significand(bits), u);
    let q = significand(bits) / u;
    assert(q < 1024) by (nonlinear_arith)
        requires
            q * u <= significand(bits),
            significand(bits) < 0x100_0000,
            u >= 0x4000,
    ;
}

/// Silence, or gain 0, gives silence.
pub proof fn law_scaling_zero(s: i32, gain: u16)
    ensures
        scaled_sample(0, gain) == 0,
        scaled_sample(s, 0) == 0,
{
    law_round24_exact(0);
    assert(0 * gain == 0);
    assert(round24(magnitude(s)) * 0 == 0);
}

/// Where neither the sample nor the product needs more than 24 bits, scaling is exact up
/// to the truncation.
pub proof fn law_scaling_exact(s: i32, gain: u16)
    requires
        magnitude(s) <= TWO_24,
        magnitude(s) * gain <= TWO_24,
    ensures
        scaled_sample(s, gain) == if s < 0 {
            -((magnitude(s) * gain) / 256)
        } else {
            (magnitude(s) * gain) / 256
        },
{
    law_round24_exact(magnitude(s));
    law_round24_exact(magnitude(s) * gain as nat);
}

/// The bit pattern of `n / 2^scale`, scaled by `2^scale`, is `n`.
pub proof fn law_exact_round_trip(n: nat, scale: nat, bits: u32)
    requires
        n <= TWO_23,
        scale <= 31,
        bits == pattern(false, n, scale),
    ensures
        !is_nan(bits),
        !negative(bits),
        scaled_floor(bits, scale) == n,
        n > 0 ==> exponent(bits) == 127 + top_bit(n) - scale,
        n >= 1024 <==> n > 0 && top_bit(n) >= 10,
{
    vstd::arithmetic::power2::lemma2_to64();
    if n == 0 {
        let d = (149 - scale) as nat;
        vstd::arithmetic::power2::lemma_pow2_pos(d);
        vstd::arithmetic::div_mod::lemma_basic_div(0, pow2(d) as int);
    } else {
        let t = top_bit(n);
        lemma_top_bit_bounds(n);
        if t > 23 {
            vstd::arithmetic::power2::lemma_pow2_strictly_increases(23, t);
        }
        if t > 10 {
            vstd::arithmetic::power2::lemma_pow2_strictly_increases(10, t);
        }
        if t + 1 < 10 {
            vstd::arithmetic::power2::lemma_pow2_strictly_increases(t + 1, 10);
        }
        lemma_normalized_bounds(n);
        lemma_compose(false, (127 + t - scale) as nat, (normalized(n) - TWO_23) as nat, bits);
        vstd::arithmetic::power2::lemma_pow2_pos((23 - t) as nat);
        vstd::arithmetic::div_mod::lemma_div_by_multiple(n as int, pow2((23 - t) as nat) as int);
        assert(n * pow2(0) == n);
    }
}

// ---------------------------------------------------------------------------
// Laws that hold a bit pattern against the number it stands for
// ---------------------------------------------------------------------------

/// The distance between two numbers.
pub open spec fn distance(a: int, b: int) -> int {
    if a >= b {
        a - b
    } else {
        b - a
    }
}

/// A number with excess bits reaches up to the 24th bit above them.
proof fn lemma_excess_lower_bound(a: nat)
    requires
        a >= TWO_24,
    ensures
        0x80_0000 * pow2(excess_bits(a)) <= a < 0x100_0000 * pow2(excess_bits(a)),
        excess_bits(a) >= 1,
{
    vstd::arithmetic::power2::lemma2_to64();
    lemma_excess_is_top(a);
    lemma_top_bit_bounds(a);
    vstd::arithmetic::power2::lemma_pow2_adds(23, excess_bits(a));
    vstd::arithmetic::power2::lemma_pow2_adds(24, excess_bits(a));
}

/// No multiple of `unit` is nearer than the nearest one, and of two the even one is taken.
proof fn lemma_nearest_is_nearest(a: nat, unit: nat, t: nat)
    requires
        unit > 0,
    ensures
        distance(nearest_multiple(a, unit) as int, a as int) <= distance((t * unit) as int, a as int),
        distance(nearest_multiple(a, unit) as int, a as int) <= a % unit,
        2 * distance(nearest_multiple(a, unit) as int, a as int) <= unit,
        ({
            let r = nearest_multiple(a, unit);
            let c = t * unit;
            c != r && distance(r as int, a as int) == distance(c as int, a as int) ==> {
                &&& distance(c as int, r as int) == unit
                &&& r % (2 * unit) == 0
            }
        }),
{
    lemma_split(a, unit);
    let q = a / unit;
    assert((q + 1) * unit == q * unit + unit) by (nonlinear_arith);
    if t <= q {
        assert(t * unit <= q * unit) by (nonlinear_arith)
            requires
                t <= q,
        ;
        if t < q {
            assert(t * unit + unit <= q * unit) by (nonlinear_arith)
                requires
                    t + 1 <= q,
            ;
        }
    } else {
        assert((q + 1) * unit <= t * unit) by (nonlinear_arith)
            requires
                q + 1 <= t,
        ;
        if t > q + 1 {
            assert((q + 1) * unit + unit <= t * unit) by (nonlinear_arith)
                requires
                    q + 2 <= t,
            ;
        }
    }
    let r = nearest_multiple(a, unit);
    let k = if r == q * unit {
        q
    } else {
        q + 1
    };
    if k % 2 == 0 {
        let h = k / 2;
        assert(k * unit == h * (2 * unit)) by (nonlinear_arith)
            requires
                k == 2 * h,
        ;
        vstd::arithmetic::div_mod::lemma_mod_multiples_basic(h as int, (2 * unit) as int);
    }
}

/// `round24` rounds to nearest: it gives a number of at most 24 significant bits, and no
/// other such number, `m * 2^k`, is nearer to `a`. Of two that are equally near it gives the
/// one that is the even multiple of their distance.
pub proof fn law_round24_nearest(a: nat, m: nat, k: nat)
    requires
        m <= 0x100_0000,
    ensures
        exists|j: nat| #[trigger]
            pow2(j) > 0 && round24(a) % pow2(j) == 0 && round24(a) <= 0x100_0000 * pow2(j),
        distance(round24(a) as int, a as int) <= distance((m * pow2(k)) as int, a as int),
        m * pow2(k) != round24(a) && distance(round24(a) as int, a as int) == distance(
            (m * pow2(k)) as int,
            a as int,
        ) ==> round24(a) as int % (2 * distance((m * pow2(k)) as int, round24(a) as int)) == 0,
{
    vstd::arithmetic::power2::lemma2_to64();
    let e = excess_bits(a);
    let u = pow2(e);
    let c = m * pow2(k);
    vstd::arithmetic::power2::lemma_pow2_pos(e);
    vstd::arithmetic::power2::lemma_pow2_pos(k);
    if a < TWO_24 {
        law_round24_exact(a);
        assert(round24(a) % 1 == 0);
        assert(pow2(0) > 0 && round24(a) % pow2(0) == 0 && round24(a) <= 0x100_0000 * pow2(0));
    } else {
        lemma_excess_lower_bound(a);
        lemma_nearest_within(a, u, 0x100_0000);
        assert(pow2(e) > 0 && round24(a) % pow2(e) == 0 && round24(a) <= 0x100_0000 * pow2(e));
        if k >= e {
            vstd::arithmetic::power2::lemma_pow2_adds((k - e) as nat, e);
            let t = m * pow2((k - e) as nat);
            assert(c == t * u) by (nonlinear_arith)
                requires
                    c == m * pow2(k),
                    pow2(k) == pow2((k - e) as nat) * u,
                    t == m * pow2((k - e) as nat),
            ;
            lemma_nearest_is_nearest(a, u, t);
        } else {
            // `c` is not above the lowest number with as many excess bits as `a`.
            lemma_split(a, u);
            let q = a / u;
            vstd::arithmetic::power2::lemma_pow2_unfold(e);
            if k < e - 1 {
                vstd::arithmetic::power2::lemma_pow2_strictly_increases(k, (e - 1) as nat);
            }
            let h = pow2((e - 1) as nat);
            assert(c <= 0x100_0000 * h) by (nonlinear_arith)
                requires
                    c == m * pow2(k),
                    m <= 0x100_0000,
                    pow2(k) <= h,
            ;
            assert(c <= 0x80_0000 * u);
            assert(q >= 0x80_0000) by (nonlinear_arith)
                requires
                    q * u + a % u == a,
                    a % u < u,
                    0x80_0000 * u <= a,
                    u > 0,
            ;
            assert(q * u >= 0x80_0000 * u) by (nonlinear_arith)
                requires
                    q >= 0x80_0000,
            ;
            lemma_nearest_is_nearest(a, u, q);
        }
    }
}

/// Rounding changes a number by at most one part in `2^24`.
pub proof fn law_round24_error(a: nat)
    ensures
        distance(round24(a) as int, a as int) * 0x100_0000 <= a,
{
    if a < TWO_24 {
        law_round24_exact(a);
    } else {
        lemma_excess_lower_bound(a);
        let u = pow2(excess_bits(a));
        vstd::arithmetic::power2::lemma_pow2_pos(excess_bits(a));
        lemma_nearest_is_nearest(a, u, 0);
    }
}

/// Rounding keeps the order of numbers.
pub proof fn law_round24_monotone(a: nat, b: nat)
    requires
        a <= b,
    ensures
        round24(a) <= round24(b),
{
    vstd::arithmetic::power2::lemma2_to64();
    let ea = excess_bits(a);
    let eb = excess_bits(b);
    let ua = pow2(ea);
    let ub = pow2(eb);
    vstd::arithmetic::power2::lemma_pow2_pos(ea);
    vstd::arithmetic::power2::lemma_pow2_pos(eb);
    if a < TWO_24 {
        law_round24_exact(a);
        if b < TWO_24 {
            law_round24_exact(b);
        } else {
            lemma_excess_lower_bound(b);
            lemma_floor_below(b, ub, 0x80_0000);
            assert(0x80_0000 * ub >= 0x100_0000) by {
                vstd::arithmetic::power2::lemma_pow2_unfold(eb);
                vstd::arithmetic::power2::lemma_pow2_pos((eb - 1) as nat);
            }
        }
    } else {
        lemma_excess_lower_bound(a);
        lemma_excess_lower_bound(b);
        if ea == eb {
            lemma_nearest_monotone(a, b, ua);
        } else if ea < eb {
            vstd::arithmetic::power2::lemma_pow2_unfold(eb);
            if ea < eb - 1 {
                vstd::arithmetic::power2::lemma_pow2_strictly_increases(ea, (eb - 1) as nat);
            }
            lemma_nearest_within(a, ua, 0x100_0000);
            lemma_floor_below(b, ub, 0x80_0000);
        } else {
            vstd::arithmetic::power2::lemma_pow2_unfold(ea);
            if eb < ea - 1 {
                vstd::arithmetic::power2::lemma_pow2_strictly_increases(eb, (ea - 1) as nat);
            }
        }
    }
}

/// Rounding to a multiple of `unit` does not fall below a multiple of `unit`.
proof fn lemma_floor_below(a: nat, unit: nat, limit: nat)
    requires
        unit > 0,
        limit * unit <= a,
    ensures
        limit * unit <= nearest_multiple(a, unit),
{
    lemma_split(a, unit);
    let q = a / unit;
    assert((q + 1) * unit == q * unit + unit) by (nonlinear_arith);
    assert(q >= limit) by (nonlinear_arith)
        requires
            q * unit + a % unit == a,
            a % unit < unit,
            limit * unit <= a,
            unit > 0,
    ;
    assert(q * unit >= limit * unit) by (nonlinear_arith)
        requires
            q >= limit,
    ;
}

/// Rounding to a multiple of one unit keeps the order of numbers.
proof fn lemma_nearest_monotone(a: nat, b: nat, unit: nat)
    requires
        unit > 0,
        a <= b,
    ensures
        nearest_multiple(a, unit) <= nearest_multiple(b, unit),
{
    lemma_split(a, unit);
    lemma_split(b, unit);
    let qa = a / unit;
    let qb = b / unit;
    vstd::arithmetic::div_mod::lemma_div_is_ordered(a as int, b as int, unit as int);
    assert((qa + 1) * unit == qa * unit + unit) by (nonlinear_arith);
    assert((qb + 1) * unit == qb * unit + unit) by (nonlinear_arith);
    if qa < qb {
        assert((qa + 1) * unit <= qb * unit) by (nonlinear_arith)
            requires
                qa + 1 <= qb,
        ;
    }
}

/// A float becomes the sample whose magnitude is the whole part of `|x| * 2^31`: with
/// `|x| == m * 2^(w - 150)`, the sample's magnitude times `2^(119 - w)` is at most `m`, and
/// the next one is above. From `|x| == 1` on it is the end of the range, and what is not a
/// number is silence.
pub proof fn law_float_to_sample(bits: u32)
    ensures
        ({
            let s = float_sample(bits);
            let e = (bits as int / 0x80_0000) % 256;
            let f = bits as int % 0x80_0000;
            let m = if e == 0 { f } else { f + 0x80_0000 };
            let w = if e == 0 { 1 } else { e };
            let size = if s < 0 { -s } else { s };
            &&& e == 255 && f != 0 ==> s == 0
            &&& e >= 127 && !(e == 255 && f != 0) ==> s == if bits >= 0x8000_0000 {
                -0x8000_0000int
            } else {
                0x7fff_ffff
            }
            &&& e < 127 && bits >= 0x8000_0000 ==> s <= 0
            &&& e < 127 && bits < 0x8000_0000 ==> s >= 0
            &&& 119 <= w < 127 ==> size == m * pow2((w - 119) as nat)
            &&& w < 119 ==> size * pow2((119 - w) as nat) <= m && m < (size + 1) * pow2(
                (119 - w) as nat,
            )
        }),
{
    lemma_fields(bits);
    vstd::arithmetic::power2::lemma2_to64();
    if exponent(bits) < 127 {
        let w = weight(bits);
        let m = significand(bits);
        let n = scaled_floor(bits, 31);
        if w >= 119 {
            let u = pow2((w - 119) as nat);
            if w < 126 {
                vstd::arithmetic::power2::lemma_pow2_strictly_increases((w - 119) as nat, 7);
            }
            assert(m * u < 0x100_0000 * 128) by (nonlinear_arith)
                requires
                    m < 0x100_0000,
                    0 < u <= 128,
            ;
            assert(n == m * u);
        } else {
            let u = pow2((119 - w) as nat);
            vstd::arithmetic::power2::lemma_pow2_pos((119 - w) as nat);
            lemma_split(m, u);
            assert(n == m / u);
            assert((n + 1) * u == n * u + u) by (nonlinear_arith);
            assert(n <= m) by (nonlinear_arith)
                requires
                    n * u <= m,
                    u >= 1,
            ;
        }
        assert(n < TWO_31);
    }
}

/// A sample becomes the float with its sign that stands for its magnitude, rounded to 24
/// significant bits, over `2^31`: with `|x| == m * 2^(e - 150)`, `m * 2^(e - 119)` is the
/// rounded magnitude. Silence becomes the positive zero.
pub proof fn law_sample_to_float(s: i32, bits: u32)
    requires
        bits == sample_float(s),
    ensures
        s == 0 <==> bits == 0,
        s != 0 ==> {
            let e = (bits as int / 0x80_0000) % 256;
            let m = bits as int % 0x80_0000 + 0x80_0000;
            let n = round24((if s < 0 { -s } else { s as int }) as nat);
            &&& bits >= 0x8000_0000 <==> s < 0
            &&& 96 <= e <= 127
            &&& e >= 119 ==> m * pow2((e - 119) as nat) == n
            &&& e < 119 ==> m == n * pow2((119 - e) as nat)
        },
{
    let a = magnitude(s);
    let n = round24(a);
    vstd::arithmetic::power2::lemma2_to64();
    if s == 0 {
        law_round24_exact(0);
    } else {
        lemma_round24_within(a, 31);
        lemma_round24_has_24_bits(a);
        law_round24_monotone(1, a);
        law_round24_exact(1);
        let t = top_bit(n);
        lemma_top_bit_bounds(n);
        if t > 31 {
            vstd::arithmetic::power2::lemma_pow2_strictly_increases(31, t);
        }
        lemma_excess_is_top(n);
        lemma_normalized_bounds(n);
        lemma_compose(s < 0, (96 + t) as nat, (normalized(n) - TWO_23) as nat, bits);
        if t >= 23 {
            let u = pow2((t - 23) as nat);
            vstd::arithmetic::power2::lemma_pow2_pos((t - 23) as nat);
            lemma_split(n, u);
            if t == 23 {
                assert(n * pow2(0) == n);
                assert(normalized(n) * pow2(0) == normalized(n));
            }
        }
    }
}

/// The bit pattern of `n / 2^scale` has that very value.
pub proof fn lemma_pattern_is_exact(n: nat, scale: nat, bits: u32)
    requires
        0 < n <= TWO_23,
        scale <= 31,
        bits == pattern(false, n, scale),
    ensures
        ({
            let e = (bits as int / 0x80_0000) % 256;
            let m = bits as int % 0x80_0000 + 0x80_0000;
            &&& bits < 0x8000_0000
            &&& 0 < e <= 150 - scale
            &&& m == n * pow2((150 - scale - e) as nat)
        }),
{
    vstd::arithmetic::power2::lemma2_to64();
    let t = top_bit(n);
    lemma_top_bit_bounds(n);
    if t > 23 {
        vstd::arithmetic::power2::lemma_pow2_strictly_increases(23, t);
    }
    lemma_normalized_bounds(n);
    lemma_compose(false, (127 + t - scale) as nat, (normalized(n) - TWO_23) as nat, bits);
}

/// The number that a pattern stands for, in units of `2^-149`.
pub open spec fn number(bits: u32) -> int {
    let e = (bits as int / 0x80_0000) % 256;
    let f = bits as int % 0x80_0000;
    let m = if e == 0 { f } else { (f + 0x80_0000) * pow2((e - 1) as nat) };
    if bits >= 0x8000_0000 {
        -m
    } else {
        m
    }
}

/// Among patterns without a sign the greater one stands for the greater number.
proof fn lemma_number_increases(a: u32, b: u32)
    requires
        a < b < 0x8000_0000,
    ensures
        0 <= number(a) < number(b),
{
    let ea = (a as int / 0x80_0000) % 256;
    let eb = (b as int / 0x80_0000) % 256;
    let fa = a as int % 0x80_0000;
    let fb = b as int % 0x80_0000;
    assert(a == ea * 0x80_0000 + fa);
    assert(b == eb * 0x80_0000 + fb);
    assert(ea <= eb);
    vstd::arithmetic::power2::lemma2_to64();
    if eb > 0 {
        let ub = pow2((eb - 1) as nat);
        vstd::arithmetic::power2::lemma_pow2_pos((eb - 1) as nat);
        assert((fb + 0x80_0000) * ub >= 0x80_0000 * ub) by (nonlinear_arith)
            requires
                fb >= 0,
                ub > 0,
        ;
        if ea > 0 {
            let ua = pow2((ea - 1) as nat);
            vstd::arithmetic::power2::lemma_pow2_pos((ea - 1) as nat);
            if ea == eb {
                assert((fa + 0x80_0000) * ua < (fb + 0x80_0000) * ub) by (nonlinear_arith)
                    requires
                        fa < fb,
                        ua == ub,
                        ua > 0,
                ;
            } else {
                vstd::arithmetic::power2::lemma_pow2_unfold((eb - 1) as nat);
                if ea < eb - 1 {
                    vstd::arithmetic::power2::lemma_pow2_strictly_increases(
                        (ea - 1) as nat,
                        (eb - 2) as nat,
                    );
                }
                let h = pow2((eb - 2) as nat);
                assert((fa + 0x80_0000) * ua < 0x100_0000 * h) by (nonlinear_arith)
                    requires
                        fa < 0x80_0000,
                        0 < ua <= h,
                ;
            }
            assert((fa + 0x80_0000) * ua >= 0) by (nonlinear_arith)
                requires
                    fa >= 0,
                    ua > 0,
            ;
        } else if ub > 1 {
            assert(0x80_0000 * ub > 0x80_0000);
        }
    }
}

/// `less` orders patterns as the numbers they stand for, and holds of none that is not a
/// number.
pub proof fn law_less_is_numeric(a: u32, b: u32)
    ensures
        less(a, b) <==> {
            &&& a as int % 0x8000_0000 <= 0x7f80_0000
            &&& b as int % 0x8000_0000 <= 0x7f80_0000
            &&& number(a) < number(b)
        },
{
    let a0 = (a as int % 0x8000_0000) as u32;
    let b0 = (b as int % 0x8000_0000) as u32;
    lemma_fields(a);
    lemma_fields(b);
    assert(number(a) == if a >= 0x8000_0000 { -number(a0) } else { number(a0) });
    assert(number(b) == if b >= 0x8000_0000 { -number(b0) } else { number(b0) });
    assert(number(0) == 0);
    if a0 > 0 {
        lemma_number_increases(0, a0);
    }
    if b0 > 0 {
        lemma_number_increases(0, b0);
    }
    if a0 < b0 {
        lemma_number_increases(a0, b0);
    }
    if b0 < a0 {
        lemma_number_increases(b0, a0);
    }
}

} // verus!
