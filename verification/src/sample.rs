//! Samples as IEEE 754 binary32 bit patterns, and their exact quantisation.
//!
//! A sample is held as the 32 bits of a binary32 number. Every finite
//! binary32 number is an integer multiple of `2^-149`, so its value is told
//! here by one integer, [`scaled_value`], the value times `2^149`. Scaling a
//! sample to an integer range and rounding it is then a statement about
//! integers, and the executable code is proved to compute exactly that.
//!
//! Rounding is to the nearest integer, with a tie going away from zero.

use vstd::arithmetic::div_mod::lemma_basic_div;
use vstd::arithmetic::div_mod::lemma_div_is_ordered;
use vstd::arithmetic::div_mod::lemma_div_multiples_vanish;
use vstd::arithmetic::div_mod::lemma_div_multiples_vanish_quotient;
use vstd::arithmetic::div_mod::lemma_fundamental_div_mod;
use vstd::arithmetic::div_mod::lemma_mod_bound;
use vstd::arithmetic::power2::lemma2_to64;
use vstd::arithmetic::power2::lemma2_to64_rest;
use vstd::arithmetic::power2::lemma_pow2_adds;
use vstd::arithmetic::power2::lemma_pow2_pos;
use vstd::arithmetic::power2::lemma_pow2_strictly_increases;
use vstd::arithmetic::power2::pow2;
use vstd::bits::lemma_u64_shl_is_mul;
use vstd::bits::lemma_u64_shr_is_div;
use vstd::prelude::*;

verus! {

/// The largest value of a signed 16-bit sample.
pub const S16_FULL_SCALE: u32 = 32767;

/// The largest value of a signed 24-bit sample.
pub const S24_FULL_SCALE: u32 = 8388607;

/// The largest value of a signed 32-bit sample.
pub const S32_FULL_SCALE: u32 = 2147483647;

/// Whether the sign bit is set.
pub open spec fn is_negative(bits: u32) -> bool {
    bits >= 0x8000_0000u32
}

/// The eight exponent bits, as a number.
pub open spec fn exponent_field(bits: u32) -> nat {
    ((bits / 0x80_0000u32) % 0x100u32) as nat
}

/// The twenty-three fraction bits, as a number.
pub open spec fn fraction_field(bits: u32) -> nat {
    (bits % 0x80_0000u32) as nat
}

/// Whether the bit pattern is not a number.
pub open spec fn is_nan(bits: u32) -> bool {
    exponent_field(bits) == 255 && fraction_field(bits) != 0
}

/// Whether the bit pattern is positive or negative infinity.
pub open spec fn is_infinite(bits: u32) -> bool {
    exponent_field(bits) == 255 && fraction_field(bits) == 0
}

/// Whether the bit pattern is a number with a finite value.
pub open spec fn is_finite(bits: u32) -> bool {
    exponent_field(bits) < 255
}

/// The significand as an integer: the fraction bits, with the implicit
/// leading bit where the number is normal.
pub open spec fn significand(bits: u32) -> nat {
    if exponent_field(bits) == 0 {
        fraction_field(bits)
    } else {
        0x80_0000 + fraction_field(bits)
    }
}

/// The power of two by which the significand is multiplied to give the
/// magnitude in units of `2^-149`.
pub open spec fn binade(bits: u32) -> nat {
    if exponent_field(bits) == 0 {
        0
    } else {
        (exponent_field(bits) - 1) as nat
    }
}

/// What `1.0` is in units of `2^-149`.
pub open spec fn unit() -> nat {
    pow2(149)
}

/// The magnitude of a finite sample, in units of `2^-149`.
pub open spec fn scaled_magnitude(bits: u32) -> nat {
    significand(bits) * pow2(binade(bits))
}

/// The value of a finite sample, in units of `2^-149`: the sample is
/// `scaled_value(bits) / unit()`.
pub open spec fn scaled_value(bits: u32) -> int {
    if is_negative(bits) {
        -(scaled_magnitude(bits) as int)
    } else {
        scaled_magnitude(bits) as int
    }
}

/// The integer nearest to `num / den`; of two that are equally near, the one
/// farther from zero.
pub open spec fn round_half_away(num: int, den: int) -> int
    recommends
        den > 0,
{
    if num >= 0 {
        (2 * num + den) / (2 * den)
    } else {
        -((2 * (-num) + den) / (2 * den))
    }
}

/// `x`, or the nearer of `lo` and `hi` where `x` lies outside them.
pub open spec fn clamp(x: int, lo: int, hi: int) -> int
    recommends
        lo <= hi,
{
    if x < lo {
        lo
    } else if x > hi {
        hi
    } else {
        x
    }
}

/// The signed integer that stands for a sample in a format whose largest
/// value is `full_scale` and whose smallest is `-full_scale - 1`.
///
/// A finite sample is multiplied by `full_scale`, rounded to the nearest
/// integer with ties away from zero, and held to the format's range. An
/// infinity goes to the end of the range on its side; what is not a number
/// goes to zero.
pub open spec fn quantize(bits: u32, full_scale: int) -> int {
    if is_nan(bits) {
        0
    } else if is_infinite(bits) {
        if is_negative(bits) {
            -full_scale - 1
        } else {
            full_scale
        }
    } else {
        clamp(
            round_half_away(scaled_value(bits) * full_scale, unit() as int),
            -full_scale - 1,
            full_scale,
        )
    }
}

/// The rounded magnitude of `n / den`, for `n` that is not negative.
spec fn rounded(n: int, den: int) -> int {
    (2 * n + den) / (2 * den)
}

proof fn lemma_round_by_magnitude(n: int, den: int)
    requires
        n >= 0,
        den > 0,
    ensures
        round_half_away(n, den) == rounded(n, den),
        round_half_away(-n, den) == -rounded(n, den),
        rounded(n, den) >= 0,
{
    if n == 0 {
        lemma_basic_div(den, 2 * den);
    }
    lemma_div_is_ordered(0, 2 * n + den, 2 * den);
}

/// The scaled value times `k` is the scaled magnitude times `k`, with the
/// sample's sign.
proof fn lemma_signed_product(bits: u32, k: int)
    requires
        k >= 0,
    ensures
        ({
            let n = (significand(bits) as int * pow2(binade(bits))) * k;
            &&& n >= 0
            &&& scaled_value(bits) * k == if is_negative(bits) {
                -n
            } else {
                n
            }
        }),
{
    let s = significand(bits) as int;
    let p = pow2(binade(bits)) as int;
    assert(scaled_magnitude(bits) == s * p);
    assert((s * p) * k >= 0 && (-(s * p)) * k == -((s * p) * k)) by (nonlinear_arith)
        requires
            s >= 0,
            p >= 0,
            k >= 0,
    ;
}

/// With the numerator `sig * 2^e * k` and the denominator `2^149`, the common
/// factor `2^(e + 1)` cancels out of the rounding quotient.
proof fn lemma_rounded_cancels(sig: int, e: nat, k: int)
    requires
        sig >= 0,
        k >= 0,
        e <= 126,
    ensures
        rounded((sig * pow2(e)) * k, pow2(149) as int) == (sig * k + pow2((148 - e) as nat)) / (
        pow2((149 - e) as nat) as int),
{
    let p = pow2(e) as int;
    let c = pow2(e + 1) as int;
    let half = pow2((148 - e) as nat) as int;
    let d = pow2((149 - e) as nat) as int;
    let u = pow2(149) as int;
    let a = sig * k + half;
    lemma_pow2_pos(e + 1);
    lemma_pow2_pos((149 - e) as nat);
    lemma_pow2_pos((148 - e) as nat);
    lemma_pow2_adds(e, 1);
    lemma_pow2_adds(e + 1, (148 - e) as nat);
    lemma_pow2_adds(e + 1, (149 - e) as nat);
    lemma_pow2_adds(149, 1);
    lemma2_to64();
    assert(c == 2 * p);
    assert(c * half == u);
    assert(c * d == 2 * u);
    assert(c * a == 2 * ((sig * p) * k) + u) by (nonlinear_arith)
        requires
            c == 2 * p,
            c * half == u,
            a == sig * k + half,
    ;
    assert(a >= 0) by (nonlinear_arith)
        requires
            a == sig * k + half,
            sig >= 0,
            k >= 0,
            half >= 0,
    ;
    lemma_div_multiples_vanish_quotient(c, a, d);
}

/// A magnitude of two or more, scaled by `k >= 1`, rounds to `2 * k` or more.
proof fn lemma_rounded_saturates(sig: int, e: nat, k: int)
    requires
        sig >= 0x80_0000,
        e >= 127,
        k >= 1,
    ensures
        rounded((sig * pow2(e)) * k, pow2(149) as int) >= 2 * k,
{
    let u = pow2(149) as int;
    let p = pow2(e) as int;
    let n = (sig * p) * k;
    lemma_pow2_pos(149);
    lemma_pow2_adds(23, 127);
    lemma_pow2_adds(149, 1);
    lemma2_to64();
    if e > 127 {
        lemma_pow2_strictly_increases(127, e);
    }
    assert(pow2(150) == 2 * u);
    assert(pow2(23) * pow2(127) == 2 * u);
    assert(sig * p >= 2 * u) by (nonlinear_arith)
        requires
            sig >= pow2(23),
            p >= pow2(127),
            pow2(23) * pow2(127) == 2 * u,
    ;
    assert(n >= (2 * u) * k) by (nonlinear_arith)
        requires
            n == (sig * p) * k,
            sig * p >= 2 * u,
            k >= 1,
    ;
    assert((2 * u) * (2 * k) <= 2 * n + u) by (nonlinear_arith)
        requires
            n >= (2 * u) * k,
            u > 0,
    ;
    lemma_div_is_ordered((2 * u) * (2 * k), 2 * n + u, 2 * u);
    lemma_div_multiples_vanish(2 * k, 2 * u);
}

/// A quotient lies between the bounds of its numerator: for `d > 0`,
/// `lo * d <= x` gives `lo <= x / d`, and `x < hi * d` gives `x / d < hi`.
proof fn lemma_div_between(x: int, d: int, lo: int, hi: int)
    requires
        d > 0,
    ensures
        lo * d <= x ==> lo <= x / d,
        x < hi * d ==> x / d < hi,
{
    lemma_fundamental_div_mod(x, d);
    lemma_mod_bound(x, d);
    let q = x / d;
    let r = x % d;
    assert(lo * d <= x ==> lo <= q) by (nonlinear_arith)
        requires
            x == d * q + r,
            0 <= r < d,
    ;
    assert(x < hi * d ==> q < hi) by (nonlinear_arith)
        requires
            x == d * q + r,
            0 <= r < d,
    ;
}

/// Rounding moves a quotient by at most a half: `round_half_away(num, den)`
/// times `den` differs from `num` by at most `den / 2`.
pub proof fn lemma_round_half_away_is_nearest(num: int, den: int)
    requires
        den > 0,
    ensures
        -den <= 2 * (round_half_away(num, den) * den - num) <= den,
{
    let n = if num >= 0 {
        num
    } else {
        -num
    };
    let q = rounded(n, den);
    lemma_round_by_magnitude(n, den);
    lemma_fundamental_div_mod(2 * n + den, 2 * den);
    lemma_mod_bound(2 * n + den, 2 * den);
    let r = (2 * n + den) % (2 * den);
    assert(2 * (q * den) == (2 * den) * q) by (nonlinear_arith);
    assert(2 * (q * den - n) == den - r);
    assert((-q) * den == -(q * den)) by (nonlinear_arith);
}

/// The quantisation error is at most half a step.
///
/// For a finite sample `x` in `[-1.0, 1.0]`, the integer `q` that stands for
/// it at `full_scale` stays within `[-full_scale, full_scale]`, and
/// `q / full_scale` differs from `x` by at most `1 / (2 * full_scale)`, so
/// also by at most one step `1 / full_scale`. Both sides are stated times
/// `full_scale * unit()`, in integers.
pub proof fn lemma_quantize_error_within_step(bits: u32, full_scale: int)
    requires
        full_scale >= 1,
        is_finite(bits),
        scaled_magnitude(bits) <= unit(),
    ensures
        ({
            let q = quantize(bits, full_scale);
            let error = q * unit() - scaled_value(bits) * full_scale;
            &&& -full_scale <= q <= full_scale
            &&& -(unit() as int) <= 2 * error <= unit()
            &&& -(unit() as int) <= error <= unit()
        }),
{
    let u = unit() as int;
    let mag = scaled_magnitude(bits) as int;
    let n = mag * full_scale;
    lemma_pow2_pos(149);
    lemma_signed_product(bits, full_scale);
    lemma_round_by_magnitude(n, u);
    lemma_round_half_away_is_nearest(scaled_value(bits) * full_scale, u);
    assert(n <= full_scale * u) by (nonlinear_arith)
        requires
            n == mag * full_scale,
            0 <= mag <= u,
            full_scale >= 1,
    ;
    assert(2 * n + u < (full_scale + 1) * (2 * u)) by (nonlinear_arith)
        requires
            n <= full_scale * u,
            u > 0,
    ;
    lemma_div_between(2 * n + u, 2 * u, 0, full_scale + 1);
}

/// Samples beyond the range are held to it, never wrapped.
///
/// Whatever the sample, the result lies in `[-full_scale - 1, full_scale]`.
/// A sample at or above `1.0` gives `full_scale`. A sample at or below `-1.0`
/// gives `-full_scale` or `-full_scale - 1`, and it gives the latter exactly
/// from `-(1 + 1 / (2 * full_scale))` downwards, so for `-2.0`.
pub proof fn lemma_quantize_saturates(bits: u32, full_scale: int)
    requires
        full_scale >= 1,
    ensures
        ({
            let q = quantize(bits, full_scale);
            let beyond = is_infinite(bits) || (is_finite(bits) && scaled_magnitude(bits) >= unit());
            let far_beyond = is_infinite(bits) || (is_finite(bits) && 2 * (scaled_magnitude(bits)
                * full_scale) >= (2 * full_scale + 1) * unit());
            &&& -full_scale - 1 <= q <= full_scale
            &&& beyond && !is_negative(bits) ==> q == full_scale
            &&& beyond && is_negative(bits) ==> q <= -full_scale
            &&& is_negative(bits) && !is_nan(bits) ==> (q == -full_scale - 1 <==> far_beyond)
        }),
{
    let u = unit() as int;
    let mag = scaled_magnitude(bits) as int;
    let n = mag * full_scale;
    lemma_pow2_pos(149);
    if is_finite(bits) {
        lemma_signed_product(bits, full_scale);
        lemma_round_by_magnitude(n, u);
        lemma_div_between(2 * n + u, 2 * u, full_scale, full_scale + 1);
        lemma_div_between(2 * n + u, 2 * u, full_scale + 1, full_scale + 1);
        assert(mag >= u ==> full_scale * (2 * u) <= 2 * n + u) by (nonlinear_arith)
            requires
                n == mag * full_scale,
                full_scale >= 1,
                u > 0,
        ;
        assert((full_scale + 1) * (2 * u) == (2 * full_scale + 1) * u + u) by (nonlinear_arith);
    }
}

/// Quantises one sample: see [`quantize`].
pub fn quantize_sample(bits: u32, full_scale: u32) -> (q: i32)
    requires
        1 <= full_scale <= 0x7fff_ffff,
    ensures
        q == quantize(bits, full_scale as int),
        -(full_scale as int) - 1 <= q <= full_scale,
{
    let exp: u32 = (bits >> 23) & 0xff;
    let frac: u32 = bits & 0x7f_ffff;
    let negative: bool = (bits >> 31) != 0;
    let top: i32 = full_scale as i32;
    let bottom: i32 = -top - 1;
    proof {
        assert(((bits >> 23u32) & 0xffu32) == (bits / 0x80_0000u32) % 0x100u32) by (bit_vector);
        assert((bits & 0x7f_ffffu32) == bits % 0x80_0000u32) by (bit_vector);
        assert(((bits >> 31u32) != 0u32) == (bits >= 0x8000_0000u32)) by (bit_vector);
        assert(exp == exponent_field(bits));
        assert(frac == fraction_field(bits));
        assert(negative == is_negative(bits));
    }
    if exp == 255 {
        if frac != 0 {
            0
        } else if negative {
            bottom
        } else {
            top
        }
    } else if exp >= 128 {
        proof {
            let n = (significand(bits) as int * pow2(binade(bits))) * (full_scale as int);
            lemma_pow2_pos(149);
            lemma_rounded_saturates(significand(bits) as int, binade(bits), full_scale as int);
            lemma_round_by_magnitude(n, unit() as int);
            lemma_signed_product(bits, full_scale as int);
        }
        if negative {
            bottom
        } else {
            top
        }
    } else {
        let sig: u64 = if exp == 0 {
            frac as u64
        } else {
            (frac as u64) + 0x80_0000
        };
        let shift: u64 = if exp == 0 {
            149
        } else {
            150 - (exp as u64)
        };
        let ghost e = binade(bits);
        let ghost n = (significand(bits) as int * pow2(binade(bits))) * (full_scale as int);
        let ghost m = rounded(n, unit() as int);
        proof {
            assert(sig == significand(bits));
            assert(shift == 149 - e);
            lemma_pow2_pos(149);
            lemma_rounded_cancels(sig as int, e, full_scale as int);
            lemma_round_by_magnitude(n, unit() as int);
            lemma_signed_product(bits, full_scale as int);
            assert(sig * full_scale < 0x80_0000_0000_0000) by (nonlinear_arith)
                requires
                    sig < 0x100_0000,
                    full_scale <= 0x7fff_ffff,
            ;
            assert(m == (sig * full_scale + pow2((shift - 1) as nat)) / (pow2(shift as nat) as int));
        }
        let product: u64 = sig * (full_scale as u64);
        let mag: u64 = if shift >= 56 {
            proof {
                lemma2_to64_rest();
                if shift - 1 > 55 {
                    lemma_pow2_strictly_increases(55, (shift - 1) as nat);
                }
                lemma_pow2_adds((shift - 1) as nat, 1);
                lemma2_to64();
                lemma_basic_div(
                    sig * full_scale + pow2((shift - 1) as nat),
                    pow2(shift as nat) as int,
                );
            }
            0
        } else {
            proof {
                lemma2_to64_rest();
                if shift - 1 < 54 {
                    lemma_pow2_strictly_increases((shift - 1) as nat, 54);
                }
                lemma_u64_shl_is_mul(1, (shift - 1) as u64);
            }
            let half: u64 = 1u64 << (shift - 1);
            let sum: u64 = product + half;
            proof {
                lemma_u64_shr_is_div(sum, shift);
            }
            sum >> shift
        };
        assert(mag == m);
        if mag > full_scale as u64 {
            if negative {
                bottom
            } else {
                top
            }
        } else if negative {
            -(mag as i32)
        } else {
            mag as i32
        }
    }
}

} // verus!
