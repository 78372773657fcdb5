//! Narrowing of double-precision numbers to single precision, on bit patterns.

use vstd::arithmetic::power2::pow2;
use vstd::prelude::*;

verus! {

/// The sign bit of a double-precision bit pattern.
pub open spec fn f64_negative(bits: u64) -> bool {
    bits >= 0x8000_0000_0000_0000
}

/// The biased exponent of a double-precision bit pattern.
pub open spec fn f64_exponent(bits: u64) -> int {
    (bits as int / 0x10_0000_0000_0000) % 0x800
}

/// The fraction field of a double-precision bit pattern.
pub open spec fn f64_fraction(bits: u64) -> int {
    bits as int % 0x10_0000_0000_0000
}

/// The significand of a finite double-precision number, as an integer.
pub open spec fn f64_significand(bits: u64) -> int {
    if f64_exponent(bits) == 0 {
        f64_fraction(bits)
    } else {
        0x10_0000_0000_0000 + f64_fraction(bits)
    }
}

/// The exponent that scales the significand: subnormal numbers share the lowest one.
pub open spec fn f64_scale(bits: u64) -> int {
    if f64_exponent(bits) == 0 {
        1
    } else {
        f64_exponent(bits)
    }
}

/// The value of a finite double-precision number in units of `2^-1074`, the
/// smallest positive one.
pub open spec fn f64_units(bits: u64) -> int
    recommends
        f64_exponent(bits) < 2047,
{
    let magnitude = f64_significand(bits) * pow2((f64_scale(bits) - 1) as nat);
    if f64_negative(bits) {
        -magnitude
    } else {
        magnitude
    }
}

/// A double-precision number is a sign bit, eleven bits of exponent and 52 bits
/// of fraction, from the highest bit down. Its value is the fraction, with a
/// leading one put before it unless the exponent is zero, doubled once for every
/// step of the exponent above one.
pub proof fn law_f64_fields(bits: u64, negative: bool, exponent: int, fraction: int)
    requires
        0 <= exponent < 0x800,
        0 <= fraction < 0x10_0000_0000_0000,
        bits == exponent * 0x10_0000_0000_0000 + fraction + (if negative {
            0x8000_0000_0000_0000int
        } else {
            0
        }),
    ensures
        f64_negative(bits) == negative,
        f64_exponent(bits) == exponent,
        f64_fraction(bits) == fraction,
        exponent == 0 ==> f64_units(bits) == (if negative {
            -fraction
        } else {
            fraction
        }),
        0 < exponent < 2047 ==> f64_units(bits) == (if negative {
            -((0x10_0000_0000_0000 + fraction) * pow2((exponent - 1) as nat))
        } else {
            (0x10_0000_0000_0000 + fraction) * pow2((exponent - 1) as nat)
        }),
{
    vstd::arithmetic::power2::lemma2_to64();
    if exponent == 0 {
        assert(fraction * pow2(0) == fraction);
    }
}

/// `numerator / denominator`, rounded to the nearest integer, and to the even
/// one of two that are equally near.
pub open spec fn round_half_even(numerator: int, denominator: int) -> int {
    let quotient = numerator / denominator;
    let rest = numerator % denominator;
    if 2 * rest < denominator || (2 * rest == denominator && quotient % 2 == 0) {
        quotient
    } else {
        quotient + 1
    }
}

/// How many bits of a double-precision significand single precision cannot hold.
pub open spec fn dropped_bits(scale: int) -> nat {
    (if scale >= 897 {
        29
    } else {
        926 - scale
    }) as nat
}

/// The single-precision bit pattern, without the sign, that a finite
/// double-precision number rounds to; beyond the range it is infinity.
pub open spec fn narrowed_magnitude(bits: u64) -> int {
    let scale = f64_scale(bits);
    let base = if scale >= 897 {
        (scale - 897) * 0x80_0000
    } else {
        0
    };
    let rounded = base + round_half_even(
        f64_significand(bits),
        pow2(dropped_bits(scale)) as int,
    );
    if rounded < 0x7F80_0000 {
        rounded
    } else {
        0x7F80_0000
    }
}

/// The single-precision bit pattern of a double-precision number, rounded to
/// nearest with ties to even. What is not a number stays so.
pub open spec fn narrowed(bits: u64) -> u32 {
    let magnitude = if f64_exponent(bits) < 2047 {
        narrowed_magnitude(bits)
    } else if f64_fraction(bits) == 0 {
        0x7F80_0000
    } else {
        0x7FC0_0000
    };
    (if f64_negative(bits) {
        0x8000_0000 + magnitude
    } else {
        magnitude
    }) as u32
}

/// The rounded significand is near the exact one, and has a known range.
proof fn lemma_rounding(bits: u64)
    ensures
        ({
            let scale = f64_scale(bits);
            let significand = f64_significand(bits);
            let step = pow2(dropped_bits(scale)) as int;
            let rounded = round_half_even(significand, step);
            &&& step > 0
            &&& -step <= 2 * (rounded * step - significand) <= step
            &&& significand % step == 0 ==> rounded * step == significand
            &&& 0 <= rounded
            &&& scale >= 897 ==> 0x80_0000 <= rounded <= 0x100_0000
            &&& scale < 897 ==> rounded <= 0x80_0000
            &&& dropped_bits(scale) >= 55 ==> rounded == 0
        }),
{
    let scale = f64_scale(bits);
    let s = f64_significand(bits);
    let shift = dropped_bits(scale);
    let step = pow2(shift) as int;
    let quotient = s / step;
    let rest = s % step;
    vstd::arithmetic::power2::lemma_pow2_pos(shift);
    vstd::arithmetic::power2::lemma2_to64();
    vstd::arithmetic::power2::lemma2_to64_rest();
    vstd::arithmetic::div_mod::lemma_fundamental_div_mod(s, step);
    vstd::arithmetic::mul::lemma_mul_is_commutative(step, quotient);
    assert((quotient + 1) * step == quotient * step + step) by (nonlinear_arith);
    assert(0 <= rest < step) by (nonlinear_arith)
        requires
            step > 0,
            rest == s % step,
    ;
    assert(quotient >= 0) by (nonlinear_arith)
        requires
            step > 0,
            s >= 0,
            quotient == s / step,
    ;
    let rounded = round_half_even(s, step);
    if rounded == quotient {
        assert(rounded * step == quotient * step);
    } else {
        assert(rounded * step == (quotient + 1) * step);
    }
    assert(-step <= 2 * (rounded * step - s) <= step);
    assert(s % step == 0 ==> rounded * step == s);
    if scale >= 897 {
        assert(step == 0x2000_0000);
        assert(quotient * step == quotient * 0x2000_0000);
        assert(0x80_0000 <= rounded <= 0x100_0000);
    } else {
        if shift > 30 {
            vstd::arithmetic::power2::lemma_pow2_strictly_increases(30, shift);
        }
        assert(quotient < 0x80_0000) by (nonlinear_arith)
            requires
                step >= 0x4000_0000,
                quotient * step + rest == s,
                rest >= 0,
                s < 0x20_0000_0000_0000,
        ;
        if shift >= 55 {
            if shift > 55 {
                vstd::arithmetic::power2::lemma_pow2_strictly_increases(55, shift);
            }
            assert(quotient == 0) by (nonlinear_arith)
                requires
                    step >= 0x80_0000_0000_0000,
                    quotient * step + rest == s,
                    quotient >= 0,
                    rest >= 0,
                    s < 0x20_0000_0000_0000,
            ;
        }
    }
}

/// How far apart two numbers are.
pub open spec fn distance(a: int, b: int) -> int {
    if a < b {
        b - a
    } else {
        a - b
    }
}

/// A number rounds beyond the range exactly from the overflow limit on.
proof fn lemma_overflow(bits: u64)
    requires
        f64_exponent(bits) < 2047,
    ensures
        narrowed_magnitude(bits) < 0x7F80_0000 <==> -(0x1FF_FFFF * pow2(1177)) < f64_units(bits)
            < 0x1FF_FFFF * pow2(1177),
        narrowed_magnitude(bits) <= 0x7F80_0000,
{
    lemma_rounding(bits);
    let scale = f64_scale(bits);
    let s = f64_significand(bits);
    let low = pow2((scale - 1) as nat) as int;
    vstd::arithmetic::power2::lemma2_to64();
    vstd::arithmetic::power2::lemma_pow2_pos((scale - 1) as nat);
    vstd::arithmetic::power2::lemma_pow2_pos(1149);
    vstd::arithmetic::power2::lemma_pow2_adds(28, 1149);
    let top = pow2(1149) as int;
    let limit: int = 0x1F_FFFF_F000_0000;
    assert(0x1FF_FFFF * pow2(1177) == limit * top) by (nonlinear_arith)
        requires
            pow2(1177) == 0x1000_0000 * top,
            limit == 0x1F_FFFF_F000_0000,
    ;
    assert(s * low >= 0) by (nonlinear_arith)
        requires
            s >= 0,
            low > 0,
    ;
    if scale == 1150 {
        assert(s * top < limit * top <==> s < limit) by (nonlinear_arith)
            requires
                top > 0,
        ;
    } else if scale < 1150 {
        vstd::arithmetic::power2::lemma_pow2_strictly_increases((scale - 1) as nat, 1149);
        vstd::arithmetic::power2::lemma_pow2_unfold(1149);
        let half = pow2(1148) as int;
        if scale < 1149 {
            vstd::arithmetic::power2::lemma_pow2_strictly_increases((scale - 1) as nat, 1148);
        }
        assert(s * low < limit * top) by (nonlinear_arith)
            requires
                0 <= s < 0x20_0000_0000_0000,
                0 < low <= half,
                top == 2 * half,
                limit == 0x1F_FFFF_F000_0000,
        ;
    } else {
        vstd::arithmetic::power2::lemma_pow2_unfold(1150);
        let double = pow2(1150) as int;
        if scale > 1151 {
            vstd::arithmetic::power2::lemma_pow2_strictly_increases(1150, (scale - 1) as nat);
        }
        assert(s * low >= limit * top) by (nonlinear_arith)
            requires
                s >= 0x10_0000_0000_0000,
                low >= double,
                double == 2 * top,
                top > 0,
                limit == 0x1F_FFFF_F000_0000,
        ;
    }
}

/// Narrowing rounds to nearest: a number nearer to zero than the largest
/// single-precision number and half the spacing there does not become infinite,
/// the result is off by at most half the distance between neighbouring
/// single-precision numbers there, and a number that single precision holds is
/// kept exactly.
pub proof fn law_narrowed_nearest(bits: u64)
    requires
        f64_exponent(bits) < 2047,
        -(0x1FF_FFFF * pow2(1177)) < f64_units(bits) < 0x1FF_FFFF * pow2(1177),
    ensures
        ({
            let value = crate::sample::f32_units(narrowed(bits)) * pow2(925);
            let scale = f64_scale(bits);
            let spacing = pow2((scale - 1 + dropped_bits(scale)) as nat) as int;
            &&& crate::sample::f32_exponent(narrowed(bits)) < 255
            &&& -spacing <= 2 * (value - f64_units(bits)) <= spacing
            &&& f64_significand(bits) % (pow2(dropped_bits(scale)) as int) == 0 ==> value
                == f64_units(bits)
        }),
{
    lemma_rounding(bits);
    lemma_overflow(bits);
    let scale = f64_scale(bits);
    let shift = dropped_bits(scale);
    let step = pow2(shift) as int;
    let low = pow2((scale - 1) as nat) as int;
    let s = f64_significand(bits);
    let n = round_half_even(s, step);
    let narrow = narrowed(bits);
    let unit = pow2(925) as int;
    vstd::arithmetic::power2::lemma_pow2_adds(shift, (scale - 1) as nat);
    vstd::arithmetic::power2::lemma_pow2_pos((scale - 1) as nat);
    let spacing = pow2((scale - 1 + shift) as nat) as int;
    assert(spacing == step * low);
    let units = crate::sample::f32_units(narrow);
    let magnitude = if units < 0 {
        -units
    } else {
        units
    };
    assert(magnitude * unit == n * spacing && (f64_negative(bits) ==> units == -magnitude) && (
    !f64_negative(bits) ==> units == magnitude)) by {
        lemma_narrowed_units(bits);
    }
    assert(n * (step * low) == (n * step) * low) by (nonlinear_arith);
    let error = n * step - s;
    assert((n * step) * low - s * low == error * low) by (nonlinear_arith)
        requires
            error == n * step - s,
    ;
    assert(-(step * low) <= 2 * (error * low) <= step * low) by (nonlinear_arith)
        requires
            -step <= 2 * error <= step,
            low > 0,
    ;
    assert((-magnitude) * unit == -(magnitude * unit)) by (nonlinear_arith);
}

/// The value of the narrowed number, in terms of the rounded significand.
proof fn lemma_narrowed_units(bits: u64)
    requires
        f64_exponent(bits) < 2047,
        narrowed_magnitude(bits) < 0x7F80_0000,
    ensures
        ({
            let scale = f64_scale(bits);
            let n = round_half_even(f64_significand(bits), pow2(dropped_bits(scale)) as int);
            let units = crate::sample::f32_units(narrowed(bits));
            let magnitude = if units < 0 {
                -units
            } else {
                units
            };
            &&& crate::sample::f32_exponent(narrowed(bits)) < 255
            &&& magnitude * pow2(925) == n * pow2((scale - 1 + dropped_bits(scale)) as nat)
            &&& f64_negative(bits) ==> units == -magnitude
            &&& !f64_negative(bits) ==> units == magnitude
        }),
{
    lemma_rounding(bits);
    let scale = f64_scale(bits);
    let n = round_half_even(f64_significand(bits), pow2(dropped_bits(scale)) as int);
    let narrow = narrowed(bits);
    let exponent = crate::sample::f32_exponent(narrow);
    let fraction = crate::sample::f32_fraction(narrow);
    vstd::arithmetic::power2::lemma2_to64();
    if scale >= 897 {
        let low = pow2((scale - 897) as nat) as int;
        vstd::arithmetic::power2::lemma_pow2_pos((scale - 897) as nat);
        vstd::arithmetic::power2::lemma_pow2_adds((scale - 897) as nat, 925);
        vstd::arithmetic::power2::lemma_pow2_unfold((scale - 896) as nat);
        let unit = pow2(925) as int;
        if n < 0x100_0000 {
            assert(exponent == scale - 896);
            assert(fraction == n - 0x80_0000);
            assert((0x80_0000 + fraction) * pow2((exponent - 1) as nat) == n * low);
        } else {
            assert(exponent == scale - 895);
            assert(fraction == 0);
            assert(pow2((exponent - 1) as nat) == 2 * low);
            assert((0x80_0000 + fraction) * pow2((exponent - 1) as nat) == n * low)
                by (nonlinear_arith)
                requires
                    fraction == 0,
                    n == 0x100_0000,
                    pow2((exponent - 1) as nat) == 2 * low,
            ;
        }
        assert((n * low) * unit == n * (low * unit)) by (nonlinear_arith);
        assert(n * low >= 0) by (nonlinear_arith)
            requires
                n >= 0,
                low > 0,
        ;
    } else {
        assert(scale - 1 + dropped_bits(scale) == 925);
        if n < 0x80_0000 {
            assert(exponent == 0);
            assert(fraction == n);
        } else {
            assert(exponent == 1);
            assert(fraction == 0);
            assert((0x80_0000 + fraction) * pow2((exponent - 1) as nat) == n) by (nonlinear_arith)
                requires
                    fraction == 0,
                    n == 0x80_0000,
                    pow2((exponent - 1) as nat) == 1,
            ;
        }
    }
}

/// No multiple of `step` is nearer to `s` than the rounded one, and where another
/// one is as near, the rounded one is even.
proof fn lemma_nearest_multiple(s: int, step: int, k: int)
    requires
        step > 0,
    ensures
        ({
            let n = round_half_even(s, step);
            &&& distance(n * step, s) <= distance(k * step, s)
            &&& distance(n * step, s) == distance(k * step, s) && k != n ==> n % 2 == 0
        }),
{
    let q = s / step;
    let r = s % step;
    vstd::arithmetic::div_mod::lemma_fundamental_div_mod(s, step);
    vstd::arithmetic::mul::lemma_mul_is_commutative(step, q);
    assert(0 <= r < step) by (nonlinear_arith)
        requires
            step > 0,
            r == s % step,
    ;
    assert((q + 1) * step == q * step + step) by (nonlinear_arith);
    assert(k < q ==> k * step <= q * step - step) by (nonlinear_arith)
        requires
            step > 0,
    ;
    assert(k > q + 1 ==> k * step >= q * step + 2 * step) by (nonlinear_arith)
        requires
            step > 0,
    ;
}

/// A finite single-precision number is a multiple of `2^e` units, or it is below
/// the first one whose neighbours are `2^e` units apart.
proof fn lemma_f32_grid(bits: u32, e: nat) -> (k: int)
    requires
        crate::sample::f32_exponent(bits) < 255,
    ensures
        ({
            let units = crate::sample::f32_units(bits);
            units == k * pow2(e) || -(0x80_0000 * pow2(e)) < units < 0x80_0000 * pow2(e)
        }),
{
    let exponent = crate::sample::f32_exponent(bits);
    let m = 0x80_0000 + crate::sample::f32_fraction(bits);
    let grid = pow2(e) as int;
    vstd::arithmetic::power2::lemma_pow2_pos(e);
    if exponent == 0 {
        assert(0x80_0000 * grid >= 0x80_0000) by (nonlinear_arith)
            requires
                grid >= 1,
        ;
        0
    } else if exponent - 1 >= e {
        let p = pow2((exponent - 1 - e) as nat) as int;
        vstd::arithmetic::power2::lemma_pow2_adds((exponent - 1 - e) as nat, e);
        assert(m * (p * grid) == (m * p) * grid) by (nonlinear_arith);
        assert(-((m * p) * grid) == (-(m * p)) * grid) by (nonlinear_arith);
        if crate::sample::f32_negative(bits) {
            -(m * p)
        } else {
            m * p
        }
    } else {
        let p = pow2((exponent - 1) as nat) as int;
        vstd::arithmetic::power2::lemma_pow2_pos((exponent - 1) as nat);
        vstd::arithmetic::power2::lemma_pow2_unfold(exponent as nat);
        if exponent < e {
            vstd::arithmetic::power2::lemma_pow2_strictly_increases(exponent as nat, e);
        }
        assert(0 < m * p < 0x80_0000 * grid) by (nonlinear_arith)
            requires
                0x80_0000 <= m < 0x100_0000,
                p > 0,
                grid >= 2 * p,
        ;
        0
    }
}

/// Of the magnitudes that single precision has, none is nearer to that of a
/// double-precision number than the rounded one. `rival` is in units of `2^-149`.
proof fn lemma_magnitude_nearest(bits: u64, rival: int, k: int)
    requires
        f64_exponent(bits) < 2047,
        ({
            let scale = f64_scale(bits);
            let e = (if scale >= 897 {
                scale - 897
            } else {
                0
            }) as nat;
            rival == k * pow2(e) || (scale >= 897 && rival < 0x80_0000 * pow2(e))
        }),
    ensures
        ({
            let scale = f64_scale(bits);
            let n = round_half_even(f64_significand(bits), pow2(dropped_bits(scale)) as int);
            let exact = f64_significand(bits) * pow2((scale - 1) as nat);
            let value = n * pow2((scale - 1 + dropped_bits(scale)) as nat);
            let other = rival * pow2(925);
            &&& distance(value, exact) <= distance(other, exact)
            &&& distance(value, exact) == distance(other, exact) && value != other ==> n % 2 == 0
        }),
{
    lemma_rounding(bits);
    let scale = f64_scale(bits);
    let shift = dropped_bits(scale);
    let step = pow2(shift) as int;
    let low = pow2((scale - 1) as nat) as int;
    let s = f64_significand(bits);
    let n = round_half_even(s, step);
    let e = (if scale >= 897 {
        scale - 897
    } else {
        0
    }) as nat;
    let grid = pow2(e) as int;
    let unit = pow2(925) as int;
    let spacing = pow2((scale - 1 + shift) as nat) as int;
    let exact = s * low;
    let other = rival * unit;
    vstd::arithmetic::power2::lemma2_to64();
    vstd::arithmetic::power2::lemma_pow2_pos((scale - 1) as nat);
    vstd::arithmetic::power2::lemma_pow2_pos(925);
    vstd::arithmetic::power2::lemma_pow2_adds(shift, (scale - 1) as nat);
    vstd::arithmetic::power2::lemma_pow2_adds(e, 925);
    assert(e + 925 == scale - 1 + shift);
    assert(spacing == step * low && spacing == grid * unit);
    lemma_nearest_multiple(s, step, k);
    lemma_nearest_multiple(s, step, 0x80_0000);
    lemma_distance_scaled(n, step, s, low);
    lemma_distance_scaled(k, step, s, low);
    lemma_distance_scaled(0x80_0000, step, s, low);
    let near = distance(n * step, s);
    let far = distance(k * step, s);
    let edge = distance(0x80_0000 * step, s);
    assert(near * low <= far * low && near * low <= edge * low) by (nonlinear_arith)
        requires
            near <= far,
            near <= edge,
            low > 0,
    ;
    if rival == k * grid {
        assert(rival * unit == k * (grid * unit)) by (nonlinear_arith)
            requires
                rival == k * grid,
        ;
        assert(near * low == far * low ==> near == far) by (nonlinear_arith)
            requires
                low > 0,
        ;
    } else {
        assert(rival * unit < (0x80_0000 * grid) * unit) by (nonlinear_arith)
            requires
                rival < 0x80_0000 * grid,
                unit > 0,
        ;
        assert((0x80_0000 * grid) * unit == 0x80_0000 * (grid * unit)) by (nonlinear_arith);
        assert(s >= 0x80_0000 * step);
        assert(s * low >= (0x80_0000 * step) * low) by (nonlinear_arith)
            requires
                s >= 0x80_0000 * step,
                low > 0,
        ;
        assert((0x80_0000 * step) * low == 0x80_0000 * (step * low)) by (nonlinear_arith);
    }
}

/// Distances scale with what they are between.
proof fn lemma_distance_scaled(k: int, step: int, s: int, low: int)
    requires
        low > 0,
    ensures
        distance(k * (step * low), s * low) == distance(k * step, s) * low,
{
    let a = k * step;
    assert(k * (step * low) == a * low) by (nonlinear_arith)
        requires
            a == k * step,
    ;
    assert((a < s ==> a * low < s * low) && (a >= s ==> a * low >= s * low)) by (nonlinear_arith)
        requires
            low > 0,
    ;
    assert((s - a) * low == s * low - a * low && (a - s) * low == a * low - s * low)
        by (nonlinear_arith);
}

/// Narrowing picks the best number there is: no finite single-precision number is
/// nearer to the given one, and where another one is as near, the one that was
/// picked has an even fraction. The sign is kept, that of zero included.
pub proof fn law_narrowed_nearest_of_all(bits: u64, other: u32)
    requires
        f64_exponent(bits) < 2047,
        -(0x1FF_FFFF * pow2(1177)) < f64_units(bits) < 0x1FF_FFFF * pow2(1177),
        crate::sample::f32_exponent(other) < 255,
    ensures
        ({
            let exact = f64_units(bits);
            let value = crate::sample::f32_units(narrowed(bits)) * pow2(925);
            let rival = crate::sample::f32_units(other) * pow2(925);
            &&& crate::sample::f32_exponent(narrowed(bits)) < 255
            &&& distance(value, exact) <= distance(rival, exact)
            &&& distance(value, exact) == distance(rival, exact) && value != rival ==> narrowed(bits)
                % 2 == 0
            &&& crate::sample::f32_negative(narrowed(bits)) <==> f64_negative(bits)
        }),
{
    lemma_overflow(bits);
    lemma_rounding(bits);
    lemma_narrowed_units(bits);
    let scale = f64_scale(bits);
    let e = (if scale >= 897 {
        scale - 897
    } else {
        0
    }) as nat;
    let units = crate::sample::f32_units(other);
    vstd::arithmetic::power2::lemma2_to64();
    let k = if scale >= 897 {
        lemma_f32_grid(other, e)
    } else {
        units
    };
    let n = round_half_even(f64_significand(bits), pow2(dropped_bits(scale)) as int);
    let grid = pow2(e) as int;
    let unit = pow2(925) as int;
    let value = crate::sample::f32_units(narrowed(bits));
    if scale < 897 {
        assert(grid == 1);
        assert(k * grid == k) by (nonlinear_arith)
            requires
                grid == 1,
        ;
    }
    assert((-k) * grid == -(k * grid)) by (nonlinear_arith);
    assert((-units) * unit == -(units * unit)) by (nonlinear_arith);
    assert((-value) * unit == -(value * unit)) by (nonlinear_arith);
    assert(f64_significand(bits) >= 0);
    if f64_negative(bits) {
        lemma_magnitude_nearest(bits, -units, -k);
    } else {
        lemma_magnitude_nearest(bits, units, k);
    }
    assert(narrowed(bits) % 2 == n % 2);
}

/// From half a spacing above the largest single-precision number on, a finite
/// number becomes infinity with its sign.
pub proof fn law_narrowed_overflow(bits: u64)
    requires
        f64_exponent(bits) < 2047,
        f64_units(bits) <= -(0x1FF_FFFF * pow2(1177)) || 0x1FF_FFFF * pow2(1177) <= f64_units(bits),
    ensures
        crate::sample::f32_exponent(narrowed(bits)) == 255,
        crate::sample::f32_fraction(narrowed(bits)) == 0,
        crate::sample::f32_negative(narrowed(bits)) <==> f64_negative(bits),
{
    lemma_overflow(bits);
}

/// Infinity stays infinity with its sign, and what is not a number stays so.
pub proof fn law_narrowed_not_finite(bits: u64)
    requires
        f64_exponent(bits) == 2047,
    ensures
        crate::sample::f32_exponent(narrowed(bits)) == 255,
        crate::sample::f32_fraction(narrowed(bits)) == 0 <==> f64_fraction(bits) == 0,
        crate::sample::f32_negative(narrowed(bits)) <==> f64_negative(bits),
{
}

/// Narrows a double-precision number to single precision.
pub fn narrow(bits: u64) -> (narrow: u32)
    ensures
        narrow == narrowed(bits),
{
    let negative = bits >= 0x8000_0000_0000_0000;
    let exponent: u64 = (bits / 0x10_0000_0000_0000) % 0x800;
    let fraction: u64 = bits % 0x10_0000_0000_0000;
    let magnitude: u32 = if exponent < 2047 {
        narrow_magnitude(bits, exponent, fraction)
    } else if fraction == 0 {
        0x7F80_0000
    } else {
        0x7FC0_0000
    };
    if negative {
        0x8000_0000 + magnitude
    } else {
        magnitude
    }
}

fn narrow_magnitude(bits: u64, exponent: u64, fraction: u64) -> (magnitude: u32)
    requires
        exponent == f64_exponent(bits),
        fraction == f64_fraction(bits),
        exponent < 2047,
    ensures
        magnitude == narrowed_magnitude(bits),
        magnitude <= 0x7F80_0000,
{
    proof {
        lemma_rounding(bits);
    }
    let significand: u64 = if exponent == 0 {
        fraction
    } else {
        0x10_0000_0000_0000 + fraction
    };
    let scale: u64 = if exponent == 0 {
        1
    } else {
        exponent
    };
    let shift: u64 = if scale >= 897 {
        29
    } else {
        926 - scale
    };
    let rounded: u64 = if shift >= 55 {
        0
    } else {
        proof {
            vstd::arithmetic::power2::lemma2_to64();
            vstd::arithmetic::power2::lemma2_to64_rest();
            if shift < 55 {
                vstd::arithmetic::power2::lemma_pow2_strictly_increases(shift as nat, 55);
            }
            vstd::bits::lemma_u64_shl_is_mul(1, shift);
        }
        let step: u64 = 1u64 << shift;
        let quotient: u64 = significand / step;
        let rest: u64 = significand % step;
        if 2 * rest < step || (2 * rest == step && quotient % 2 == 0) {
            quotient
        } else {
            quotient + 1
        }
    };
    let base: u64 = if scale >= 897 {
        (scale - 897) * 0x80_0000
    } else {
        0
    };
    if base + rounded < 0x7F80_0000 {
        (base + rounded) as u32
    } else {
        0x7F80_0000
    }
}

} // verus!
