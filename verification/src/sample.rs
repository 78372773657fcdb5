//! IQ samples and the single-precision arithmetic behind them.
//!
//! A component of a sample is an IEEE-754 single-precision number, held as its
//! bit pattern. Interleaved floats are taken over bit for bit; 16-bit integers
//! are scaled by `1/32768`, which single precision represents exactly.

use vstd::arithmetic::power2::pow2;
use vstd::prelude::*;

verus! {

/// One complex sample: the bit patterns of its two single-precision components.
#[derive(Clone, Copy, Debug, PartialEq, Eq, Structural)]
pub struct IqSample {
    /// Bit pattern of the in-phase component.
    pub re: u32,
    /// Bit pattern of the quadrature component.
    pub im: u32,
}

/// The unsigned 32-bit integer whose little-endian bytes start at `at`.
pub open spec fn le_u32(bytes: Seq<u8>, at: int) -> u32 {
    (bytes[at] + 0x100 * bytes[at + 1] + 0x1_0000 * bytes[at + 2] + 0x100_0000 * bytes[at
        + 3]) as u32
}

/// The signed 16-bit integer whose little-endian two's-complement bytes start at `at`.
pub open spec fn le_i16(bytes: Seq<u8>, at: int) -> i16 {
    let unsigned = bytes[at] + 0x100 * bytes[at + 1];
    (if unsigned < 0x8000 {
        unsigned
    } else {
        unsigned - 0x1_0000
    }) as i16
}

/// The sign bit of a single-precision bit pattern.
pub open spec fn f32_negative(bits: u32) -> bool {
    bits >= 0x8000_0000
}

/// The biased exponent of a single-precision bit pattern.
pub open spec fn f32_exponent(bits: u32) -> int {
    (bits as int / 0x80_0000) % 0x100
}

/// The fraction field of a single-precision bit pattern.
pub open spec fn f32_fraction(bits: u32) -> int {
    bits as int % 0x80_0000
}

/// The value of a finite single-precision number in units of `2^-149`, the
/// smallest positive one.
pub open spec fn f32_units(bits: u32) -> int
    recommends
        f32_exponent(bits) < 255,
{
    let exponent = f32_exponent(bits);
    let magnitude = if exponent == 0 {
        f32_fraction(bits)
    } else {
        (0x80_0000 + f32_fraction(bits)) * pow2((exponent - 1) as nat)
    };
    if f32_negative(bits) {
        -magnitude
    } else {
        magnitude
    }
}

/// A single-precision number is a sign bit, eight bits of exponent and 23 bits of
/// fraction, from the highest bit down. Its value is the fraction, with a leading
/// one put before it unless the exponent is zero, doubled once for every step of
/// the exponent above one.
pub proof fn law_f32_fields(bits: u32, negative: bool, exponent: int, fraction: int)
    requires
        0 <= exponent < 0x100,
        0 <= fraction < 0x80_0000,
        bits == exponent * 0x80_0000 + fraction + (if negative {
            0x8000_0000int
        } else {
            0
        }),
    ensures
        f32_negative(bits) == negative,
        f32_exponent(bits) == exponent,
        f32_fraction(bits) == fraction,
        exponent == 0 ==> f32_units(bits) == (if negative {
            -fraction
        } else {
            fraction
        }),
        0 < exponent < 255 ==> f32_units(bits) == (if negative {
            -((0x80_0000 + fraction) * pow2((exponent - 1) as nat))
        } else {
            (0x80_0000 + fraction) * pow2((exponent - 1) as nat)
        }),
{
}

/// A word is the sum of its four bytes, each at its place.
pub(crate) proof fn lemma_word_parts(word: int)
    requires
        0 <= word,
    ensures
        word == word % 0x100 + 0x100 * (word / 0x100 % 0x100) + 0x1_0000 * (word / 0x1_0000 % 0x100)
            + 0x100_0000 * (word / 0x100_0000),
{
    vstd::arithmetic::div_mod::lemma_div_denominator(word, 0x100, 0x100);
    vstd::arithmetic::div_mod::lemma_div_denominator(word, 0x1_0000, 0x100);
    vstd::arithmetic::div_mod::lemma_fundamental_div_mod(word, 0x100);
    vstd::arithmetic::div_mod::lemma_fundamental_div_mod(word / 0x100, 0x100);
    vstd::arithmetic::div_mod::lemma_fundamental_div_mod(word / 0x1_0000, 0x100);
}

/// The little-endian bytes of a 32-bit word, lowest byte first, read as that word.
pub proof fn law_word_read_back(word: u32, bytes: Seq<u8>, at: int)
    requires
        0 <= at,
        at + 4 <= bytes.len(),
        bytes[at] == word as int % 0x100,
        bytes[at + 1] == word as int / 0x100 % 0x100,
        bytes[at + 2] == word as int / 0x1_0000 % 0x100,
        bytes[at + 3] == word as int / 0x100_0000,
    ensures
        le_u32(bytes, at) == word,
{
    lemma_word_parts(word as int);
}

/// The little-endian two's-complement bytes of a 16-bit integer read as that
/// integer, negative or not.
pub proof fn law_i16_read_back(v: i16, bytes: Seq<u8>, at: int)
    requires
        0 <= at,
        at + 2 <= bytes.len(),
        bytes[at] == v as int % 0x1_0000 % 0x100,
        bytes[at + 1] == v as int % 0x1_0000 / 0x100,
    ensures
        le_i16(bytes, at) == v,
{
}

/// The absolute value of `v`.
pub open spec fn magnitude(v: i16) -> int {
    if v < 0 {
        -(v as int)
    } else {
        v as int
    }
}

/// `significand * 2^exponent` with the significand doubled until its highest bit
/// is the one that single precision leaves out.
pub open spec fn normalized(significand: int, exponent: int) -> (int, int)
    decreases 0x100_0000 - significand,
{
    if 0 < significand < 0x80_0000 {
        normalized(2 * significand, exponent - 1)
    } else {
        (significand, exponent)
    }
}

/// The single-precision bit pattern of `v / 32768`.
///
/// `law_scaled_exact` proves that it denotes exactly that number.
pub open spec fn scaled_i16(v: i16) -> u32 {
    if v == 0 {
        0
    } else {
        let (significand, exponent) = normalized(magnitude(v), 135);
        let sign: int = if v < 0 {
            0x8000_0000
        } else {
            0
        };
        (sign + exponent * 0x80_0000 + (significand - 0x80_0000)) as u32
    }
}

/// Normalizing keeps the number and puts the highest bit in place.
proof fn lemma_normalized(significand: int, exponent: int)
    requires
        0 < significand < 0x100_0000,
    ensures
        ({
            let (m, e) = normalized(significand, exponent);
            &&& 0x80_0000 <= m < 0x100_0000
            &&& e <= exponent
            &&& m == significand * pow2((exponent - e) as nat)
        }),
    decreases 0x100_0000 - significand,
{
    vstd::arithmetic::power2::lemma2_to64();
    if significand < 0x80_0000 {
        lemma_normalized(2 * significand, exponent - 1);
        let (m, e) = normalized(2 * significand, exponent - 1);
        let p = pow2((exponent - 1 - e) as nat);
        vstd::arithmetic::power2::lemma_pow2_unfold((exponent - e) as nat);
        assert(pow2((exponent - e) as nat) == 2 * p);
        assert((2 * significand) * p == significand * (2 * p)) by (nonlinear_arith);
    } else {
        assert(significand * 1 == significand);
        assert(pow2((exponent - exponent) as nat) == 1);
    }
}

/// What the fields of `scaled_i16(v)` are built from.
proof fn lemma_scaled_parts(v: i16)
    requires
        v != 0,
    ensures
        ({
            let (m, e) = normalized(magnitude(v), 135);
            &&& 112 <= e <= 127
            &&& 0x80_0000 <= m < 0x100_0000
            &&& m == magnitude(v) * pow2((135 - e) as nat)
        }),
{
    let size = magnitude(v);
    lemma_normalized(size, 135);
    let (m, e) = normalized(size, 135);
    let p = pow2((135 - e) as nat);
    vstd::arithmetic::power2::lemma2_to64();
    if e > 127 {
        if e > 128 {
            vstd::arithmetic::power2::lemma_pow2_strictly_increases((135 - e) as nat, 7);
        }
        assert(size * p <= 0x8000 * 0x80) by (nonlinear_arith)
            requires
                0 < size <= 0x8000,
                0 <= p <= 0x80,
        ;
    }
    if e < 112 {
        if e < 111 {
            vstd::arithmetic::power2::lemma_pow2_strictly_increases(24, (135 - e) as nat);
        }
        assert(size * p >= 0x100_0000) by (nonlinear_arith)
            requires
                size >= 1,
                p >= 0x100_0000,
        ;
    }
}

/// Scaling a 16-bit integer by `1/32768` is exact: the result is finite, its
/// value times `32768` is the integer, zero maps to positive zero, and all
/// results lie between minus one and one, one left out.
pub proof fn law_scaled_exact(v: i16)
    ensures
        f32_exponent(scaled_i16(v)) < 255,
        f32_units(scaled_i16(v)) * 32768 == v * pow2(149),
        v == 0 ==> scaled_i16(v) == 0,
        -pow2(149) <= f32_units(scaled_i16(v)) < pow2(149),
{
    vstd::arithmetic::power2::lemma_pow2_adds(134, 15);
    vstd::arithmetic::power2::lemma2_to64();
    if v != 0 {
        lemma_scaled_parts(v);
        let m = magnitude(v);
        let (significand, exponent) = normalized(m, 135);
        let p = pow2((135 - exponent) as nat);
        let q = pow2((exponent - 1) as nat);
        let bits = scaled_i16(v);
        assert(f32_exponent(bits) == exponent);
        assert(f32_fraction(bits) == significand - 0x80_0000);
        vstd::arithmetic::power2::lemma_pow2_adds((135 - exponent) as nat, (exponent - 1) as nat);
        assert((m * p) * q == m * (p * q)) by (nonlinear_arith);
        let u = pow2(134);
        assert((m * u) * 32768 == m * (u * 32768)) by (nonlinear_arith);
        assert((-(m * u)) * 32768 == (-m) * (u * 32768)) by (nonlinear_arith);
    } else {
        assert(v * pow2(149) == 0) by (nonlinear_arith)
            requires
                v == 0,
        ;
    }
    let units = f32_units(scaled_i16(v));
    let one = pow2(149);
    vstd::arithmetic::power2::lemma_pow2_pos(149);
    assert(-one <= units < one) by (nonlinear_arith)
        requires
            units * 32768 == v * one,
            -32768 <= v < 32768,
            one > 0,
    ;
}

/// Reads the little-endian 32-bit word at `at`.
pub fn read_le_u32(bytes: &[u8], at: usize) -> (word: u32)
    requires
        at + 4 <= bytes@.len(),
    ensures
        word == le_u32(bytes@, at as int),
        word == bytes@[at as int] + 0x100 * bytes@[at + 1] + 0x1_0000 * bytes@[at + 2]
            + 0x100_0000 * bytes@[at + 3],
{
    bytes[at] as u32 + 0x100 * (bytes[at + 1] as u32) + 0x1_0000 * (bytes[at + 2] as u32)
        + 0x100_0000 * (bytes[at + 3] as u32)
}

/// Reads the little-endian two's-complement 16-bit integer at `at`.
pub fn read_le_i16(bytes: &[u8], at: usize) -> (value: i16)
    requires
        at + 2 <= bytes@.len(),
    ensures
        value == le_i16(bytes@, at as int),
        value as int % 0x1_0000 == bytes@[at as int] + 0x100 * bytes@[at + 1],
{
    let unsigned: i32 = bytes[at] as i32 + 0x100 * (bytes[at + 1] as i32);
    if unsigned < 0x8000 {
        unsigned as i16
    } else {
        (unsigned - 0x1_0000) as i16
    }
}

/// The single-precision bit pattern of `v / 32768`.
pub fn scale_i16(v: i16) -> (bits: u32)
    ensures
        bits == scaled_i16(v),
        f32_exponent(bits) < 255,
        f32_units(bits) * 32768 == v * pow2(149),
        v == 0 ==> bits == 0,
{
    proof {
        law_scaled_exact(v);
    }
    if v == 0 {
        return 0;
    }
    let m: u32 = if v < 0 {
        (-(v as i32)) as u32
    } else {
        v as u32
    };
    proof {
        lemma_scaled_parts(v);
    }
    let mut significand: u32 = m;
    let mut exponent: u32 = 135;
    while significand < 0x80_0000
        invariant
            0 < significand < 0x100_0000,
            exponent <= 135,
            normalized(significand as int, exponent as int).1 >= 112,
            normalized(significand as int, exponent as int) == normalized(m as int, 135),
        decreases 0x100_0000 - significand,
    {
        proof {
            lemma_normalized(significand as int, exponent as int);
        }
        significand = 2 * significand;
        exponent = exponent - 1;
    }
    let sign: u32 = if v < 0 {
        0x8000_0000
    } else {
        0
    };
    sign + exponent * 0x80_0000 + (significand - 0x80_0000)
}

} // verus!
