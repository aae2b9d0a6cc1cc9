//! Coordinates in the document are single-precision floats. The verified
//! core never does float arithmetic on them: it stores each one as its
//! IEEE-754 bit pattern and only converts it, exactly, to the integer pixel
//! position that compositing needs (round half away from zero, then a
//! saturating cast, as `f32::round` followed by `as i32` / `as u32` does).
use vstd::prelude::*;
use vstd::arithmetic::power2::*;
use vstd::bits::*;

verus! {

/// Bit pattern of `0.0f32`.
pub const F32_ZERO: u32 = 0u32;

/// Bit pattern of `1.0f32`.
pub const F32_ONE: u32 = 0x3f80_0000u32;

/// The biased exponent field (bits 23..31).
pub open spec fn exponent_field(bits: u32) -> u32 {
    (bits / 0x80_0000u32) % 0x100u32
}

/// The fraction field (bits 0..23).
pub open spec fn fraction_field(bits: u32) -> u32 {
    bits % 0x80_0000u32
}

/// The sign bit.
pub open spec fn is_negative(bits: u32) -> bool {
    bits >= 0x8000_0000u32
}

pub open spec fn is_nan(bits: u32) -> bool {
    exponent_field(bits) == 255 && fraction_field(bits) != 0
}

pub open spec fn is_infinite(bits: u32) -> bool {
    exponent_field(bits) == 255 && fraction_field(bits) == 0
}

/// The significand, with the implicit leading bit for normal numbers.
pub open spec fn significand(bits: u32) -> nat {
    if exponent_field(bits) == 0 {
        fraction_field(bits) as nat
    } else {
        (fraction_field(bits) + 0x80_0000) as nat
    }
}

/// For a finite value, |value| == significand * 2^(scale_exponent - 150).
pub open spec fn scale_exponent(bits: u32) -> nat {
    if exponent_field(bits) == 0 {
        1
    } else {
        exponent_field(bits) as nat
    }
}

/// |value| rounded to the nearest integer, halves away from zero.
pub open spec fn rounded_magnitude(bits: u32) -> nat {
    let e = scale_exponent(bits);
    if e >= 150 {
        significand(bits) * pow2((e - 150) as nat)
    } else {
        (significand(bits) + pow2((149 - e) as nat)) / pow2((150 - e) as nat)
    }
}

/// The finite value rounded half away from zero.
pub open spec fn rounded_value(bits: u32) -> int {
    if is_negative(bits) {
        -(rounded_magnitude(bits) as int)
    } else {
        rounded_magnitude(bits) as int
    }
}

pub open spec fn clamp(v: int, lo: int, hi: int) -> int {
    if v < lo {
        lo
    } else if v > hi {
        hi
    } else {
        v
    }
}

/// `f32::from_bits(bits).round() as i32`.
pub open spec fn round_to_i32(bits: u32) -> int {
    if is_nan(bits) {
        0
    } else if is_infinite(bits) {
        if is_negative(bits) {
            i32::MIN as int
        } else {
            i32::MAX as int
        }
    } else {
        clamp(rounded_value(bits), i32::MIN as int, i32::MAX as int)
    }
}

/// `f32::from_bits(bits).round() as u32`.
pub open spec fn round_to_u32(bits: u32) -> int {
    if is_nan(bits) {
        0
    } else if is_infinite(bits) {
        if is_negative(bits) {
            0
        } else {
            u32::MAX as int
        }
    } else {
        clamp(rounded_value(bits), 0, u32::MAX as int)
    }
}

/// Magnitudes at or above this bound saturate both casts.
pub open spec fn magnitude_cap() -> nat {
    0x1_0000_0000nat
}

proof fn lemma_fields(bits: u32)
    ensures
        (bits >> 23u32) & 0xffu32 == exponent_field(bits),
        bits & 0x7f_ffffu32 == fraction_field(bits),
        (bits >> 31u32 == 1u32) == is_negative(bits),
        exponent_field(bits) <= 255,
        fraction_field(bits) < 0x80_0000,
{
    assert((bits >> 23u32) & 0xffu32 == (bits / 0x80_0000u32) % 0x100u32) by (bit_vector);
    assert(bits & 0x7f_ffffu32 == bits % 0x80_0000u32) by (bit_vector);
    assert((bits >> 31u32 == 1u32) == (bits >= 0x8000_0000u32)) by (bit_vector);
}

/// The rounded magnitude of a finite value, saturated at `magnitude_cap()`.
fn capped_magnitude(bits: u32) -> (m: u64)
    requires
        exponent_field(bits) != 255,
    ensures
        m == if rounded_magnitude(bits) < magnitude_cap() {
            rounded_magnitude(bits)
        } else {
            magnitude_cap()
        },
{
    proof {
        lemma_fields(bits);
    }
    let exp: u32 = (bits >> 23u32) & 0xffu32;
    let frac: u32 = bits & 0x7f_ffffu32;
    let s: u64 = if exp == 0 {
        frac as u64
    } else {
        frac as u64 + 0x80_0000u64
    };
    let e: u32 = if exp == 0 {
        1
    } else {
        exp
    };
    assert(s == significand(bits));
    assert(e == scale_exponent(bits));
    if e >= 150 {
        let shift: u32 = e - 150;
        if shift >= 9 {
            proof {
                lemma2_to64();
                if shift > 9 { lemma_pow2_strictly_increases(9, shift as nat); }
                let p = pow2(shift as nat);
                assert(s * p >= 0x80_0000 * 512) by (nonlinear_arith)
                    requires
                        s >= 0x80_0000,
                        p >= 512,
                ;
            }
            0x1_0000_0000u64
        } else {
            proof {
                lemma2_to64();
                if shift < 8 {
                    lemma_pow2_strictly_increases(shift as nat, 8);
                }
                let p = pow2(shift as nat);
                assert(s * p < 0x100_0000 * 256) by (nonlinear_arith)
                    requires
                        s < 0x100_0000,
                        p <= 256,
                ;
                lemma_u64_shl_is_mul(s, shift as u64);
            }
            s << (shift as u64)
        }
    } else {
        let k: u32 = 150 - e;
        if k >= 25 {
            proof {
                lemma2_to64();
                if k > 25 {
                    lemma_pow2_strictly_increases(24, (k - 1) as nat);
                }
                let h = pow2((k - 1) as nat);
                lemma_pow2_unfold(k as nat);
                assert(pow2(k as nat) == 2 * h);
                assert((s as nat + h) / (2 * h) == 0) by (nonlinear_arith)
                    requires
                        s < h,
                        h > 0,
                ;
            }
            0
        } else {
            proof {
                lemma2_to64();
                lemma_u64_pow2_no_overflow((k - 1) as nat);
                lemma_u64_shl_is_mul(1u64, (k - 1) as u64);
                lemma_pow2_strictly_increases((k - 1) as nat, 24);
            }
            let half: u64 = 1u64 << ((k - 1) as u64);
            let total: u64 = s + half;
            proof {
                lemma_u64_shr_is_div(total, k as u64);
                lemma_pow2_strictly_increases(k as nat, 25);
                assert(total as nat / pow2(k as nat) <= total as nat) by (nonlinear_arith)
                    requires pow2(k as nat) > 0;
                assert(total < 0x200_0000);
            }
            total >> (k as u64)
        }
    }
}

/// `f32::from_bits(bits).round() as i32`, computed on the bit pattern.
pub fn round_to_i32_bits(bits: u32) -> (r: i32)
    ensures
        r as int == round_to_i32(bits),
{
    proof {
        lemma_fields(bits);
    }
    let exp: u32 = (bits >> 23u32) & 0xffu32;
    let frac: u32 = bits & 0x7f_ffffu32;
    let neg: bool = bits >> 31u32 == 1u32;
    if exp == 255 {
        if frac != 0 {
            0
        } else if neg {
            i32::MIN
        } else {
            i32::MAX
        }
    } else {
        let m: u64 = capped_magnitude(bits);
        if neg {
            if m >= 0x8000_0000u64 {
                i32::MIN
            } else {
                -(m as i32)
            }
        } else {
            if m > 0x7fff_ffffu64 {
                i32::MAX
            } else {
                m as i32
            }
        }
    }
}

/// `f32::from_bits(bits).round() as u32`, computed on the bit pattern.
pub fn round_to_u32_bits(bits: u32) -> (r: u32)
    ensures
        r as int == round_to_u32(bits),
{
    proof {
        lemma_fields(bits);
    }
    let exp: u32 = (bits >> 23u32) & 0xffu32;
    let frac: u32 = bits & 0x7f_ffffu32;
    let neg: bool = bits >> 31u32 == 1u32;
    if exp == 255 {
        if frac != 0 {
            0
        } else if neg {
            0
        } else {
            u32::MAX
        }
    } else {
        let m: u64 = capped_magnitude(bits);
        if neg {
            0
        } else if m > 0xffff_ffffu64 {
            u32::MAX
        } else {
            m as u32
        }
    }
}

} // verus!
