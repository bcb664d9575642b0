//! The 32-bit (single-precision) interchange format: sign 1, exponent 8,
//! mantissa 23, bias 127.
//!
//! The integer decomposition here is the exact single-precision one, with the
//! format's own constants (bias 127, mantissa width 23); it does not widen to
//! binary64 first.  The round-trip identity holds either way, but the triples
//! differ, and the direct decomposition keeps the mantissa in the format's
//! own range.

use vstd::prelude::*;
use vstd::arithmetic::power2::{lemma2_to64, lemma_pow2_adds};
use vstd::arithmetic::div_mod::lemma_small_mod;
use crate::float::Float;
use crate::model::{exp_field, man_field, sign_field, Classification};

verus! {

/// A binary32 value, held as its bit pattern.
#[derive(Clone, Copy, Debug, PartialEq, Eq, Structural)]
pub struct Binary32 {
    pub bits: u32,
}

impl Binary32 {
    /// Wraps a raw 32-bit pattern.
    pub fn from_bits(bits: u32) -> (r: Self)
        ensures
            r.bits == bits,
    {
        Binary32 { bits }
    }

    /// The raw 32-bit pattern.
    pub fn to_bits(&self) -> (r: u32)
        ensures
            r == self.bits,
    {
        self.bits
    }
}

/// Mask-and-shift field extraction on a 32-bit pattern equals the arithmetic
/// field readings of the model at format (8, 23).
proof fn lemma_fields32(b: u32)
    ensures
        (b & 0x007f_ffff) as nat == man_field(23, b as nat),
        ((b >> 23) & 0xff) as nat == exp_field(8, 23, b as nat),
        (b >> 31 == 1) == sign_field(8, 23, b as nat),
        b >> 31 == 0 || b >> 31 == 1,
        (b >> 23) & 0xff < 0x100,
        (b & 0x007f_ffff) < 0x0080_0000,
{
    lemma2_to64();
    assert(b & 0x007f_ffff == b % 0x0080_0000) by (bit_vector);
    assert((b >> 23) & 0xff == (b / 0x0080_0000) % 0x100) by (bit_vector);
    assert((b >> 31 == b / 0x8000_0000) && (b / 0x8000_0000 < 2) && ((b >> 23) & 0xff < 0x100) && (
    b & 0x007f_ffff < 0x0080_0000)) by (bit_vector);
    lemma_small_mod((b as nat) / 0x8000_0000, 2);
}

impl Float for Binary32 {
    open spec fn exp_width() -> nat {
        8
    }

    open spec fn man_width() -> nat {
        23
    }

    open spec fn spec_bits(&self) -> nat {
        self.bits as nat
    }

    proof fn lemma_wf(&self) {
        lemma2_to64();
    }

    fn nan() -> (r: Self) {
        proof {
            lemma2_to64();
            lemma_fields32(0x7fc0_0000u32);
            assert((0x7fc0_0000u32 & 0x007f_ffff == 0x0040_0000) && (0x7fc0_0000u32 >> 23) & 0xff
                == 0xff && (0x7fc0_0000u32 >> 31 == 0)) by (bit_vector);
        }
        Binary32 { bits: 0x7fc0_0000 }
    }

    fn infinity() -> (r: Self) {
        proof {
            lemma2_to64();
            lemma_fields32(0x7f80_0000u32);
            assert((0x7f80_0000u32 & 0x007f_ffff == 0) && (0x7f80_0000u32 >> 23) & 0xff == 0xff
                && (0x7f80_0000u32 >> 31 == 0)) by (bit_vector);
        }
        Binary32 { bits: 0x7f80_0000 }
    }

    fn neg_infinity() -> (r: Self) {
        proof {
            lemma2_to64();
            lemma_fields32(0xff80_0000u32);
            assert((0xff80_0000u32 & 0x007f_ffff == 0) && (0xff80_0000u32 >> 23) & 0xff == 0xff
                && (0xff80_0000u32 >> 31 == 1)) by (bit_vector);
        }
        Binary32 { bits: 0xff80_0000 }
    }

    fn neg_zero() -> (r: Self) {
        proof {
            lemma2_to64();
            lemma_fields32(0x8000_0000u32);
            assert((0x8000_0000u32 & 0x007f_ffff == 0) && (0x8000_0000u32 >> 23) & 0xff == 0 && (
            0x8000_0000u32 >> 31 == 1)) by (bit_vector);
        }
        Binary32 { bits: 0x8000_0000 }
    }

    fn epsilon() -> (r: Self) {
        proof {
            lemma2_to64();
            lemma_fields32(0x3400_0000u32);
            assert((0x3400_0000u32 & 0x007f_ffff == 0) && (0x3400_0000u32 >> 23) & 0xff == 104
                && (0x3400_0000u32 >> 31 == 0)) by (bit_vector);
            lemma_pow2_adds(23, 104);
        }
        Binary32 { bits: 0x3400_0000 }
    }

    fn is_nan(&self) -> (r: bool) {
        let b: u32 = self.bits;
        proof {
            lemma_fields32(b);
            lemma2_to64();
        }
        (b >> 23) & 0xff == 0xff && b & 0x007f_ffff != 0
    }

    fn is_infinite(&self) -> (r: bool) {
        let b: u32 = self.bits;
        proof {
            lemma_fields32(b);
            lemma2_to64();
        }
        (b >> 23) & 0xff == 0xff && b & 0x007f_ffff == 0
    }

    fn is_finite(&self) -> (r: bool) {
        let b: u32 = self.bits;
        proof {
            lemma_fields32(b);
            lemma2_to64();
        }
        (b >> 23) & 0xff != 0xff
    }

    fn is_normal(&self) -> (r: bool) {
        let b: u32 = self.bits;
        proof {
            lemma_fields32(b);
            lemma2_to64();
        }
        let e: u32 = (b >> 23) & 0xff;
        e != 0 && e != 0xff
    }

    fn classify(&self) -> (c: Classification) {
        let b: u32 = self.bits;
        proof {
            lemma_fields32(b);
            lemma2_to64();
        }
        let man: u32 = b & 0x007f_ffff;
        let exp: u32 = (b >> 23) & 0xff;
        if exp == 0 {
            if man == 0 {
                Classification::Zero
            } else {
                Classification::Subnormal
            }
        } else if exp == 0xff {
            if man == 0 {
                Classification::Infinite
            } else {
                Classification::Nan
            }
        } else {
            Classification::Normal
        }
    }

    fn is_sign_positive(&self) -> (r: bool) {
        let b: u32 = self.bits;
        proof {
            lemma_fields32(b);
        }
        b >> 31 == 0
    }

    fn is_sign_negative(&self) -> (r: bool) {
        let b: u32 = self.bits;
        proof {
            lemma_fields32(b);
        }
        b >> 31 == 1
    }

    fn trunc(&self) -> (r: Self) {
        let b: u32 = self.bits;
        let exp_raw: u32 = (b >> 23) & 0xff;
        proof {
            lemma_fields32(b);
            lemma2_to64();
        }
        if exp_raw < 127 {
            proof {
                assert(b & 0x8000_0000 == (if b >> 31 == 1 {
                    0x8000_0000u32
                } else {
                    0u32
                })) by (bit_vector);
            }
            Binary32 { bits: b & 0x8000_0000 }
        } else if exp_raw >= 150 {
            Binary32 { bits: b }
        } else {
            let k: u32 = 150 - exp_raw;
            proof {
                vstd::bits::lemma_u32_pow2_no_overflow(k as nat);
                vstd::bits::lemma_u32_shl_is_mul(1u32, k);
                vstd::bits::lemma_u32_low_bits_mask_is_mod(b, k as nat);
            }
            let mask: u32 = (1u32 << k) - 1;
            proof {
                assert(b & !mask == b - (b & mask)) by (bit_vector);
            }
            Binary32 { bits: b & !mask }
        }
    }

    fn integer_decode(&self) -> (r: (u64, i16, i8)) {
        let b: u32 = self.bits;
        proof {
            lemma_fields32(b);
            lemma2_to64();
        }
        let sign: i8 = if b >> 31 == 0 {
            1
        } else {
            -1
        };
        let exp_raw: u32 = (b >> 23) & 0xff;
        let man_raw: u32 = b & 0x007f_ffff;
        let mantissa: u32 = if exp_raw == 0 {
            proof {
                assert((b & 0x007f_ffff) << 1 == (b & 0x007f_ffff) * 2) by (bit_vector);
            }
            man_raw << 1
        } else {
            proof {
                assert((b & 0x007f_ffff) | 0x0080_0000 == (b & 0x007f_ffff) + 0x0080_0000)
                    by (bit_vector);
            }
            man_raw | 0x0080_0000
        };
        let exponent: i16 = (exp_raw as i16) - (127 + 23);
        (mantissa as u64, exponent, sign)
    }
}

} // verus!
