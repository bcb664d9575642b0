//! The 64-bit (double-precision) interchange format: sign 1, exponent 11,
//! mantissa 52, bias 1023.

use vstd::prelude::*;
use vstd::arithmetic::power2::{lemma2_to64, lemma2_to64_rest, lemma_pow2_adds};
use vstd::arithmetic::div_mod::lemma_small_mod;
use crate::float::Float;
use crate::model::{exp_field, man_field, sign_field, Classification};

verus! {

/// A binary64 value, held as its bit pattern.
#[derive(Clone, Copy, Debug, PartialEq, Eq, Structural)]
pub struct Binary64 {
    pub bits: u64,
}

impl Binary64 {
    /// Wraps a raw 64-bit pattern.
    pub fn from_bits(bits: u64) -> (r: Self)
        ensures
            r.bits == bits,
    {
        Binary64 { bits }
    }

    /// The raw 64-bit pattern.
    pub fn to_bits(&self) -> (r: u64)
        ensures
            r == self.bits,
    {
        self.bits
    }
}

/// Mask-and-shift field extraction on a 64-bit pattern equals the arithmetic
/// field readings of the model at format (11, 52).
proof fn lemma_fields64(b: u64)
    ensures
        (b & 0x000f_ffff_ffff_ffff) as nat == man_field(52, b as nat),
        ((b >> 52) & 0x7ff) as nat == exp_field(11, 52, b as nat),
        (b >> 63 == 1) == sign_field(11, 52, b as nat),
        b >> 63 == 0 || b >> 63 == 1,
        (b >> 52) & 0x7ff < 0x800,
        (b & 0x000f_ffff_ffff_ffff) < 0x0010_0000_0000_0000,
{
    lemma2_to64();
    lemma2_to64_rest();
    assert(b & 0x000f_ffff_ffff_ffff == b % 0x0010_0000_0000_0000) by (bit_vector);
    assert((b >> 52) & 0x7ff == (b / 0x0010_0000_0000_0000) % 0x800) by (bit_vector);
    assert((b >> 63 == b / 0x8000_0000_0000_0000) && (b / 0x8000_0000_0000_0000 < 2) && ((b >> 52)
        & 0x7ff < 0x800) && (b & 0x000f_ffff_ffff_ffff < 0x0010_0000_0000_0000)) by (bit_vector);
    lemma_small_mod((b as nat) / 0x8000_0000_0000_0000, 2);
}

impl Float for Binary64 {
    open spec fn exp_width() -> nat {
        11
    }

    open spec fn man_width() -> nat {
        52
    }

    open spec fn spec_bits(&self) -> nat {
        self.bits as nat
    }

    proof fn lemma_wf(&self) {
        lemma2_to64();
        lemma2_to64_rest();
    }

    fn nan() -> (r: Self) {
        proof {
            lemma2_to64();
            lemma2_to64_rest();
            lemma_fields64(0x7ff8_0000_0000_0000u64);
            assert((0x7ff8_0000_0000_0000u64 & 0x000f_ffff_ffff_ffff == 0x0008_0000_0000_0000)
                && (0x7ff8_0000_0000_0000u64 >> 52) & 0x7ff == 0x7ff && (0x7ff8_0000_0000_0000u64
                >> 63 == 0)) by (bit_vector);
        }
        Binary64 { bits: 0x7ff8_0000_0000_0000 }
    }

    fn infinity() -> (r: Self) {
        proof {
            lemma2_to64();
            lemma2_to64_rest();
            lemma_fields64(0x7ff0_0000_0000_0000u64);
            assert((0x7ff0_0000_0000_0000u64 & 0x000f_ffff_ffff_ffff == 0)
                && (0x7ff0_0000_0000_0000u64 >> 52) & 0x7ff == 0x7ff && (0x7ff0_0000_0000_0000u64
                >> 63 == 0)) by (bit_vector);
        }
        Binary64 { bits: 0x7ff0_0000_0000_0000 }
    }

    fn neg_infinity() -> (r: Self) {
        proof {
            lemma2_to64();
            lemma2_to64_rest();
            lemma_fields64(0xfff0_0000_0000_0000u64);
            assert((0xfff0_0000_0000_0000u64 & 0x000f_ffff_ffff_ffff == 0)
                && (0xfff0_0000_0000_0000u64 >> 52) & 0x7ff == 0x7ff && (0xfff0_0000_0000_0000u64
                >> 63 == 1)) by (bit_vector);
        }
        Binary64 { bits: 0xfff0_0000_0000_0000 }
    }

    fn neg_zero() -> (r: Self) {
        proof {
            lemma2_to64();
            lemma2_to64_rest();
            lemma_fields64(0x8000_0000_0000_0000u64);
            assert((0x8000_0000_0000_0000u64 & 0x000f_ffff_ffff_ffff == 0)
                && (0x8000_0000_0000_0000u64 >> 52) & 0x7ff == 0 && (0x8000_0000_0000_0000u64 >> 63
                == 1)) by (bit_vector);
        }
        Binary64 { bits: 0x8000_0000_0000_0000 }
    }

    fn epsilon() -> (r: Self) {
        proof {
            lemma2_to64();
            lemma2_to64_rest();
            lemma_fields64(0x3cb0_0000_0000_0000u64);
            assert((0x3cb0_0000_0000_0000u64 & 0x000f_ffff_ffff_ffff == 0)
                && (0x3cb0_0000_0000_0000u64 >> 52) & 0x7ff == 971 && (0x3cb0_0000_0000_0000u64
                >> 63 == 0)) by (bit_vector);
            lemma_pow2_adds(52, 971);
        }
        Binary64 { bits: 0x3cb0_0000_0000_0000 }
    }

    fn is_nan(&self) -> (r: bool) {
        let b: u64 = self.bits;
        proof {
            lemma_fields64(b);
            lemma2_to64();
        }
        (b >> 52) & 0x7ff == 0x7ff && b & 0x000f_ffff_ffff_ffff != 0
    }

    fn is_infinite(&self) -> (r: bool) {
        let b: u64 = self.bits;
        proof {
            lemma_fields64(b);
            lemma2_to64();
        }
        (b >> 52) & 0x7ff == 0x7ff && b & 0x000f_ffff_ffff_ffff == 0
    }

    fn is_finite(&self) -> (r: bool) {
        let b: u64 = self.bits;
        proof {
            lemma_fields64(b);
            lemma2_to64();
        }
        (b >> 52) & 0x7ff != 0x7ff
    }

    fn is_normal(&self) -> (r: bool) {
        let b: u64 = self.bits;
        proof {
            lemma_fields64(b);
            lemma2_to64();
        }
        let e: u64 = (b >> 52) & 0x7ff;
        e != 0 && e != 0x7ff
    }

    fn classify(&self) -> (c: Classification) {
        let b: u64 = self.bits;
        proof {
            lemma_fields64(b);
            lemma2_to64();
        }
        let man: u64 = b & 0x000f_ffff_ffff_ffff;
        let exp: u64 = (b >> 52) & 0x7ff;
        if exp == 0 {
            if man == 0 {
                Classification::Zero
            } else {
                Classification::Subnormal
            }
        } else if exp == 0x7ff {
            if man == 0 {
                Classification::Infinite
            } else {
                Classification::Nan
            }
        } else {
            Classification::Normal
        }
    }

    fn is_sign_positive(&self) -> (r: bool) {
        let b: u64 = self.bits;
        proof {
            lemma_fields64(b);
        }
        b >> 63 == 0
    }

    fn is_sign_negative(&self) -> (r: bool) {
        let b: u64 = self.bits;
        proof {
            lemma_fields64(b);
        }
        b >> 63 == 1
    }

    fn trunc(&self) -> (r: Self) {
        let b: u64 = self.bits;
        let exp_raw: u64 = (b >> 52) & 0x7ff;
        proof {
            lemma_fields64(b);
            lemma2_to64();
            lemma2_to64_rest();
        }
        if exp_raw < 1023 {
            proof {
                assert(b & 0x8000_0000_0000_0000 == (if b >> 63 == 1 {
                    0x8000_0000_0000_0000u64
                } else {
                    0u64
                })) by (bit_vector);
            }
            Binary64 { bits: b & 0x8000_0000_0000_0000 }
        } else if exp_raw >= 1075 {
            Binary64 { bits: b }
        } else {
            let k: u64 = 1075 - exp_raw;
            proof {
                vstd::bits::lemma_u64_pow2_no_overflow(k as nat);
                vstd::bits::lemma_u64_shl_is_mul(1u64, k);
                vstd::bits::lemma_u64_low_bits_mask_is_mod(b, k as nat);
            }
            let mask: u64 = (1u64 << k) - 1;
            proof {
                assert(b & !mask == b - (b & mask)) by (bit_vector);
            }
            Binary64 { bits: b & !mask }
        }
    }

    fn integer_decode(&self) -> (r: (u64, i16, i8)) {
        let b: u64 = self.bits;
        proof {
            lemma_fields64(b);
            lemma2_to64();
            lemma2_to64_rest();
        }
        let sign: i8 = if b >> 63 == 0 {
            1
        } else {
            -1
        };
        let exp_raw: u64 = (b >> 52) & 0x7ff;
        let man_raw: u64 = b & 0x000f_ffff_ffff_ffff;
        let mantissa: u64 = if exp_raw == 0 {
            proof {
                assert((b & 0x000f_ffff_ffff_ffff) << 1 == (b & 0x000f_ffff_ffff_ffff) * 2)
                    by (bit_vector);
            }
            man_raw << 1
        } else {
            proof {
                assert((b & 0x000f_ffff_ffff_ffff) | 0x0010_0000_0000_0000 == (b
                    & 0x000f_ffff_ffff_ffff) + 0x0010_0000_0000_0000) by (bit_vector);
            }
            man_raw | 0x0010_0000_0000_0000
        };
        let exponent: i16 = (exp_raw as i16) - (1023 + 52);
        (mantissa, exponent, sign)
    }
}

} // verus!
