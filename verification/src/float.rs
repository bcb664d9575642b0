//! The common interface of the two IEEE-754 bit-pattern types.

use vstd::prelude::*;
use crate::model::{bias, classify_bits, decoded_exponent, decoded_mantissa, decoded_sign, fmt_ok, is_finite_bits, is_infinite_bits, is_nan_bits, is_normal_bits, is_zero_bits, scaled_abs, sign_field, trunc_bits, wf_bits, Classification};

verus! {

/// Bit-exact operations on one IEEE-754 binary interchange format.
///
/// Implementors fix a format through the two spec constants `exp_width` and
/// `man_width` and expose their stored pattern through `spec_bits`; every
/// operation then carries a contract over the `model` module at that format.
/// All operations are total: none panics, and the sentinel patterns (NaN,
/// infinities) flow through them as ordinary values.
pub trait Float: Sized + Copy {
    /// Width of the exponent field of the format, in bits.
    spec fn exp_width() -> nat;

    /// Width of the mantissa field of the format, in bits.
    spec fn man_width() -> nat;

    /// The stored bit pattern, as a natural number.
    spec fn spec_bits(&self) -> nat;

    /// The format is a real one and every value's pattern lies in range.
    proof fn lemma_wf(&self)
        ensures
            fmt_ok(Self::exp_width(), Self::man_width()),
            Self::man_width() < bias(Self::exp_width()),
            wf_bits(Self::exp_width(), Self::man_width(), self.spec_bits()),
    ;

    /// A quiet NaN with the sign bit clear.
    fn nan() -> (r: Self)
        ensures
            is_nan_bits(Self::exp_width(), Self::man_width(), r.spec_bits()),
            !sign_field(Self::exp_width(), Self::man_width(), r.spec_bits()),
    ;

    /// Positive infinity.
    fn infinity() -> (r: Self)
        ensures
            is_infinite_bits(Self::exp_width(), Self::man_width(), r.spec_bits()),
            !sign_field(Self::exp_width(), Self::man_width(), r.spec_bits()),
    ;

    /// Negative infinity.
    fn neg_infinity() -> (r: Self)
        ensures
            is_infinite_bits(Self::exp_width(), Self::man_width(), r.spec_bits()),
            sign_field(Self::exp_width(), Self::man_width(), r.spec_bits()),
    ;

    /// The zero with the sign bit set.
    fn neg_zero() -> (r: Self)
        ensures
            is_zero_bits(Self::exp_width(), Self::man_width(), r.spec_bits()),
            sign_field(Self::exp_width(), Self::man_width(), r.spec_bits()),
    ;

    /// The machine epsilon `2^-man_width`, the gap between one and the next
    /// representable value above it: the positive finite value whose scaled
    /// magnitude is exactly `2^bias`.
    fn epsilon() -> (r: Self)
        ensures
            is_finite_bits(Self::exp_width(), Self::man_width(), r.spec_bits()),
            !sign_field(Self::exp_width(), Self::man_width(), r.spec_bits()),
            scaled_abs(Self::exp_width(), Self::man_width(), r.spec_bits()) == vstd::arithmetic::power2::pow2(bias(Self::exp_width())),
    ;

    /// Whether the pattern is a NaN.
    fn is_nan(&self) -> (r: bool)
        ensures
            r == is_nan_bits(Self::exp_width(), Self::man_width(), self.spec_bits()),
    ;

    /// Whether the pattern is one of the two infinities.
    fn is_infinite(&self) -> (r: bool)
        ensures
            r == is_infinite_bits(Self::exp_width(), Self::man_width(), self.spec_bits()),
    ;

    /// Whether the pattern is neither a NaN nor an infinity.
    fn is_finite(&self) -> (r: bool)
        ensures
            r == is_finite_bits(Self::exp_width(), Self::man_width(), self.spec_bits()),
    ;

    /// Whether the pattern is a normal number: finite, not zero, not
    /// subnormal.
    fn is_normal(&self) -> (r: bool)
        ensures
            r == is_normal_bits(Self::exp_width(), Self::man_width(), self.spec_bits()),
    ;

    /// The class of the pattern.
    fn classify(&self) -> (c: Classification)
        ensures
            c == classify_bits(Self::exp_width(), Self::man_width(), self.spec_bits()),
    ;

    /// Whether the sign bit is clear.  This is a bit test, not a comparison:
    /// it distinguishes the two zeros and reads the sign carried by a NaN.
    fn is_sign_positive(&self) -> (r: bool)
        ensures
            r == !sign_field(Self::exp_width(), Self::man_width(), self.spec_bits()),
    ;

    /// Whether the sign bit is set.  See `is_sign_positive`.
    fn is_sign_negative(&self) -> (r: bool)
        ensures
            r == sign_field(Self::exp_width(), Self::man_width(), self.spec_bits()),
    ;

    /// The pattern of the value truncated toward zero; see
    /// `model::trunc_bits` and `model::lemma_trunc_integer_part`.
    fn trunc(&self) -> (r: Self)
        ensures
            r.spec_bits() == trunc_bits(Self::exp_width(), Self::man_width(), self.spec_bits()),
    ;

    /// The bit-exact integer decomposition `(mantissa, exponent, sign)` with
    /// `sign * mantissa * 2^exponent` equal to the stored value; see
    /// `model::lemma_decode_round_trip`.  Subnormals and zeros decode without
    /// the implicit leading mantissa bit, everything else with it.
    fn integer_decode(&self) -> (r: (u64, i16, i8))
        ensures
            r.0 as nat == decoded_mantissa(Self::exp_width(), Self::man_width(), self.spec_bits()),
            r.1 as int == decoded_exponent(Self::exp_width(), Self::man_width(), self.spec_bits()),
            r.2 as int == decoded_sign(Self::exp_width(), Self::man_width(), self.spec_bits()),
    ;
}

} // verus!
