//! Mathematical model of IEEE-754 binary interchange formats.
//!
//! A value is modelled by its bit pattern, read as a natural number, together
//! with the two format parameters: the exponent-field width `ew` and the
//! mantissa-field width `mw` (binary32 has `ew == 8`, `mw == 23`; binary64 has
//! `ew == 11`, `mw == 52`).  The layout is sign (1 bit), exponent (`ew` bits),
//! mantissa (`mw` bits), from most to least significant.
//!
//! Every finite value of such a format is an integer multiple of the smallest
//! positive subnormal, `2^-(bias + mw - 1)`.  To keep the model in integer
//! arithmetic, magnitudes are stated in units of `2^-(bias + mw)`: the spec
//! function `scaled_abs` returns the magnitude of a finite value multiplied by
//! `2^(bias + mw)`, which is always a natural number.

use vstd::prelude::*;
use vstd::arithmetic::power2::{pow2, lemma_pow2_pos, lemma_pow2_adds, lemma_pow2_strictly_increases, lemma_pow2_unfold, lemma2_to64};
use vstd::arithmetic::div_mod::{lemma_basic_div, lemma_div_by_self, lemma_div_multiples_vanish, lemma_div_of0, lemma_mod_multiples_basic, lemma_small_mod};
use vstd::arithmetic::mul::{lemma_mul_is_associative, lemma_mul_is_commutative, lemma_mul_is_distributive_add, lemma_mul_strict_inequality};

verus! {

/// The five IEEE-754 classes a bit pattern can fall in.
#[derive(Clone, Copy, Debug, PartialEq, Eq, Structural)]
pub enum Classification {
    Zero,
    Subnormal,
    Normal,
    Infinite,
    Nan,
}

/// The format parameters describe a real interchange format: at least two
/// exponent bits and at least one mantissa bit.
pub open spec fn fmt_ok(ew: nat, mw: nat) -> bool {
    2 <= ew && 1 <= mw
}

/// Total width of the format in bits.
pub open spec fn width(ew: nat, mw: nat) -> nat {
    1 + ew + mw
}

/// A bit pattern of the format: any natural number below `2^width`.
pub open spec fn wf_bits(ew: nat, mw: nat, bits: nat) -> bool {
    fmt_ok(ew, mw) && bits < pow2(width(ew, mw))
}

/// The raw mantissa field: the low `mw` bits.
pub open spec fn man_field(mw: nat, bits: nat) -> nat {
    bits % pow2(mw)
}

/// The raw (biased) exponent field: the `ew` bits above the mantissa.
pub open spec fn exp_field(ew: nat, mw: nat, bits: nat) -> nat {
    (bits / pow2(mw)) % pow2(ew)
}

/// The sign bit, above the exponent field.
pub open spec fn sign_field(ew: nat, mw: nat, bits: nat) -> bool {
    bits / pow2(ew + mw) % 2 == 1
}

/// The all-ones exponent field, reserved for infinities and NaNs.
pub open spec fn max_exp(ew: nat) -> nat {
    (pow2(ew) - 1) as nat
}

/// The exponent bias: `2^(ew - 1) - 1` (127 for binary32, 1023 for binary64).
pub open spec fn bias(ew: nat) -> nat {
    (pow2((ew - 1) as nat) - 1) as nat
}

pub open spec fn is_zero_bits(ew: nat, mw: nat, bits: nat) -> bool {
    exp_field(ew, mw, bits) == 0 && man_field(mw, bits) == 0
}

pub open spec fn is_subnormal_bits(ew: nat, mw: nat, bits: nat) -> bool {
    exp_field(ew, mw, bits) == 0 && man_field(mw, bits) != 0
}

pub open spec fn is_normal_bits(ew: nat, mw: nat, bits: nat) -> bool {
    0 < exp_field(ew, mw, bits) < max_exp(ew)
}

pub open spec fn is_infinite_bits(ew: nat, mw: nat, bits: nat) -> bool {
    exp_field(ew, mw, bits) == max_exp(ew) && man_field(mw, bits) == 0
}

pub open spec fn is_nan_bits(ew: nat, mw: nat, bits: nat) -> bool {
    exp_field(ew, mw, bits) == max_exp(ew) && man_field(mw, bits) != 0
}

pub open spec fn is_finite_bits(ew: nat, mw: nat, bits: nat) -> bool {
    exp_field(ew, mw, bits) != max_exp(ew)
}

/// The class of a bit pattern, decided by its exponent and mantissa fields.
pub open spec fn classify_bits(ew: nat, mw: nat, bits: nat) -> Classification {
    if exp_field(ew, mw, bits) == 0 {
        if man_field(mw, bits) == 0 {
            Classification::Zero
        } else {
            Classification::Subnormal
        }
    } else if exp_field(ew, mw, bits) == max_exp(ew) {
        if man_field(mw, bits) == 0 {
            Classification::Infinite
        } else {
            Classification::Nan
        }
    } else {
        Classification::Normal
    }
}

/// The magnitude of a finite value, in units of `2^-(bias + mw)`.
///
/// A subnormal or zero pattern denotes `man * 2^(1 - bias - mw)`, a normal
/// pattern `(man + 2^mw) * 2^(exp - bias - mw)`; both scale to the naturals
/// below.  (Applied to an infinity or NaN pattern the function still yields a
/// number, but no meaning is attached to it there.)
pub open spec fn scaled_abs(ew: nat, mw: nat, bits: nat) -> nat {
    if exp_field(ew, mw, bits) == 0 {
        2 * man_field(mw, bits)
    } else {
        (man_field(mw, bits) + pow2(mw)) * pow2(exp_field(ew, mw, bits))
    }
}

/// The signed value of a finite pattern, in units of `2^-(bias + mw)`.
pub open spec fn scaled_value(ew: nat, mw: nat, bits: nat) -> int {
    if sign_field(ew, mw, bits) {
        -(scaled_abs(ew, mw, bits) as int)
    } else {
        scaled_abs(ew, mw, bits) as int
    }
}

/// The mantissa of the integer decomposition: the raw field shifted left once
/// for subnormals and zeros (no implicit bit), or with the implicit leading
/// bit `2^mw` set for everything else.
pub open spec fn decoded_mantissa(ew: nat, mw: nat, bits: nat) -> nat {
    if exp_field(ew, mw, bits) == 0 {
        2 * man_field(mw, bits)
    } else {
        man_field(mw, bits) + pow2(mw)
    }
}

/// The exponent of the integer decomposition: the raw field rebiased by
/// `-(bias + mw)` so that `sign * mantissa * 2^exponent` is the value.
pub open spec fn decoded_exponent(ew: nat, mw: nat, bits: nat) -> int {
    exp_field(ew, mw, bits) - bias(ew) - mw
}

/// The sign of the integer decomposition: `-1` or `1`.
pub open spec fn decoded_sign(ew: nat, mw: nat, bits: nat) -> int {
    if sign_field(ew, mw, bits) {
        -1
    } else {
        1
    }
}

/// The bit pattern of the value truncated toward zero.
///
/// A magnitude below one collapses to the zero of the same sign; a pattern
/// whose exponent places the point at or beyond the end of the mantissa is
/// already an integer (infinities and NaNs also land here for the real
/// interchange formats) and is left unchanged; otherwise the fractional low
/// bits of the mantissa are cleared.
pub open spec fn trunc_bits(ew: nat, mw: nat, bits: nat) -> nat {
    let e = exp_field(ew, mw, bits);
    if e < bias(ew) {
        if sign_field(ew, mw, bits) {
            pow2(ew + mw)
        } else {
            0
        }
    } else if e >= bias(ew) + mw {
        bits
    } else {
        (bits - bits % pow2((bias(ew) + mw - e) as nat)) as nat
    }
}

/// Classification is consistent with the boolean class predicates: every bit
/// pattern falls in exactly one class, the predicates are exactly the
/// per-class tests, and finiteness means neither an infinity nor a NaN.
pub proof fn lemma_classification_consistent(ew: nat, mw: nat, bits: nat)
    requires
        fmt_ok(ew, mw),
    ensures
        is_zero_bits(ew, mw, bits) <==> classify_bits(ew, mw, bits) == Classification::Zero,
        is_subnormal_bits(ew, mw, bits) <==> classify_bits(ew, mw, bits)
            == Classification::Subnormal,
        is_normal_bits(ew, mw, bits) <==> classify_bits(ew, mw, bits) == Classification::Normal,
        is_infinite_bits(ew, mw, bits) <==> classify_bits(ew, mw, bits)
            == Classification::Infinite,
        is_nan_bits(ew, mw, bits) <==> classify_bits(ew, mw, bits) == Classification::Nan,
        is_finite_bits(ew, mw, bits) <==> !(is_nan_bits(ew, mw, bits) || is_infinite_bits(
            ew,
            mw,
            bits,
        )),
{
    lemma2_to64();
    lemma_pow2_strictly_increases(0, ew);
    lemma_pow2_pos(ew);
    lemma_pow2_pos(mw);
}

/// Round-trip law of the integer decomposition: for every bit pattern the
/// decoded triple `(m, e, s)` satisfies `s * m * 2^e == value`, stated here
/// with both sides brought to the common scale `2^(bias + mw)`.
pub proof fn lemma_decode_round_trip(ew: nat, mw: nat, bits: nat)
    requires
        fmt_ok(ew, mw),
    ensures
        decoded_exponent(ew, mw, bits) + bias(ew) + mw >= 0,
        decoded_sign(ew, mw, bits) * decoded_mantissa(ew, mw, bits) * pow2(
            (decoded_exponent(ew, mw, bits) + bias(ew) + mw) as nat,
        ) == scaled_value(ew, mw, bits),
{
    lemma2_to64();
    let s = decoded_sign(ew, mw, bits);
    let m = decoded_mantissa(ew, mw, bits);
    let shift = (decoded_exponent(ew, mw, bits) + bias(ew) + mw) as nat;
    assert(shift == exp_field(ew, mw, bits));
    if exp_field(ew, mw, bits) == 0 {
        assert(m * pow2(0) == m);
    } else {
        assert(m * pow2(shift) == scaled_abs(ew, mw, bits));
    }
    lemma_mul_is_associative(s, m as int, pow2(shift) as int);
}

/// The two zeros: the all-zero pattern and the pattern with only the sign bit
/// set both classify as `Zero` and denote the same value, zero, yet they are
/// distinct patterns told apart by the sign bit alone.  Sign inspection
/// therefore cannot go through value equality.
pub proof fn lemma_signed_zeros(ew: nat, mw: nat)
    requires
        fmt_ok(ew, mw),
    ensures
        classify_bits(ew, mw, 0) == Classification::Zero,
        !sign_field(ew, mw, 0),
        scaled_value(ew, mw, 0) == 0,
        classify_bits(ew, mw, pow2(ew + mw)) == Classification::Zero,
        sign_field(ew, mw, pow2(ew + mw)),
        scaled_value(ew, mw, pow2(ew + mw)) == 0,
        pow2(ew + mw) != 0,
{
    lemma_pow2_pos(ew);
    lemma_pow2_pos(mw);
    lemma_pow2_pos((ew + mw) as nat);
    lemma_pow2_adds(ew, mw);
    let p = pow2(ew + mw);
    let pe = pow2(ew);
    let pm = pow2(mw);
    // Fields of the all-zero pattern.
    lemma_div_of0(pow2(mw) as int);
    lemma_div_of0(pow2(ew + mw) as int);
    lemma_small_mod(0, pow2(ew));
    assert(man_field(mw, 0) == 0);
    assert(exp_field(ew, mw, 0) == 0);
    assert(!sign_field(ew, mw, 0));
    // Fields of the sign-only pattern: p == pe * pm.
    lemma_mul_is_commutative(pe as int, pm as int);
    lemma_mod_multiples_basic(pe as int, pm as int);
    assert(man_field(mw, p) == 0);
    lemma_div_multiples_vanish(pe as int, pm as int);
    assert(p / pm == pe);
    lemma_mod_multiples_basic(1, pe as int);
    assert(exp_field(ew, mw, p) == 0);
    lemma_div_by_self(p as int);
    assert(sign_field(ew, mw, p));
}

/// Helper for the truncation law: in the middle range of exponents,
/// clearing the low fractional bits of the mantissa rounds the scaled
/// magnitude down to a multiple of a whole unit and leaves the other fields
/// alone.
proof fn lemma_trunc_clears_fraction(ew: nat, mw: nat, bits: nat)
    requires
        wf_bits(ew, mw, bits),
        bias(ew) <= exp_field(ew, mw, bits) < bias(ew) + mw,
    ensures
        trunc_bits(ew, mw, bits) <= bits,
        man_field(mw, trunc_bits(ew, mw, bits)) <= man_field(mw, bits),
        exp_field(ew, mw, trunc_bits(ew, mw, bits)) == exp_field(ew, mw, bits),
        sign_field(ew, mw, trunc_bits(ew, mw, bits)) == sign_field(ew, mw, bits),
        scaled_abs(ew, mw, trunc_bits(ew, mw, bits)) == (scaled_abs(ew, mw, bits) / pow2(
            (bias(ew) + mw) as nat,
        )) * pow2((bias(ew) + mw) as nat),
{
    let e = exp_field(ew, mw, bits);
    let m = man_field(mw, bits);
    let pm = pow2(mw);
    let pe = pow2(ew);
    let s = (bias(ew) + mw) as nat;
    let ps = pow2(s);
    let k = (s - e) as nat;
    let pk = pow2(k);
    let pd = pow2((mw - k) as nat);
    let pe2 = pow2(e);
    lemma2_to64();
    lemma_pow2_strictly_increases(0, (ew - 1) as nat);
    lemma_pow2_pos(mw);
    lemma_pow2_pos(ew);
    lemma_pow2_pos(k);
    lemma_pow2_pos(e);
    lemma_pow2_pos((mw - k) as nat);
    lemma_pow2_adds(k, (mw - k) as nat);
    assert(pm == pk * pd);
    let q = bits / pm;
    let r = bits % pk;
    vstd::arithmetic::div_mod::lemma_fundamental_div_mod(bits as int, pm as int);
    assert(bits == pm * q + m);
    // The cleared remainder is the low part of the mantissa field alone.
    lemma_mul_is_associative(pk as int, pd as int, q as int);
    assert(pm * q == pk * (pd * q));
    vstd::arithmetic::div_mod::lemma_mod_multiples_vanish((pd * q) as int, m as int, pk as int);
    assert(r == m % pk);
    let mq = m / pk;
    vstd::arithmetic::div_mod::lemma_fundamental_div_mod(m as int, pk as int);
    assert(m == pk * mq + r);
    let t = trunc_bits(ew, mw, bits);
    assert(t == bits - r);
    // Field decomposition of the result.
    vstd::arithmetic::div_mod::lemma_fundamental_div_mod_converse(
        t as int,
        pm as int,
        q as int,
        (m - r) as int,
    );
    assert(man_field(mw, t) == m - r);
    assert(exp_field(ew, mw, t) == e);
    lemma_pow2_adds(mw, ew);
    vstd::arithmetic::div_mod::lemma_div_denominator(t as int, pm as int, pe as int);
    vstd::arithmetic::div_mod::lemma_div_denominator(bits as int, pm as int, pe as int);
    assert(t / pow2(ew + mw) == q / pe);
    assert(bits / pow2(ew + mw) == q / pe);
    assert(sign_field(ew, mw, t) == sign_field(ew, mw, bits));
    // The scaled magnitude of the result is the rounded-down input.
    let a = scaled_abs(ew, mw, bits);
    lemma_pow2_adds(e, k);
    assert(ps == pe2 * pk);
    lemma_mul_is_commutative((m + pm) as int, pe2 as int);
    assert(a == pe2 * (m + pm));
    vstd::arithmetic::div_mod::lemma_div_denominator(a as int, pe2 as int, pk as int);
    lemma_div_multiples_vanish((m + pm) as int, pe2 as int);
    assert(a / pe2 == m + pm);
    lemma_mul_is_distributive_add(pk as int, mq as int, pd as int);
    assert(m + pm == pk * (mq + pd) + r);
    vstd::arithmetic::div_mod::lemma_div_multiples_vanish_fancy(
        (mq + pd) as int,
        r as int,
        pk as int,
    );
    assert((m + pm) / pk == mq + pd);
    assert(a / ps == mq + pd);
    assert(scaled_abs(ew, mw, t) == ((m - r) + pm) * pe2);
    assert(((m - r) + pm) as int == pk * (mq + pd));
    assert((pk * ((mq + pd) as int)) * (pe2 as int) == ((mq + pd) as int) * ((pe2 as int) * (
    pk as int))) by (nonlinear_arith);
    lemma_mul_is_commutative(pe2 as int, pk as int);
    assert(scaled_abs(ew, mw, t) == (mq + pd) * ps);
}

/// Truncation is exactly the integer part: the scaled magnitude of the
/// truncated pattern is the scaled magnitude of the input rounded down to a
/// multiple of `2^(bias + mw)` — that is, to a whole unit.  The sign bit is
/// kept, also on the zeros, and infinities and NaNs pass through unchanged.
///
/// The requirement `mw < bias(ew)` holds of every IEEE-754 interchange
/// format; it places the all-ones exponent field beyond the integer
/// threshold.
pub proof fn lemma_trunc_integer_part(ew: nat, mw: nat, bits: nat)
    requires
        wf_bits(ew, mw, bits),
        mw < bias(ew),
    ensures
        wf_bits(ew, mw, trunc_bits(ew, mw, bits)),
        sign_field(ew, mw, trunc_bits(ew, mw, bits)) == sign_field(ew, mw, bits),
        is_finite_bits(ew, mw, bits) ==> is_finite_bits(ew, mw, trunc_bits(ew, mw, bits)),
        is_finite_bits(ew, mw, bits) ==> scaled_abs(ew, mw, trunc_bits(ew, mw, bits)) == (
        scaled_abs(ew, mw, bits) / pow2((bias(ew) + mw) as nat)) * pow2((bias(ew) + mw) as nat),
        !is_finite_bits(ew, mw, bits) ==> trunc_bits(ew, mw, bits) == bits,
{
    lemma2_to64();
    lemma_pow2_pos(mw);
    lemma_pow2_pos(ew);
    lemma_pow2_pos(ew + mw);
    lemma_pow2_unfold(ew);
    let e = exp_field(ew, mw, bits);
    let m = man_field(mw, bits);
    let pm = pow2(mw);
    let pe = pow2(ew);
    let s = (bias(ew) + mw) as nat;
    let ps = pow2(s);
    lemma_pow2_pos(s);
    let t = trunc_bits(ew, mw, bits);
    assert(e < pe);
    assert(m < pm);
    // The all-ones exponent lies at or beyond the integer threshold.
    assert(pe == 2 * pow2((ew - 1) as nat));
    assert(max_exp(ew) >= bias(ew) + mw);
    if e < bias(ew) {
        // The magnitude is below one: the result is the zero of the same sign.
        lemma_signed_zeros(ew, mw);
        let a = scaled_abs(ew, mw, bits);
        assert(scaled_abs(ew, mw, t) == 0);
        lemma_pow2_adds(mw, 1);
        if e == 0 {
            assert(a == 2 * m);
            assert(a < pow2((mw + 1) as nat));
            if mw + 1 < s {
                lemma_pow2_strictly_increases((mw + 1) as nat, s);
            }
        } else {
            let pe2 = pow2(e);
            lemma_pow2_pos(e);
            lemma_mul_strict_inequality((m + pm) as int, pow2((mw + 1) as nat) as int, pe2 as int);
            lemma_pow2_adds((mw + 1) as nat, e);
            assert(a < pow2((mw + 1 + e) as nat));
            if mw + 1 + e < s {
                lemma_pow2_strictly_increases((mw + 1 + e) as nat, s);
            }
        }
        lemma_basic_div(a as int, ps as int);
        assert(a / ps == 0);
        assert((a / ps) * ps == 0);
        assert(scaled_abs(ew, mw, t) == (scaled_abs(ew, mw, bits) / ps) * ps);
        lemma_pow2_strictly_increases(ew + mw, width(ew, mw));
    } else if e >= bias(ew) + mw {
        // Already an integer (or an infinity or NaN): unchanged, and the
        // scaled magnitude is a multiple of a whole unit.
        if is_finite_bits(ew, mw, bits) {
            let pe2 = pow2(e);
            lemma_pow2_pos(e);
            lemma_pow2_adds(s, (e - s) as nat);
            let pd = pow2((e - s) as nat);
            let a = scaled_abs(ew, mw, bits);
            assert(pe2 == ps * pd);
            assert(((m + pm) as int) * ((ps as int) * (pd as int)) == (ps as int) * (((m + pm)
                as int) * (pd as int))) by (nonlinear_arith);
            assert(a == ps * ((m + pm) * pd));
            lemma_div_multiples_vanish(((m + pm) * pd) as int, ps as int);
            assert(a / ps == (m + pm) * pd);
            lemma_mul_is_commutative((a / ps) as int, ps as int);
            assert(scaled_abs(ew, mw, t) == (scaled_abs(ew, mw, bits) / ps) * ps);
        }
    } else {
        lemma_trunc_clears_fraction(ew, mw, bits);
    }
}

/// The fractional part is what truncation removes: every finite value
/// splits as `trunc + fract`, where `fract` has magnitude below one and
/// carries the sign of the value or is zero.  This is the identity behind
/// computing the fractional part as `x - trunc(x)`: the subtraction is exact,
/// and it can never flip the sign.
pub proof fn lemma_fract_sign(ew: nat, mw: nat, bits: nat)
    requires
        wf_bits(ew, mw, bits),
        mw < bias(ew),
        is_finite_bits(ew, mw, bits),
    ensures
        ({
            let f = scaled_value(ew, mw, bits) - scaled_value(
                ew,
                mw,
                trunc_bits(ew, mw, bits),
            );
            &&& -(pow2((bias(ew) + mw) as nat) as int) < f < pow2((bias(ew) + mw) as nat)
            &&& scaled_value(ew, mw, bits) >= 0 ==> f >= 0
            &&& scaled_value(ew, mw, bits) <= 0 ==> f <= 0
        }),
{
    lemma_trunc_integer_part(ew, mw, bits);
    let t = trunc_bits(ew, mw, bits);
    let a = scaled_abs(ew, mw, bits);
    let s = (bias(ew) + mw) as nat;
    let ps = pow2(s);
    lemma_pow2_pos(s);
    vstd::arithmetic::div_mod::lemma_fundamental_div_mod(a as int, ps as int);
    lemma_mul_is_commutative((a / ps) as int, ps as int);
    assert(a - (a / ps) * ps == a % ps);
    lemma_small_mod(0, ps);
}

} // verus!
