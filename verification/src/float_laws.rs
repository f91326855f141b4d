//! Laws of floats: comparison follows the numbers that the bits denote,
//! and a float is truthy exactly when it is not zero.
use vstd::prelude::*;
use crate::semantics::{CmpOp, Outcome, cmp_spec};
use crate::value::{SValue, truthy, value_eq};
use crate::float::{
    float_eq, float_exp, float_frac, float_is_nan, float_le, float_lt, float_mag, float_sign, float_truthy,
    lemma_two_pow_mono, lemma_two_pow_pos, two52, two63, two_pow,
};

verus! {

/// The number that a finite float denotes, times 2^1074 (every finite
/// binary64 is a whole multiple of 2^-1074): the significand, with its
/// leading 1 unless the exponent field is zero, times two to the power of
/// the exponent field less one (zero for a zero field), with the sign.
pub open spec fn float_scaled(b: u64) -> int {
    let e = float_exp(b);
    let m: int = if e == 0 { float_frac(b) } else { float_frac(b) + two52() };
    let p: nat = if e == 0 { 0 } else { (e - 1) as nat };
    let x = m * two_pow(p);
    if float_sign(b) { -x } else { x }
}

/// A bound past every finite float's scaled number.
pub open spec fn beyond_finite() -> int {
    two_pow(2100) as int
}

/// Where a float that is not NaN stands among the numbers: its scaled
/// number when finite; an infinity beyond every finite number on its side.
pub open spec fn float_place(b: u64) -> int {
    if float_exp(b) == 0x7ff {
        if float_sign(b) { -beyond_finite() } else { beyond_finite() }
    } else {
        float_scaled(b)
    }
}

/// The place of a magnitude (the bits below the sign bit).
spec fn mag_place(m: int) -> int {
    let e = m / two52();
    let f = m % two52();
    if e == 0x7ff {
        beyond_finite()
    } else {
        let mant: int = if e == 0 { f } else { f + two52() };
        let p: nat = if e == 0 { 0 } else { (e - 1) as nat };
        mant * two_pow(p)
    }
}

/// The largest magnitude that is not NaN: that of infinity.
spec fn max_mag() -> int {
    0x7ff * two52()
}

/// Two to a sum is the product of the powers.
proof fn lemma_two_pow_add(a: nat, b: nat)
    ensures
        two_pow(a + b) == two_pow(a) * two_pow(b),
    decreases b,
{
    if b > 0 {
        lemma_two_pow_add(a, (b - 1) as nat);
        assert(two_pow(a + b) == 2 * two_pow((a + b - 1) as nat));
        assert(two_pow(b) == 2 * two_pow((b - 1) as nat));
        assert(two_pow(a) * (2 * two_pow((b - 1) as nat)) == 2 * (two_pow(a) * two_pow((b - 1) as nat))) by (nonlinear_arith);
    } else {
        assert(two_pow(0) == 1);
        assert(a + b == a);
    }
}

/// The exponent and fraction fields are read off the magnitude.
proof fn lemma_fields(b: u64)
    ensures
        0 <= float_mag(b) < two63(),
        float_exp(b) == float_mag(b) / two52(),
        float_frac(b) == float_mag(b) % two52(),
{
    assert((b / 0x10_0000_0000_0000) % 0x800 == (b % 0x8000_0000_0000_0000) / 0x10_0000_0000_0000) by (bit_vector);
    assert(b % 0x10_0000_0000_0000 == (b % 0x8000_0000_0000_0000) % 0x10_0000_0000_0000) by (bit_vector);
}

/// A float is NaN exactly when its magnitude is past infinity's, and its
/// place is its magnitude's place, with the sign.
proof fn lemma_place_by_mag(b: u64)
    ensures
        float_is_nan(b) == (float_mag(b) > max_mag()),
        float_place(b) == if float_sign(b) { -mag_place(float_mag(b)) } else { mag_place(float_mag(b)) },
{
    lemma_fields(b);
    let m = float_mag(b);
    assert(m / two52() < 0x800) by {
        assert(m < 0x800 * two52());
    }
    assert(m == (m / two52()) * two52() + m % two52());
}

/// A magnitude is its exponent field times 2^52 plus its fraction field.
proof fn lemma_split(m: int)
    requires
        m >= 0,
    ensures
        m == (m / two52()) * two52() + m % two52(),
        0 <= m % two52() < two52(),
        m / two52() >= 0,
{
}

/// Of two magnitudes, the smaller has the exponent field at most as large,
/// and a fraction below when the fields are equal.
proof fn lemma_fields_order(m1: int, m2: int)
    requires
        0 <= m1 < m2 <= max_mag(),
    ensures
        m1 / two52() <= m2 / two52() <= 0x7ff,
        m1 / two52() == m2 / two52() ==> m1 % two52() < m2 % two52(),
        m2 / two52() == 0x7ff ==> m1 / two52() < 0x7ff,
{
    let t = two52();
    lemma_split(m1);
    lemma_split(m2);
    let e1 = m1 / t;
    let e2 = m2 / t;
    let f1 = m1 % t;
    let f2 = m2 % t;
    assert(e1 <= e2) by (nonlinear_arith)
        requires m1 < m2, m1 == e1 * t + f1, m2 == e2 * t + f2, 0 <= f1 < t, 0 <= f2 < t, t > 0;
    assert(e2 <= 0x7ff) by (nonlinear_arith)
        requires m2 <= 0x7ff * t, m2 == e2 * t + f2, 0 <= f2, t > 0;
    if e2 == 0x7ff {
        assert(f2 == 0) by (nonlinear_arith)
            requires m2 <= 0x7ff * t, m2 == e2 * t + f2, 0 <= f2, e2 == 0x7ff;
        assert(e1 < 0x7ff) by (nonlinear_arith)
            requires m1 < m2, m1 == e1 * t + f1, 0 <= f1, m2 == 0x7ff * t, t > 0;
    }
}

/// A finite magnitude's place is below the bound past every finite float.
proof fn lemma_finite_below(mant: int, p: nat)
    requires
        0 <= mant < 2 * two52(),
        p <= 2045,
    ensures
        mant * two_pow(p) < beyond_finite(),
{
    lemma_two_pow_pos(p);
    lemma_two_pow_mono(p, 2045);
    lemma_two_pow_add(53, 2045);
    lemma_two_pow_mono(2098, 2100);
    reveal_with_fuel(two_pow, 54);
    assert(two_pow(53) == 2 * two52());
    assert(mant * two_pow(p) < two_pow(53) * two_pow(2045)) by (nonlinear_arith)
        requires 0 <= mant < two_pow(53), 0 < two_pow(p) <= two_pow(2045);
}

/// With a higher exponent field, the place is higher.
proof fn lemma_higher_exp(mant1: int, p1: nat, e1: int, mant2: int, p2: nat)
    requires
        0 <= mant1,
        e1 == 0 ==> mant1 < two52() && p1 == 0,
        e1 != 0 ==> mant1 < 2 * two52() && p1 + 1 <= p2,
        mant2 >= two52(),
    ensures
        mant1 * two_pow(p1) < mant2 * two_pow(p2),
{
    let t = two52();
    lemma_two_pow_pos(p1);
    lemma_two_pow_pos(p2);
    if e1 == 0 {
        assert(two_pow(0) == 1);
        assert(mant2 * two_pow(p2) >= t) by (nonlinear_arith)
            requires mant2 >= t, two_pow(p2) >= 1, t > 0;
    } else {
        lemma_two_pow_mono((p1 + 1) as nat, p2);
        assert(two_pow((p1 + 1) as nat) == 2 * two_pow(p1));
        assert(mant1 * two_pow(p1) < t * two_pow((p1 + 1) as nat)) by (nonlinear_arith)
            requires mant1 < 2 * t, two_pow(p1) > 0, two_pow((p1 + 1) as nat) == 2 * two_pow(p1);
        assert(t * two_pow((p1 + 1) as nat) <= mant2 * two_pow(p2)) by (nonlinear_arith)
            requires t <= mant2, two_pow((p1 + 1) as nat) <= two_pow(p2), t > 0;
    }
}

/// Bigger magnitudes that are not NaN stand further from zero.
proof fn lemma_mag_place_increasing(m1: int, m2: int)
    requires
        0 <= m1 < m2 <= max_mag(),
    ensures
        mag_place(m1) < mag_place(m2),
{
    let t = two52();
    lemma_split(m1);
    lemma_split(m2);
    lemma_fields_order(m1, m2);
    let e1 = m1 / t;
    let e2 = m2 / t;
    let f1 = m1 % t;
    let f2 = m2 % t;
    let mant1: int = if e1 == 0 { f1 } else { f1 + t };
    let mant2: int = if e2 == 0 { f2 } else { f2 + t };
    let p1: nat = if e1 == 0 { 0 } else { (e1 - 1) as nat };
    let p2: nat = if e2 == 0 { 0 } else { (e2 - 1) as nat };
    assert(mag_place(m1) == if e1 == 0x7ff { beyond_finite() } else { mant1 * two_pow(p1) });
    assert(mag_place(m2) == if e2 == 0x7ff { beyond_finite() } else { mant2 * two_pow(p2) });
    if e2 == 0x7ff {
        lemma_finite_below(mant1, p1);
    } else if e1 == e2 {
        lemma_two_pow_pos(p1);
        assert(mant1 < mant2);
        assert(mant1 * two_pow(p1) < mant2 * two_pow(p1)) by (nonlinear_arith)
            requires mant1 < mant2, two_pow(p1) > 0;
    } else {
        lemma_higher_exp(mant1, p1, e1, mant2, p2);
    }
}

/// The place of magnitude zero is zero; of any other, above zero.
proof fn lemma_mag_place_zero(m: int)
    requires
        0 <= m <= max_mag(),
    ensures
        (mag_place(m) == 0) == (m == 0),
        mag_place(m) >= 0,
{
    assert(two_pow(0) == 1);
    assert(mag_place(0) == 0);
    if m > 0 {
        lemma_mag_place_increasing(0, m);
    }
}

/// The place of a signed key: a magnitude's place, negated below zero.
spec fn key_place(k: int) -> int {
    if k < 0 { -mag_place(-k) } else { mag_place(k) }
}

/// Places of keys keep the keys' order.
proof fn lemma_key_place_increasing(k1: int, k2: int)
    requires
        -max_mag() <= k1 < k2 <= max_mag(),
    ensures
        key_place(k1) < key_place(k2),
{
    if k1 >= 0 {
        lemma_mag_place_increasing(k1, k2);
    } else if k2 < 0 {
        lemma_mag_place_increasing(-k2, -k1);
    } else {
        lemma_mag_place_zero(-k1);
        lemma_mag_place_zero(k2);
    }
}

/// A float's place is the place of its signed magnitude.
proof fn lemma_place_key(b: u64)
    requires
        !float_is_nan(b),
    ensures
        float_place(b) == key_place(if float_sign(b) { -float_mag(b) } else { float_mag(b) }),
        float_mag(b) <= max_mag(),
{
    lemma_place_by_mag(b);
    lemma_mag_place_zero(float_mag(b));
}

/// Comparison of floats follows the numbers they denote: for floats that
/// are not NaN, `a < b`, `a <= b` and `a == b` hold exactly when the number
/// of `a` is below, at most or equal to that of `b` (so every negative
/// number is below every positive one, and `-0.0 == 0.0`); an infinity lies
/// beyond every finite number. Where either is NaN, all three are false.
pub proof fn law_float_order(a: u64, b: u64)
    ensures
        !float_is_nan(a) && !float_is_nan(b) ==> {
            &&& float_lt(a, b) == (float_place(a) < float_place(b))
            &&& float_le(a, b) == (float_place(a) <= float_place(b))
            &&& float_eq(a, b) == (float_place(a) == float_place(b))
        },
        float_is_nan(a) || float_is_nan(b) ==> !float_lt(a, b) && !float_le(a, b) && !float_eq(a, b),
{
    if !float_is_nan(a) && !float_is_nan(b) {
        lemma_place_key(a);
        lemma_place_key(b);
        let ka = if float_sign(a) { -float_mag(a) } else { float_mag(a) };
        let kb = if float_sign(b) { -float_mag(b) } else { float_mag(b) };
        if ka < kb {
            lemma_key_place_increasing(ka, kb);
        } else if kb < ka {
            lemma_key_place_increasing(kb, ka);
        }
    }
}

/// A float is truthy exactly when it is not zero (either zero) : NaN and
/// every number other than zero, negative ones included, are truthy.
pub proof fn law_float_truthy(b: u64)
    ensures
        float_truthy(b) == (float_is_nan(b) || float_place(b) != 0),
{
    lemma_place_by_mag(b);
    lemma_fields(b);
    if !float_is_nan(b) {
        lemma_mag_place_zero(float_mag(b));
    }
}

/// The ordering operators compare integers as integers and floats as the
/// numbers they denote; with NaN on either side every one of them is false.
pub proof fn law_compare_numbers(x: i64, y: i64, a: u64, b: u64)
    ensures
        cmp_spec(CmpOp::Lt, SValue::Int(x), SValue::Int(y)) == Outcome::Val(SValue::Bool(x < y)),
        cmp_spec(CmpOp::Gt, SValue::Int(x), SValue::Int(y)) == Outcome::Val(SValue::Bool(x > y)),
        cmp_spec(CmpOp::Leq, SValue::Int(x), SValue::Int(y)) == Outcome::Val(SValue::Bool(x <= y)),
        cmp_spec(CmpOp::Geq, SValue::Int(x), SValue::Int(y)) == Outcome::Val(SValue::Bool(x >= y)),
        !float_is_nan(a) && !float_is_nan(b) ==> {
            &&& cmp_spec(CmpOp::Lt, SValue::Float(a), SValue::Float(b)) == Outcome::Val(SValue::Bool(float_place(a) < float_place(b)))
            &&& cmp_spec(CmpOp::Gt, SValue::Float(a), SValue::Float(b)) == Outcome::Val(SValue::Bool(float_place(a) > float_place(b)))
            &&& cmp_spec(CmpOp::Leq, SValue::Float(a), SValue::Float(b)) == Outcome::Val(SValue::Bool(float_place(a) <= float_place(b)))
            &&& cmp_spec(CmpOp::Geq, SValue::Float(a), SValue::Float(b)) == Outcome::Val(SValue::Bool(float_place(a) >= float_place(b)))
            &&& value_eq(SValue::Float(a), SValue::Float(b)) == (float_place(a) == float_place(b))
        },
        float_is_nan(a) || float_is_nan(b) ==> {
            &&& cmp_spec(CmpOp::Lt, SValue::Float(a), SValue::Float(b)) == Outcome::Val(SValue::Bool(false))
            &&& cmp_spec(CmpOp::Gt, SValue::Float(a), SValue::Float(b)) == Outcome::Val(SValue::Bool(false))
            &&& cmp_spec(CmpOp::Leq, SValue::Float(a), SValue::Float(b)) == Outcome::Val(SValue::Bool(false))
            &&& cmp_spec(CmpOp::Geq, SValue::Float(a), SValue::Float(b)) == Outcome::Val(SValue::Bool(false))
            &&& !value_eq(SValue::Float(a), SValue::Float(b))
        },
{
    law_float_order(a, b);
    law_float_order(b, a);
}

/// Truthiness of a value: a float is truthy exactly when it is NaN or not
/// zero, negative numbers included.
pub proof fn law_float_value_truthy(b: u64)
    ensures
        truthy(SValue::Float(b)) == (float_is_nan(b) || float_place(b) != 0),
{
    law_float_truthy(b);
}

} // verus!
