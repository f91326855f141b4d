//! IEEE-754 binary64 numbers held by their bit pattern.
//!
//! The library keeps a float as the `u64` of its bits. Ordering, equality,
//! truthiness and the conversion to `i64` are computed here on the bits.
//! Conversions between decimal text and binary64 are done by the caller
//! through a [`FloatSupport`].
use vstd::prelude::*;

verus! {

/// 2^52: the weight of the lowest exponent bit.
pub open spec fn two52() -> int {
    0x10_0000_0000_0000
}

/// 2^63: the weight of the sign bit.
pub open spec fn two63() -> int {
    0x8000_0000_0000_0000
}

/// Powers of two.
pub open spec fn two_pow(n: nat) -> nat
    decreases n,
{
    if n == 0 { 1 } else { 2 * two_pow((n - 1) as nat) }
}

/// The sign bit.
pub open spec fn float_sign(b: u64) -> bool {
    b >= two63()
}

/// The bits below the sign bit: ordered as the magnitude of the number.
pub open spec fn float_mag(b: u64) -> int {
    b as int % two63()
}

/// The biased exponent field.
pub open spec fn float_exp(b: u64) -> int {
    (b as int / two52()) % 0x800
}

/// The fraction field.
pub open spec fn float_frac(b: u64) -> int {
    b as int % two52()
}

/// Not a number: all exponent bits set and a nonzero fraction.
pub open spec fn float_is_nan(b: u64) -> bool {
    float_exp(b) == 0x7ff && float_frac(b) != 0
}

/// An integer that orders the non-NaN floats as their values are ordered;
/// both zeros have key 0.
pub open spec fn float_key(b: u64) -> int {
    if float_sign(b) { -float_mag(b) } else { float_mag(b) }
}

/// `a < b` on binary64.
pub open spec fn float_lt(a: u64, b: u64) -> bool {
    !float_is_nan(a) && !float_is_nan(b) && float_key(a) < float_key(b)
}

/// `a <= b` on binary64.
pub open spec fn float_le(a: u64, b: u64) -> bool {
    !float_is_nan(a) && !float_is_nan(b) && float_key(a) <= float_key(b)
}

/// `a == b` on binary64: NaN equals nothing, and `0.0 == -0.0`.
pub open spec fn float_eq(a: u64, b: u64) -> bool {
    !float_is_nan(a) && !float_is_nan(b) && float_key(a) == float_key(b)
}

/// `f != 0.0`: true for every number but the two zeros (NaN included).
pub open spec fn float_truthy(b: u64) -> bool {
    float_mag(b) != 0
}

/// The bits of `1.0`.
pub open spec fn float_one() -> u64 {
    0x3ff0_0000_0000_0000
}

/// The magnitude of the number truncated toward zero, for a finite float.
pub open spec fn float_trunc_mag(b: u64) -> nat {
    let e = float_exp(b);
    let mant: int = if e == 0 { float_frac(b) } else { float_frac(b) + two52() };
    let e1: int = if e == 0 { 1 } else { e };
    if e1 >= 1075 {
        (mant * two_pow((e1 - 1075) as nat)) as nat
    } else {
        (mant / (two_pow((1075 - e1) as nat) as int)) as nat
    }
}

/// What `f as i64` gives: truncation toward zero, saturated at the bounds of
/// `i64`, and 0 for NaN.
pub open spec fn float_to_i64_spec(b: u64) -> i64 {
    if float_is_nan(b) {
        0
    } else if float_exp(b) == 0x7ff {
        if float_sign(b) { i64::MIN } else { i64::MAX }
    } else {
        let t = float_trunc_mag(b) as int;
        let v = if float_sign(b) { -t } else { t };
        if v < i64::MIN { i64::MIN } else if v > i64::MAX { i64::MAX } else { v as i64 }
    }
}

/// Whether the float is NaN.
pub fn float_is_nan_exec(b: u64) -> (r: bool)
    ensures
        r == float_is_nan(b),
{
    let e = (b / 0x10_0000_0000_0000) % 0x800;
    let f = b % 0x10_0000_0000_0000;
    e == 0x7ff && f != 0
}

/// Finite: neither an infinity nor NaN.
pub open spec fn float_finite(b: u64) -> bool {
    float_exp(b) != 0x7ff
}

/// Whether the float is finite.
pub fn float_finite_exec(b: u64) -> (r: bool)
    ensures
        r == float_finite(b),
{
    (b / 0x10_0000_0000_0000) % 0x800 != 0x7ff
}

/// The ordering key of a non-NaN float.
pub fn float_key_exec(b: u64) -> (r: i64)
    ensures
        r == float_key(b),
{
    let m = (b % 0x8000_0000_0000_0000) as i64;
    if b >= 0x8000_0000_0000_0000 { -m } else { m }
}

/// `a < b` on binary64.
pub fn float_lt_exec(a: u64, b: u64) -> (r: bool)
    ensures
        r == float_lt(a, b),
{
    !float_is_nan_exec(a) && !float_is_nan_exec(b) && float_key_exec(a) < float_key_exec(b)
}

/// `a <= b` on binary64.
pub fn float_le_exec(a: u64, b: u64) -> (r: bool)
    ensures
        r == float_le(a, b),
{
    !float_is_nan_exec(a) && !float_is_nan_exec(b) && float_key_exec(a) <= float_key_exec(b)
}

/// `a == b` on binary64.
pub fn float_eq_exec(a: u64, b: u64) -> (r: bool)
    ensures
        r == float_eq(a, b),
{
    !float_is_nan_exec(a) && !float_is_nan_exec(b) && float_key_exec(a) == float_key_exec(b)
}

/// `f != 0.0`.
pub fn float_truthy_exec(b: u64) -> (r: bool)
    ensures
        r == float_truthy(b),
{
    b % 0x8000_0000_0000_0000 != 0
}

/// `2^n` for small `n`.
fn pow2_u64(n: u64) -> (r: u64)
    requires
        n < 64,
    ensures
        r == two_pow(n as nat),
        r > 0,
{
    let mut p: u64 = 1;
    let mut i: u64 = 0;
    while i < n
        invariant
            i <= n < 64,
            p == two_pow(i as nat),
            p > 0,
        decreases n - i,
    {
        proof {
            lemma_two_pow_mono((i + 1) as nat, 63);
            lemma_two_pow_63();
        }
        p = p * 2;
        i = i + 1;
    }
    p
}

pub(crate) proof fn lemma_two_pow_mono(a: nat, b: nat)
    requires
        a <= b,
    ensures
        two_pow(a) <= two_pow(b),
    decreases b,
{
    if b > a {
        lemma_two_pow_mono(a, (b - 1) as nat);
    }
}

pub(crate) proof fn lemma_two_pow_pos(a: nat)
    ensures
        two_pow(a) >= 1,
    decreases a,
{
    if a > 0 {
        lemma_two_pow_pos((a - 1) as nat);
    }
}

proof fn lemma_two_pow_11()
    ensures
        two_pow(11) == 2048,
{
    reveal_with_fuel(two_pow, 12);
}

proof fn lemma_two_pow_63()
    ensures
        two_pow(63) == 0x8000_0000_0000_0000,
{
    reveal_with_fuel(two_pow, 64);
}

proof fn lemma_two_pow_64()
    ensures
        two_pow(64) == 0x1_0000_0000_0000_0000,
{
    reveal_with_fuel(two_pow, 65);
}

/// What `f as i64` gives, computed on the bits.
pub fn float_to_i64(b: u64) -> (r: i64)
    ensures
        r == float_to_i64_spec(b),
{
    if float_is_nan_exec(b) {
        return 0;
    }
    let neg = b >= 0x8000_0000_0000_0000;
    let e = (b / 0x10_0000_0000_0000) % 0x800;
    let f = b % 0x10_0000_0000_0000;
    if e == 0x7ff {
        return if neg { i64::MIN } else { i64::MAX };
    }
    let mant: u64 = if e == 0 { f } else { f + 0x10_0000_0000_0000 };
    let e1: u64 = if e == 0 { 1 } else { e };
    let ghost t = float_trunc_mag(b);
    let t: u64;
    if e1 >= 1075 {
        let sh = e1 - 1075;
        if sh >= 11 {
            // mant * 2^sh >= 2^63
            proof {
                lemma_two_pow_mono(11, sh as nat);
                lemma_two_pow_11();
                assert(mant >= 0x10_0000_0000_0000);
                assert(mant * two_pow(sh as nat) >= 0x10_0000_0000_0000 * 2048) by (nonlinear_arith)
                    requires mant >= 0x10_0000_0000_0000, two_pow(sh as nat) >= 2048;
                lemma_two_pow_11();
            }
            return if neg { i64::MIN } else { i64::MAX };
        }
        let p = pow2_u64(sh);
        proof {
            lemma_two_pow_mono(sh as nat, 10);
            reveal_with_fuel(two_pow, 11);
            assert(mant * p < 0x20_0000_0000_0000 * 1024) by (nonlinear_arith)
                requires mant < 0x20_0000_0000_0000, p <= 1024;
        }
        t = mant * p;
    } else {
        let sh = 1075 - e1;
        if sh >= 64 {
            proof {
                lemma_two_pow_mono(64, sh as nat);
                lemma_two_pow_64();
                assert(mant as int / (two_pow(sh as nat) as int) == 0) by (nonlinear_arith)
                    requires mant < 0x20_0000_0000_0000, two_pow(sh as nat) >= 0x1_0000_0000_0000_0000;
            }
            t = 0;
        } else {
            let p = pow2_u64(sh);
            t = mant / p;
        }
    }
    proof {
        assert(t == float_trunc_mag(b));
    }
    if neg {
        if t >= 0x8000_0000_0000_0000 {
            i64::MIN
        } else {
            -(t as i64)
        }
    } else {
        if t > 0x7fff_ffff_ffff_ffff {
            i64::MAX
        } else {
            t as i64
        }
    }
}

/// What the caller provides for the conversions between binary64 and text
/// or integers that this library does not compute itself, all on bits:
/// `parse` is `str::parse::<f64>`, `text` is `f64`'s `Display`, `debug` is
/// `f64`'s `Debug`, and `from_i64` is `i as f64`.
pub struct FloatSupport<P, T, D, I> {
    pub parse: P,
    pub text: T,
    pub debug: D,
    pub from_i64: I,
}

/// The bits that `parse` gives for a text (its outcome, when it has one).
pub open spec fn parse_of<P: Fn(&str) -> Option<u64>>(p: P, s: Seq<char>) -> Option<u64> {
    (choose|q: (&str, Option<u64>)| q.0@ == s && #[trigger] call_ensures(p, (q.0,), q.1)).1
}

/// The text that a conversion to text gives for a float.
pub open spec fn text_of<T: Fn(u64) -> String>(t: T, b: u64) -> Seq<char> {
    (choose|s: String| call_ensures(t, (b,), s))@
}

/// The bits that `from_i64` gives for an integer.
pub open spec fn from_i64_of<I: Fn(i64) -> u64>(f: I, i: i64) -> u64 {
    choose|b: u64| call_ensures(f, (i,), b)
}

/// The conversions as spec functions.
pub struct FloatSpec {
    pub text: spec_fn(u64) -> Seq<char>,
    pub debug: spec_fn(u64) -> Seq<char>,
    pub parse: spec_fn(Seq<char>) -> Option<u64>,
    pub from_i64: spec_fn(i64) -> u64,
}

impl<P: Fn(&str) -> Option<u64>, T: Fn(u64) -> String, D: Fn(u64) -> String, I: Fn(i64) -> u64> FloatSupport<P, T, D, I> {
    /// Every conversion can be called on every input and gives one outcome
    /// for each input.
    pub open spec fn wf(&self) -> bool {
        &&& forall|x: &str| call_requires(self.parse, (x,))
        &&& forall|x: &str, r: Option<u64>| #[trigger] call_ensures(self.parse, (x,), r) ==> r == parse_of(self.parse, x@)
        &&& forall|b: u64| call_requires(self.text, (b,))
        &&& forall|b: u64, s: String| #[trigger] call_ensures(self.text, (b,), s) ==> s@ == text_of(self.text, b)
        &&& forall|b: u64| call_requires(self.debug, (b,))
        &&& forall|b: u64, s: String| #[trigger] call_ensures(self.debug, (b,), s) ==> s@ == text_of(self.debug, b)
        &&& forall|i: i64| call_requires(self.from_i64, (i,))
        &&& forall|i: i64, b: u64| #[trigger] call_ensures(self.from_i64, (i,), b) ==> b == from_i64_of(self.from_i64, i)
    }

    /// The conversions as spec functions.
    pub open spec fn spec(&self) -> FloatSpec {
        FloatSpec {
            text: |b: u64| text_of(self.text, b),
            debug: |b: u64| text_of(self.debug, b),
            parse: |s: Seq<char>| parse_of(self.parse, s),
            from_i64: |i: i64| from_i64_of(self.from_i64, i),
        }
    }

    /// The bits of the number that `s` denotes, if any.
    pub fn parse_float(&self, s: &str) -> (r: Option<u64>)
        requires
            self.wf(),
        ensures
            r == (self.spec().parse)(s@),
    {
        (self.parse)(s)
    }

    /// The text of a float, as `Display` writes it.
    pub fn float_text(&self, b: u64) -> (r: String)
        requires
            self.wf(),
        ensures
            r@ == (self.spec().text)(b),
    {
        (self.text)(b)
    }

    /// The text of a float, as `Debug` writes it.
    pub fn float_debug(&self, b: u64) -> (r: String)
        requires
            self.wf(),
        ensures
            r@ == (self.spec().debug)(b),
    {
        (self.debug)(b)
    }

    /// The float nearest to an integer.
    pub fn float_from_i64(&self, i: i64) -> (r: u64)
        requires
            self.wf(),
        ensures
            r == (self.spec().from_i64)(i),
    {
        (self.from_i64)(i)
    }
}

} // verus!
