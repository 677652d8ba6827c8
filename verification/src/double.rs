//! Prices and amounts as IEEE-754 binary64 values, carried by bit pattern.
//!
//! The library decides on prices (finiteness, signs, order) but never does
//! arithmetic on them; a `Double` is the exact bit pattern of a binary64
//! value, and its meaning is given by `scaled_value`.

use vstd::arithmetic::power2::{
    lemma2_to64, lemma2_to64_rest, lemma_pow2_adds, lemma_pow2_pos,
    lemma_pow2_strictly_increases, pow2,
};
use vstd::prelude::*;

verus! {

/// `2^63`: the sign bit.
pub const SIGN_BIT: u64 = 0x8000_0000_0000_0000;

/// `2^52`: the unit of the biased exponent field.
pub const EXP_UNIT: u64 = 0x0010_0000_0000_0000;

/// An IEEE-754 binary64 value, held as its bit pattern.
#[derive(Debug, Clone, Copy, PartialEq, Eq, Structural)]
pub struct Double {
    bits: u64,
}

/// Whether the sign bit of `b` is set.
pub open spec fn sign_set(b: u64) -> bool {
    b >= SIGN_BIT
}

/// The biased exponent field of `b`.
pub open spec fn exponent(b: u64) -> nat {
    ((b % SIGN_BIT) / EXP_UNIT) as nat
}

/// The fraction (mantissa) field of `b`.
pub open spec fn fraction(b: u64) -> nat {
    (b % EXP_UNIT) as nat
}

/// A finite value: neither an infinity nor a NaN (exponent not all ones).
pub open spec fn finite_bits(b: u64) -> bool {
    exponent(b) < 2047
}

/// `|value| * 2^1074` for a finite value: every finite binary64 is an
/// integer multiple of `2^-1074`, so this is an exact natural number.
pub open spec fn magnitude(b: u64) -> nat {
    if exponent(b) == 0 {
        fraction(b)
    } else {
        (fraction(b) + pow2(52)) * pow2((exponent(b) - 1) as nat)
    }
}

/// `value * 2^1074` for a finite value, sign included (both zeros are 0).
pub open spec fn scaled_value(b: u64) -> int {
    if sign_set(b) {
        -magnitude(b)
    } else {
        magnitude(b) as int
    }
}

impl View for Double {
    type V = u64;

    closed spec fn view(&self) -> u64 {
        self.bits
    }
}

impl Double {
    /// The value with bit pattern `bits`, for specifications.
    pub closed spec fn of_bits(bits: u64) -> Double {
        Double { bits }
    }

    /// `of_bits` holds the bit pattern it is given.
    pub proof fn lemma_of_bits(bits: u64)
        ensures
            Double::of_bits(bits)@ == bits,
    {
    }

    /// The value with bit pattern `bits` (what `f64::from_bits` gives).
    pub fn from_bits(bits: u64) -> (d: Double)
        ensures
            d@ == bits,
            d == Double::of_bits(bits),
    {
        Double { bits }
    }

    /// The bit pattern (what `f64::to_bits` gives).
    pub fn to_bits(&self) -> (b: u64)
        ensures
            b == self@,
    {
        self.bits
    }

    /// Positive zero.
    pub fn zero() -> (d: Double)
        ensures
            d@ == 0,
            finite_bits(d@),
            scaled_value(d@) == 0,
    {
        Double { bits: 0 }
    }

    /// Whether the value is finite (what `f64::is_finite` gives).
    pub fn is_finite(&self) -> (b: bool)
        ensures
            b == finite_bits(self@),
    {
        (self.bits % SIGN_BIT) / EXP_UNIT < 2047
    }

    /// Whether a finite value is strictly greater than zero.
    pub fn is_positive(&self) -> (b: bool)
        requires
            finite_bits(self@),
        ensures
            b == (scaled_value(self@) > 0),
    {
        proof {
            lemma_magnitude_zero(self.bits % SIGN_BIT);
        }
        self.bits < SIGN_BIT && self.bits != 0
    }

    /// `self < other` for finite values.
    pub fn lt(&self, other: &Double) -> (b: bool)
        requires
            finite_bits(self@),
            finite_bits(other@),
        ensures
            b == (scaled_value(self@) < scaled_value(other@)),
    {
        proof {
            lemma_key_order(self.bits, other.bits);
        }
        order_key(self.bits) < order_key(other.bits)
    }

    /// `self == other` as numbers for finite values (`-0.0 == 0.0`).
    pub fn num_eq(&self, other: &Double) -> (b: bool)
        requires
            finite_bits(self@),
            finite_bits(other@),
        ensures
            b == (scaled_value(self@) == scaled_value(other@)),
    {
        proof {
            lemma_key_order(self.bits, other.bits);
        }
        order_key(self.bits) == order_key(other.bits)
    }
}

/// Signed key that orders finite values as numbers.
spec fn key(b: u64) -> int {
    if sign_set(b) {
        -((b % SIGN_BIT) as int)
    } else {
        (b % SIGN_BIT) as int
    }
}

fn order_key(b: u64) -> (k: i64)
    ensures
        k == key(b),
{
    let r: u64 = b % SIGN_BIT;
    if b >= SIGN_BIT {
        -(r as i64)
    } else {
        r as i64
    }
}

proof fn lemma_pow2_52()
    ensures
        pow2(52) == EXP_UNIT,
        pow2(63) == SIGN_BIT,
{
    lemma2_to64();
    lemma2_to64_rest();
}

/// `magnitude` depends only on the low 63 bits.
proof fn lemma_magnitude_low(b: u64)
    ensures
        magnitude(b) == magnitude(b % SIGN_BIT),
        exponent(b) == exponent(b % SIGN_BIT),
{
    assert((b % SIGN_BIT) % SIGN_BIT == b % SIGN_BIT);
    assert((b % SIGN_BIT) % EXP_UNIT == b % EXP_UNIT) by {
        assert(SIGN_BIT == EXP_UNIT * 2048);
        vstd::arithmetic::div_mod::lemma_mod_mod(b as int, EXP_UNIT as int, 2048);
    }
}

/// Magnitude is zero exactly for a zero low part.
proof fn lemma_magnitude_zero(r: u64)
    requires
        r < SIGN_BIT,
    ensures
        (magnitude(r) == 0) == (r == 0),
{
    lemma_pow2_52();
    assert(r % SIGN_BIT == r);
    if exponent(r) > 0 {
        lemma_pow2_pos((exponent(r) - 1) as nat);
        assert((fraction(r) + pow2(52)) * pow2((exponent(r) - 1) as nat) > 0) by (nonlinear_arith)
            requires
                pow2((exponent(r) - 1) as nat) > 0,
                fraction(r) + pow2(52) > 0,
        ;
        assert(r != 0);
    } else {
        assert(r == (r / EXP_UNIT) * EXP_UNIT + r % EXP_UNIT) by {
            vstd::arithmetic::div_mod::lemma_fundamental_div_mod(r as int, EXP_UNIT as int);
        }
    }
}

/// Upper bound of the magnitude of a value with exponent field `e`.
proof fn lemma_magnitude_below(r: u64)
    requires
        r < SIGN_BIT,
    ensures
        magnitude(r) < pow2(52 + exponent(r)),
{
    lemma_pow2_52();
    let e = exponent(r);
    if e == 0 {
        assert(fraction(r) < EXP_UNIT);
    } else {
        let p = pow2((e - 1) as nat);
        lemma_pow2_adds(53, (e - 1) as nat);
        lemma_pow2_adds(1, 52);
        assert(pow2(1) == 2) by {
            lemma2_to64();
        }
        assert(52 + e == 53 + (e - 1));
        assert(fraction(r) + pow2(52) < pow2(53));
        lemma_pow2_pos((e - 1) as nat);
        assert((fraction(r) + pow2(52)) * p < pow2(53) * p) by (nonlinear_arith)
            requires
                fraction(r) + pow2(52) < pow2(53),
                p > 0,
        ;
    }
}

/// Lower bound of the magnitude of a normal value.
proof fn lemma_magnitude_above(r: u64)
    requires
        r < SIGN_BIT,
        exponent(r) > 0,
    ensures
        magnitude(r) >= pow2(51 + exponent(r)),
{
    lemma_pow2_52();
    let e = exponent(r);
    let p = pow2((e - 1) as nat);
    lemma_pow2_adds(52, (e - 1) as nat);
    assert(51 + e == 52 + (e - 1));
    assert((fraction(r) + pow2(52)) * p >= pow2(52) * p) by (nonlinear_arith)
        requires
            fraction(r) >= 0,
            p >= 0,
    ;
}

/// The field decomposition of a low part.
proof fn lemma_fields(r: u64)
    requires
        r < SIGN_BIT,
    ensures
        r == exponent(r) * EXP_UNIT + fraction(r),
        fraction(r) < EXP_UNIT,
{
    assert(r % SIGN_BIT == r);
    vstd::arithmetic::div_mod::lemma_fundamental_div_mod(r as int, EXP_UNIT as int);
}

/// Magnitude is strictly increasing in the low 63 bits of finite values.
proof fn lemma_magnitude_strict(r1: u64, r2: u64)
    requires
        r1 < r2 < SIGN_BIT,
        exponent(r2) < 2047,
    ensures
        magnitude(r1) < magnitude(r2),
{
    lemma_fields(r1);
    lemma_fields(r2);
    let e1 = exponent(r1);
    let e2 = exponent(r2);
    if e1 == e2 {
        assert(fraction(r1) < fraction(r2));
        if e1 > 0 {
            let p = pow2((e1 - 1) as nat);
            lemma_pow2_pos((e1 - 1) as nat);
            assert((fraction(r1) + pow2(52)) * p < (fraction(r2) + pow2(52)) * p)
                by (nonlinear_arith)
                requires
                    fraction(r1) < fraction(r2),
                    p > 0,
            ;
        }
    } else {
        assert(e1 < e2) by (nonlinear_arith)
            requires
                r1 == e1 * EXP_UNIT + fraction(r1),
                r2 == e2 * EXP_UNIT + fraction(r2),
                fraction(r1) < EXP_UNIT,
                fraction(r2) < EXP_UNIT,
                r1 < r2,
                e1 != e2,
        ;
        lemma_magnitude_below(r1);
        lemma_magnitude_above(r2);
        if 52 + e1 < 51 + e2 {
            lemma_pow2_strictly_increases(52 + e1, 51 + e2);
        }
    }
}

/// `key` orders finite values exactly as their numeric values.
proof fn lemma_key_order(a: u64, b: u64)
    requires
        finite_bits(a),
        finite_bits(b),
    ensures
        (key(a) < key(b)) == (scaled_value(a) < scaled_value(b)),
        (key(a) == key(b)) == (scaled_value(a) == scaled_value(b)),
{
    lemma_pow2_52();
    let ra = a % SIGN_BIT;
    let rb = b % SIGN_BIT;
    lemma_magnitude_low(a);
    lemma_magnitude_low(b);
    lemma_magnitude_zero(ra);
    lemma_magnitude_zero(rb);
    if ra < rb {
        lemma_magnitude_strict(ra, rb);
    } else if rb < ra {
        lemma_magnitude_strict(rb, ra);
    }
}

} // verus!
