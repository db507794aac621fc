//! Numeric literals.
//!
//! A literal is an IEEE-754 binary64 value, held as its 64-bit pattern. What can
//! be read off the pattern (sign, zero, one, not-a-number) is computed and proved
//! here. Rounding arithmetic, decimal parsing and decimal printing are done by
//! outside code; each such operation has a name in the specifications, and the
//! only thing assumed of it is that its result is a function of its arguments.
use const_soft_float::soft_f64::SoftF64;
use crate::text::chars_of;
use rustc_apfloat::Float;
use rustc_apfloat::ieee::Double;
use rustc_apfloat::Round;
use vstd::prelude::*;

verus! {

/// The pattern of the sign bit.
pub const SIGN_BIT: u64 = 0x8000_0000_0000_0000;

/// The pattern of positive infinity; every larger magnitude is not a number.
pub const INFINITY_BITS: u64 = 0x7ff0_0000_0000_0000;

/// The pattern of `0`.
pub const ZERO_BITS: u64 = 0;

/// The pattern of `1`.
pub const ONE_BITS: u64 = 0x3ff0_0000_0000_0000;

/// The pattern of `2`.
pub const TWO_BITS: u64 = 0x4000_0000_0000_0000;

/// The pattern of `-1`.
pub const MINUS_ONE_BITS: u64 = 0xbff0_0000_0000_0000;

/// The pattern of the not-a-number that stands for every not-a-number power.
pub const QUIET_NAN_BITS: u64 = 0x7ff8_0000_0000_0000;

/// The pattern of the largest value below `1`, which is `1 - 2^-53`.
pub const BELOW_ONE_BITS: u64 = 0x3fef_ffff_ffff_ffff;

/// The sum of two binary64 values, as patterns.
pub uninterp spec fn float_sum(a: u64, b: u64) -> u64;

/// The difference of two binary64 values, as patterns.
pub uninterp spec fn float_difference(a: u64, b: u64) -> u64;

/// The product of two binary64 values, as patterns.
pub uninterp spec fn float_product(a: u64, b: u64) -> u64;

/// The quotient of two binary64 values, as patterns.
pub uninterp spec fn float_quotient(a: u64, b: u64) -> u64;

/// A binary64 value raised to a binary64 power, as patterns. Where the power
/// is not a number, which not-a-number this is says nothing.
pub uninterp spec fn float_power(a: u64, b: u64) -> u64;

/// Whether a pattern is that of a not-a-number: its magnitude lies above
/// that of infinity.
pub open spec fn is_nan_pattern(bits: u64) -> bool {
    if bits >= SIGN_BIT {
        bits - SIGN_BIT > INFINITY_BITS
    } else {
        bits > INFINITY_BITS
    }
}

/// The binary64 value that a decimal literal denotes, as a pattern.
pub uninterp spec fn decimal_value(text: Seq<char>) -> u64;

/// The decimal text of a binary64 value.
pub uninterp spec fn decimal_text(bits: u64) -> Seq<char>;

/// Whether `c` is one of the ten decimal digits.
pub open spec fn is_digit(c: char) -> bool {
    '0' <= c && c <= '9'
}

/// The number of digits in `text`.
pub open spec fn digit_count(text: Seq<char>) -> nat
    decreases text.len(),
{
    if text.len() == 0 {
        0
    } else {
        digit_count(text.drop_last()) + if is_digit(text.last()) {
            1nat
        } else {
            0nat
        }
    }
}

/// The number of points in `text`.
pub open spec fn point_count(text: Seq<char>) -> nat
    decreases text.len(),
{
    if text.len() == 0 {
        0
    } else {
        point_count(text.drop_last()) + if text.last() == '.' {
            1nat
        } else {
            0nat
        }
    }
}

/// A decimal literal: digits and at most one point, with at least one digit.
pub open spec fn is_decimal_literal(text: Seq<char>) -> bool {
    &&& forall|i: int| 0 <= i < text.len() ==> is_digit(#[trigger] text[i]) || text[i] == '.'
    &&& digit_count(text) >= 1
    &&& point_count(text) <= 1
}

/// `Float::add_r` of rustc_apfloat on the two binary64 values, rounding to
/// nearest, ties to even. Assumed: the result depends on the two patterns
/// alone.
#[verifier::external_body]
fn soft_add(a: u64, b: u64) -> (r: u64)
    ensures
        r == float_sum(a, b),
{
    let x = Double::from_bits(u128::from(a));
    let y = Double::from_bits(u128::from(b));
    x.add_r(y, Round::NearestTiesToEven).value.to_bits() as u64
}

/// `Float::sub_r` of rustc_apfloat on the two binary64 values, rounding to
/// nearest, ties to even. Assumed: the result depends on the two patterns
/// alone.
#[verifier::external_body]
fn soft_sub(a: u64, b: u64) -> (r: u64)
    ensures
        r == float_difference(a, b),
{
    let x = Double::from_bits(u128::from(a));
    let y = Double::from_bits(u128::from(b));
    x.sub_r(y, Round::NearestTiesToEven).value.to_bits() as u64
}

/// `Float::mul_r` of rustc_apfloat on the two binary64 values, rounding to
/// nearest, ties to even. Assumed: the result depends on the two patterns
/// alone.
#[verifier::external_body]
fn soft_mul(a: u64, b: u64) -> (r: u64)
    ensures
        r == float_product(a, b),
{
    let x = Double::from_bits(u128::from(a));
    let y = Double::from_bits(u128::from(b));
    x.mul_r(y, Round::NearestTiesToEven).value.to_bits() as u64
}

/// `Float::div_r` of rustc_apfloat on the two binary64 values, rounding to
/// nearest, ties to even. Assumed: the result depends on the two patterns
/// alone.
#[verifier::external_body]
fn soft_div(a: u64, b: u64) -> (r: u64)
    ensures
        r == float_quotient(a, b),
{
    let x = Double::from_bits(u128::from(a));
    let y = Double::from_bits(u128::from(b));
    x.div_r(y, Round::NearestTiesToEven).value.to_bits() as u64
}

/// `libm::pow` on the two binary64 values, which `SoftF64::from_bits` and
/// `SoftF64::to_f64` of const_soft_float make from the patterns. Assumed: a
/// result that is a number depends on the two patterns alone; whether the
/// result is not a number depends on them alone too, but which not-a-number
/// comes back is left to the machine.
#[verifier::external_body]
fn soft_pow(a: u64, b: u64) -> (r: u64)
    ensures
        r == float_power(a, b) || (is_nan_pattern(r) && is_nan_pattern(float_power(a, b))),
{
    libm::pow(SoftF64::from_bits(a).to_f64(), SoftF64::from_bits(b).to_f64()).to_bits()
}

/// `str::parse` to a binary64 value, whose pattern `SoftF64::from_f64` and
/// `SoftF64::to_bits` of const_soft_float give. Assumed: on a decimal literal
/// the call succeeds (std documents that grammar), and the value depends on
/// the text alone.
#[verifier::external_body]
fn parse_decimal(text: &str) -> (r: u64)
    requires
        is_decimal_literal(text@),
    ensures
        r == decimal_value(text@),
{
    SoftF64::from_f64(text.parse().unwrap()).to_bits()
}

/// Formatting with `{}` of the binary64 value that `SoftF64::from_bits` and
/// `SoftF64::to_f64` of const_soft_float make from the pattern. Assumed: the
/// text depends on the pattern alone.
#[verifier::external_body]
fn format_decimal(bits: u64) -> (r: String)
    ensures
        r@ == decimal_text(bits),
{
    format!("{}", SoftF64::from_bits(bits).to_f64())
}

/// A numeric literal: the bit pattern of a binary64 value.
#[derive(Clone, Copy, Debug, PartialEq, Eq, Structural)]
pub struct Number {
    pub bits: u64,
}

impl Number {
    /// The pattern without its sign bit.
    pub open spec fn magnitude(self) -> int {
        if self.bits >= SIGN_BIT {
            self.bits - SIGN_BIT
        } else {
            self.bits as int
        }
    }

    /// Positive or negative zero.
    pub open spec fn is_zero(self) -> bool {
        self.magnitude() == 0
    }

    /// Exactly one.
    pub open spec fn is_one(self) -> bool {
        self.bits == ONE_BITS
    }

    /// Not a number.
    pub open spec fn is_nan(self) -> bool {
        is_nan_pattern(self.bits)
    }

    /// One of the two values whose distance from one is below `2^-52`: one
    /// itself and its predecessor.
    pub open spec fn is_near_one(self) -> bool {
        self.bits == ONE_BITS || self.bits == BELOW_ONE_BITS
    }

    /// Equality of values: no not-a-number equals anything, the two zeros are
    /// equal, and otherwise the patterns decide.
    pub open spec fn same_value(self, other: Number) -> bool {
        &&& !self.is_nan()
        &&& !other.is_nan()
        &&& (self.bits == other.bits || (self.is_zero() && other.is_zero()))
    }

    /// The value with the opposite sign.
    pub open spec fn negated(self) -> Number {
        if self.bits >= SIGN_BIT {
            Number { bits: (self.bits - SIGN_BIT) as u64 }
        } else {
            Number { bits: (self.bits + SIGN_BIT) as u64 }
        }
    }

    /// The sum, rounded to the nearest value.
    pub open spec fn sum(self, other: Number) -> Number {
        Number { bits: float_sum(self.bits, other.bits) }
    }

    /// The difference, rounded to the nearest value.
    pub open spec fn difference(self, other: Number) -> Number {
        Number { bits: float_difference(self.bits, other.bits) }
    }

    /// The product, rounded to the nearest value.
    pub open spec fn product(self, other: Number) -> Number {
        Number { bits: float_product(self.bits, other.bits) }
    }

    /// The quotient, rounded to the nearest value.
    pub open spec fn quotient(self, other: Number) -> Number {
        Number { bits: float_quotient(self.bits, other.bits) }
    }

    /// The value raised to the power `other`; one fixed not-a-number where
    /// the power is not a number.
    pub open spec fn power(self, other: Number) -> Number {
        if is_nan_pattern(float_power(self.bits, other.bits)) {
            Number { bits: QUIET_NAN_BITS }
        } else {
            Number { bits: float_power(self.bits, other.bits) }
        }
    }

    /// Zero.
    pub open spec fn zero() -> Number {
        Number { bits: ZERO_BITS }
    }

    /// One.
    pub open spec fn one() -> Number {
        Number { bits: ONE_BITS }
    }

    /// Two.
    pub open spec fn two() -> Number {
        Number { bits: TWO_BITS }
    }

    /// Minus one.
    pub open spec fn minus_one() -> Number {
        Number { bits: MINUS_ONE_BITS }
    }

    /// The value of a pattern.
    pub fn from_bits(bits: u64) -> (r: Number)
        ensures
            r.bits == bits,
    {
        Number { bits }
    }

    /// The pattern of the value.
    pub fn to_bits(self) -> (r: u64)
        ensures
            r == self.bits,
    {
        self.bits
    }

    /// Zero.
    pub fn zero_value() -> (r: Number)
        ensures
            r == Number::zero(),
    {
        Number { bits: ZERO_BITS }
    }

    /// One.
    pub fn one_value() -> (r: Number)
        ensures
            r == Number::one(),
    {
        Number { bits: ONE_BITS }
    }

    /// Two.
    pub fn two_value() -> (r: Number)
        ensures
            r == Number::two(),
    {
        Number { bits: TWO_BITS }
    }

    /// Minus one.
    pub fn minus_one_value() -> (r: Number)
        ensures
            r == Number::minus_one(),
    {
        Number { bits: MINUS_ONE_BITS }
    }

    /// Whether the value is positive or negative zero.
    pub fn check_zero(self) -> (r: bool)
        ensures
            r == self.is_zero(),
    {
        self.bits == ZERO_BITS || self.bits == SIGN_BIT
    }

    /// Whether the value is exactly one.
    pub fn check_one(self) -> (r: bool)
        ensures
            r == self.is_one(),
    {
        self.bits == ONE_BITS
    }

    /// Whether the value is not a number.
    pub fn check_nan(self) -> (r: bool)
        ensures
            r == self.is_nan(),
    {
        if self.bits >= SIGN_BIT {
            self.bits - SIGN_BIT > INFINITY_BITS
        } else {
            self.bits > INFINITY_BITS
        }
    }

    /// Whether the distance of the value from one is below `2^-52`.
    pub fn check_near_one(self) -> (r: bool)
        ensures
            r == self.is_near_one(),
    {
        self.bits == ONE_BITS || self.bits == BELOW_ONE_BITS
    }

    /// Whether the two values are equal.
    pub fn equals(self, other: Number) -> (r: bool)
        ensures
            r == self.same_value(other),
    {
        !self.check_nan() && !other.check_nan() && (self.bits == other.bits || (self.check_zero()
            && other.check_zero()))
    }

    /// The value with the opposite sign.
    pub fn negate(self) -> (r: Number)
        ensures
            r == self.negated(),
    {
        if self.bits >= SIGN_BIT {
            Number { bits: self.bits - SIGN_BIT }
        } else {
            Number { bits: self.bits + SIGN_BIT }
        }
    }

    /// The sum, rounded to the nearest value.
    pub fn plus(self, other: Number) -> (r: Number)
        ensures
            r == self.sum(other),
    {
        Number { bits: soft_add(self.bits, other.bits) }
    }

    /// The difference, rounded to the nearest value.
    pub fn minus(self, other: Number) -> (r: Number)
        ensures
            r == self.difference(other),
    {
        Number { bits: soft_sub(self.bits, other.bits) }
    }

    /// The product, rounded to the nearest value.
    pub fn times(self, other: Number) -> (r: Number)
        ensures
            r == self.product(other),
    {
        Number { bits: soft_mul(self.bits, other.bits) }
    }

    /// The quotient, rounded to the nearest value.
    pub fn divided_by(self, other: Number) -> (r: Number)
        ensures
            r == self.quotient(other),
    {
        Number { bits: soft_div(self.bits, other.bits) }
    }

    /// The value raised to the power `other`, as `libm::pow` computes it:
    /// nearly rounded, so that it can differ from the power that the machine's
    /// own library gives by one unit in the last place. Every not-a-number
    /// result is given as one fixed not-a-number.
    pub fn raised_to(self, other: Number) -> (r: Number)
        ensures
            r == self.power(other),
    {
        let raw = Number { bits: soft_pow(self.bits, other.bits) };
        if raw.check_nan() {
            Number { bits: QUIET_NAN_BITS }
        } else {
            raw
        }
    }

    /// The value of a decimal literal; nothing for any other text.
    pub fn parse(text: &str) -> (r: Option<Number>)
        ensures
            r == if is_decimal_literal(text@) {
                Some(Number { bits: decimal_value(text@) })
            } else {
                None
            },
    {
        let chars = chars_of(text);
        let n = chars.len();
        let mut digits: usize = 0;
        let mut points: usize = 0;
        let mut i: usize = 0;
        while i < n
            invariant
                i <= n,
                n == text@.len(),
                chars@ == text@,
                digits == digit_count(text@.take(i as int)),
                points == point_count(text@.take(i as int)),
                digits <= i,
                points <= i,
                forall|j: int| 0 <= j < i ==> is_digit(#[trigger] text@[j]) || text@[j] == '.',
            decreases n - i,
        {
            let c = chars[i];
            proof {
                assert(text@.take(i + 1).drop_last() =~= text@.take(i as int));
            }
            if '0' <= c && c <= '9' {
                digits += 1;
            } else if c == '.' {
                points += 1;
            } else {
                return None;
            }
            i += 1;
        }
        proof {
            assert(text@.take(n as int) =~= text@);
        }
        if digits >= 1 && points <= 1 {
            Some(Number { bits: parse_decimal(text) })
        } else {
            None
        }
    }

    /// The decimal text of the value.
    pub fn to_text(self) -> (r: String)
        ensures
            r@ == decimal_text(self.bits),
    {
        format_decimal(self.bits)
    }
}

} // verus!
