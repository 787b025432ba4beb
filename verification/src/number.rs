//! IEEE 754 binary64 numbers represented by their bit patterns.
//!
//! The language's numbers are doubles. Verified code holds them as `u64`
//! bit patterns. Sign tests, equality, ordering, negation and the zero test
//! are exact bit-level definitions written out here and proved against
//! themselves; rounding arithmetic (add, sub, mul, div), decimal-literal
//! conversion and integer conversion go through `rustc_apfloat`, a software
//! implementation of the same IEEE operations, behind trusted wrappers.

use rustc_apfloat::Float;
use vstd::prelude::*;

verus! {

pub const F64_SIGN_BIT: u64 = 0x8000_0000_0000_0000;

pub const F64_MAGNITUDE_MASK: u64 = 0x7fff_ffff_ffff_ffff;

pub const F64_EXPONENT_MASK: u64 = 0x7ff0_0000_0000_0000;

pub const F64_FRACTION_MASK: u64 = 0x000f_ffff_ffff_ffff;

/// A bit pattern is a NaN when the exponent field is all ones and the
/// fraction field is not zero.
pub open spec fn f64_is_nan(b: u64) -> bool {
    b & F64_EXPONENT_MASK == F64_EXPONENT_MASK && b & F64_FRACTION_MASK != 0
}

/// A bit pattern is a zero (of either sign) when everything but the sign
/// bit is zero.
pub open spec fn f64_is_zero(b: u64) -> bool {
    b & F64_MAGNITUDE_MASK == 0
}

/// IEEE equality of two doubles: false when either is NaN, true for the two
/// zeroes of opposite sign, bitwise equality otherwise.
pub open spec fn f64_eq(a: u64, b: u64) -> bool {
    &&& !f64_is_nan(a)
    &&& !f64_is_nan(b)
    &&& (a == b || (f64_is_zero(a) && f64_is_zero(b)))
}

/// IEEE strict order of two doubles. False when either is NaN. For numbers
/// of equal sign the ordered bit patterns compare as integers, with the
/// order reversed on the negative side; the two zeroes are equal.
pub open spec fn f64_lt(a: u64, b: u64) -> bool {
    if f64_is_nan(a) || f64_is_nan(b) {
        false
    } else if f64_is_zero(a) && f64_is_zero(b) {
        false
    } else if (a & F64_SIGN_BIT) != (b & F64_SIGN_BIT) {
        a & F64_SIGN_BIT == F64_SIGN_BIT
    } else if a & F64_SIGN_BIT == 0 {
        a < b
    } else {
        a > b
    }
}

/// IEEE negation flips exactly the sign bit.
pub open spec fn f64_neg(b: u64) -> u64 {
    b ^ F64_SIGN_BIT
}

pub fn is_nan_bits(b: u64) -> (r: bool)
    ensures
        r == f64_is_nan(b),
{
    b & F64_EXPONENT_MASK == F64_EXPONENT_MASK && b & F64_FRACTION_MASK != 0
}

pub fn is_zero_bits(b: u64) -> (r: bool)
    ensures
        r == f64_is_zero(b),
{
    b & F64_MAGNITUDE_MASK == 0
}

pub fn eq_bits(a: u64, b: u64) -> (r: bool)
    ensures
        r == f64_eq(a, b),
{
    !is_nan_bits(a) && !is_nan_bits(b) && (a == b || (is_zero_bits(a) && is_zero_bits(b)))
}

pub fn lt_bits(a: u64, b: u64) -> (r: bool)
    ensures
        r == f64_lt(a, b),
{
    if is_nan_bits(a) || is_nan_bits(b) {
        false
    } else if is_zero_bits(a) && is_zero_bits(b) {
        false
    } else if (a & F64_SIGN_BIT) != (b & F64_SIGN_BIT) {
        a & F64_SIGN_BIT == F64_SIGN_BIT
    } else if a & F64_SIGN_BIT == 0 {
        a < b
    } else {
        a > b
    }
}

pub fn neg_bits(b: u64) -> (r: u64)
    ensures
        r == f64_neg(b),
{
    b ^ F64_SIGN_BIT
}

/// The bit pattern of the IEEE round-to-nearest-even sum of two doubles
/// given by their bit patterns.
pub uninterp spec fn add_bits(a: u64, b: u64) -> u64;

/// The bit pattern of the IEEE difference of two doubles.
pub uninterp spec fn sub_bits(a: u64, b: u64) -> u64;

/// The bit pattern of the IEEE product of two doubles.
pub uninterp spec fn mul_bits(a: u64, b: u64) -> u64;

/// The bit pattern of the IEEE quotient of two doubles.
pub uninterp spec fn div_bits(a: u64, b: u64) -> u64;

/// The bit pattern of the double nearest the decimal numeral written by the
/// given characters (digits, optionally a point and more digits).
pub uninterp spec fn decimal_bits(s: Seq<char>) -> u64;

/// The bit pattern of the double nearest the given unsigned integer.
pub uninterp spec fn u64_to_double_bits(n: u64) -> u64;

pub open spec fn is_digit(c: char) -> bool {
    '0' <= c <= '9'
}

/// The first position at or after `pos` holding no digit, or the end.
pub open spec fn digits_end(s: Seq<char>, pos: int) -> int
    decreases s.len() - pos,
{
    if pos < 0 {
        0
    } else if pos < s.len() && is_digit(s[pos]) {
        digits_end(s, pos + 1)
    } else if pos <= s.len() {
        pos
    } else {
        s.len() as int
    }
}

pub proof fn lemma_digits_end(s: Seq<char>, pos: int)
    requires
        0 <= pos <= s.len(),
    ensures
        pos <= digits_end(s, pos) <= s.len(),
        forall|i: int| pos <= i < digits_end(s, pos) ==> is_digit(#[trigger] s[i]),
        digits_end(s, pos) < s.len() ==> !is_digit(s[digits_end(s, pos)]),
    decreases s.len() - pos,
{
    if pos < s.len() && is_digit(s[pos]) {
        lemma_digits_end(s, pos + 1);
    }
}

/// The characterization above pins `digits_end` down completely.
pub proof fn lemma_digits_end_unique(s: Seq<char>, pos: int, m: int)
    requires
        0 <= pos <= m <= s.len(),
        forall|i: int| pos <= i < m ==> is_digit(#[trigger] s[i]),
        m < s.len() ==> !is_digit(s[m]),
    ensures
        digits_end(s, pos) == m,
    decreases s.len() - pos,
{
    if pos < s.len() && is_digit(s[pos]) {
        assert(m != pos);
        lemma_digits_end_unique(s, pos + 1, m);
    }
}

/// A numeral as the scanner produces it: one or more ASCII digits,
/// optionally followed by a point and one or more further digits.
pub open spec fn is_decimal_lexeme(s: Seq<char>) -> bool {
    let k = digits_end(s, 0);
    &&& 1 <= k
    &&& (k < s.len() ==> {
        &&& s[k] == '.'
        &&& k + 1 < s.len()
        &&& digits_end(s, k + 1) == s.len()
    })
}

/// Relies on `rustc_apfloat::ieee::Double::add_r`: correctly rounded IEEE
/// binary64 addition, as Rust's own `+` on doubles is.
#[verifier::external_body]
pub fn float_add(a: u64, b: u64) -> (r: u64)
    ensures
        r == add_bits(a, b),
{
    let x = rustc_apfloat::ieee::Double::from_bits(a as u128);
    let y = rustc_apfloat::ieee::Double::from_bits(b as u128);
    x.add_r(y, rustc_apfloat::Round::NearestTiesToEven).value.to_bits() as u64
}

/// Relies on `rustc_apfloat::ieee::Double::sub_r`: correctly rounded IEEE
/// binary64 subtraction.
#[verifier::external_body]
pub fn float_sub(a: u64, b: u64) -> (r: u64)
    ensures
        r == sub_bits(a, b),
{
    let x = rustc_apfloat::ieee::Double::from_bits(a as u128);
    let y = rustc_apfloat::ieee::Double::from_bits(b as u128);
    x.sub_r(y, rustc_apfloat::Round::NearestTiesToEven).value.to_bits() as u64
}

/// Relies on `rustc_apfloat::ieee::Double::mul_r`: correctly rounded IEEE
/// binary64 multiplication.
#[verifier::external_body]
pub fn float_mul(a: u64, b: u64) -> (r: u64)
    ensures
        r == mul_bits(a, b),
{
    let x = rustc_apfloat::ieee::Double::from_bits(a as u128);
    let y = rustc_apfloat::ieee::Double::from_bits(b as u128);
    x.mul_r(y, rustc_apfloat::Round::NearestTiesToEven).value.to_bits() as u64
}

/// Relies on `rustc_apfloat::ieee::Double::div_r`: correctly rounded IEEE
/// binary64 division. The quotient's sign is the exclusive-or of the
/// operands' signs (and the `NAN` constant is positive), so dividing one
/// non-NaN nonnegative double by another yields a nonnegative pattern.
#[verifier::external_body]
pub fn float_div(a: u64, b: u64) -> (r: u64)
    ensures
        r == div_bits(a, b),
        (a & F64_SIGN_BIT == 0 && b & F64_SIGN_BIT == 0 && !f64_is_nan(a) && !f64_is_nan(b))
            ==> r & F64_SIGN_BIT == 0,
{
    let x = rustc_apfloat::ieee::Double::from_bits(a as u128);
    let y = rustc_apfloat::ieee::Double::from_bits(b as u128);
    x.div_r(y, rustc_apfloat::Round::NearestTiesToEven).value.to_bits() as u64
}

/// Relies on `rustc_apfloat::ieee::Double::from_str_r`: correctly rounded
/// decimal-to-binary64 conversion, the same rounding Rust's standard parse
/// performs. On the numerals admitted here the conversion cannot fail, so
/// the error arm is unreachable.
#[verifier::external_body]
pub fn float_of_decimal(s: &str) -> (r: u64)
    requires
        is_decimal_lexeme(s@),
    ensures
        r == decimal_bits(s@),
{
    match rustc_apfloat::ieee::Double::from_str_r(s, rustc_apfloat::Round::NearestTiesToEven) {
        Ok(sv) => sv.value.to_bits() as u64,
        Err(_) => 0,
    }
}

/// Relies on `rustc_apfloat::ieee::Double::from_u128_r`: correctly rounded
/// integer-to-binary64 conversion. The conversion starts from a positive
/// sign and normalization keeps it, so the result is a nonnegative,
/// non-NaN pattern for every unsigned input.
#[verifier::external_body]
pub fn float_of_u64(n: u64) -> (r: u64)
    ensures
        r == u64_to_double_bits(n),
        r & F64_SIGN_BIT == 0,
        !f64_is_nan(r),
{
    rustc_apfloat::ieee::Double::from_u128_r(n as u128, rustc_apfloat::Round::NearestTiesToEven)
        .value
        .to_bits() as u64
}

} // verus!
