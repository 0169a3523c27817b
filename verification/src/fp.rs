//! IEEE-754 binary64 arithmetic on bit patterns.
//!
//! The language's numbers are IEEE-754 binary64 values. The verified code
//! carries each number as its 64-bit pattern and performs arithmetic through
//! `rustc_apfloat`, a software implementation of IEEE-754 that works directly
//! on bit patterns. Every operation below is a pure function of its argument
//! bits, so each result is given a name (an uninterpreted spec function) that
//! the contracts of the evaluator speak of.

use vstd::prelude::*;

use rustc_apfloat::Float;
use rustc_apfloat::Round;
use rustc_apfloat::ieee::Double;

verus! {

/// The IEEE-754 binary64 sum of the numbers with bit patterns `a` and `b`.
pub uninterp spec fn add_bits(a: u64, b: u64) -> u64;

/// The IEEE-754 binary64 difference of the numbers with bit patterns `a` and `b`.
pub uninterp spec fn sub_bits(a: u64, b: u64) -> u64;

/// The IEEE-754 binary64 product of the numbers with bit patterns `a` and `b`.
pub uninterp spec fn mul_bits(a: u64, b: u64) -> u64;

/// The IEEE-754 binary64 quotient of the numbers with bit patterns `a` and `b`.
pub uninterp spec fn div_bits(a: u64, b: u64) -> u64;

/// IEEE-754 equality (not bitwise: NaN is unequal to itself, zeroes of both
/// signs are equal) of the numbers with bit patterns `a` and `b`.
pub uninterp spec fn eq_bits(a: u64, b: u64) -> bool;

/// IEEE-754 `<` on the numbers with bit patterns `a` and `b`.
pub uninterp spec fn lt_bits(a: u64, b: u64) -> bool;

/// IEEE-754 `<=` on the numbers with bit patterns `a` and `b`.
pub uninterp spec fn le_bits(a: u64, b: u64) -> bool;

/// The number with bit pattern `a`, rounded to the nearest integer (ties away
/// from zero) and then converted to an `i64` (saturating; NaN becomes 0).
pub uninterp spec fn round_i64_of(a: u64) -> i64;

/// The bit pattern of the IEEE-754 binary64 value nearest to the integer `n`.
pub uninterp spec fn bits_of_i64(n: i64) -> u64;

/// The bit pattern of the IEEE-754 binary64 value nearest to the integer `n`.
pub uninterp spec fn bits_of_u64(n: u64) -> u64;

/// The bit pattern denoted by the decimal literal `s` (round to nearest,
/// ties to even), or `None` where `s` is not a decimal literal.
pub uninterp spec fn bits_of_dec(s: Seq<char>) -> Option<u64>;

/// The decimal rendering of the number with bit pattern `a`.
pub uninterp spec fn dec_of_bits(a: u64) -> Seq<char>;

/// Relies on `rustc_apfloat::ieee::Double`'s `+` (IEEE-754 binary64 addition,
/// round to nearest, ties to even): the sum is a function of the bits alone.
#[verifier::external_body]
pub(crate) fn f64_add(a: u64, b: u64) -> (r: u64)
    ensures
        r == add_bits(a, b),
{
    (Double::from_bits(a as u128) + Double::from_bits(b as u128)).value.to_bits() as u64
}

/// Relies on `rustc_apfloat::ieee::Double`'s `-` (IEEE-754 binary64
/// subtraction): the difference is a function of the bits alone.
#[verifier::external_body]
pub(crate) fn f64_sub(a: u64, b: u64) -> (r: u64)
    ensures
        r == sub_bits(a, b),
{
    (Double::from_bits(a as u128) - Double::from_bits(b as u128)).value.to_bits() as u64
}

/// Relies on `rustc_apfloat::ieee::Double`'s `*` (IEEE-754 binary64
/// multiplication): the product is a function of the bits alone.
#[verifier::external_body]
pub(crate) fn f64_mul(a: u64, b: u64) -> (r: u64)
    ensures
        r == mul_bits(a, b),
{
    (Double::from_bits(a as u128) * Double::from_bits(b as u128)).value.to_bits() as u64
}

/// Relies on `rustc_apfloat::ieee::Double`'s `/` (IEEE-754 binary64 division;
/// a finite number divided by zero gives an infinity, never an error).
#[verifier::external_body]
pub(crate) fn f64_div(a: u64, b: u64) -> (r: u64)
    ensures
        r == div_bits(a, b),
{
    (Double::from_bits(a as u128) / Double::from_bits(b as u128)).value.to_bits() as u64
}

/// Relies on `rustc_apfloat::ieee::Double`'s `PartialEq::eq`, which is IEEE
/// equality (`partial_cmp == Some(Equal)`), as `f64`'s `==` is.
#[verifier::external_body]
pub(crate) fn f64_eq(a: u64, b: u64) -> (r: bool)
    ensures
        r == eq_bits(a, b),
{
    Double::from_bits(a as u128) == Double::from_bits(b as u128)
}

/// Relies on `rustc_apfloat::ieee::Double`'s `PartialOrd::lt` (IEEE `<`;
/// false whenever either operand is NaN), as `f64`'s `<` is.
#[verifier::external_body]
pub(crate) fn f64_lt(a: u64, b: u64) -> (r: bool)
    ensures
        r == lt_bits(a, b),
{
    Double::from_bits(a as u128) < Double::from_bits(b as u128)
}

/// Relies on `rustc_apfloat::ieee::Double`'s `PartialOrd::le` (IEEE `<=`;
/// false whenever either operand is NaN), as `f64`'s `<=` is.
#[verifier::external_body]
pub(crate) fn f64_le(a: u64, b: u64) -> (r: bool)
    ensures
        r == le_bits(a, b),
{
    Double::from_bits(a as u128) <= Double::from_bits(b as u128)
}

/// Relies on `rustc_apfloat::ieee::Double::round_to_integral` with ties away
/// from zero (as `f64::round` rounds), the result converted to an `i64`
/// toward zero with saturation at the bounds and NaN taken to 0 (as an `as`
/// cast converts).
#[verifier::external_body]
pub(crate) fn f64_round_i64(a: u64) -> (r: i64)
    ensures
        r == round_i64_of(a),
{
    Double::from_bits(a as u128).round_to_integral(Round::NearestTiesToAway).value.to_i128(
        64,
    ).value as i64
}

/// Relies on `rustc_apfloat::ieee::Double::from_i128` (round to nearest,
/// ties to even).
#[verifier::external_body]
pub(crate) fn f64_from_i64(n: i64) -> (r: u64)
    ensures
        r == bits_of_i64(n),
{
    Double::from_i128(n as i128).value.to_bits() as u64
}

/// Relies on `rustc_apfloat::ieee::Double::from_u128` (round to nearest,
/// ties to even).
#[verifier::external_body]
pub(crate) fn f64_from_u64(n: u64) -> (r: u64)
    ensures
        r == bits_of_u64(n),
{
    Double::from_u128(n as u128).value.to_bits() as u64
}

/// Relies on `rustc_apfloat::ieee::Double`'s `FromStr` (decimal conversion,
/// round to nearest, ties to even): the value is a function of the text alone.
#[verifier::external_body]
pub(crate) fn f64_from_dec(s: &str) -> (r: Option<u64>)
    ensures
        r == bits_of_dec(s@),
{
    match s.parse::<Double>() {
        Ok(d) => Some(d.to_bits() as u64),
        Err(_) => None,
    }
}

/// Relies on `rustc_apfloat::ieee::Double`'s `Display` (a decimal rendering;
/// small integral values print as plain integers): the text is a function of
/// the bits alone. This rendering may carry more digits than the shortest
/// round-trip form (`0.1` prints as `0.10000000000000001`) and writes an
/// infinity as `+Inf`.
#[verifier::external_body]
pub(crate) fn f64_to_dec(a: u64) -> (r: String)
    ensures
        r@ == dec_of_bits(a),
{
    format!("{}", Double::from_bits(a as u128))
}

} // verus!
