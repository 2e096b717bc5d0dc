//! Floating point support.  The language's float values are IEEE-754
//! binary64 numbers, carried everywhere as their bit patterns (`u64`).
//! Arithmetic, comparison, parsing and printing of those bit patterns are
//! delegated to the software implementation in the `rustc_apfloat` crate
//! (round-to-nearest-even throughout); each operation's result is named by
//! an uninterpreted function, so that contracts can speak of it exactly.

use vstd::prelude::*;
use rustc_apfloat::Float;
use rustc_apfloat::ieee::Double;

verus! {

/// The IEEE-754 binary64 sum of the two numbers with these bit patterns.
pub uninterp spec fn float_add(a: u64, b: u64) -> u64;

/// The IEEE-754 binary64 difference of the two numbers with these bit patterns.
pub uninterp spec fn float_sub(a: u64, b: u64) -> u64;

/// The IEEE-754 binary64 product of the two numbers with these bit patterns.
pub uninterp spec fn float_mul(a: u64, b: u64) -> u64;

/// The IEEE-754 binary64 quotient of the two numbers with these bit patterns.
pub uninterp spec fn float_div(a: u64, b: u64) -> u64;

/// Whether the two numbers with these bit patterns compare equal (IEEE
/// semantics: distinct NaN comparisons are false, and `0.0` equals `-0.0`).
pub uninterp spec fn float_eq(a: u64, b: u64) -> bool;

/// Whether the first number compares strictly greater than the second.
pub uninterp spec fn float_gt(a: u64, b: u64) -> bool;

/// Whether the first number compares strictly less than the second.
pub uninterp spec fn float_lt(a: u64, b: u64) -> bool;

/// The bit pattern of the binary64 number nearest to this integer.
pub uninterp spec fn float_of_int(n: int) -> u64;

/// What `rustc_apfloat`'s reader makes of this decimal literal: the
/// correctly rounded bit pattern, or `None` where it refuses the text.
pub uninterp spec fn float_of_decimal(s: Seq<char>) -> Option<u64>;

/// The decimal rendering of the number with this bit pattern.
pub uninterp spec fn float_repr(b: u64) -> Seq<char>;

/// Relies on `rustc_apfloat`'s `Add` impl for `ieee::Double`: IEEE-754
/// binary64 addition, rounding to nearest even.
#[verifier::external_body]
pub(crate) fn add_floats(a: u64, b: u64) -> (r: u64)
    ensures
        r == float_add(a, b),
{
    ((Double::from_bits(a as u128) + Double::from_bits(b as u128)).value.to_bits()) as u64
}

/// Relies on `rustc_apfloat`'s `Sub` impl for `ieee::Double`.
#[verifier::external_body]
pub(crate) fn sub_floats(a: u64, b: u64) -> (r: u64)
    ensures
        r == float_sub(a, b),
{
    ((Double::from_bits(a as u128) - Double::from_bits(b as u128)).value.to_bits()) as u64
}

/// Relies on `rustc_apfloat`'s `Mul` impl for `ieee::Double`.
#[verifier::external_body]
pub(crate) fn mul_floats(a: u64, b: u64) -> (r: u64)
    ensures
        r == float_mul(a, b),
{
    ((Double::from_bits(a as u128) * Double::from_bits(b as u128)).value.to_bits()) as u64
}

/// Relies on `rustc_apfloat`'s `Div` impl for `ieee::Double`; division by
/// zero yields the IEEE infinity or NaN, never a fault.
#[verifier::external_body]
pub(crate) fn div_floats(a: u64, b: u64) -> (r: u64)
    ensures
        r == float_div(a, b),
{
    ((Double::from_bits(a as u128) / Double::from_bits(b as u128)).value.to_bits()) as u64
}

/// Relies on `rustc_apfloat`'s `PartialEq` impl for `ieee::Double`, which
/// compares by `partial_cmp` and so follows IEEE equality.
#[verifier::external_body]
pub(crate) fn eq_floats(a: u64, b: u64) -> (r: bool)
    ensures
        r == float_eq(a, b),
{
    Double::from_bits(a as u128) == Double::from_bits(b as u128)
}

/// Relies on `rustc_apfloat`'s `PartialOrd::gt` for `ieee::Double`.
#[verifier::external_body]
pub(crate) fn gt_floats(a: u64, b: u64) -> (r: bool)
    ensures
        r == float_gt(a, b),
{
    Double::from_bits(a as u128) > Double::from_bits(b as u128)
}

/// Relies on `rustc_apfloat`'s `PartialOrd::lt` for `ieee::Double`.
#[verifier::external_body]
pub(crate) fn lt_floats(a: u64, b: u64) -> (r: bool)
    ensures
        r == float_lt(a, b),
{
    Double::from_bits(a as u128) < Double::from_bits(b as u128)
}

/// Relies on `rustc_apfloat`'s `Float::from_i128` for `ieee::Double`: the
/// nearest binary64 number to the given integer.
#[verifier::external_body]
pub(crate) fn int_to_float(n: i64) -> (r: u64)
    ensures
        r == float_of_int(n as int),
{
    (Double::from_i128(n as i128).value.to_bits()) as u64
}

/// Relies on `rustc_apfloat`'s `FromStr` impl for `ieee::Double`: a
/// correctly rounded read of a decimal literal.  Text the crate's parser
/// refuses is reported as `None`.
#[verifier::external_body]
pub(crate) fn parse_float(s: &str) -> (r: Option<u64>)
    ensures
        r == float_of_decimal(s@),
{
    match s.parse::<Double>() {
        Ok(d) => Some((d.to_bits()) as u64),
        Err(_) => None,
    }
}

/// Relies on `rustc_apfloat`'s `Display` impl for `ieee::Double`: a decimal
/// rendering of the number, depending on its bits alone.
#[verifier::external_body]
pub(crate) fn float_to_string(b: u64) -> (r: String)
    ensures
        r@ == float_repr(b),
{
    format!("{}", Double::from_bits(b as u128))
}

} // verus!
