use vstd::prelude::*;

use rustc_apfloat::Float;
use rustc_apfloat::ieee::Double;

verus! {

/// The IEEE 754 double encoded by the decimal text, bit pattern form.
pub uninterp spec fn flt_of_text(s: Seq<char>) -> u64;

/// The decimal rendering of the IEEE 754 double with the given bit pattern.
pub uninterp spec fn flt_text_of(bits: u64) -> Seq<char>;

/// The IEEE 754 double nearest to the given integer, bit pattern form.
pub uninterp spec fn flt_from_int_of(i: i64) -> u64;

/// IEEE 754 double addition over bit patterns, round to nearest even.
pub uninterp spec fn flt_add_of(a: u64, b: u64) -> u64;

/// IEEE 754 double subtraction over bit patterns, round to nearest even.
pub uninterp spec fn flt_sub_of(a: u64, b: u64) -> u64;

/// IEEE 754 double multiplication over bit patterns, round to nearest even.
pub uninterp spec fn flt_mul_of(a: u64, b: u64) -> u64;

/// IEEE 754 double division over bit patterns, round to nearest even.
/// Total: a zero divisor yields an infinity or NaN, never an error.
pub uninterp spec fn flt_div_of(a: u64, b: u64) -> u64;

/// IEEE 754 double negation over bit patterns.
pub uninterp spec fn flt_neg_of(a: u64) -> u64;

/// The IEEE 754 `less than` predicate over bit patterns.
pub uninterp spec fn flt_lt_of(a: u64, b: u64) -> bool;

/// The IEEE 754 equality predicate over bit patterns.
pub uninterp spec fn flt_eq_of(a: u64, b: u64) -> bool;

/// Relies on rustc_apfloat's FromStr for ieee::Double: the parsed value
/// depends on the characters alone; unparsable text falls back to zero.
#[verifier::external_body]
pub(crate) fn flt_parse(s: &str) -> (r: u64)
    ensures
        r == flt_of_text(s@),
{
    match s.parse::<Double>() {
        Ok(d) => d.to_bits() as u64,
        Err(_) => 0,
    }
}

/// Relies on rustc_apfloat's Display for ieee::Double: the rendering
/// depends on the bit pattern alone.
#[verifier::external_body]
pub(crate) fn flt_render(bits: u64) -> (r: String)
    ensures
        r@ == flt_text_of(bits),
{
    format!("{}", Double::from_bits(bits as u128))
}

/// Relies on rustc_apfloat's Float::from_i128 for ieee::Double.
#[verifier::external_body]
pub(crate) fn flt_from_int(i: i64) -> (r: u64)
    ensures
        r == flt_from_int_of(i),
{
    Double::from_i128(i as i128).value.to_bits() as u64
}

/// Relies on rustc_apfloat's Add for ieee::Double (round to nearest even).
#[verifier::external_body]
pub(crate) fn flt_add(a: u64, b: u64) -> (r: u64)
    ensures
        r == flt_add_of(a, b),
{
    (Double::from_bits(a as u128) + Double::from_bits(b as u128)).value.to_bits() as u64
}

/// Relies on rustc_apfloat's Sub for ieee::Double (round to nearest even).
#[verifier::external_body]
pub(crate) fn flt_sub(a: u64, b: u64) -> (r: u64)
    ensures
        r == flt_sub_of(a, b),
{
    (Double::from_bits(a as u128) - Double::from_bits(b as u128)).value.to_bits() as u64
}

/// Relies on rustc_apfloat's Mul for ieee::Double (round to nearest even).
#[verifier::external_body]
pub(crate) fn flt_mul(a: u64, b: u64) -> (r: u64)
    ensures
        r == flt_mul_of(a, b),
{
    (Double::from_bits(a as u128) * Double::from_bits(b as u128)).value.to_bits() as u64
}

/// Relies on rustc_apfloat's Div for ieee::Double (round to nearest even).
/// Division is total over bit patterns: a zero divisor gives an infinity
/// or NaN, so the call always returns a value.
#[verifier::external_body]
pub(crate) fn flt_div(a: u64, b: u64) -> (r: u64)
    ensures
        r == flt_div_of(a, b),
{
    (Double::from_bits(a as u128) / Double::from_bits(b as u128)).value.to_bits() as u64
}

/// Relies on rustc_apfloat's Neg for ieee::Double.
#[verifier::external_body]
pub(crate) fn flt_neg(a: u64) -> (r: u64)
    ensures
        r == flt_neg_of(a),
{
    (-Double::from_bits(a as u128)).to_bits() as u64
}

/// Relies on rustc_apfloat's PartialOrd for ieee::Double: IEEE ordering,
/// under which a NaN is unordered against everything.
#[verifier::external_body]
pub(crate) fn flt_lt(a: u64, b: u64) -> (r: bool)
    ensures
        r == flt_lt_of(a, b),
{
    Double::from_bits(a as u128) < Double::from_bits(b as u128)
}

/// Relies on rustc_apfloat's PartialEq for ieee::Double: IEEE equality,
/// under which a NaN equals nothing, itself included.
#[verifier::external_body]
pub(crate) fn flt_eq(a: u64, b: u64) -> (r: bool)
    ensures
        r == flt_eq_of(a, b),
{
    Double::from_bits(a as u128) == Double::from_bits(b as u128)
}

} // verus!
