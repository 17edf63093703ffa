use vstd::prelude::*;
use crate::value::{QNAN, SIGN_BIT};

verus! {

// ---------------------------------------------------------------------------
// Names for the double-precision operations that the machine performs.
//
// A number value is carried as the 64-bit encoding of an IEEE-754 double.
// The arithmetic on those encodings is done by rustc_apfloat, a software
// implementation of IEEE-754 binary64 with round-to-nearest-even, so each
// operation below is a pure function of the operand bit patterns.  Stating
// the rounding rules themselves would take pages, so the results are given
// names, and every contract of the compiler and the machine speaks of the
// results through these names.
// ---------------------------------------------------------------------------
pub uninterp spec fn num_add(a: u64, b: u64) -> u64;

pub uninterp spec fn num_sub(a: u64, b: u64) -> u64;

pub uninterp spec fn num_mul(a: u64, b: u64) -> u64;

pub uninterp spec fn num_div(a: u64, b: u64) -> u64;

pub uninterp spec fn num_rem(a: u64, b: u64) -> u64;

pub uninterp spec fn num_of_decimal(s: Seq<u8>) -> u64;

/// Relies on rustc_apfloat's `Double` addition (round to nearest even): the
/// IEEE-754 sum of the doubles encoded by `a` and `b`, a function of the two
/// bit patterns alone.
#[verifier::external_body]
pub fn add_bits(a: u64, b: u64) -> (r: u64)
    ensures
        r == num_add(a, b),
{
    let x = <rustc_apfloat::ieee::Double as rustc_apfloat::Float>::from_bits(a as u128);
    let y = <rustc_apfloat::ieee::Double as rustc_apfloat::Float>::from_bits(b as u128);
    rustc_apfloat::Float::to_bits((x + y).value) as u64
}

/// Relies on rustc_apfloat's `Double` subtraction (round to nearest even):
/// the IEEE-754 difference of the doubles encoded by `a` and `b`.
#[verifier::external_body]
pub fn sub_bits(a: u64, b: u64) -> (r: u64)
    ensures
        r == num_sub(a, b),
{
    let x = <rustc_apfloat::ieee::Double as rustc_apfloat::Float>::from_bits(a as u128);
    let y = <rustc_apfloat::ieee::Double as rustc_apfloat::Float>::from_bits(b as u128);
    rustc_apfloat::Float::to_bits((x - y).value) as u64
}

/// Relies on rustc_apfloat's `Double` multiplication (round to nearest
/// even): the IEEE-754 product of the doubles encoded by `a` and `b`.
#[verifier::external_body]
pub fn mul_bits(a: u64, b: u64) -> (r: u64)
    ensures
        r == num_mul(a, b),
{
    let x = <rustc_apfloat::ieee::Double as rustc_apfloat::Float>::from_bits(a as u128);
    let y = <rustc_apfloat::ieee::Double as rustc_apfloat::Float>::from_bits(b as u128);
    rustc_apfloat::Float::to_bits((x * y).value) as u64
}

/// Relies on rustc_apfloat's `Double` division (round to nearest even): the
/// IEEE-754 quotient of the doubles encoded by `a` and `b`.
#[verifier::external_body]
pub fn div_bits(a: u64, b: u64) -> (r: u64)
    ensures
        r == num_div(a, b),
{
    let x = <rustc_apfloat::ieee::Double as rustc_apfloat::Float>::from_bits(a as u128);
    let y = <rustc_apfloat::ieee::Double as rustc_apfloat::Float>::from_bits(b as u128);
    rustc_apfloat::Float::to_bits((x / y).value) as u64
}

/// Relies on rustc_apfloat's `Double` remainder (`c_fmod`, the truncated
/// remainder of C's fmod): the remainder of the doubles encoded by `a` and
/// `b`.
#[verifier::external_body]
pub fn rem_bits(a: u64, b: u64) -> (r: u64)
    ensures
        r == num_rem(a, b),
{
    let x = <rustc_apfloat::ieee::Double as rustc_apfloat::Float>::from_bits(a as u128);
    let y = <rustc_apfloat::ieee::Double as rustc_apfloat::Float>::from_bits(b as u128);
    rustc_apfloat::Float::to_bits((x % y).value) as u64
}

pub open spec fn is_digit(b: u8) -> bool {
    48 <= b && b <= 57
}

/// The byte shapes that the scanner hands to `decimal_bits`: at least one
/// decimal digit, at most one dot, nothing else.
pub open spec fn is_numeral(s: Seq<u8>) -> bool {
    &&& exists|i: int| 0 <= i < s.len() && is_digit(s[i])
    &&& forall|i: int| 0 <= i < s.len() ==> is_digit(s[i]) || s[i] == 46
    &&& forall|i: int, j: int| 0 <= i < j < s.len() && s[i] == 46 ==> s[j] != 46
}

/// Relies on rustc_apfloat's decimal parsing (`Double::from_str`, round to
/// nearest even): the correctly rounded double for a decimal numeral, a
/// function of the numeral's bytes alone.  On a digits-and-dot numeral the
/// parse never fails, and its result is a finite double or an infinity,
/// never a NaN, so the encoding lies outside the reserved tag space.
#[verifier::external_body]
pub fn decimal_bits(s: &Vec<u8>) -> (r: u64)
    requires
        is_numeral(s@),
    ensures
        r == num_of_decimal(s@),
        r & QNAN != QNAN,
{
    let text = core::str::from_utf8(s.as_slice()).unwrap();
    let parsed: rustc_apfloat::ieee::Double = text.parse().unwrap();
    rustc_apfloat::Float::to_bits(parsed) as u64
}

// ---------------------------------------------------------------------------
// The IEEE-754 ordering of two encoded doubles, written out over the bit
// patterns: a comparison involving a NaN is false, the two zeros are equal,
// and all other pairs follow sign-magnitude order.  These few lines are the
// whole behaviour of the comparison, so it is defined and verified here
// rather than taken on trust.
// ---------------------------------------------------------------------------
/// An exponent of all ones with a non-zero mantissa: the NaN patterns.
pub open spec fn spec_is_nan(b: u64) -> bool {
    b & 0x7ff0000000000000 == 0x7ff0000000000000 && b & 0x000fffffffffffff != 0
}

/// Positive or negative zero.
pub open spec fn spec_is_zero(b: u64) -> bool {
    b & 0x7fffffffffffffff == 0
}

/// An order-preserving key: negative patterns are complemented, positive
/// ones get the sign bit, so that unsigned order on keys is the IEEE order
/// on the doubles (the two zeros excepted, handled separately).
pub open spec fn order_key(b: u64) -> u64 {
    if b & SIGN_BIT == SIGN_BIT {
        !b
    } else {
        b | SIGN_BIT
    }
}

/// `a < b` in the IEEE-754 sense on the encoded doubles.
pub open spec fn spec_num_lt(a: u64, b: u64) -> bool {
    &&& !spec_is_nan(a)
    &&& !spec_is_nan(b)
    &&& !(spec_is_zero(a) && spec_is_zero(b))
    &&& order_key(a) < order_key(b)
}

/// `a <= b` in the IEEE-754 sense on the encoded doubles.
pub open spec fn spec_num_le(a: u64, b: u64) -> bool {
    &&& !spec_is_nan(a)
    &&& !spec_is_nan(b)
    &&& (a == b || (spec_is_zero(a) && spec_is_zero(b)) || order_key(a) < order_key(b))
}

pub fn num_lt(a: u64, b: u64) -> (r: bool)
    ensures
        r == spec_num_lt(a, b),
{
    let a_nan = a & 0x7ff0000000000000 == 0x7ff0000000000000 && a & 0x000fffffffffffff != 0;
    let b_nan = b & 0x7ff0000000000000 == 0x7ff0000000000000 && b & 0x000fffffffffffff != 0;
    let both_zero = a & 0x7fffffffffffffff == 0 && b & 0x7fffffffffffffff == 0;
    let ka = if a & SIGN_BIT == SIGN_BIT {
        !a
    } else {
        a | SIGN_BIT
    };
    let kb = if b & SIGN_BIT == SIGN_BIT {
        !b
    } else {
        b | SIGN_BIT
    };
    !a_nan && !b_nan && !both_zero && ka < kb
}

pub fn num_le(a: u64, b: u64) -> (r: bool)
    ensures
        r == spec_num_le(a, b),
{
    let a_nan = a & 0x7ff0000000000000 == 0x7ff0000000000000 && a & 0x000fffffffffffff != 0;
    let b_nan = b & 0x7ff0000000000000 == 0x7ff0000000000000 && b & 0x000fffffffffffff != 0;
    let both_zero = a & 0x7fffffffffffffff == 0 && b & 0x7fffffffffffffff == 0;
    let ka = if a & SIGN_BIT == SIGN_BIT {
        !a
    } else {
        a | SIGN_BIT
    };
    let kb = if b & SIGN_BIT == SIGN_BIT {
        !b
    } else {
        b | SIGN_BIT
    };
    !a_nan && !b_nan && (a == b || both_zero || ka < kb)
}

} // verus!
