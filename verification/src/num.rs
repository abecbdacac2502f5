//! Numeric values and arithmetic.
//!
//! Every value in the language is an IEEE 754 binary64 number, carried as
//! its 64-bit encoding.  The arithmetic itself — addition, subtraction,
//! multiplication, division, remainder and decimal-literal conversion, all
//! with round to nearest, ties to even — is done in software by the
//! `rustc_apfloat` crate, behind the trusted wrappers below.  Each
//! operation is deterministic: a function of the operand bits alone, which
//! the names `add_bits`, `sub_bits`, `mul_bits`, `div_bits`, `rem_bits` and
//! `literal_bits` stand for.
use vstd::prelude::*;
use vstd::string::StrSliceExecFns;
use rustc_apfloat::Float;
use crate::token::is_digit;

verus! {

/// The IEEE 754 binary64 sum of the numbers the two bit patterns encode.
pub uninterp spec fn add_bits(a: u64, b: u64) -> u64;

/// The IEEE 754 binary64 difference of the numbers the two bit patterns
/// encode.
pub uninterp spec fn sub_bits(a: u64, b: u64) -> u64;

/// The IEEE 754 binary64 product of the numbers the two bit patterns
/// encode.
pub uninterp spec fn mul_bits(a: u64, b: u64) -> u64;

/// The IEEE 754 binary64 quotient of the numbers the two bit patterns
/// encode.  Division by zero is no error: it yields an infinity or NaN
/// encoding, as the standard says.
pub uninterp spec fn div_bits(a: u64, b: u64) -> u64;

/// The IEEE 754 binary64 remainder (C `fmod`) of the numbers the two bit
/// patterns encode.
pub uninterp spec fn rem_bits(a: u64, b: u64) -> u64;

/// The IEEE 754 binary64 number that a decimal literal denotes, correctly
/// rounded, as its bit pattern.
pub uninterp spec fn literal_bits(text: Seq<char>) -> u64;

/// How many decimal points `text` holds.
pub open spec fn dot_count(text: Seq<char>) -> nat
    decreases text.len(),
{
    if text.len() == 0 {
        0
    } else {
        dot_count(text.drop_last()) + if text.last() == '.' {
            1nat
        } else {
            0nat
        }
    }
}

/// `text` is a decimal literal as the tokenizer produces one: non-empty,
/// opening with a digit, holding only digits and at most one decimal point.
pub open spec fn is_number_text(text: Seq<char>) -> bool {
    &&& text.len() > 0
    &&& is_digit(text[0])
    &&& (forall|i: int| 0 <= i < text.len() ==> (is_digit(text[i]) || text[i] == '.'))
    &&& dot_count(text) <= 1
}

/// Checks [`is_number_text`].
pub fn check_number_text(text: &String) -> (r: bool)
    ensures
        r == is_number_text(text@),
{
    let s = text.as_str();
    let n = s.unicode_len();
    if n == 0 {
        return false;
    }
    let first = s.get_char(0);
    let u0: u32 = first as u32;
    if !(48 <= u0 && u0 <= 57) {
        return false;
    }
    let mut dots: usize = 0;
    let mut i: usize = 0;
    while i < n
        invariant
            i <= n,
            n == text@.len(),
            s@ == text@,
            dots == dot_count(text@.take(i as int)),
            dots <= i,
            forall|j: int| 0 <= j < i ==> (is_digit(text@[j]) || text@[j] == '.'),
        decreases n - i,
    {
        let c = s.get_char(i);
        let u: u32 = c as u32;
        if c == '.' {
            dots = dots + 1;
        } else if !(48 <= u && u <= 57) {
            proof {
                assert(!(is_digit(text@[i as int]) || text@[i as int] == '.'));
            }
            return false;
        }
        i = i + 1;
        proof {
            assert(text@.take(i as int).drop_last() =~= text@.take(i - 1));
            assert(text@.take(i as int).last() == text@[i - 1]);
        }
    }
    proof {
        assert(text@.take(n as int) =~= text@);
    }
    dots <= 1
}

/// Relies on `rustc_apfloat`'s `Double` addition (round to nearest, ties to
/// even): software IEEE 754 binary64, a function of the operand bits alone.
#[verifier::external_body]
pub(crate) fn apfloat_add(a: u64, b: u64) -> (r: u64)
    ensures
        r == add_bits(a, b),
{
    let x = rustc_apfloat::ieee::Double::from_bits(a as u128);
    let y = rustc_apfloat::ieee::Double::from_bits(b as u128);
    (x + y).value.to_bits() as u64
}

/// Relies on `rustc_apfloat`'s `Double` subtraction (round to nearest, ties
/// to even): software IEEE 754 binary64, a function of the operand bits
/// alone.
#[verifier::external_body]
pub(crate) fn apfloat_sub(a: u64, b: u64) -> (r: u64)
    ensures
        r == sub_bits(a, b),
{
    let x = rustc_apfloat::ieee::Double::from_bits(a as u128);
    let y = rustc_apfloat::ieee::Double::from_bits(b as u128);
    (x - y).value.to_bits() as u64
}

/// Relies on `rustc_apfloat`'s `Double` multiplication (round to nearest,
/// ties to even): software IEEE 754 binary64, a function of the operand
/// bits alone.
#[verifier::external_body]
pub(crate) fn apfloat_mul(a: u64, b: u64) -> (r: u64)
    ensures
        r == mul_bits(a, b),
{
    let x = rustc_apfloat::ieee::Double::from_bits(a as u128);
    let y = rustc_apfloat::ieee::Double::from_bits(b as u128);
    (x * y).value.to_bits() as u64
}

/// Relies on `rustc_apfloat`'s `Double` division (round to nearest, ties to
/// even): software IEEE 754 binary64, a function of the operand bits alone.
/// Division by zero yields an infinity or NaN encoding, never a failure.
#[verifier::external_body]
pub(crate) fn apfloat_div(a: u64, b: u64) -> (r: u64)
    ensures
        r == div_bits(a, b),
{
    let x = rustc_apfloat::ieee::Double::from_bits(a as u128);
    let y = rustc_apfloat::ieee::Double::from_bits(b as u128);
    (x / y).value.to_bits() as u64
}

/// Relies on `rustc_apfloat`'s `Double` remainder (`%`, which is C `fmod`):
/// software IEEE 754 binary64, a function of the operand bits alone.
#[verifier::external_body]
pub(crate) fn apfloat_rem(a: u64, b: u64) -> (r: u64)
    ensures
        r == rem_bits(a, b),
{
    let x = rustc_apfloat::ieee::Double::from_bits(a as u128);
    let y = rustc_apfloat::ieee::Double::from_bits(b as u128);
    (x % y).value.to_bits() as u64
}

/// Relies on `rustc_apfloat`'s `Double::from_str` (round to nearest, ties
/// to even): correctly rounded decimal conversion, a function of the text
/// alone.  On digits with at most one decimal point it cannot fail, which
/// is what the precondition admits.
#[verifier::external_body]
pub(crate) fn apfloat_literal(text: &String) -> (r: u64)
    requires
        is_number_text(text@),
    ensures
        r == literal_bits(text@),
{
    match text.as_str().parse::<rustc_apfloat::ieee::Double>() {
        Ok(d) => d.to_bits() as u64,
        Err(_) => 0,
    }
}

} // verus!
