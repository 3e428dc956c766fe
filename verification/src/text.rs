//! The texts of errors.

use crate::variant::{SpecVariant, Variant};
use vstd::prelude::*;

verus! {

/// The decimal digits of `n`, as characters.
pub open spec fn decimal_text(n: nat) -> Seq<char>
    decreases n,
{
    if n < 10 {
        seq![(0x30 + n) as char]
    } else {
        decimal_text(n / 10).push((0x30 + n % 10) as char)
    }
}

/// The sentence of a value that is not what was expected.
pub open spec fn invalid_value_sentence(expected: Seq<char>, actual: Seq<char>) -> Seq<char> {
    "expected "@ + expected + " but got "@ + actual
}

/// The sentence of a message that lacks a header field it must have.
pub open spec fn missing_field_sentence(method_name: Seq<char>, header_field_name: Seq<char>) -> Seq<
    char,
> {
    method_name + " message is missing "@ + header_field_name + " required header field"@
}

/// The sentence of padding that holds a byte that is not zero.
pub open spec fn padding_sentence(start: nat, end: nat) -> Seq<char> {
    "padding contains a byte other than 0x00 between positions "@ + decimal_text(start) + " and "@
        + decimal_text(end)
}

/// `format!` of the standard library, for the sentence of an invalid value.
///
/// Trusted: the call puts the two texts in their places between the words.
#[verifier::external_body]
pub(crate) fn describe_invalid_value(expected: &str, actual: &String) -> (r: String)
    ensures
        r@ == invalid_value_sentence(expected@, actual@),
{
    format!("expected {expected} but got {actual}")
}

/// `format!` of the standard library, for the sentence of a missing field.
///
/// Trusted: the call puts the two names in their places between the words.
#[verifier::external_body]
pub(crate) fn describe_missing_field(method_name: &str, header_field_name: &str) -> (r: String)
    ensures
        r@ == missing_field_sentence(method_name@, header_field_name@),
{
    format!("{method_name} message is missing {header_field_name} required header field")
}

/// `format!` of the standard library, for the sentence of bad padding.
///
/// Trusted: the call puts the two numbers, in decimal digits, in their
/// places between the words.
#[verifier::external_body]
pub(crate) fn describe_padding(start: usize, end: usize) -> (r: String)
    ensures
        r@ == padding_sentence(start as nat, end as nat),
{
    format!("padding contains a byte other than 0x00 between positions {start} and {end}")
}

/// The text that `Debug` gives for a value.
pub uninterp spec fn debug_text_of(value: SpecVariant) -> Seq<char>;

/// `format!` of the standard library, for the text of a value in an error,
/// as `Debug` gives it.
///
/// Trusted: the text depends on the value alone.
#[verifier::external_body]
pub(crate) fn debug_text(value: &Variant) -> (r: String)
    ensures
        r@ == debug_text_of(value@),
{
    format!("{value:?}")
}

/// The text that bytes are read as where what is not UTF-8 among them is
/// replaced.
pub uninterp spec fn lossy_text_of(bytes: Seq<u8>) -> Seq<char>;

/// `String::from_utf8_lossy` of the standard library, for the text of an
/// error.
///
/// Trusted: the text depends on the bytes alone.
#[verifier::external_body]
pub(crate) fn lossy_text(bytes: &Vec<u8>) -> (r: String)
    ensures
        r@ == lossy_text_of(bytes@),
{
    String::from_utf8_lossy(bytes).into_owned()
}

/// `u32::to_string` of the standard library.
///
/// Trusted: the text of a number is its decimal digits.
#[verifier::external_body]
pub(crate) fn decimal_string(n: u32) -> (r: String)
    ensures
        r@ == decimal_text(n as nat),
{
    n.to_string()
}

} // verus!
