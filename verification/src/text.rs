//! Texts: decimal numbers, case folding and UTF-8.

use vstd::prelude::*;
use vstd::utf8::*;

verus! {

/// Whether `c` is one of the decimal digits `0` to `9`.
pub open spec fn is_digit(c: char) -> bool {
    '0' <= c && c <= '9'
}

/// Every character is a decimal digit, and there is at least one.
pub open spec fn all_digits(text: Seq<char>) -> bool {
    &&& text.len() > 0
    &&& forall|i: int| 0 <= i < text.len() ==> is_digit(#[trigger] text[i])
}

/// The number that a run of decimal digits denotes.
pub open spec fn digits_value(text: Seq<char>) -> int
    decreases text.len(),
{
    if text.len() == 0 {
        0
    } else {
        digits_value(text.drop_last()) * 10 + (text.last() as int - '0' as int)
    }
}

/// The integer that `text` denotes: an optional `+` or `-`, then only decimal
/// digits, at least one. Anything else denotes no integer.
pub open spec fn decimal_value(text: Seq<char>) -> Option<int> {
    if text.len() > 0 && text[0] == '-' {
        let digits = text.subrange(1, text.len() as int);
        if all_digits(digits) {
            Some(-digits_value(digits))
        } else {
            None
        }
    } else if text.len() > 0 && text[0] == '+' {
        let digits = text.subrange(1, text.len() as int);
        if all_digits(digits) {
            Some(digits_value(digits))
        } else {
            None
        }
    } else if all_digits(text) {
        Some(digits_value(text))
    } else {
        None
    }
}

/// The 32-bit integer that `text` denotes, if it denotes one in range.
pub open spec fn spec_parse_i32(text: Seq<char>) -> Option<i32> {
    match decimal_value(text) {
        Some(value) => if i32::MIN <= value <= i32::MAX {
            Some(value as i32)
        } else {
            None
        },
        None => None,
    }
}

/// The 64-bit integer that `text` denotes, if it denotes one in range.
pub open spec fn spec_parse_i64(text: Seq<char>) -> Option<i64> {
    match decimal_value(text) {
        Some(value) => if i64::MIN <= value <= i64::MAX {
            Some(value as i64)
        } else {
            None
        },
        None => None,
    }
}

/// An ASCII capital letter becomes its small letter; other characters stay.
pub open spec fn fold_case(c: char) -> char {
    if 'A' <= c && c <= 'Z' {
        ((c as u8 + 32) as u8) as char
    } else {
        c
    }
}

/// The two texts are equal up to the case of their ASCII letters.
pub open spec fn same_ignoring_case(a: Seq<char>, b: Seq<char>) -> bool {
    &&& a.len() == b.len()
    &&& forall|i: int| 0 <= i < a.len() ==> fold_case(#[trigger] a[i]) == fold_case(b[i])
}

/// Trusted: `str::parse::<i32>` of the standard library. It accepts an
/// optional sign followed by decimal digits only, and fails on an empty
/// string, on any other character and on a value outside the 32-bit range.
#[verifier::external_body]
pub(crate) fn parse_i32(text: &str) -> (value: Option<i32>)
    ensures
        value == spec_parse_i32(text@),
{
    text.parse::<i32>().ok()
}

/// Trusted: `str::parse::<i64>` of the standard library. It accepts an
/// optional sign followed by decimal digits only, and fails on an empty
/// string, on any other character and on a value outside the 64-bit range.
#[verifier::external_body]
pub(crate) fn parse_i64(text: &str) -> (value: Option<i64>)
    ensures
        value == spec_parse_i64(text@),
{
    text.parse::<i64>().ok()
}

/// Trusted: `str::eq_ignore_ascii_case` of the standard library, which
/// compares two strings as if every ASCII letter were in lower case.
#[verifier::external_body]
pub(crate) fn eq_ignore_ascii_case(a: &str, b: &str) -> (same: bool)
    ensures
        same == same_ignoring_case(a@, b@),
{
    a.eq_ignore_ascii_case(b)
}

/// Trusted: `String::from_utf8` of the standard library, which succeeds
/// exactly on well-formed UTF-8 and then holds the characters that the
/// bytes encode.
#[verifier::external_body]
pub(crate) fn string_from_utf8(bytes: Vec<u8>) -> (text: Option<String>)
    ensures
        text is Some <==> valid_utf8(bytes@),
        text matches Some(s) ==> s@ == decode_utf8(bytes@),
{
    String::from_utf8(bytes).ok()
}

} // verus!
