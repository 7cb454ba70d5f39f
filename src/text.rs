//! Conversions between std's text types and character vectors, and decimal numerals.
use crate::value::hex_digits;
use vstd::prelude::*;

verus! {

/// The decimal numeral of `n`, without leading zeros.
pub open spec fn decimal(n: nat) -> Seq<char>
    decreases n,
{
    if n < 10 {
        seq![hex_digits()[n as int]]
    } else {
        decimal(n / 10) + seq![hex_digits()[(n % 10) as int]]
    }
}

/// Relies on `str::chars`, collected: the characters of `s` in order; like every
/// `Vec`, the result holds at most `isize::MAX` bytes.
#[verifier::external_body]
pub(crate) fn chars_of(s: &str) -> (r: Vec<char>)
    ensures
        r@ == s@,
        r@.len() <= isize::MAX,
{
    s.chars().collect()
}

/// Relies on collecting chars into a `String`: the string of exactly those characters.
#[verifier::external_body]
pub(crate) fn string_of(v: &Vec<char>) -> (r: String)
    ensures
        r@ == v@,
{
    v.iter().collect()
}

/// Relies on `usize::to_string` (its `Display`): the decimal numeral of `n`.
#[verifier::external_body]
pub(crate) fn decimal_text(n: usize) -> (r: String)
    ensures
        r@ == decimal(n as nat),
{
    n.to_string()
}

/// Relies on `char::from_u32`: a Unicode scalar value gives the char with that code.
#[verifier::external_body]
pub(crate) fn char_of_scalar(code: u32) -> (r: char)
    requires
        code < 0xD800 || (0xE000 <= code && code < 0x110000),
    ensures
        r as u32 == code,
{
    char::from_u32(code).unwrap()
}

} // verus!
