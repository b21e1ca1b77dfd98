//! Single-character parsers of ASCII classes.
use vstd::prelude::*;

use crate::char::{sat, sat_spec};
use crate::parser::{agrees, ParseResult, Parser};
use crate::pred::CharClass;

verus! {

/// Accepts one ASCII digit.
pub fn digit<'a>(input: &'a [char]) -> (r: ParseResult<char, &'a [char]>)
    ensures
        agrees(sat_spec(CharClass::AsciiDigit, input@), input@, r),
{
    sat(CharClass::AsciiDigit).parse(input)
}

/// Accepts one ASCII letter.
pub fn alpha<'a>(input: &'a [char]) -> (r: ParseResult<char, &'a [char]>)
    ensures
        agrees(sat_spec(CharClass::AsciiAlpha, input@), input@, r),
{
    sat(CharClass::AsciiAlpha).parse(input)
}

/// Accepts one ASCII lowercase letter.
pub fn lowercase<'a>(input: &'a [char]) -> (r: ParseResult<char, &'a [char]>)
    ensures
        agrees(sat_spec(CharClass::AsciiLowercase, input@), input@, r),
{
    sat(CharClass::AsciiLowercase).parse(input)
}

/// Accepts one ASCII uppercase letter.
pub fn uppercase<'a>(input: &'a [char]) -> (r: ParseResult<char, &'a [char]>)
    ensures
        agrees(sat_spec(CharClass::AsciiUppercase, input@), input@, r),
{
    sat(CharClass::AsciiUppercase).parse(input)
}

/// Accepts one ASCII letter or digit.
pub fn alphanum<'a>(input: &'a [char]) -> (r: ParseResult<char, &'a [char]>)
    ensures
        agrees(sat_spec(CharClass::AsciiAlphanum, input@), input@, r),
{
    sat(CharClass::AsciiAlphanum).parse(input)
}

/// Accepts one ASCII white space character.
pub fn space<'a>(input: &'a [char]) -> (r: ParseResult<char, &'a [char]>)
    ensures
        agrees(sat_spec(CharClass::AsciiSpace, input@), input@, r),
{
    sat(CharClass::AsciiSpace).parse(input)
}

/// Accepts one ASCII hexadecimal digit.
pub fn hex<'a>(input: &'a [char]) -> (r: ParseResult<char, &'a [char]>)
    ensures
        agrees(sat_spec(CharClass::AsciiHex, input@), input@, r),
{
    sat(CharClass::AsciiHex).parse(input)
}

} // verus!
