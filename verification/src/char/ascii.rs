//! Parsers of ASCII character classes.
use vstd::prelude::*;

use crate::char::{sat, sat_spec};
use crate::combinator::{take_while, take_while1, take_while_spec};
use crate::parser::{agrees, ParseResult, Parser};
use crate::pred::CharClass;

verus! {

/// Accepts one ASCII digit.
pub fn digit<'a>(input: &'a [char]) -> (r: ParseResult<char, &'a [char]>)
    ensures
        agrees(sat_spec(CharClass::AsciiDigit, input@), input@, r),
{
    sat(CharClass::AsciiDigit).parse(input)
}

/// Accepts the longest run of ASCII digits, possibly empty.
pub fn multi_digit<'a>(input: &'a [char]) -> (r: ParseResult<&'a [char], &'a [char]>)
    ensures
        agrees(take_while_spec(CharClass::AsciiDigit, false, input@), input@, r),
{
    take_while(CharClass::AsciiDigit).parse(input)
}

/// Accepts the longest run of ASCII digits, which must not be empty.
pub fn multi_digit1<'a>(input: &'a [char]) -> (r: ParseResult<&'a [char], &'a [char]>)
    ensures
        agrees(take_while_spec(CharClass::AsciiDigit, true, input@), input@, r),
{
    take_while1(CharClass::AsciiDigit).parse(input)
}

/// Accepts one ASCII letter.
pub fn alpha<'a>(input: &'a [char]) -> (r: ParseResult<char, &'a [char]>)
    ensures
        agrees(sat_spec(CharClass::AsciiAlpha, input@), input@, r),
{
    sat(CharClass::AsciiAlpha).parse(input)
}

/// Accepts the longest run of ASCII letters, possibly empty.
pub fn multi_alpha<'a>(input: &'a [char]) -> (r: ParseResult<&'a [char], &'a [char]>)
    ensures
        agrees(take_while_spec(CharClass::AsciiAlpha, false, input@), input@, r),
{
    take_while(CharClass::AsciiAlpha).parse(input)
}

/// Accepts the longest run of ASCII letters, which must not be empty.
pub fn multi_alpha1<'a>(input: &'a [char]) -> (r: ParseResult<&'a [char], &'a [char]>)
    ensures
        agrees(take_while_spec(CharClass::AsciiAlpha, true, input@), input@, r),
{
    take_while1(CharClass::AsciiAlpha).parse(input)
}

/// Accepts one ASCII lowercase letter.
pub fn lowercase<'a>(input: &'a [char]) -> (r: ParseResult<char, &'a [char]>)
    ensures
        agrees(sat_spec(CharClass::AsciiLowercase, input@), input@, r),
{
    sat(CharClass::AsciiLowercase).parse(input)
}

/// Accepts the longest run of ASCII lowercase letters, possibly empty.
pub fn multi_lowercase<'a>(input: &'a [char]) -> (r: ParseResult<&'a [char], &'a [char]>)
    ensures
        agrees(take_while_spec(CharClass::AsciiLowercase, false, input@), input@, r),
{
    take_while(CharClass::AsciiLowercase).parse(input)
}

/// Accepts the longest run of ASCII lowercase letters, which must not be empty.
pub fn multi_lowercase1<'a>(input: &'a [char]) -> (r: ParseResult<&'a [char], &'a [char]>)
    ensures
        agrees(take_while_spec(CharClass::AsciiLowercase, true, input@), input@, r),
{
    take_while1(CharClass::AsciiLowercase).parse(input)
}

/// Accepts one ASCII uppercase letter.
pub fn uppercase<'a>(input: &'a [char]) -> (r: ParseResult<char, &'a [char]>)
    ensures
        agrees(sat_spec(CharClass::AsciiUppercase, input@), input@, r),
{
    sat(CharClass::AsciiUppercase).parse(input)
}

/// Accepts the longest run of ASCII uppercase letters, possibly empty.
pub fn multi_uppercase<'a>(input: &'a [char]) -> (r: ParseResult<&'a [char], &'a [char]>)
    ensures
        agrees(take_while_spec(CharClass::AsciiUppercase, false, input@), input@, r),
{
    take_while(CharClass::AsciiUppercase).parse(input)
}

/// Accepts the longest run of ASCII uppercase letters, which must not be empty.
pub fn multi_uppercase1<'a>(input: &'a [char]) -> (r: ParseResult<&'a [char], &'a [char]>)
    ensures
        agrees(take_while_spec(CharClass::AsciiUppercase, true, input@), input@, r),
{
    take_while1(CharClass::AsciiUppercase).parse(input)
}

/// Accepts one ASCII letter or digit.
pub fn alphanum<'a>(input: &'a [char]) -> (r: ParseResult<char, &'a [char]>)
    ensures
        agrees(sat_spec(CharClass::AsciiAlphanum, input@), input@, r),
{
    sat(CharClass::AsciiAlphanum).parse(input)
}

/// Accepts the longest run of ASCII letter or digits, possibly empty.
pub fn multi_alphanum<'a>(input: &'a [char]) -> (r: ParseResult<&'a [char], &'a [char]>)
    ensures
        agrees(take_while_spec(CharClass::AsciiAlphanum, false, input@), input@, r),
{
    take_while(CharClass::AsciiAlphanum).parse(input)
}

/// Accepts the longest run of ASCII letter or digits, which must not be empty.
pub fn multi_alphanum1<'a>(input: &'a [char]) -> (r: ParseResult<&'a [char], &'a [char]>)
    ensures
        agrees(take_while_spec(CharClass::AsciiAlphanum, true, input@), input@, r),
{
    take_while1(CharClass::AsciiAlphanum).parse(input)
}

/// Accepts one ASCII white space character.
pub fn space<'a>(input: &'a [char]) -> (r: ParseResult<char, &'a [char]>)
    ensures
        agrees(sat_spec(CharClass::AsciiSpace, input@), input@, r),
{
    sat(CharClass::AsciiSpace).parse(input)
}

/// Accepts the longest run of ASCII white space characters, possibly empty.
pub fn multi_space<'a>(input: &'a [char]) -> (r: ParseResult<&'a [char], &'a [char]>)
    ensures
        agrees(take_while_spec(CharClass::AsciiSpace, false, input@), input@, r),
{
    take_while(CharClass::AsciiSpace).parse(input)
}

/// Accepts the longest run of ASCII white space characters, which must not be empty.
pub fn multi_space1<'a>(input: &'a [char]) -> (r: ParseResult<&'a [char], &'a [char]>)
    ensures
        agrees(take_while_spec(CharClass::AsciiSpace, true, input@), input@, r),
{
    take_while1(CharClass::AsciiSpace).parse(input)
}

/// Accepts one ASCII hexadecimal digit.
pub fn hex<'a>(input: &'a [char]) -> (r: ParseResult<char, &'a [char]>)
    ensures
        agrees(sat_spec(CharClass::AsciiHex, input@), input@, r),
{
    sat(CharClass::AsciiHex).parse(input)
}

/// Accepts the longest run of ASCII hexadecimal digits, possibly empty.
pub fn multi_hex<'a>(input: &'a [char]) -> (r: ParseResult<&'a [char], &'a [char]>)
    ensures
        agrees(take_while_spec(CharClass::AsciiHex, false, input@), input@, r),
{
    take_while(CharClass::AsciiHex).parse(input)
}

/// Accepts the longest run of ASCII hexadecimal digits, which must not be empty.
pub fn multi_hex1<'a>(input: &'a [char]) -> (r: ParseResult<&'a [char], &'a [char]>)
    ensures
        agrees(take_while_spec(CharClass::AsciiHex, true, input@), input@, r),
{
    take_while1(CharClass::AsciiHex).parse(input)
}

} // verus!
