//! Parsers of Unicode character classes.
use vstd::prelude::*;

use crate::char::{sat, sat_spec};
use crate::combinator::{take_while, take_while1, take_while_spec};
use crate::parser::{agrees, ParseResult, Parser};
use crate::pred::CharClass;

verus! {

/// Accepts one Unicode alphanumeric character.
pub fn alphanum<'a>(input: &'a [char]) -> (r: ParseResult<char, &'a [char]>)
    ensures
        agrees(sat_spec(CharClass::Alphanum, input@), input@, r),
{
    sat(CharClass::Alphanum).parse(input)
}

/// Accepts the longest run of Unicode alphanumeric characters, possibly empty.
pub fn multi_alphanum<'a>(input: &'a [char]) -> (r: ParseResult<&'a [char], &'a [char]>)
    ensures
        agrees(take_while_spec(CharClass::Alphanum, false, input@), input@, r),
{
    take_while(CharClass::Alphanum).parse(input)
}

/// Accepts the longest run of Unicode alphanumeric characters, which must not be empty.
pub fn multi_alphanum1<'a>(input: &'a [char]) -> (r: ParseResult<&'a [char], &'a [char]>)
    ensures
        agrees(take_while_spec(CharClass::Alphanum, true, input@), input@, r),
{
    take_while1(CharClass::Alphanum).parse(input)
}

/// Accepts one Unicode alphabetic character.
pub fn alpha<'a>(input: &'a [char]) -> (r: ParseResult<char, &'a [char]>)
    ensures
        agrees(sat_spec(CharClass::Alpha, input@), input@, r),
{
    sat(CharClass::Alpha).parse(input)
}

/// Accepts the longest run of Unicode alphabetic characters, possibly empty.
pub fn multi_alpha<'a>(input: &'a [char]) -> (r: ParseResult<&'a [char], &'a [char]>)
    ensures
        agrees(take_while_spec(CharClass::Alpha, false, input@), input@, r),
{
    take_while(CharClass::Alpha).parse(input)
}

/// Accepts the longest run of Unicode alphabetic characters, which must not be empty.
pub fn multi_alpha1<'a>(input: &'a [char]) -> (r: ParseResult<&'a [char], &'a [char]>)
    ensures
        agrees(take_while_spec(CharClass::Alpha, true, input@), input@, r),
{
    take_while1(CharClass::Alpha).parse(input)
}

/// Accepts one Unicode lowercase character.
pub fn lowercase<'a>(input: &'a [char]) -> (r: ParseResult<char, &'a [char]>)
    ensures
        agrees(sat_spec(CharClass::Lowercase, input@), input@, r),
{
    sat(CharClass::Lowercase).parse(input)
}

/// Accepts the longest run of Unicode lowercase characters, possibly empty.
pub fn multi_lowercase<'a>(input: &'a [char]) -> (r: ParseResult<&'a [char], &'a [char]>)
    ensures
        agrees(take_while_spec(CharClass::Lowercase, false, input@), input@, r),
{
    take_while(CharClass::Lowercase).parse(input)
}

/// Accepts the longest run of Unicode lowercase characters, which must not be empty.
pub fn multi_lowercase1<'a>(input: &'a [char]) -> (r: ParseResult<&'a [char], &'a [char]>)
    ensures
        agrees(take_while_spec(CharClass::Lowercase, true, input@), input@, r),
{
    take_while1(CharClass::Lowercase).parse(input)
}

/// Accepts one Unicode uppercase character.
pub fn uppercase<'a>(input: &'a [char]) -> (r: ParseResult<char, &'a [char]>)
    ensures
        agrees(sat_spec(CharClass::Uppercase, input@), input@, r),
{
    sat(CharClass::Uppercase).parse(input)
}

/// Accepts the longest run of Unicode uppercase characters, possibly empty.
pub fn multi_uppercase<'a>(input: &'a [char]) -> (r: ParseResult<&'a [char], &'a [char]>)
    ensures
        agrees(take_while_spec(CharClass::Uppercase, false, input@), input@, r),
{
    take_while(CharClass::Uppercase).parse(input)
}

/// Accepts the longest run of Unicode uppercase characters, which must not be empty.
pub fn multi_uppercase1<'a>(input: &'a [char]) -> (r: ParseResult<&'a [char], &'a [char]>)
    ensures
        agrees(take_while_spec(CharClass::Uppercase, true, input@), input@, r),
{
    take_while1(CharClass::Uppercase).parse(input)
}

/// Accepts one Unicode white space character.
pub fn space<'a>(input: &'a [char]) -> (r: ParseResult<char, &'a [char]>)
    ensures
        agrees(sat_spec(CharClass::Space, input@), input@, r),
{
    sat(CharClass::Space).parse(input)
}

/// Accepts the longest run of Unicode white space characters, possibly empty.
pub fn multi_space<'a>(input: &'a [char]) -> (r: ParseResult<&'a [char], &'a [char]>)
    ensures
        agrees(take_while_spec(CharClass::Space, false, input@), input@, r),
{
    take_while(CharClass::Space).parse(input)
}

/// Accepts the longest run of Unicode white space characters, which must not be empty.
pub fn multi_space1<'a>(input: &'a [char]) -> (r: ParseResult<&'a [char], &'a [char]>)
    ensures
        agrees(take_while_spec(CharClass::Space, true, input@), input@, r),
{
    take_while1(CharClass::Space).parse(input)
}

} // verus!
