//! Single-character parsers of Unicode classes.
use vstd::prelude::*;

use crate::char::{sat, sat_spec};
use crate::parser::{agrees, ParseResult, Parser};
use crate::pred::CharClass;

verus! {

/// Accepts one Unicode alphanumeric character.
pub fn alphanum<'a>(input: &'a [char]) -> (r: ParseResult<char, &'a [char]>)
    ensures
        agrees(sat_spec(CharClass::Alphanum, input@), input@, r),
{
    sat(CharClass::Alphanum).parse(input)
}

/// Accepts one Unicode alphabetic character.
pub fn alpha<'a>(input: &'a [char]) -> (r: ParseResult<char, &'a [char]>)
    ensures
        agrees(sat_spec(CharClass::Alpha, input@), input@, r),
{
    sat(CharClass::Alpha).parse(input)
}

/// Accepts one Unicode lowercase character.
pub fn lowercase<'a>(input: &'a [char]) -> (r: ParseResult<char, &'a [char]>)
    ensures
        agrees(sat_spec(CharClass::Lowercase, input@), input@, r),
{
    sat(CharClass::Lowercase).parse(input)
}

/// Accepts one Unicode uppercase character.
pub fn uppercase<'a>(input: &'a [char]) -> (r: ParseResult<char, &'a [char]>)
    ensures
        agrees(sat_spec(CharClass::Uppercase, input@), input@, r),
{
    sat(CharClass::Uppercase).parse(input)
}

/// Accepts one Unicode white space character.
pub fn space<'a>(input: &'a [char]) -> (r: ParseResult<char, &'a [char]>)
    ensures
        agrees(sat_spec(CharClass::Space, input@), input@, r),
{
    sat(CharClass::Space).parse(input)
}

} // verus!
