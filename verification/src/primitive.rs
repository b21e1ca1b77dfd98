//! Primitive parsers, and characters and strings used as parsers.
use vstd::prelude::*;

use crate::char::{literal_spec, sat_spec, Literal, Sat};
use crate::error::{unexpected_at, ErrorView, ParseError, SimpleError};
use crate::parser::{agrees, ParseResult, Parser, SpecResult};
use crate::pred::{CharClass, NoneOf, OneOf, Pred};
use crate::text_util::str_chars;
use crate::tokens::FindToken;

pub mod ascii;
pub mod unicode;

verus! {

/// A parser that accepts the character `ch`.
pub fn char(ch: char) -> (r: Sat<CharClass>)
    ensures
        r.pred == CharClass::Is(ch),
{
    Sat { pred: CharClass::Is(ch) }
}

/// A parser that accepts the character `ch`, up to ASCII case.
pub fn char_no_case(ch: char) -> (r: Sat<CharClass>)
    ensures
        r.pred == CharClass::IsNoCase(ch),
{
    Sat { pred: CharClass::IsNoCase(ch) }
}

/// A parser that accepts the characters of `s` in order.
pub fn string(s: &str) -> (r: Literal)
    ensures
        r.chars@ == s@,
        !r.ignore_case,
{
    Literal { chars: str_chars(s), ignore_case: false }
}

/// A parser that accepts the characters of `s` in order, up to ASCII case.
pub fn string_no_case(s: &str) -> (r: Literal)
    ensures
        r.chars@ == s@,
        r.ignore_case,
{
    Literal { chars: str_chars(s), ignore_case: true }
}

/// A parser that accepts one token satisfying `pred`.
pub fn sat<F: Pred>(pred: F) -> (r: Sat<F>)
    ensures
        r.pred == pred,
{
    Sat { pred }
}

/// Accepts a line feed.
pub fn newline<'a>(input: &'a [char]) -> (r: ParseResult<char, &'a [char]>)
    ensures
        agrees(sat_spec(CharClass::Is('\n'), input@), input@, r),
{
    '\n'.parse(input)
}

/// Accepts any one token.
pub fn anychar<'a>(input: &'a [char]) -> (r: ParseResult<char, &'a [char]>)
    ensures
        agrees(sat_spec(CharClass::Any, input@), input@, r),
{
    sat(CharClass::Any).parse(input)
}

/// A parser that accepts one token found in `tokens`.
pub fn oneof<F: FindToken<char>>(tokens: F) -> (r: Sat<OneOf<F>>)
    ensures
        r.pred.tokens == tokens,
{
    Sat { pred: OneOf { tokens } }
}

/// A parser that accepts one token not found in `tokens`.
pub fn noneof<F: FindToken<char>>(tokens: F) -> (r: Sat<NoneOf<F>>)
    ensures
        r.pred.tokens == tokens,
{
    Sat { pred: NoneOf { tokens } }
}

/// Succeeds at the end of the input; elsewhere fails on the token found.
pub fn eof<'a>(input: &'a [char]) -> (r: ParseResult<(), &'a [char]>)
    ensures
        agrees(crate::combinator::eof_spec(input@), input@, r),
{
    if input.len() == 0 {
        proof {
            assert(input@.skip(0) =~= input@);
        }
        Ok(((), input))
    } else {
        Err(SimpleError::Unexpected(Some(input[0])))
    }
}

/// Always fails, on the token found (`None` at the end of the input).
pub fn error<'a>(input: &'a [char]) -> (r: ParseResult<(), &'a [char]>)
    ensures
        agrees(Err::<((), int), ErrorView>(unexpected_at(input@)), input@, r),
{
    if input.len() == 0 {
        Err(SimpleError::Unexpected(None))
    } else {
        Err(SimpleError::Unexpected(Some(input[0])))
    }
}

/// A parser that succeeds with `t` without consuming input.
pub fn pure<T>(t: T) -> (r: crate::combinator::Pure<T>)
    ensures
        r == (crate::combinator::Pure { value: t }),
{
    crate::combinator::Pure { value: t }
}

/// A character is the parser of itself.
impl<'a> Parser<&'a [char]> for char {
    type Output = char;

    open spec fn spec_parse(&self, s: Seq<char>) -> SpecResult<char> {
        sat_spec(CharClass::Is(*self), s)
    }

    open spec fn parse_requires(&self) -> bool {
        true
    }

    proof fn lemma_parse_len(&self, s: Seq<char>) {
    }

    fn parse(&self, input: &'a [char]) -> (r: ParseResult<char, &'a [char]>) {
        Sat { pred: CharClass::Is(*self) }.parse(input)
    }
}

/// A string is the parser of its characters in order.
impl<'a, 'b> Parser<&'a [char]> for &'b str {
    type Output = &'a [char];

    open spec fn spec_parse(&self, s: Seq<char>) -> SpecResult<Seq<char>> {
        literal_spec((**self)@, false, s)
    }

    open spec fn parse_requires(&self) -> bool {
        true
    }

    proof fn lemma_parse_len(&self, s: Seq<char>) {
        crate::char::lemma_literal_match_bounds((**self)@, false, s, 0);
    }

    fn parse(&self, input: &'a [char]) -> (r: ParseResult<&'a [char], &'a [char]>) {
        string(*self).parse(input)
    }
}

} // verus!
