//! Parsers of single characters and of literal strings.
use vstd::prelude::*;

use crate::error::{unexpected_at, ParseError, SimpleError};
use crate::parser::{agrees, Or, ParseResult, Parser, SpecResult};
use crate::pred::{eq_ignore_ascii_case, chars_eq_ignore_ascii_case, CharClass, NoneOf, OneOf, Pred};
use crate::slice::{lemma_chars_deep_view, prefix, suffix};
use crate::text_util::str_chars;
use crate::tokens::FindToken;

pub mod ascii;
pub mod unicode;
pub mod primitive;
pub mod state;

verus! {

/// What [`Sat`] does: accept the first token if `pred` holds of it.
pub open spec fn sat_spec<F: Pred>(pred: F, s: Seq<char>) -> SpecResult<char> {
    if s.len() > 0 && pred.spec_test(s[0]) {
        Ok((s[0], 1))
    } else {
        Err(unexpected_at(s))
    }
}

/// Accepts one token that satisfies `pred`.
pub struct Sat<F> {
    pub pred: F,
}

impl<'a, F: Pred> Parser<&'a [char]> for Sat<F> {
    type Output = char;

    open spec fn spec_parse(&self, s: Seq<char>) -> SpecResult<char> {
        sat_spec(self.pred, s)
    }

    open spec fn parse_requires(&self) -> bool {
        true
    }

    proof fn lemma_parse_len(&self, s: Seq<char>) {
    }

    fn parse(&self, input: &'a [char]) -> (r: ParseResult<char, &'a [char]>) {
        if input.len() > 0 {
            let t = input[0];
            if self.pred.test(t) {
                return Ok((t, suffix(input, 1)));
            }
        }
        Err(SimpleError::unexpect(input))
    }
}

/// Two characters are equal, up to ASCII case when `ignore_case` holds.
pub open spec fn char_matches(a: char, b: char, ignore_case: bool) -> bool {
    if ignore_case {
        eq_ignore_ascii_case(a, b)
    } else {
        a == b
    }
}

/// The number of leading characters of `lit`, from index `i` on, that `s` matches.
pub open spec fn literal_match_from(lit: Seq<char>, ignore_case: bool, s: Seq<char>, i: int) -> int
    decreases lit.len() - i,
{
    if 0 <= i < lit.len() && i < s.len() && char_matches(s[i], lit[i], ignore_case) {
        literal_match_from(lit, ignore_case, s, i + 1)
    } else {
        i
    }
}

/// What [`Literal`] does: accept the characters of `lit` in order, failing at
/// the first one that does not match.
pub open spec fn literal_spec(lit: Seq<char>, ignore_case: bool, s: Seq<char>) -> SpecResult<Seq<char>> {
    let k = literal_match_from(lit, ignore_case, s, 0);
    if k == lit.len() {
        Ok((s.take(k), k))
    } else {
        Err(unexpected_at(s.skip(k)))
    }
}

/// `literal_match_from` stays between its start and the end of `lit` and of `s`.
pub proof fn lemma_literal_match_bounds(lit: Seq<char>, ignore_case: bool, s: Seq<char>, i: int)
    requires
        0 <= i <= lit.len(),
        i <= s.len(),
    ensures
        i <= literal_match_from(lit, ignore_case, s, i) <= lit.len(),
        literal_match_from(lit, ignore_case, s, i) <= s.len(),
    decreases lit.len() - i,
{
    if 0 <= i < lit.len() && i < s.len() && char_matches(s[i], lit[i], ignore_case) {
        lemma_literal_match_bounds(lit, ignore_case, s, i + 1);
    }
}

/// Accepts the characters of `chars`, exactly or up to ASCII case.
pub struct Literal {
    pub chars: Vec<char>,
    pub ignore_case: bool,
}

impl<'a> Parser<&'a [char]> for Literal {
    type Output = &'a [char];

    open spec fn spec_parse(&self, s: Seq<char>) -> SpecResult<Seq<char>> {
        literal_spec(self.chars@, self.ignore_case, s)
    }

    open spec fn parse_requires(&self) -> bool {
        true
    }

    proof fn lemma_parse_len(&self, s: Seq<char>) {
        lemma_literal_match_bounds(self.chars@, self.ignore_case, s, 0);
    }

    fn parse(&self, input: &'a [char]) -> (r: ParseResult<&'a [char], &'a [char]>) {
        let ghost lit = self.chars@;
        let mut i: usize = 0;
        while i < self.chars.len()
            invariant
                i <= self.chars@.len(),
                i <= input@.len(),
                lit == self.chars@,
                literal_match_from(lit, self.ignore_case, input@, 0)
                    == literal_match_from(lit, self.ignore_case, input@, i as int),
            decreases self.chars@.len() - i,
        {
            let c = self.chars[i];
            let ok = if i < input.len() {
                if self.ignore_case {
                    chars_eq_ignore_ascii_case(input[i], c)
                } else {
                    input[i] == c
                }
            } else {
                false
            };
            if !ok {
                return Err(SimpleError::unexpect(suffix(input, i)));
            }
            i = i + 1;
        }
        assert(literal_match_from(lit, self.ignore_case, input@, i as int) == i as int);
        let front = prefix(input, i);
        proof {
            lemma_chars_deep_view(front);
        }
        Ok((front, suffix(input, i)))
    }
}

/// A parser that accepts one token satisfying `pred`.
pub fn sat<F: Pred>(pred: F) -> (r: Sat<F>)
    ensures
        r.pred == pred,
{
    Sat { pred }
}

/// A parser that accepts the character `ch`.
pub fn char(ch: char) -> (r: Sat<CharClass>)
    ensures
        r.pred == CharClass::Is(ch),
{
    Sat { pred: CharClass::Is(ch) }
}

/// A parser that accepts the characters of `string` in order.
pub fn string(s: &str) -> (r: Literal)
    ensures
        r.chars@ == s@,
        !r.ignore_case,
{
    Literal { chars: str_chars(s), ignore_case: false }
}

/// A parser that accepts the characters of `string` in order, up to ASCII case.
pub fn string_no_case(s: &str) -> (r: Literal)
    ensures
        r.chars@ == s@,
        r.ignore_case,
{
    Literal { chars: str_chars(s), ignore_case: true }
}

/// Accepts a line feed.
pub fn newline<'a>(input: &'a [char]) -> (r: ParseResult<char, &'a [char]>)
    ensures
        agrees(sat_spec(CharClass::Is('\n'), input@), input@, r),
{
    char('\n').parse(input)
}

/// Accepts a carriage return followed by a line feed.
pub fn crlf<'a>(input: &'a [char]) -> (r: ParseResult<&'a [char], &'a [char]>)
    ensures
        agrees(literal_spec(seq!['\r', '\n'], false, input@), input@, r),
{
    let p = Literal { chars: vec!['\r', '\n'], ignore_case: false };
    assert(p.chars@ == seq!['\r', '\n']);
    p.parse(input)
}

/// Accepts a tab.
pub fn tab<'a>(input: &'a [char]) -> (r: ParseResult<char, &'a [char]>)
    ensures
        agrees(sat_spec(CharClass::Is('\t'), input@), input@, r),
{
    char('\t').parse(input)
}

/// What [`eol`] does: a line feed, or else a carriage return and a line feed.
pub open spec fn eol_spec(s: Seq<char>) -> SpecResult<Seq<char>> {
    match literal_spec(seq!['\n'], false, s) {
        Ok(t) => Ok(t),
        Err(_) => literal_spec(seq!['\r', '\n'], false, s),
    }
}

/// Accepts the end of a line: `\n` or `\r\n`.
pub fn eol<'a>(input: &'a [char]) -> (r: ParseResult<&'a [char], &'a [char]>)
    ensures
        agrees(eol_spec(input@), input@, r),
{
    let lf = Literal { chars: vec!['\n'], ignore_case: false };
    let crlf = Literal { chars: vec!['\r', '\n'], ignore_case: false };
    assert(lf.chars@ == seq!['\n']);
    assert(crlf.chars@ == seq!['\r', '\n']);
    let p = Or { first: lf, second: crlf };
    p.parse(input)
}

/// Accepts any one token.
pub fn anychar<'a>(input: &'a [char]) -> (r: ParseResult<char, &'a [char]>)
    ensures
        agrees(sat_spec(CharClass::Any, input@), input@, r),
{
    sat(CharClass::Any).parse(input)
}

/// A parser that accepts one token found in `tokens`.
pub fn one_of<F: FindToken<char>>(tokens: F) -> (r: Sat<OneOf<F>>)
    ensures
        r.pred.tokens == tokens,
{
    Sat { pred: OneOf { tokens } }
}

/// A parser that accepts one token not found in `tokens`.
pub fn none_of<F: FindToken<char>>(tokens: F) -> (r: Sat<NoneOf<F>>)
    ensures
        r.pred.tokens == tokens,
{
    Sat { pred: NoneOf { tokens } }
}

} // verus!
