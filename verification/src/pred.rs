use vstd::prelude::*;

use crate::tokens::FindToken;

verus! {

/// A test on a character, with the mathematical statement of what it accepts.
pub trait Pred {
    spec fn spec_test(&self, c: char) -> bool;

    fn test(&self, c: char) -> (b: bool)
        ensures
            b == self.spec_test(c),
    ;
}

/// `c` is one of the ASCII digits `0`..`9`.
pub open spec fn is_ascii_digit(c: char) -> bool {
    '0' <= c <= '9'
}

/// `c` is an ASCII lowercase letter.
pub open spec fn is_ascii_lowercase(c: char) -> bool {
    'a' <= c <= 'z'
}

/// `c` is an ASCII uppercase letter.
pub open spec fn is_ascii_uppercase(c: char) -> bool {
    'A' <= c <= 'Z'
}

/// `c` is an ASCII letter.
pub open spec fn is_ascii_alphabetic(c: char) -> bool {
    is_ascii_lowercase(c) || is_ascii_uppercase(c)
}

/// `c` is an ASCII letter or digit.
pub open spec fn is_ascii_alphanumeric(c: char) -> bool {
    is_ascii_alphabetic(c) || is_ascii_digit(c)
}

/// `c` is ASCII white space: space, tab, line feed, form feed or carriage return.
pub open spec fn is_ascii_whitespace(c: char) -> bool {
    c == ' ' || c == '\t' || c == '\n' || c == '\x0C' || c == '\r'
}

/// `c` is an ASCII hexadecimal digit.
pub open spec fn is_ascii_hexdigit(c: char) -> bool {
    is_ascii_digit(c) || ('a' <= c <= 'f') || ('A' <= c <= 'F')
}

/// `c` with ASCII uppercase letters mapped to lowercase.
pub open spec fn to_ascii_lowercase(c: char) -> char {
    if is_ascii_uppercase(c) {
        ((c as u32) + 32) as char
    } else {
        c
    }
}

/// `a` and `b` are the same character up to ASCII case.
pub open spec fn eq_ignore_ascii_case(a: char, b: char) -> bool {
    to_ascii_lowercase(a) == to_ascii_lowercase(b)
}

/// `c` is one of space, carriage return, line feed or tab.
pub open spec fn is_blank(c: char) -> bool {
    c == ' ' || c == '\r' || c == '\n' || c == '\t'
}

/// Whether `c` is alphabetic in the sense of Unicode, as `char::is_alphabetic` decides.
pub uninterp spec fn unicode_alphabetic(c: char) -> bool;

/// Whether `c` is alphanumeric in the sense of Unicode, as `char::is_alphanumeric` decides.
pub uninterp spec fn unicode_alphanumeric(c: char) -> bool;

/// Whether `c` is lowercase in the sense of Unicode, as `char::is_lowercase` decides.
pub uninterp spec fn unicode_lowercase(c: char) -> bool;

/// Whether `c` is uppercase in the sense of Unicode, as `char::is_uppercase` decides.
pub uninterp spec fn unicode_uppercase(c: char) -> bool;

/// Whether `c` is white space in the sense of Unicode, as `char::is_whitespace` decides.
pub uninterp spec fn unicode_whitespace(c: char) -> bool;

/// Calls `char::is_alphabetic`; the result is named, not stated (the Unicode
/// tables it consults are std's).
#[verifier::external_body]
fn std_is_alphabetic(c: char) -> (b: bool)
    ensures
        b == unicode_alphabetic(c),
{
    c.is_alphabetic()
}

/// Calls `char::is_alphanumeric`; the result is named, not stated.
#[verifier::external_body]
fn std_is_alphanumeric(c: char) -> (b: bool)
    ensures
        b == unicode_alphanumeric(c),
{
    c.is_alphanumeric()
}

/// Calls `char::is_lowercase`; the result is named, not stated.
#[verifier::external_body]
fn std_is_lowercase(c: char) -> (b: bool)
    ensures
        b == unicode_lowercase(c),
{
    c.is_lowercase()
}

/// Calls `char::is_uppercase`; the result is named, not stated.
#[verifier::external_body]
fn std_is_uppercase(c: char) -> (b: bool)
    ensures
        b == unicode_uppercase(c),
{
    c.is_uppercase()
}

/// Calls `char::is_whitespace`; the result is named, not stated.
#[verifier::external_body]
fn std_is_whitespace(c: char) -> (b: bool)
    ensures
        b == unicode_whitespace(c),
{
    c.is_whitespace()
}

/// `a` and `b` are equal up to ASCII case.
pub fn chars_eq_ignore_ascii_case(a: char, b: char) -> (r: bool)
    ensures
        r == eq_ignore_ascii_case(a, b),
{
    let x = a as u32;
    let y = b as u32;
    let lx: u32 = if 65 <= x && x <= 90 { x + 32 } else { x };
    let ly: u32 = if 65 <= y && y <= 90 { y + 32 } else { y };
    proof {
        assert(is_ascii_uppercase(a) <==> 65 <= x <= 90);
        assert(is_ascii_uppercase(b) <==> 65 <= y <= 90);
    }
    lx == ly
}

/// The character classes that the parsers of this library test for.
#[derive(Debug, Clone, Copy, PartialEq, Eq)]
pub enum CharClass {
    /// Every character.
    Any,
    /// The given character.
    Is(char),
    /// The given character, up to ASCII case.
    IsNoCase(char),
    AsciiDigit,
    AsciiAlpha,
    AsciiLowercase,
    AsciiUppercase,
    AsciiAlphanum,
    AsciiSpace,
    AsciiHex,
    Alpha,
    Alphanum,
    Lowercase,
    Uppercase,
    Space,
    /// Space, carriage return, line feed or tab.
    Blank,
}

impl Pred for CharClass {
    open spec fn spec_test(&self, c: char) -> bool {
        match *self {
            CharClass::Any => true,
            CharClass::Is(x) => c == x,
            CharClass::IsNoCase(x) => eq_ignore_ascii_case(c, x),
            CharClass::AsciiDigit => is_ascii_digit(c),
            CharClass::AsciiAlpha => is_ascii_alphabetic(c),
            CharClass::AsciiLowercase => is_ascii_lowercase(c),
            CharClass::AsciiUppercase => is_ascii_uppercase(c),
            CharClass::AsciiAlphanum => is_ascii_alphanumeric(c),
            CharClass::AsciiSpace => is_ascii_whitespace(c),
            CharClass::AsciiHex => is_ascii_hexdigit(c),
            CharClass::Alpha => unicode_alphabetic(c),
            CharClass::Alphanum => unicode_alphanumeric(c),
            CharClass::Lowercase => unicode_lowercase(c),
            CharClass::Uppercase => unicode_uppercase(c),
            CharClass::Space => unicode_whitespace(c),
            CharClass::Blank => is_blank(c),
        }
    }

    fn test(&self, c: char) -> (b: bool) {
        let digit = '0' <= c && c <= '9';
        let lower = 'a' <= c && c <= 'z';
        let upper = 'A' <= c && c <= 'Z';
        match *self {
            CharClass::Any => true,
            CharClass::Is(y) => c == y,
            CharClass::IsNoCase(y) => chars_eq_ignore_ascii_case(c, y),
            CharClass::AsciiDigit => digit,
            CharClass::AsciiAlpha => lower || upper,
            CharClass::AsciiLowercase => lower,
            CharClass::AsciiUppercase => upper,
            CharClass::AsciiAlphanum => lower || upper || digit,
            CharClass::AsciiSpace => c == ' ' || c == '\t' || c == '\n' || c == '\x0C' || c == '\r',
            CharClass::AsciiHex => digit || ('a' <= c && c <= 'f') || ('A' <= c && c <= 'F'),
            CharClass::Alpha => std_is_alphabetic(c),
            CharClass::Alphanum => std_is_alphanumeric(c),
            CharClass::Lowercase => std_is_lowercase(c),
            CharClass::Uppercase => std_is_uppercase(c),
            CharClass::Space => std_is_whitespace(c),
            CharClass::Blank => c == ' ' || c == '\r' || c == '\n' || c == '\t',
        }
    }
}

/// Accepts the characters found in `tokens`.
pub struct OneOf<F> {
    pub tokens: F,
}

impl<F: FindToken<char>> Pred for OneOf<F> {
    open spec fn spec_test(&self, c: char) -> bool {
        self.tokens.spec_find_token(c)
    }

    fn test(&self, c: char) -> (b: bool) {
        self.tokens.find_token(&c)
    }
}

/// Accepts the characters not found in `tokens`.
pub struct NoneOf<F> {
    pub tokens: F,
}

impl<F: FindToken<char>> Pred for NoneOf<F> {
    open spec fn spec_test(&self, c: char) -> bool {
        !self.tokens.spec_find_token(c)
    }

    fn test(&self, c: char) -> (b: bool) {
        !self.tokens.find_token(&c)
    }
}

} // verus!
