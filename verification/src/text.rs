//! Parsers of text read in place, and the inputs they read.
pub mod error;
pub mod pos;
pub mod position;
pub mod statically;
pub mod streaming;

pub use self::error::ParseError;
pub use self::position::Position;
pub use self::statically::StaticInput;
pub use self::streaming::StreamInput;


use vstd::prelude::*;

use crate::adapters::lemma_keeps_live_trans;
use crate::cursor::Cursor;
use crate::pred::{is_blank, CharClass, OneOf, Pred};
use crate::text_util::str_chars;
use crate::traits::{keeps_live, ran, Input, Outcome, Parser};

verus! {

/// The result of a text parser.
pub type ParseResult<T> = Result<T, ParseError>;

/// No message reported.
pub open spec fn no_errs() -> Seq<Seq<char>> {
    Seq::empty()
}

/// What reading one character that `f` must accept does on `text` from `at`:
/// the character where `f` accepts it, an error naming it where `f` does not
/// (it is read all the same), and `Eof` at the end of the text.
pub open spec fn one_char<F: Pred>(f: F, text: Seq<char>, at: int) -> Outcome<char, ParseError> {
    if 0 <= at < text.len() {
        if f.spec_test(text[at]) {
            Outcome { result: Ok(text[at]), end: at + 1, errs: no_errs() }
        } else {
            Outcome { result: Err(ParseError::UnexpectChar(text[at])), end: at + 1, errs: no_errs() }
        }
    } else {
        Outcome { result: Err(ParseError::Eof), end: at, errs: no_errs() }
    }
}

/// Reads one character that `f` accepts.
pub struct Sat<F> {
    pub f: F,
}

impl<I: Input, F: Pred> Parser<I> for Sat<F> {
    type Output = char;
    type Error = ParseError;

    open spec fn spec_parse(&self, text: Seq<char>, at: int) -> Outcome<char, ParseError> {
        one_char(self.f, text, at)
    }

    open spec fn parse_requires(&self) -> bool {
        true
    }

    proof fn lemma_parse_len(&self, text: Seq<char>, at: int) {
    }

    fn parse(&self, input: &mut I) -> (r: ParseResult<char>) {
        proof {
            input.lemma_index();
            assert(input.errs() + no_errs() =~= input.errs());
        }
        match input.next() {
            None => Err(ParseError::Eof),
            Some(ch) => if self.f.test(ch) {
                Ok(ch)
            } else {
                Err(ParseError::UnexpectChar(ch))
            },
        }
    }
}

/// Reads the character `ch`.
pub fn char(ch: char) -> (r: Sat<CharClass>)
    ensures
        r == (Sat { f: CharClass::Is(ch) }),
{
    Sat { f: CharClass::Is(ch) }
}

/// Reads one character that `f` accepts.
pub fn sat<F: Pred>(f: F) -> (r: Sat<F>)
    ensures
        r == (Sat { f }),
{
    Sat { f }
}

/// Reads one of the characters of `s`.
pub fn oneof<'a>(s: &'a str) -> (r: Sat<OneOf<&'a str>>)
    ensures
        r == (Sat { f: OneOf { tokens: s } }),
{
    Sat { f: OneOf { tokens: s } }
}

/// Reads any one character.
pub fn anychar() -> (r: Sat<CharClass>)
    ensures
        r == (Sat { f: CharClass::Any }),
{
    Sat { f: CharClass::Any }
}

/// Reads an ASCII digit.
#[inline]
pub fn digit<S: Input>(input: &mut S) -> (r: ParseResult<char>)
    requires
        old(input).inv(),
    ensures
        ran(one_char(CharClass::AsciiDigit, old(input).text(), old(input).index() as int), r, *old(input), *final(input)),
{
    Sat { f: CharClass::AsciiDigit }.parse(input)
}

/// Reads an ASCII letter.
#[inline]
pub fn alpha<S: Input>(input: &mut S) -> (r: ParseResult<char>)
    requires
        old(input).inv(),
    ensures
        ran(one_char(CharClass::AsciiAlpha, old(input).text(), old(input).index() as int), r, *old(input), *final(input)),
{
    Sat { f: CharClass::AsciiAlpha }.parse(input)
}

/// Reads an ASCII hexadecimal digit.
#[inline]
pub fn hex<S: Input>(input: &mut S) -> (r: ParseResult<char>)
    requires
        old(input).inv(),
    ensures
        ran(one_char(CharClass::AsciiHex, old(input).text(), old(input).index() as int), r, *old(input), *final(input)),
{
    Sat { f: CharClass::AsciiHex }.parse(input)
}

/// Reads a space, carriage return, line feed or tab.
#[inline]
pub fn whitespace<S: Input>(input: &mut S) -> (r: ParseResult<char>)
    requires
        old(input).inv(),
    ensures
        ran(one_char(CharClass::Blank, old(input).text(), old(input).index() as int), r, *old(input), *final(input)),
{
    Sat { f: CharClass::Blank }.parse(input)
}

/// Reads an ASCII lowercase letter.
#[inline]
pub fn lowercase<S: Input>(input: &mut S) -> (r: ParseResult<char>)
    requires
        old(input).inv(),
    ensures
        ran(one_char(CharClass::AsciiLowercase, old(input).text(), old(input).index() as int), r, *old(input), *final(input)),
{
    Sat { f: CharClass::AsciiLowercase }.parse(input)
}

/// Reads an ASCII uppercase letter.
#[inline]
pub fn uppercase<S: Input>(input: &mut S) -> (r: ParseResult<char>)
    requires
        old(input).inv(),
    ensures
        ran(one_char(CharClass::AsciiUppercase, old(input).text(), old(input).index() as int), r, *old(input), *final(input)),
{
    Sat { f: CharClass::AsciiUppercase }.parse(input)
}

/// Reads an ASCII letter or digit.
#[inline]
pub fn alphanum<S: Input>(input: &mut S) -> (r: ParseResult<char>)
    requires
        old(input).inv(),
    ensures
        ran(one_char(CharClass::AsciiAlphanum, old(input).text(), old(input).index() as int), r, *old(input), *final(input)),
{
    Sat { f: CharClass::AsciiAlphanum }.parse(input)
}

/// What `eof` does on `text` from `at`: success at the end; elsewhere it
/// reads the next character and names it in the error.
pub open spec fn eof_at(text: Seq<char>, at: int) -> Outcome<(), ParseError> {
    if 0 <= at < text.len() {
        Outcome { result: Err(ParseError::UnexpectChar(text[at])), end: at + 1, errs: no_errs() }
    } else {
        Outcome { result: Ok(()), end: at, errs: no_errs() }
    }
}

/// Succeeds at the end of the input.
pub fn eof<S: Input>(input: &mut S) -> (r: ParseResult<()>)
    requires
        old(input).inv(),
    ensures
        ran(eof_at(old(input).text(), old(input).index() as int), r, *old(input), *final(input)),
{
    proof {
        input.lemma_index();
        assert(input.errs() + no_errs() =~= input.errs());
    }
    match input.next() {
        None => Ok(()),
        Some(ch) => Err(ParseError::UnexpectChar(ch)),
    }
}

/// What reading the characters of `pat` from `at` does, where the first `i`
/// of them were matched already: the first one that differs is read and
/// named in the error, the end of the text gives `Eof`.
pub open spec fn str_from(pat: Seq<char>, text: Seq<char>, at: int, i: int) -> Outcome<Seq<char>, ParseError>
    decreases pat.len() - i,
{
    if i >= pat.len() {
        Outcome { result: Ok(pat), end: at + i, errs: no_errs() }
    } else if at + i >= text.len() {
        Outcome { result: Err(ParseError::Eof), end: at + i, errs: no_errs() }
    } else if text[at + i] != pat[i] {
        Outcome { result: Err(ParseError::UnexpectChar(text[at + i])), end: at + i + 1, errs: no_errs() }
    } else {
        str_from(pat, text, at, i + 1)
    }
}

/// Matching a string stops between its start and the end of the text.
pub proof fn lemma_str_from_len(pat: Seq<char>, text: Seq<char>, at: int, i: int)
    requires
        0 <= at,
        0 <= i <= pat.len(),
        at + i <= text.len(),
    ensures
        at + i <= str_from(pat, text, at, i).end <= text.len(),
    decreases pat.len() - i,
{
    if i < pat.len() && at + i < text.len() && text[at + i] == pat[i] {
        lemma_str_from_len(pat, text, at, i + 1);
    }
}

/// Reads the characters of `s`, one after the other.
pub struct Str<'a> {
    pub s: &'a str,
}

impl<'a, I: Input> Parser<I> for Str<'a> {
    type Output = String;
    type Error = ParseError;

    open spec fn spec_parse(&self, text: Seq<char>, at: int) -> Outcome<Seq<char>, ParseError> {
        str_from(self.s@, text, at, 0)
    }

    open spec fn parse_requires(&self) -> bool {
        true
    }

    proof fn lemma_parse_len(&self, text: Seq<char>, at: int) {
        lemma_str_from_len(self.s@, text, at, 0);
    }

    fn parse(&self, input: &mut I) -> (r: ParseResult<String>) {
        let ghost a = *input;
        let ghost text = a.text();
        let ghost at = a.index() as int;
        let pat = str_chars(self.s);
        let mut i: usize = 0;
        proof {
            a.lemma_index();
            assert(a.errs() + no_errs() =~= a.errs());
        }
        while i < pat.len()
            invariant
                a == *old(input),
                text == a.text(),
                at == a.index(),
                pat@ == self.s@,
                i <= pat@.len(),
                input.inv(),
                input.text() == text,
                input.depth() == a.depth(),
                input.errs() == a.errs(),
                keeps_live(a, *input),
                input.index() == at + i,
                input.index() <= text.len(),
                str_from(pat@, text, at, i as int) == str_from(pat@, text, at, 0),
            decreases pat@.len() - i,
        {
            let ghost s = *input;
            let ch = input.next();
            proof {
                lemma_keeps_live_trans(a, s, *input);
            }
            match ch {
                None => return Err(ParseError::Eof),
                Some(b) => {
                    if b != pat[i] {
                        return Err(ParseError::UnexpectChar(b));
                    }
                },
            }
            i = i + 1;
        }
        Ok(self.s.to_owned())
    }
}

/// Reads the characters of `s`; the value is `s`.
pub fn string<'a>(s: &'a str) -> (r: Str<'a>)
    ensures
        r == (Str { s }),
{
    Str { s }
}

/// The first place from `at` on where `text` holds no space, carriage
/// return, line feed or tab, or its end.
pub open spec fn blank_end(text: Seq<char>, at: int) -> int
    decreases text.len() - at,
{
    if 0 <= at < text.len() && is_blank(text[at]) {
        blank_end(text, at + 1)
    } else {
        at
    }
}

/// Skipping blanks stops between its start and the end of the text.
pub proof fn lemma_blank_end(text: Seq<char>, at: int)
    requires
        0 <= at <= text.len(),
    ensures
        at <= blank_end(text, at) <= text.len(),
    decreases text.len() - at,
{
    if at < text.len() && is_blank(text[at]) {
        lemma_blank_end(text, at + 1);
    }
}

/// Skips blanks, then runs `parser`.
pub struct Token<P> {
    pub parser: P,
}

impl<I: Input, P: Parser<I>> Parser<I> for Token<P> {
    type Output = P::Output;
    type Error = P::Error;

    open spec fn spec_parse(&self, text: Seq<char>, at: int) -> Outcome<
        <P::Output as DeepView>::V,
        <P::Error as DeepView>::V,
    > {
        self.parser.spec_parse(text, blank_end(text, at))
    }

    open spec fn parse_requires(&self) -> bool {
        self.parser.parse_requires()
    }

    proof fn lemma_parse_len(&self, text: Seq<char>, at: int) {
        lemma_blank_end(text, at);
        self.parser.lemma_parse_len(text, blank_end(text, at));
    }

    fn parse(&self, input: &mut I) -> (r: Result<P::Output, P::Error>) {
        let ghost a = *input;
        let ghost text = a.text();
        proof {
            a.lemma_index();
        }
        loop
            invariant
                a == *old(input),
                text == a.text(),
                input.inv(),
                input.text() == text,
                input.depth() == a.depth(),
                input.errs() == a.errs(),
                keeps_live(a, *input),
                a.index() <= input.index() <= text.len(),
                blank_end(text, input.index() as int) == blank_end(text, a.index() as int),
            ensures
                input.index() == blank_end(text, a.index() as int),
            decreases text.len() - input.index(),
        {
            let ghost s = *input;
            let c = input.cursor();
            let ghost s1 = *input;
            let ch = input.next();
            let ghost s2 = *input;
            proof {
                assert(s2.live(c));
            }
            match ch {
                Some(ch) => {
                    if ch == ' ' || ch == '\r' || ch == '\n' || ch == '\t' {
                        input.commit_callback(c);
                        proof {
                            assert forall|c2: Cursor<I::Pos>| s.live(c2) implies #[trigger] input.live(c2) by {
                                s.lemma_live(c2);
                                assert(s1.live(c2));
                                assert(s2.live(c2));
                            }
                            lemma_keeps_live_trans(a, s, *input);
                        }
                        continue;
                    }
                    input.restore_callback(c);
                    proof {
                        assert forall|c2: Cursor<I::Pos>| s.live(c2) implies #[trigger] input.live(c2) by {
                            s.lemma_live(c2);
                            assert(s1.live(c2));
                            assert(s2.live(c2));
                        }
                        lemma_keeps_live_trans(a, s, *input);
                    }
                    break;
                },
                None => {
                    input.commit_callback(c);
                    proof {
                        assert forall|c2: Cursor<I::Pos>| s.live(c2) implies #[trigger] input.live(c2) by {
                            s.lemma_live(c2);
                            assert(s1.live(c2));
                            assert(s2.live(c2));
                        }
                        lemma_keeps_live_trans(a, s, *input);
                    }
                    break;
                },
            }
        }
        let ghost b = *input;
        let r = self.parser.parse(input);
        proof {
            lemma_keeps_live_trans(a, b, *input);
        }
        r
    }
}

/// A parser that skips blanks and then runs `parser`.
pub fn token<P>(parser: P) -> (r: Token<P>)
    ensures
        r == (Token { parser }),
{
    Token { parser }
}

} // verus!
