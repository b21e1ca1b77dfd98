//! Parsers of single characters that say, when they fail, where they were
//! and what they expected.
use vstd::prelude::*;

use crate::adapters::lemma_keeps_live_trans;
use crate::pred::{CharClass, NoneOf, OneOf, Pred};
use crate::text::position::{position_after, Position};
use crate::text_util::str_chars;
use crate::traits::{keeps_live, Input, Located, Outcome, Parser};

verus! {

/// Where a parser failed, what it expected there, and what it found there
/// (`None` at the end of the input).
#[derive(Debug, Clone)]
pub struct ParseError {
    pub pos: Position,
    pub expect: Vec<String>,
    pub unexpect: Option<char>,
}

impl DeepView for ParseError {
    type V = ((nat, nat), Seq<Seq<char>>, Option<char>);

    open spec fn deep_view(&self) -> ((nat, nat), Seq<Seq<char>>, Option<char>) {
        (self.pos@, self.expect.deep_view(), self.unexpect)
    }
}

/// The line and column at the place `at` of `text`.
pub open spec fn position_at(text: Seq<char>, at: int) -> (nat, nat) {
    position_after(text.take(at))
}

/// The list of what is expected: the one message, or none.
pub open spec fn expected(m: Option<String>) -> Seq<Seq<char>> {
    match m {
        Some(s) => seq![s@],
        None => Seq::empty(),
    }
}

/// What reading one character that `f` must accept does on `text` from `at`:
/// the character; or, where `f` refuses it (it is read all the same) or at
/// the end of the text, an error with the place, the list `expect` and what
/// was found.
pub open spec fn satisfy_at<F: Pred>(f: F, expect: Seq<Seq<char>>, text: Seq<char>, at: int) -> Outcome<
    char,
    ((nat, nat), Seq<Seq<char>>, Option<char>),
> {
    if 0 <= at < text.len() {
        if f.spec_test(text[at]) {
            Outcome { result: Ok(text[at]), end: at + 1, errs: Seq::empty() }
        } else {
            Outcome { result: Err((position_at(text, at), expect, Some(text[at]))), end: at + 1, errs: Seq::empty() }
        }
    } else {
        Outcome { result: Err((position_at(text, at), expect, None)), end: at, errs: Seq::empty() }
    }
}

/// Reads one character that `f` accepts; a failure names `expect`.
pub struct Satisfy<F> {
    pub f: F,
    pub expect: Option<String>,
}

impl<F> Satisfy<F> {
    /// The list of what is expected, to put in an error.
    fn expect_list(&self) -> (r: Vec<String>)
        ensures
            r.deep_view() == expected(self.expect),
    {
        let mut v: Vec<String> = Vec::new();
        match &self.expect {
            Some(m) => v.push(m.clone()),
            None => {},
        }
        proof {
            assert(v.deep_view() =~= expected(self.expect));
        }
        v
    }
}

impl<I: Located, F: Pred> Parser<I> for Satisfy<F> {
    type Output = char;
    type Error = ParseError;

    open spec fn spec_parse(&self, text: Seq<char>, at: int) -> Outcome<
        char,
        ((nat, nat), Seq<Seq<char>>, Option<char>),
    > {
        satisfy_at(self.f, expected(self.expect), text, at)
    }

    open spec fn parse_requires(&self) -> bool {
        true
    }

    proof fn lemma_parse_len(&self, text: Seq<char>, at: int) {
    }

    fn parse(&self, input: &mut I) -> (r: Result<char, ParseError>) {
        proof {
            input.lemma_index();
            assert(input.errs() + Seq::<Seq<char>>::empty() =~= input.errs());
        }
        let pos = input.position();
        match input.next() {
            None => Err(ParseError { pos, expect: self.expect_list(), unexpect: None }),
            Some(ch) => if self.f.test(ch) {
                Ok(ch)
            } else {
                Err(ParseError { pos, expect: self.expect_list(), unexpect: Some(ch) })
            },
        }
    }
}

/// The character `c` as a string.
///
/// Calls `ToString::to_string` on the character; std documents that a `char`
/// converts to the string of that one character, which is what this states.
#[verifier::external_body]
fn char_string(c: char) -> (r: String)
    ensures
        r@ == seq![c],
{
    c.to_string()
}

/// Reads one character that `f` accepts.
pub fn satisfy<F: Pred>(f: F) -> (r: Satisfy<F>)
    ensures
        r == (Satisfy { f, expect: None }),
{
    Satisfy { f, expect: None }
}

/// Reads the character `ch`; a failure expects `ch`.
#[inline]
pub fn char(ch: char) -> (r: Satisfy<CharClass>)
    ensures
        r.f == CharClass::Is(ch),
        r.expect matches Some(m) && m@ == seq![ch],
{
    Satisfy { f: CharClass::Is(ch), expect: Some(char_string(ch)) }
}

/// Reads an ASCII digit.
#[inline]
pub fn digit() -> (r: Satisfy<CharClass>)
    ensures
        r.f == CharClass::AsciiDigit,
        r.expect matches Some(m) && m@ == "digit"@,
{
    Satisfy { f: CharClass::AsciiDigit, expect: Some(String::from_str("digit")) }
}

/// Reads an ASCII letter.
#[inline]
pub fn alpha() -> (r: Satisfy<CharClass>)
    ensures
        r.f == CharClass::AsciiAlpha,
        r.expect matches Some(m) && m@ == "alpha"@,
{
    Satisfy { f: CharClass::AsciiAlpha, expect: Some(String::from_str("alpha")) }
}

/// Reads an ASCII lowercase letter.
#[inline]
pub fn lowercase() -> (r: Satisfy<CharClass>)
    ensures
        r.f == CharClass::AsciiLowercase,
        r.expect matches Some(m) && m@ == "lowercase"@,
{
    Satisfy { f: CharClass::AsciiLowercase, expect: Some(String::from_str("lowercase")) }
}

/// Reads an ASCII uppercase letter.
#[inline]
pub fn uppercase() -> (r: Satisfy<CharClass>)
    ensures
        r.f == CharClass::AsciiUppercase,
        r.expect matches Some(m) && m@ == "uppercase"@,
{
    Satisfy { f: CharClass::AsciiUppercase, expect: Some(String::from_str("uppercase")) }
}

/// Reads an ASCII letter or digit.
#[inline]
pub fn alphanum() -> (r: Satisfy<CharClass>)
    ensures
        r.f == CharClass::AsciiAlphanum,
        r.expect matches Some(m) && m@ == "alphanum"@,
{
    Satisfy { f: CharClass::AsciiAlphanum, expect: Some(String::from_str("alphanum")) }
}

/// Reads ASCII white space.
#[inline]
pub fn space() -> (r: Satisfy<CharClass>)
    ensures
        r.f == CharClass::AsciiSpace,
        r.expect matches Some(m) && m@ == "space"@,
{
    Satisfy { f: CharClass::AsciiSpace, expect: Some(String::from_str("space")) }
}

/// Reads an ASCII hexadecimal digit.
#[inline]
pub fn hex() -> (r: Satisfy<CharClass>)
    ensures
        r.f == CharClass::AsciiHex,
        r.expect matches Some(m) && m@ == "hex"@,
{
    Satisfy { f: CharClass::AsciiHex, expect: Some(String::from_str("hex")) }
}

/// Reads one of the characters of `string`.
#[inline]
pub fn oneof<'a>(string: &'a str) -> (r: Satisfy<OneOf<&'a str>>)
    ensures
        r.f == (OneOf { tokens: string }),
        r.expect matches Some(m) && m@ == "oneof "@ + string@,
{
    Satisfy { f: OneOf { tokens: string }, expect: Some(String::from_str("oneof ").concat(string)) }
}

/// Reads a character that is not in `string`.
#[inline]
pub fn noneof<'a>(string: &'a str) -> (r: Satisfy<NoneOf<&'a str>>)
    ensures
        r.f == (NoneOf { tokens: string }),
        r.expect matches Some(m) && m@ == "noneof "@ + string@,
{
    Satisfy { f: NoneOf { tokens: string }, expect: Some(String::from_str("noneof ").concat(string)) }
}

/// Reads any one character.
#[inline]
pub fn anychar() -> (r: Satisfy<CharClass>)
    ensures
        r.f == CharClass::Any,
        r.expect matches Some(m) && m@ == "anychar"@,
{
    Satisfy { f: CharClass::Any, expect: Some(String::from_str("anychar")) }
}

/// What reading the characters of `pat` from `at` does, where the first `i`
/// of them were read already: each is read as `char` reads it, and the first
/// failure stops.
pub open spec fn string_from(pat: Seq<char>, text: Seq<char>, at: int, i: int) -> Outcome<
    Seq<char>,
    ((nat, nat), Seq<Seq<char>>, Option<char>),
>
    decreases pat.len() - i,
{
    if i >= pat.len() {
        Outcome { result: Ok(pat), end: at + i, errs: Seq::empty() }
    } else {
        let o = satisfy_at(CharClass::Is(pat[i]), seq![seq![pat[i]]], text, at + i);
        if o.result is Err {
            Outcome { result: Err(o.result->Err_0), end: o.end, errs: o.errs }
        } else {
            string_from(pat, text, at, i + 1)
        }
    }
}

/// Reading a string stops between its start and the end of the text.
pub proof fn lemma_string_from_len(pat: Seq<char>, text: Seq<char>, at: int, i: int)
    requires
        0 <= at,
        0 <= i <= pat.len(),
        at + i <= text.len(),
    ensures
        at + i <= string_from(pat, text, at, i).end <= text.len(),
    decreases pat.len() - i,
{
    if i < pat.len() && at + i < text.len() && text[at + i] == pat[i] {
        lemma_string_from_len(pat, text, at, i + 1);
    }
}

/// Reads the characters of `string` one after the other; the value is `string`.
pub struct CharString<'a> {
    pub string: &'a str,
}

impl<'a, I: Located> Parser<I> for CharString<'a> {
    type Output = &'a str;
    type Error = ParseError;

    open spec fn spec_parse(&self, text: Seq<char>, at: int) -> Outcome<
        Seq<char>,
        ((nat, nat), Seq<Seq<char>>, Option<char>),
    > {
        string_from(self.string@, text, at, 0)
    }

    open spec fn parse_requires(&self) -> bool {
        true
    }

    proof fn lemma_parse_len(&self, text: Seq<char>, at: int) {
        lemma_string_from_len(self.string@, text, at, 0);
    }

    fn parse(&self, input: &mut I) -> (r: Result<&'a str, ParseError>) {
        let ghost a = *input;
        let ghost text = a.text();
        let ghost at = a.index() as int;
        let pat = str_chars(self.string);
        let mut i: usize = 0;
        proof {
            a.lemma_index();
            assert(a.errs() + Seq::<Seq<char>>::empty() =~= a.errs());
        }
        while i < pat.len()
            invariant
                a == *old(input),
                text == a.text(),
                at == a.index(),
                pat@ == self.string@,
                i <= pat@.len(),
                input.inv(),
                input.text() == text,
                input.depth() == a.depth(),
                input.errs() == a.errs(),
                keeps_live(a, *input),
                input.index() == at + i,
                input.index() <= text.len(),
                string_from(pat@, text, at, i as int) == string_from(pat@, text, at, 0),
            decreases pat@.len() - i,
        {
            let ghost s = *input;
            let p = char(pat[i]);
            proof {
                assert(expected(p.expect) =~= seq![seq![pat@[i as int]]]);
            }
            let r = p.parse(input);
            proof {
                lemma_keeps_live_trans(a, s, *input);
                assert(input.errs() =~= a.errs());
            }
            match r {
                Ok(_) => {},
                Err(e) => {
                    return Err(e);
                },
            }
            i = i + 1;
        }
        Ok(self.string)
    }
}

/// Reads the characters of `s`.
pub fn string<'a>(s: &'a str) -> (r: CharString<'a>)
    ensures
        r == (CharString { string: s }),
{
    CharString { string: s }
}

/// What `eof` does on `text` from `at`: success at the end; elsewhere it
/// reads the next character and reports that `<eof>` was expected.
pub open spec fn eof_at(text: Seq<char>, at: int) -> Outcome<(), ((nat, nat), Seq<Seq<char>>, Option<char>)> {
    if 0 <= at < text.len() {
        Outcome { result: Err((position_at(text, at), seq!["<eof>"@], Some(text[at]))), end: at + 1, errs: Seq::empty() }
    } else {
        Outcome { result: Ok(()), end: at, errs: Seq::empty() }
    }
}

/// Succeeds at the end of the input.
pub struct Eof;

impl<I: Located> Parser<I> for Eof {
    type Output = ();
    type Error = ParseError;

    open spec fn spec_parse(&self, text: Seq<char>, at: int) -> Outcome<(), ((nat, nat), Seq<Seq<char>>, Option<char>)> {
        eof_at(text, at)
    }

    open spec fn parse_requires(&self) -> bool {
        true
    }

    proof fn lemma_parse_len(&self, text: Seq<char>, at: int) {
    }

    fn parse(&self, input: &mut I) -> (r: Result<(), ParseError>) {
        proof {
            input.lemma_index();
            assert(input.errs() + Seq::<Seq<char>>::empty() =~= input.errs());
        }
        let pos = input.position();
        match input.next() {
            None => Ok(()),
            Some(t) => {
                let mut expect: Vec<String> = Vec::new();
                expect.push(String::from_str("<eof>"));
                proof {
                    assert(expect.deep_view() =~= seq!["<eof>"@]);
                }
                Err(ParseError { pos, expect, unexpect: Some(t) })
            },
        }
    }
}

/// A parser that succeeds at the end of the input.
pub fn eof() -> (r: Eof)
    ensures
        r == Eof,
{
    Eof
}

} // verus!
