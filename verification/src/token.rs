//! Parsers that skip the white space in front of what they accept.
use vstd::prelude::*;

use crate::char::{char, Sat};
use crate::combinator::{Opt, SepBy, TakeWhile, Recognize};
use crate::parser::{agrees, Andl, Andr, ParseResult, Parser};
use crate::pred::CharClass;
use crate::tuple::Choice;

verus! {

/// A parser preceded by white space.
pub type Token<P> = Andr<TakeWhile<CharClass>, P>;

/// `parser`, after any Unicode white space.
pub open spec fn tokenized<P>(parser: P) -> Token<P> {
    Andr { first: TakeWhile { f: CharClass::Space, at_least_one: false }, second: parser }
}

/// A parser that skips any Unicode white space, then applies `parser`.
pub fn token<P>(parser: P) -> (r: Token<P>)
    ensures
        r == tokenized(parser),
{
    Andr { first: TakeWhile { f: CharClass::Space, at_least_one: false }, second: parser }
}

/// `parser` between the tokens `open` and `close`.
pub type Delimited<P> = Andr<Token<Sat<CharClass>>, Andl<P, Token<Sat<CharClass>>>>;

/// `parser` between the tokens `open` and `close`.
pub open spec fn delimited<P>(open: char, parser: P, close: char) -> Delimited<P> {
    Andr {
        first: tokenized(Sat { pred: CharClass::Is(open) }),
        second: Andl { first: parser, second: tokenized(Sat { pred: CharClass::Is(close) }) },
    }
}

fn delimit<P>(open: char, parser: P, close: char) -> (r: Delimited<P>)
    ensures
        r == delimited(open, parser, close),
{
    Andr { first: token(char(open)), second: Andl { first: parser, second: token(char(close)) } }
}

/// A parser that applies `parser` between the tokens `(` and `)`.
pub fn parens<P>(parser: P) -> (r: Delimited<P>)
    ensures
        r == delimited('(', parser, ')'),
{
    delimit('(', parser, ')')
}

/// A parser that applies `parser` between the tokens `{` and `}`.
pub fn braces<P>(parser: P) -> (r: Delimited<P>)
    ensures
        r == delimited('{', parser, '}'),
{
    delimit('{', parser, '}')
}

/// A parser that applies `parser` between the tokens `<` and `>`.
pub fn angles<P>(parser: P) -> (r: Delimited<P>)
    ensures
        r == delimited('<', parser, '>'),
{
    delimit('<', parser, '>')
}

/// A parser that applies `parser` between the tokens `[` and `]`.
pub fn brackets<P>(parser: P) -> (r: Delimited<P>)
    ensures
        r == delimited('[', parser, ']'),
{
    delimit('[', parser, ']')
}

/// `parser` repeated and separated by the token `sep`.
pub open spec fn separated<P>(parser: P, sep: char, at_least_one: bool) -> SepBy<P, Token<Sat<CharClass>>> {
    SepBy { parser, sep: tokenized(Sat { pred: CharClass::Is(sep) }), at_least_one }
}

/// A parser that applies `parser` zero or more times, separated by the token `,`.
pub fn comma_sep<P>(parser: P) -> (r: SepBy<P, Token<Sat<CharClass>>>)
    ensures
        r == separated(parser, ',', false),
{
    SepBy { parser, sep: token(char(',')), at_least_one: false }
}

/// A parser that applies `parser` one or more times, separated by the token `,`.
pub fn comma_sep1<P>(parser: P) -> (r: SepBy<P, Token<Sat<CharClass>>>)
    ensures
        r == separated(parser, ',', true),
{
    SepBy { parser, sep: token(char(',')), at_least_one: true }
}

/// A parser that applies `parser` zero or more times, separated by the token `;`.
pub fn semi_sep<P>(parser: P) -> (r: SepBy<P, Token<Sat<CharClass>>>)
    ensures
        r == separated(parser, ';', false),
{
    SepBy { parser, sep: token(char(';')), at_least_one: false }
}

/// A parser that applies `parser` one or more times, separated by the token `;`.
pub fn semi_sep1<P>(parser: P) -> (r: SepBy<P, Token<Sat<CharClass>>>)
    ensures
        r == separated(parser, ';', true),
{
    SepBy { parser, sep: token(char(';')), at_least_one: true }
}

/// The parser of a number: an optional `-`, digits, an optional fraction and
/// an optional exponent.
pub type NumberParser = Token<
    Recognize<
        (
            Opt<Sat<CharClass>>,
            TakeWhile<CharClass>,
            Opt<(Sat<CharClass>, TakeWhile<CharClass>)>,
            Opt<(Choice<(Sat<CharClass>, Sat<CharClass>)>, Opt<Choice<(Sat<CharClass>, Sat<CharClass>)>>, TakeWhile<CharClass>)>,
        ),
    >,
>;

/// The grammar of numbers: `-?[0-9]+(\.[0-9]+)?([eE][+-]?[0-9]+)?`, after white space.
pub open spec fn number_grammar() -> NumberParser {
    let digits = TakeWhile { f: CharClass::AsciiDigit, at_least_one: true };
    let exponent = (
        Choice { list: (Sat { pred: CharClass::Is('e') }, Sat { pred: CharClass::Is('E') }) },
        Opt { parser: Choice { list: (Sat { pred: CharClass::Is('+') }, Sat { pred: CharClass::Is('-') }) } },
        digits,
    );
    let fraction = (Sat { pred: CharClass::Is('.') }, digits);
    tokenized(Recognize {
        parser: (Opt { parser: Sat { pred: CharClass::Is('-') } }, digits, Opt { parser: fraction }, Opt { parser: exponent }),
    })
}

/// Accepts a number after white space; the value is the text of the number.
pub fn number<'a>(input: &'a [char]) -> (r: ParseResult<&'a [char], &'a [char]>)
    ensures
        agrees(number_grammar().spec_parse(input@), input@, r),
{
    let digits = TakeWhile { f: CharClass::AsciiDigit, at_least_one: true };
    let exponent = (
        Choice { list: (char('e'), char('E')) },
        Opt { parser: Choice { list: (char('+'), char('-')) } },
        TakeWhile { f: CharClass::AsciiDigit, at_least_one: true },
    );
    let fraction = (char('.'), TakeWhile { f: CharClass::AsciiDigit, at_least_one: true });
    let p = token(Recognize {
        parser: (Opt { parser: char('-') }, digits, Opt { parser: fraction }, Opt { parser: exponent }),
    });
    assert(p == number_grammar());
    p.parse(input)
}

} // verus!
