//! Combinators built on repetition that stops at the first failure.
use vstd::prelude::*;

use crate::char::Sat;
use crate::combinator::{
    lemma_many_rec_len, lemma_prepend_empty, lemma_push_deep_view, many_rec, prepend,
    Cond, Count, Many, Not, Opt, Peek, Recognize,
};
use crate::parser::{
    lemma_skip_skip, productive, And, Andl, Andr, Ignore, ParseResult, Parser, RefMut, SpecResult,
};
use crate::pred::CharClass;

verus! {

/// A parser that tries `parser` and succeeds with `None` where it fails.
pub fn opt<P>(parser: P) -> (r: Opt<P>)
    ensures
        r == (Opt { parser }),
{
    Opt { parser }
}

/// A parser that applies `left`, `middle` and `right` in turn, keeping the value of `middle`.
pub fn between<L, M, R>(left: L, middle: M, right: R) -> (r: Andr<L, Andl<M, R>>)
    ensures
        r == (Andr { first: left, second: Andl { first: middle, second: right } }),
{
    Andr { first: left, second: Andl { first: middle, second: right } }
}

/// A parser that applies `left`, `middle` and `right` in turn, keeping the values of `left` and `right`.
pub fn pair<L, M, R>(left: L, middle: M, right: R) -> (r: And<L, Andr<M, R>>)
    ensures
        r == (And { first: left, second: Andr { first: middle, second: right } }),
{
    And { first: left, second: Andr { first: middle, second: right } }
}

/// A parser that applies `parser` zero or more times.
pub fn many<P>(parser: P) -> (r: Many<P>)
    ensures
        r == (Many { parser, at_least_one: false }),
{
    Many { parser, at_least_one: false }
}

/// A parser that applies `parser` one or more times.
pub fn many1<P>(parser: P) -> (r: Many<P>)
    ensures
        r == (Many { parser, at_least_one: true }),
{
    Many { parser, at_least_one: true }
}

/// `parser`, where `pred` fails.
pub type Unless<P, B> = Andr<Not<B>, P>;

/// A parser that applies `parser` while `pred` fails, stopping also where
/// `parser` fails.
pub fn many_till<A, B>(parser: A, pred: B) -> (r: Many<Unless<A, B>>)
    ensures
        r == (Many { parser: Andr { first: Not { parser: pred }, second: parser }, at_least_one: false }),
{
    Many { parser: Andr { first: Not { parser: pred }, second: parser }, at_least_one: false }
}

/// As [`many_till`], where the first application must succeed.
pub fn many_till1<A, B>(parser: A, pred: B) -> (r: Many<Unless<A, B>>)
    ensures
        r == (Many { parser: Andr { first: Not { parser: pred }, second: parser }, at_least_one: true }),
{
    Many { parser: Andr { first: Not { parser: pred }, second: parser }, at_least_one: true }
}

/// A parser that applies `parser` exactly `n` times.
pub fn count<P>(parser: P, n: usize) -> (r: Count<P>)
    ensures
        r == (Count { parser, n }),
{
    Count { parser, n }
}

/// A parser that applies `parser` zero or more times and drops the values.
pub fn skip_many<P>(parser: P) -> (r: Ignore<Many<P>>)
    ensures
        r == (Ignore { parser: Many { parser, at_least_one: false } }),
{
    Ignore { parser: Many { parser, at_least_one: false } }
}

/// A parser that applies `parser` one or more times and drops the values.
pub fn skip_many1<P>(parser: P) -> (r: Ignore<Many<P>>)
    ensures
        r == (Ignore { parser: Many { parser, at_least_one: true } }),
{
    Ignore { parser: Many { parser, at_least_one: true } }
}

/// As [`many_till`], dropping the values.
pub fn skip_till<A, B>(parser: A, pred: B) -> (r: Ignore<Many<Unless<A, B>>>)
    ensures
        r == (Ignore { parser: Many { parser: Andr { first: Not { parser: pred }, second: parser }, at_least_one: false } }),
{
    Ignore { parser: many_till(parser, pred) }
}

/// As [`many_till1`], dropping the values.
pub fn skip_till1<A, B>(parser: A, pred: B) -> (r: Ignore<Many<Unless<A, B>>>)
    ensures
        r == (Ignore { parser: Many { parser: Andr { first: Not { parser: pred }, second: parser }, at_least_one: true } }),
{
    Ignore { parser: many_till1(parser, pred) }
}

/// A parser that applies `parser` exactly `n` times and drops the values.
pub fn skip<P>(parser: P, n: usize) -> (r: Ignore<Count<P>>)
    ensures
        r == (Ignore { parser: Count { parser, n } }),
{
    Ignore { parser: Count { parser, n } }
}

/// `sep` then `parser`, both through references.
pub open spec fn sep_then<'b, P, S>(parser: &'b P, sep: &'b S) -> Andr<RefMut<'b, S>, RefMut<'b, P>> {
    Andr { first: RefMut { parser: sep }, second: RefMut { parser: parser } }
}

/// Applies `parser`, then `sep` followed by `parser` as long as both succeed;
/// with `at_least_one`, the first element must be there.
pub struct SepBy<P, S> {
    pub parser: P,
    pub sep: S,
    pub at_least_one: bool,
}

/// If one of two parsers in sequence makes progress, so does the sequence.
pub proof fn lemma_andr_productive<'a, A: Parser<&'a [char]>, B: Parser<&'a [char]>>(p: Andr<A, B>)
    requires
        productive(p.first) || productive(p.second),
    ensures
        productive(p),
{
    assert forall|s: Seq<char>| (#[trigger] p.spec_parse(s) matches Ok((_, n)) ==> n > 0) by {
        p.first.lemma_parse_len(s);
        if let Ok((_, n1)) = p.first.spec_parse(s) {
            p.second.lemma_parse_len(s.skip(n1));
            assert(p.first.spec_parse(s) matches Ok((_, k)) && k >= 0);
            if let Ok((_, n2)) = p.second.spec_parse(s.skip(n1)) {
                assert(n2 >= 0);
            }
        }
    }
}

impl<'a, P: Parser<&'a [char]>, S: Parser<&'a [char]>> Parser<&'a [char]> for SepBy<P, S> {
    type Output = Vec<P::Output>;

    open spec fn spec_parse(&self, s: Seq<char>) -> SpecResult<Seq<<P::Output as DeepView>::V>> {
        match self.parser.spec_parse(s) {
            Err(e) => if self.at_least_one {
                Err(e)
            } else {
                Ok((seq![], 0))
            },
            Ok((v, n)) => prepend(seq![v], n, Ok(many_rec(sep_then(&self.parser, &self.sep), s.skip(n)))),
        }
    }

    open spec fn parse_requires(&self) -> bool {
        self.parser.parse_requires() && self.sep.parse_requires() && (productive(self.parser)
            || productive(self.sep))
    }

    proof fn lemma_parse_len(&self, s: Seq<char>) {
        self.parser.lemma_parse_len(s);
        if let Ok((v, n)) = self.parser.spec_parse(s) {
            lemma_many_rec_len(sep_then(&self.parser, &self.sep), s.skip(n));
        }
    }

    fn parse(&self, input: &'a [char]) -> (r: ParseResult<Vec<P::Output>, &'a [char]>) {
        proof {
            self.parser.lemma_parse_len(input@);
        }
        let (first, rest) = match self.parser.parse(input) {
            Ok(t) => t,
            Err(e) => {
                if self.at_least_one {
                    return Err(e);
                }
                let empty: Vec<P::Output> = Vec::new();
                proof {
                    assert(empty.deep_view() =~= Seq::<<P::Output as DeepView>::V>::empty());
                    assert(input@.skip(0) =~= input@);
                }
                return Ok((empty, input));
            },
        };
        let mut values: Vec<P::Output> = Vec::new();
        values.push(first);
        proof {
            assert(values.deep_view() =~= seq![first.deep_view()]);
        }
        let step = Andr { first: RefMut { parser: &self.sep }, second: RefMut { parser: &self.parser } };
        proof {
            lemma_andr_productive(step);
            lemma_many_rec_len(step, rest@);
        }
        let end = crate::combinator::repeat_until_failure(&step, rest, &mut values);
        proof {
            let n = input@.len() - rest@.len();
            let m = many_rec(step, rest@).1;
            lemma_skip_skip(input@, n, m);
        }
        Ok((values, end))
    }
}

/// A parser that applies `parser` zero or more times, separated by `sep`.
pub fn sepby<P, S>(parser: P, sep: S) -> (r: SepBy<P, S>)
    ensures
        r == (SepBy { parser, sep, at_least_one: false }),
{
    SepBy { parser, sep, at_least_one: false }
}

/// A parser that applies `parser` one or more times, separated by `sep`.
pub fn sepby1<P, S>(parser: P, sep: S) -> (r: SepBy<P, S>)
    ensures
        r == (SepBy { parser, sep, at_least_one: true }),
{
    SepBy { parser, sep, at_least_one: true }
}

/// A parser that applies `parser` followed by `sep` zero or more times, stopping
/// where either fails.
pub fn endby<P, S>(parser: P, sep: S) -> (r: Many<Andl<P, S>>)
    ensures
        r == (Many { parser: Andl { first: parser, second: sep }, at_least_one: false }),
{
    Many { parser: Andl { first: parser, second: sep }, at_least_one: false }
}

/// As [`endby`], where the first element must be there.
pub fn endby1<P, S>(parser: P, sep: S) -> (r: Many<Andl<P, S>>)
    ensures
        r == (Many { parser: Andl { first: parser, second: sep }, at_least_one: true }),
{
    Many { parser: Andl { first: parser, second: sep }, at_least_one: true }
}

/// A parser that applies `parser` without consuming input.
pub fn peek<P>(parser: P) -> (r: Peek<P>)
    ensures
        r == (Peek { parser }),
{
    Peek { parser }
}

/// A parser whose value is the input that `parser` consumed.
pub fn recognize<P>(parser: P) -> (r: Recognize<P>)
    ensures
        r == (Recognize { parser }),
{
    Recognize { parser }
}

/// A parser that succeeds where `parser` fails.
pub fn not<P>(parser: P) -> (r: Not<P>)
    ensures
        r == (Not { parser }),
{
    Not { parser }
}

/// A parser that applies `parser` where `condition` succeeds, and yields `None` where it fails.
pub fn cond<C, P>(condition: C, parser: P) -> (r: Cond<C, P>)
    ensures
        r == (Cond { cond: condition, parser }),
{
    Cond { cond: condition, parser }
}

/// `parser` after any ASCII white space.
pub type SpacedToken<P> = Andr<Ignore<Many<Sat<CharClass>>>, P>;

/// A parser that skips any ASCII white space, then applies `parser`.
pub fn token<P>(parser: P) -> (r: SpacedToken<P>)
    ensures
        r == (Andr {
            first: Ignore { parser: Many { parser: Sat { pred: CharClass::AsciiSpace }, at_least_one: false } },
            second: parser,
        }),
{
    Andr {
        first: Ignore { parser: Many { parser: Sat { pred: CharClass::AsciiSpace }, at_least_one: false } },
        second: parser,
    }
}

/// A parser that applies `parser` as many times as the start of `range`;
/// the end of the range does not bound it.
pub fn many_range<P>(parser: P, range: core::ops::Range<usize>) -> (r: Count<P>)
    ensures
        r == (Count { parser, n: range.start }),
{
    Count { parser, n: range.start }
}

} // verus!
