//! The parsers that the methods of [`crate::traits::Parser`] build.
use vstd::prelude::*;

use crate::parser::Mapper;
use crate::traits::{keeps_live, Input, Outcome, Parser};

verus! {

/// Running two parsers one after the other keeps every open cursor open.
pub proof fn lemma_keeps_live_trans<I: Input>(a: I, b: I, c: I)
    requires
        keeps_live(a, b),
        keeps_live(b, c),
    ensures
        keeps_live(a, c),
{
}

/// `o1` followed by `o2`: the second's result and end, and the messages of both.
pub open spec fn then_outcome<V1, E1, V, E>(o1: Outcome<V1, E1>, o2: Outcome<V, E>) -> Outcome<V, E> {
    Outcome { result: o2.result, end: o2.end, errs: o1.errs + o2.errs }
}

/// `o` failed: its error, end and messages, as an outcome of another value type.
pub open spec fn failed<V1, V, E>(o: Outcome<V1, E>) -> Outcome<V, E>
    recommends
        o.result is Err,
{
    Outcome { result: Err(o.result->Err_0), end: o.end, errs: o.errs }
}

/// Applies `f` to the value that `parser` parses.
pub struct Mapped<P, F> {
    pub parser: P,
    pub f: F,
}

impl<I: Input, P: Parser<I>, F: Mapper<P::Output>> Parser<I> for Mapped<P, F> {
    type Output = F::Out;
    type Error = P::Error;

    open spec fn spec_parse(&self, text: Seq<char>, at: int) -> Outcome<
        <F::Out as DeepView>::V,
        <P::Error as DeepView>::V,
    > {
        let o = self.parser.spec_parse(text, at);
        Outcome {
            result: match o.result {
                Ok(v) => Ok(self.f.spec_apply(v)),
                Err(e) => Err(e),
            },
            end: o.end,
            errs: o.errs,
        }
    }

    open spec fn parse_requires(&self) -> bool {
        self.parser.parse_requires()
    }

    proof fn lemma_parse_len(&self, text: Seq<char>, at: int) {
        self.parser.lemma_parse_len(text, at);
    }

    fn parse(&self, input: &mut I) -> (r: Result<F::Out, P::Error>) {
        match self.parser.parse(input) {
            Ok(v) => Ok(self.f.apply(v)),
            Err(e) => Err(e),
        }
    }
}

/// Applies `f` to the error that `parser` raises.
pub struct MapErr<P, F> {
    pub parser: P,
    pub f: F,
}

impl<I: Input, P: Parser<I>, F: Mapper<P::Error>> Parser<I> for MapErr<P, F> {
    type Output = P::Output;
    type Error = F::Out;

    open spec fn spec_parse(&self, text: Seq<char>, at: int) -> Outcome<
        <P::Output as DeepView>::V,
        <F::Out as DeepView>::V,
    > {
        let o = self.parser.spec_parse(text, at);
        Outcome {
            result: match o.result {
                Ok(v) => Ok(v),
                Err(e) => Err(self.f.spec_apply(e)),
            },
            end: o.end,
            errs: o.errs,
        }
    }

    open spec fn parse_requires(&self) -> bool {
        self.parser.parse_requires()
    }

    proof fn lemma_parse_len(&self, text: Seq<char>, at: int) {
        self.parser.lemma_parse_len(text, at);
    }

    fn parse(&self, input: &mut I) -> (r: Result<P::Output, F::Out>) {
        match self.parser.parse(input) {
            Ok(v) => Ok(v),
            Err(e) => Err(self.f.apply(e)),
        }
    }
}

/// The parser that `f` builds from a value whose deep view is `v`.
pub open spec fn then_parser<A: DeepView, R, F: Fn(A) -> R>(f: F, v: A::V) -> R {
    (choose|x: (A, R)| x.0.deep_view() == v && #[trigger] call_ensures(f, (x.0,), x.1)).1
}

/// `f` can be called on every value, and builds, from values with one deep
/// view, one parser, that can run.
pub open spec fn then_fn_ok<I: Input, A: DeepView, R: Parser<I>, F: Fn(A) -> R>(f: F) -> bool {
    &&& forall|a: A| #[trigger] call_requires(f, (a,))
    &&& forall|a: A, q: R| #[trigger] call_ensures(f, (a,), q) ==> q == then_parser::<A, R, F>(f, a.deep_view())
        && q.parse_requires()
}

/// Runs `parser`, then the parser that `f` builds from its value.
pub struct AndThen<P, F> {
    pub parser: P,
    pub f: F,
}

impl<I: Input, P: Parser<I>, R: Parser<I, Error = P::Error>, F: Fn(P::Output) -> R> Parser<I> for AndThen<P, F> {
    type Output = R::Output;
    type Error = P::Error;

    open spec fn spec_parse(&self, text: Seq<char>, at: int) -> Outcome<
        <R::Output as DeepView>::V,
        <P::Error as DeepView>::V,
    > {
        let o1 = self.parser.spec_parse(text, at);
        match o1.result {
            Ok(v) => then_outcome(o1, then_parser::<P::Output, R, F>(self.f, v).spec_parse(text, o1.end)),
            Err(e) => failed(o1),
        }
    }

    open spec fn parse_requires(&self) -> bool {
        self.parser.parse_requires() && then_fn_ok::<I, P::Output, R, F>(self.f)
    }

    proof fn lemma_parse_len(&self, text: Seq<char>, at: int) {
        self.parser.lemma_parse_len(text, at);
        let o1 = self.parser.spec_parse(text, at);
        if let Ok(v) = o1.result {
            then_parser::<P::Output, R, F>(self.f, v).lemma_parse_len(text, o1.end);
        }
    }

    fn parse(&self, input: &mut I) -> (r: Result<R::Output, P::Error>) {
        let ghost a = *input;
        match self.parser.parse(input) {
            Ok(v) => {
                let ghost b = *input;
                let next = (self.f)(v);
                let r = next.parse(input);
                proof {
                    lemma_keeps_live_trans(a, b, *input);
                    assert(input.errs() =~= a.errs() + (self.parser.spec_parse(a.text(), a.index() as int).errs
                        + next.spec_parse(b.text(), b.index() as int).errs));
                }
                r
            },
            Err(e) => Err(e),
        }
    }
}

/// Runs `aparser`, then `bparser`, keeping the value of `bparser`.
pub struct And<A, B> {
    pub aparser: A,
    pub bparser: B,
}

impl<I: Input, A: Parser<I>, B: Parser<I, Error = A::Error>> Parser<I> for And<A, B> {
    type Output = B::Output;
    type Error = A::Error;

    open spec fn spec_parse(&self, text: Seq<char>, at: int) -> Outcome<
        <B::Output as DeepView>::V,
        <A::Error as DeepView>::V,
    > {
        let o1 = self.aparser.spec_parse(text, at);
        match o1.result {
            Ok(_) => then_outcome(o1, self.bparser.spec_parse(text, o1.end)),
            Err(e) => failed(o1),
        }
    }

    open spec fn parse_requires(&self) -> bool {
        self.aparser.parse_requires() && self.bparser.parse_requires()
    }

    proof fn lemma_parse_len(&self, text: Seq<char>, at: int) {
        self.aparser.lemma_parse_len(text, at);
        let o1 = self.aparser.spec_parse(text, at);
        if o1.result is Ok {
            self.bparser.lemma_parse_len(text, o1.end);
        }
    }

    fn parse(&self, input: &mut I) -> (r: Result<B::Output, A::Error>) {
        let ghost a = *input;
        match self.aparser.parse(input) {
            Ok(_) => {
                let ghost b = *input;
                let r = self.bparser.parse(input);
                proof {
                    lemma_keeps_live_trans(a, b, *input);
                    assert(input.errs() =~= a.errs() + (self.aparser.spec_parse(a.text(), a.index() as int).errs
                        + self.bparser.spec_parse(b.text(), b.index() as int).errs));
                }
                r
            },
            Err(e) => Err(e),
        }
    }
}

/// Runs `aparser`, and where it fails, `bparser` from where it stopped.
pub struct Or<A, B> {
    pub aparser: A,
    pub bparser: B,
}

impl<I: Input, A: Parser<I>, B: Parser<I, Output = A::Output>> Parser<I> for Or<A, B> {
    type Output = A::Output;
    type Error = B::Error;

    open spec fn spec_parse(&self, text: Seq<char>, at: int) -> Outcome<
        <A::Output as DeepView>::V,
        <B::Error as DeepView>::V,
    > {
        let o1 = self.aparser.spec_parse(text, at);
        match o1.result {
            Ok(v) => Outcome { result: Ok(v), end: o1.end, errs: o1.errs },
            Err(_) => then_outcome(o1, self.bparser.spec_parse(text, o1.end)),
        }
    }

    open spec fn parse_requires(&self) -> bool {
        self.aparser.parse_requires() && self.bparser.parse_requires()
    }

    proof fn lemma_parse_len(&self, text: Seq<char>, at: int) {
        self.aparser.lemma_parse_len(text, at);
        let o1 = self.aparser.spec_parse(text, at);
        if o1.result is Err {
            self.bparser.lemma_parse_len(text, o1.end);
        }
    }

    fn parse(&self, input: &mut I) -> (r: Result<A::Output, B::Error>) {
        let ghost a = *input;
        match self.aparser.parse(input) {
            Ok(v) => Ok(v),
            Err(_) => {
                let ghost b = *input;
                let r = self.bparser.parse(input);
                proof {
                    lemma_keeps_live_trans(a, b, *input);
                    assert(input.errs() =~= a.errs() + (self.aparser.spec_parse(a.text(), a.index() as int).errs
                        + self.bparser.spec_parse(b.text(), b.index() as int).errs));
                }
                r
            },
        }
    }
}

/// Where `parser` fails, reports `msg` and succeeds with `None`.
pub struct Expect<P> {
    pub parser: P,
    pub msg: String,
}

impl<I: Input, P: Parser<I>> Parser<I> for Expect<P> {
    type Output = Option<P::Output>;
    type Error = P::Error;

    open spec fn spec_parse(&self, text: Seq<char>, at: int) -> Outcome<
        Option<<P::Output as DeepView>::V>,
        <P::Error as DeepView>::V,
    > {
        let o = self.parser.spec_parse(text, at);
        match o.result {
            Ok(v) => Outcome { result: Ok(Some(v)), end: o.end, errs: o.errs },
            Err(_) => Outcome { result: Ok(None), end: o.end, errs: o.errs.push(self.msg@) },
        }
    }

    open spec fn parse_requires(&self) -> bool {
        self.parser.parse_requires()
    }

    proof fn lemma_parse_len(&self, text: Seq<char>, at: int) {
        self.parser.lemma_parse_len(text, at);
    }

    fn parse(&self, input: &mut I) -> (r: Result<Option<P::Output>, P::Error>) {
        let ghost a = *input;
        match self.parser.parse(input) {
            Ok(v) => Ok(Some(v)),
            Err(_) => {
                let msg = self.msg.clone();
                input.report_err(msg);
                proof {
                    assert(input.errs() =~= a.errs() + self.parser.spec_parse(a.text(), a.index() as int).errs.push(
                        self.msg@,
                    ));
                }
                Ok(None)
            },
        }
    }
}

} // verus!
