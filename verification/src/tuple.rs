//! Tuples of parsers: run in sequence ([`Parser`] and [`Seq`]) or tried in
//! turn ([`Alt`]).
use vstd::prelude::*;

use crate::error::ParseError;
use crate::parser::{
    agrees, consumes_within, lemma_then, rest_after, seq_spec, ParseResult, Parser, SpecResult,
};

verus! {

impl<'a> Parser<&'a [char]> for () {
    type Output = ();

    open spec fn spec_parse(&self, s: Seq<char>) -> SpecResult<()> {
        Ok(((), 0))
    }

    open spec fn parse_requires(&self) -> bool {
        true
    }

    proof fn lemma_parse_len(&self, s: Seq<char>) {
    }

    fn parse(&self, input: &'a [char]) -> (r: ParseResult<(), &'a [char]>) {
        proof {
            assert(input@.skip(0) =~= input@);
        }
        Ok(((), input))
    }
}

impl<'a, P: Parser<&'a [char]>> Parser<&'a [char]> for (P,) {
    type Output = P::Output;

    open spec fn spec_parse(&self, s: Seq<char>) -> SpecResult<<P::Output as DeepView>::V> {
        self.0.spec_parse(s)
    }

    open spec fn parse_requires(&self) -> bool {
        self.0.parse_requires()
    }

    proof fn lemma_parse_len(&self, s: Seq<char>) {
        self.0.lemma_parse_len(s);
    }

    fn parse(&self, input: &'a [char]) -> (r: ParseResult<P::Output, &'a [char]>) {
        self.0.parse(input)
    }
}

impl<'a, A: Parser<&'a [char]>, B: Parser<&'a [char]>> Parser<&'a [char]> for (A, B) {
    type Output = (A::Output, B::Output);

    open spec fn spec_parse(&self, s: Seq<char>) -> SpecResult<
        (<A::Output as DeepView>::V, <B::Output as DeepView>::V),
    > {
        let r1 = self.0.spec_parse(s);
        seq_spec(r1, self.1.spec_parse(rest_after(r1, s)))
    }

    open spec fn parse_requires(&self) -> bool {
        self.0.parse_requires() && self.1.parse_requires()
    }

    proof fn lemma_parse_len(&self, s: Seq<char>) {
        self.0.lemma_parse_len(s);
        self.1.lemma_parse_len(rest_after(self.0.spec_parse(s), s));
        lemma_then(s, self.0.spec_parse(s), self.1.spec_parse(rest_after(self.0.spec_parse(s), s)));
    }

    fn parse(&self, input: &'a [char]) -> (r: ParseResult<(A::Output, B::Output), &'a [char]>) {
        proof {
            self.0.lemma_parse_len(input@);
        }
        let (o1, i) = self.0.parse(input)?;
        proof {
            self.1.lemma_parse_len(i@);
        }
        let (o2, i2) = self.1.parse(i)?;
        proof {
            lemma_then(input@, self.0.spec_parse(input@), self.1.spec_parse(i@));
        }
        Ok(((o1, o2), i2))
    }
}

/// What a triple of parsers does in sequence.
pub open spec fn seq3_spec<A, B, C>(
    s: Seq<char>,
    pa: spec_fn(Seq<char>) -> SpecResult<A>,
    pb: spec_fn(Seq<char>) -> SpecResult<B>,
    pc: spec_fn(Seq<char>) -> SpecResult<C>,
) -> SpecResult<(A, B, C)> {
    let r1 = pa(s);
    let r2 = pb(rest_after(r1, s));
    let r12 = seq_spec(r1, r2);
    let r3 = pc(rest_after(r12, s));
    match seq_spec(r12, r3) {
        Ok((((a, b), c), n)) => Ok(((a, b, c), n)),
        Err(e) => Err(e),
    }
}

impl<'a, A: Parser<&'a [char]>, B: Parser<&'a [char]>, C: Parser<&'a [char]>> Parser<&'a [char]> for (A, B, C) {
    type Output = (A::Output, B::Output, C::Output);

    open spec fn spec_parse(&self, s: Seq<char>) -> SpecResult<
        (<A::Output as DeepView>::V, <B::Output as DeepView>::V, <C::Output as DeepView>::V),
    > {
        seq3_spec(
            s,
            |x: Seq<char>| self.0.spec_parse(x),
            |x: Seq<char>| self.1.spec_parse(x),
            |x: Seq<char>| self.2.spec_parse(x),
        )
    }

    open spec fn parse_requires(&self) -> bool {
        self.0.parse_requires() && self.1.parse_requires() && self.2.parse_requires()
    }

    proof fn lemma_parse_len(&self, s: Seq<char>) {
        let r1 = self.0.spec_parse(s);
        let r2 = self.1.spec_parse(rest_after(r1, s));
        let r12 = seq_spec(r1, r2);
        self.0.lemma_parse_len(s);
        self.1.lemma_parse_len(rest_after(r1, s));
        lemma_then(s, r1, r2);
        self.2.lemma_parse_len(rest_after(r12, s));
        lemma_then(s, r12, self.2.spec_parse(rest_after(r12, s)));
    }

    fn parse(&self, input: &'a [char]) -> (r: ParseResult<(A::Output, B::Output, C::Output), &'a [char]>) {
        let ghost s = input@;
        let ghost r1 = self.0.spec_parse(s);
        proof {
            self.0.lemma_parse_len(s);
        }
        let (o1, i1) = self.0.parse(input)?;
        proof {
            self.1.lemma_parse_len(i1@);
        }
        let (o2, i2) = self.1.parse(i1)?;
        let ghost r12 = seq_spec(r1, self.1.spec_parse(i1@));
        proof {
            lemma_then(s, r1, self.1.spec_parse(i1@));
            self.2.lemma_parse_len(i2@);
        }
        let (o3, i3) = self.2.parse(i2)?;
        proof {
            lemma_then(s, r12, self.2.spec_parse(i2@));
        }
        Ok(((o1, o2, o3), i3))
    }
}

impl<'a, A: Parser<&'a [char]>, B: Parser<&'a [char]>, C: Parser<&'a [char]>, D: Parser<&'a [char]>> Parser<&'a [char]> for (A, B, C, D) {
    type Output = (A::Output, B::Output, C::Output, D::Output);

    open spec fn spec_parse(&self, s: Seq<char>) -> SpecResult<
        (
            <A::Output as DeepView>::V,
            <B::Output as DeepView>::V,
            <C::Output as DeepView>::V,
            <D::Output as DeepView>::V,
        ),
    > {
        let r3 = seq3_spec(
            s,
            |x: Seq<char>| self.0.spec_parse(x),
            |x: Seq<char>| self.1.spec_parse(x),
            |x: Seq<char>| self.2.spec_parse(x),
        );
        let r4 = self.3.spec_parse(rest_after(r3, s));
        match seq_spec(r3, r4) {
            Ok((((a, b, c), d), n)) => Ok(((a, b, c, d), n)),
            Err(e) => Err(e),
        }
    }

    open spec fn parse_requires(&self) -> bool {
        self.0.parse_requires() && self.1.parse_requires() && self.2.parse_requires()
            && self.3.parse_requires()
    }

    proof fn lemma_parse_len(&self, s: Seq<char>) {
        let t = (self.0, self.1, self.2);
        t.lemma_parse_len(s);
        let r3 = t.spec_parse(s);
        self.3.lemma_parse_len(rest_after(r3, s));
        lemma_then(s, r3, self.3.spec_parse(rest_after(r3, s)));
    }

    fn parse(&self, input: &'a [char]) -> (r: ParseResult<(A::Output, B::Output, C::Output, D::Output), &'a [char]>) {
        let ghost s = input@;
        let ghost r1 = self.0.spec_parse(s);
        proof {
            self.0.lemma_parse_len(s);
        }
        let (o1, i1) = self.0.parse(input)?;
        proof {
            self.1.lemma_parse_len(i1@);
        }
        let (o2, i2) = self.1.parse(i1)?;
        let ghost r12 = seq_spec(r1, self.1.spec_parse(i1@));
        proof {
            lemma_then(s, r1, self.1.spec_parse(i1@));
            self.2.lemma_parse_len(i2@);
        }
        let (o3, i3) = self.2.parse(i2)?;
        let ghost r123 = seq_spec(r12, self.2.spec_parse(i2@));
        proof {
            lemma_then(s, r12, self.2.spec_parse(i2@));
            self.3.lemma_parse_len(i3@);
        }
        let (o4, i4) = self.3.parse(i3)?;
        proof {
            lemma_then(s, r123, self.3.spec_parse(i3@));
        }
        Ok(((o1, o2, o3, o4), i4))
    }
}

/// A tuple of parsers of one kind of value, tried in turn on the same input.
pub trait Alt<I: View<V = Seq<char>>> {
    type Output: DeepView;

    spec fn spec_choice(&self, s: Seq<char>) -> SpecResult<<Self::Output as DeepView>::V>;

    spec fn choice_requires(&self) -> bool;

    proof fn lemma_choice_len(&self, s: Seq<char>)
        ensures
            consumes_within(self.spec_choice(s), s),
    ;

    /// The value of the first parser that succeeds; where all fail, the error of the last.
    fn choice(&self, input: I) -> (r: ParseResult<Self::Output, I>)
        requires
            self.choice_requires(),
        ensures
            agrees(self.spec_choice(input@), input@, r),
    ;
}

impl<'a, A: Parser<&'a [char]>, B: Parser<&'a [char], Output = A::Output>> Alt<&'a [char]> for (A, B) {
    type Output = A::Output;

    open spec fn spec_choice(&self, s: Seq<char>) -> SpecResult<<A::Output as DeepView>::V> {
        match self.0.spec_parse(s) {
            Ok(t) => Ok(t),
            Err(_) => self.1.spec_parse(s),
        }
    }

    open spec fn choice_requires(&self) -> bool {
        self.0.parse_requires() && self.1.parse_requires()
    }

    proof fn lemma_choice_len(&self, s: Seq<char>) {
        self.0.lemma_parse_len(s);
        self.1.lemma_parse_len(s);
    }

    fn choice(&self, input: &'a [char]) -> (r: ParseResult<A::Output, &'a [char]>) {
        match self.0.parse(input) {
            Ok(t) => Ok(t),
            Err(e1) => match self.1.parse(input) {
                Ok(t) => Ok(t),
                Err(e2) => Err(e1.merge(e2)),
            },
        }
    }
}

impl<'a, A: Parser<&'a [char]>, B: Parser<&'a [char], Output = A::Output>, C: Parser<&'a [char], Output = A::Output>> Alt<&'a [char]> for (A, B, C) {
    type Output = A::Output;

    open spec fn spec_choice(&self, s: Seq<char>) -> SpecResult<<A::Output as DeepView>::V> {
        match self.0.spec_parse(s) {
            Ok(t) => Ok(t),
            Err(_) => match self.1.spec_parse(s) {
                Ok(t) => Ok(t),
                Err(_) => self.2.spec_parse(s),
            },
        }
    }

    open spec fn choice_requires(&self) -> bool {
        self.0.parse_requires() && self.1.parse_requires() && self.2.parse_requires()
    }

    proof fn lemma_choice_len(&self, s: Seq<char>) {
        self.0.lemma_parse_len(s);
        self.1.lemma_parse_len(s);
        self.2.lemma_parse_len(s);
    }

    fn choice(&self, input: &'a [char]) -> (r: ParseResult<A::Output, &'a [char]>) {
        match self.0.parse(input) {
            Ok(t) => Ok(t),
            Err(e1) => match self.1.parse(input) {
                Ok(t) => Ok(t),
                Err(e2) => {
                    let e = e1.merge(e2);
                    match self.2.parse(input) {
                        Ok(t) => Ok(t),
                        Err(e3) => Err(e.merge(e3)),
                    }
                },
            },
        }
    }
}

/// A tuple of parsers run in sequence, keeping all their values.
pub trait Sequence<I: View<V = Seq<char>>> {
    type Output: DeepView;

    spec fn spec_sequence(&self, s: Seq<char>) -> SpecResult<<Self::Output as DeepView>::V>;

    spec fn sequence_requires(&self) -> bool;

    proof fn lemma_sequence_len(&self, s: Seq<char>)
        ensures
            consumes_within(self.spec_sequence(s), s),
    ;

    fn parse_sequence(&self, input: I) -> (r: ParseResult<Self::Output, I>)
        requires
            self.sequence_requires(),
        ensures
            agrees(self.spec_sequence(input@), input@, r),
    ;
}

impl<'a, A: Parser<&'a [char]>, B: Parser<&'a [char]>> Sequence<&'a [char]> for (A, B) {
    type Output = (A::Output, B::Output);

    open spec fn spec_sequence(&self, s: Seq<char>) -> SpecResult<<Self::Output as DeepView>::V> {
        self.spec_parse(s)
    }

    open spec fn sequence_requires(&self) -> bool {
        self.parse_requires()
    }

    proof fn lemma_sequence_len(&self, s: Seq<char>) {
        self.lemma_parse_len(s);
    }

    fn parse_sequence(&self, input: &'a [char]) -> (r: ParseResult<Self::Output, &'a [char]>) {
        self.parse(input)
    }
}

impl<'a, A: Parser<&'a [char]>, B: Parser<&'a [char]>, C: Parser<&'a [char]>> Sequence<&'a [char]> for (A, B, C) {
    type Output = (A::Output, B::Output, C::Output);

    open spec fn spec_sequence(&self, s: Seq<char>) -> SpecResult<<Self::Output as DeepView>::V> {
        self.spec_parse(s)
    }

    open spec fn sequence_requires(&self) -> bool {
        self.parse_requires()
    }

    proof fn lemma_sequence_len(&self, s: Seq<char>) {
        self.lemma_parse_len(s);
    }

    fn parse_sequence(&self, input: &'a [char]) -> (r: ParseResult<Self::Output, &'a [char]>) {
        self.parse(input)
    }
}

/// Runs the tuple `list` as an alternation: see [`Alt`].
pub struct Choice<L> {
    pub list: L,
}

impl<'a, L: Alt<&'a [char]>> Parser<&'a [char]> for Choice<L> {
    type Output = L::Output;

    open spec fn spec_parse(&self, s: Seq<char>) -> SpecResult<<L::Output as DeepView>::V> {
        self.list.spec_choice(s)
    }

    open spec fn parse_requires(&self) -> bool {
        self.list.choice_requires()
    }

    proof fn lemma_parse_len(&self, s: Seq<char>) {
        self.list.lemma_choice_len(s);
    }

    fn parse(&self, input: &'a [char]) -> (r: ParseResult<L::Output, &'a [char]>) {
        self.list.choice(input)
    }
}

/// Runs the tuple `list` as a sequence: see [`Sequence`].
pub struct Sequenced<L> {
    pub list: L,
}

impl<'a, L: Sequence<&'a [char]>> Parser<&'a [char]> for Sequenced<L> {
    type Output = <L as Sequence<&'a [char]>>::Output;

    open spec fn spec_parse(&self, s: Seq<char>) -> SpecResult<<Self::Output as DeepView>::V> {
        self.list.spec_sequence(s)
    }

    open spec fn parse_requires(&self) -> bool {
        self.list.sequence_requires()
    }

    proof fn lemma_parse_len(&self, s: Seq<char>) {
        self.list.lemma_sequence_len(s);
    }

    fn parse(&self, input: &'a [char]) -> (r: ParseResult<Self::Output, &'a [char]>) {
        self.list.parse_sequence(input)
    }
}

} // verus!
