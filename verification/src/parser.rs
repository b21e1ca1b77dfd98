use vstd::prelude::*;

use crate::error::{first_token, ErrorView, ParseError, SimpleError};

verus! {

/// What a parser does on an input, as a mathematical value: either the value
/// parsed (its deep view) with the number of tokens consumed, or the error.
pub type SpecResult<V> = Result<(V, int), ErrorView>;

/// The result of running a parser: the value parsed and the input left.
pub type ParseResult<O, I> = Result<(O, I), SimpleError<char>>;

/// `r`, the result of running a parser on `input`, is the one that `spec` describes.
pub open spec fn agrees<O: DeepView, I: View<V = Seq<char>>>(
    spec: SpecResult<O::V>,
    input: Seq<char>,
    r: ParseResult<O, I>,
) -> bool {
    match spec {
        Ok((v, n)) => match r {
            Ok((o, rest)) => o.deep_view() == v && 0 <= n <= input.len() && rest@ == input.skip(n),
            Err(_) => false,
        },
        Err(e) => match r {
            Ok(_) => false,
            Err(e2) => e2@ == e,
        },
    }
}

/// A parser consumes at most the input it is given.
pub open spec fn consumes_within<V>(r: SpecResult<V>, s: Seq<char>) -> bool {
    r matches Ok((_, n)) ==> 0 <= n <= s.len()
}

/// A parser that, whenever it succeeds, consumes at least one token.
pub open spec fn productive<I: View<V = Seq<char>>, P: Parser<I>>(p: P) -> bool {
    forall|s: Seq<char>| #[trigger] p.spec_parse(s) matches Ok((_, n)) ==> n > 0
}

/// A parser over the input `I`.
///
/// `spec_parse` states what the parser does on every input; `parse` runs it.
pub trait Parser<I: View<V = Seq<char>>> {
    type Output: DeepView;

    /// The outcome of the parser on the tokens `s`.
    spec fn spec_parse(&self, s: Seq<char>) -> SpecResult<<Self::Output as DeepView>::V>;

    /// What a caller must know of the parser before running it (a parser
    /// that repeats another needs that one to make progress).
    spec fn parse_requires(&self) -> bool;

    /// A parser never consumes more than its input.
    proof fn lemma_parse_len(&self, s: Seq<char>)
        ensures
            consumes_within(self.spec_parse(s), s),
    ;

    /// Runs the parser on `input`.
    fn parse(&self, input: I) -> (r: ParseResult<Self::Output, I>)
        requires
            self.parse_requires(),
        ensures
            agrees(self.spec_parse(input@), input@, r),
    ;

    /// Iterates `self` from `input` on: see [`ParseIter`].
    fn parse_iter(&self, input: I) -> (r: ParseIter<'_, Self, I>)
        where Self: Sized,
        ensures
            *r.parser == *self,
            r.input == input,
            r.error is None,
    {
        ParseIter { parser: self, input, error: None }
    }

    /// Applies `f` to the value parsed.
    fn map<F>(self, f: F) -> (r: Mapped<Self, F>)
        where Self: Sized,
        ensures
            r == (Mapped { parser: self, f }),
    {
        Mapped { parser: self, f }
    }

    /// Applies `f` to the error raised.
    fn map_err<F>(self, f: F) -> (r: MapErr<Self, F>)
        where Self: Sized,
        ensures
            r == (MapErr { parser: self, f }),
    {
        MapErr { parser: self, f }
    }

    /// Tries `self`, and `second` on the same input where `self` fails.
    fn or<P>(self, second: P) -> (r: Or<Self, P>)
        where Self: Sized,
        ensures
            r == (Or { first: self, second }),
    {
        Or { first: self, second }
    }

    /// Runs `self` then `second`, keeping the value of `self`.
    fn andl<P>(self, second: P) -> (r: Andl<Self, P>)
        where Self: Sized,
        ensures
            r == (Andl { first: self, second }),
    {
        Andl { first: self, second }
    }

    /// Runs `self` then `second`, keeping the value of `second`.
    fn andr<P>(self, second: P) -> (r: Andr<Self, P>)
        where Self: Sized,
        ensures
            r == (Andr { first: self, second }),
    {
        Andr { first: self, second }
    }

    /// Runs `self` then `second`, keeping both values.
    fn and<P>(self, second: P) -> (r: And<Self, P>)
        where Self: Sized,
        ensures
            r == (And { first: self, second }),
    {
        And { first: self, second }
    }

    /// Runs `self`, then the parser that `f` builds from its value.
    fn and_then<F>(self, f: F) -> (r: AndThen<Self, F>)
        where Self: Sized,
        ensures
            r == (AndThen { parser: self, f }),
    {
        AndThen { parser: self, f }
    }

    /// Runs `self` and drops its value.
    fn ignore(self) -> (r: Ignore<Self>)
        where Self: Sized,
        ensures
            r == (Ignore { parser: self }),
    {
        Ignore { parser: self }
    }

    /// Applies `self` one or more times separated by `op`, combining from the
    /// left; where `self` fails at once, yields `value`.
    fn chainl<P>(self, op: P, value: Self::Output) -> (r: Chainl<Self, P, Self::Output>)
        where Self: Sized,
        ensures
            r == (Chainl { parser: self, op, value: Some(value) }),
    {
        Chainl { parser: self, op, value: Some(value) }
    }

    /// Applies `self` one or more times separated by `op`, combining from the left.
    fn chainl1<P>(self, op: P) -> (r: Chainl1<Self, P, Self::Output>)
        where Self: Sized,
        ensures
            r == (Chainl { parser: self, op, value: None::<Self::Output> }),
    {
        Chainl { parser: self, op, value: None }
    }

    /// Applies `self` one or more times separated by `op`, combining from the
    /// right; where `self` fails at once, yields `value`.
    fn chainr<P>(self, op: P, value: Self::Output) -> (r: Chainr<Self, P, Self::Output>)
        where Self: Sized,
        ensures
            r == (Chainr { parser: self, op, value: Some(value) }),
    {
        Chainr { parser: self, op, value: Some(value) }
    }

    /// Applies `self` one or more times separated by `op`, combining from the right.
    fn chainr1<P>(self, op: P) -> (r: Chainr1<Self, P, Self::Output>)
        where Self: Sized,
        ensures
            r == (Chainr { parser: self, op, value: None::<Self::Output> }),
    {
        Chainr { parser: self, op, value: None }
    }

    /// Runs `self` through a reference.
    fn ref_mut(&self) -> (r: RefMut<'_, Self>)
        where Self: Sized,
        ensures
            *r.parser == *self,
    {
        RefMut { parser: self }
    }

    /// Reports a failure of `self` as an error that names `message`.
    fn expect(self, message: &str) -> (r: Expect<Self>)
        where Self: Sized,
        ensures
            r.parser == self,
            r.message@ == message@,
    {
        Expect { parser: self, message: message.to_owned() }
    }
}

/// A function applied to parsed values, with the statement of what it computes.
pub trait Mapper<A: DeepView> {
    type Out: DeepView;

    spec fn spec_apply(&self, a: A::V) -> <Self::Out as DeepView>::V;

    fn apply(&self, a: A) -> (b: Self::Out)
        ensures
            b.deep_view() == self.spec_apply(a.deep_view()),
    ;
}

/// A function applied to errors, with the statement of what it computes.
pub trait ErrMapper {
    spec fn spec_apply(&self, e: ErrorView) -> ErrorView;

    fn apply(&self, e: SimpleError<char>) -> (r: SimpleError<char>)
        ensures
            r@ == self.spec_apply(e@),
    ;
}

/// A function that builds the next parser from a parsed value.
pub trait ThenFn<A: DeepView, I: View<V = Seq<char>>> {
    type Next: Parser<I>;

    spec fn spec_apply(&self, a: A::V) -> Self::Next;

    fn apply(&self, a: A) -> (p: Self::Next)
        ensures
            p == self.spec_apply(a.deep_view()),
    ;
}

/// The outcome of running `second` after `first` succeeded with `(v, n)` on `s`.
pub open spec fn seq_spec<A, B>(
    first: SpecResult<A>,
    second: SpecResult<B>,
) -> SpecResult<(A, B)> {
    match first {
        Err(e) => Err(e),
        Ok((a, n)) => match second {
            Err(e) => Err(e),
            Ok((b, m)) => Ok(((a, b), n + m)),
        },
    }
}

/// The tokens left after a successful result, or `s` itself after a failure.
pub open spec fn rest_after<V>(r: SpecResult<V>, s: Seq<char>) -> Seq<char> {
    match r {
        Ok((_, n)) => s.skip(n),
        Err(_) => s,
    }
}


/// Skipping `n` then `m` tokens skips `n + m` tokens.
pub proof fn lemma_skip_skip(s: Seq<char>, n: int, m: int)
    requires
        0 <= n <= s.len(),
        0 <= m <= s.len() - n,
    ensures
        s.skip(n).skip(m) == s.skip(n + m),
{
    assert(s.skip(n).skip(m) =~= s.skip(n + m));
}

/// Facts about running a parser on what another one left.
pub proof fn lemma_then<A, B>(s: Seq<char>, r1: SpecResult<A>, r2: SpecResult<B>)
    requires
        consumes_within(r1, s),
        consumes_within(r2, rest_after(r1, s)),
    ensures
        consumes_within(seq_spec(r1, r2), s),
        seq_spec(r1, r2) matches Ok((_, k)) ==> s.skip(k) == rest_after(r2, rest_after(r1, s)),
{
    if let Ok((_, n)) = r1 {
        if let Ok((_, m)) = r2 {
            lemma_skip_skip(s, n, m);
        }
    }
}

/// Maps the value of `parser` through `f`.
pub struct Mapped<P, F> {
    pub parser: P,
    pub f: F,
}

impl<'a, P: Parser<&'a [char]>, F: Mapper<P::Output>> Parser<&'a [char]> for Mapped<P, F> {
    type Output = F::Out;

    open spec fn spec_parse(&self, s: Seq<char>) -> SpecResult<<F::Out as DeepView>::V> {
        match self.parser.spec_parse(s) {
            Ok((v, n)) => Ok((self.f.spec_apply(v), n)),
            Err(e) => Err(e),
        }
    }

    open spec fn parse_requires(&self) -> bool {
        self.parser.parse_requires()
    }

    proof fn lemma_parse_len(&self, s: Seq<char>) {
        self.parser.lemma_parse_len(s);
    }

    fn parse(&self, input: &'a [char]) -> (r: ParseResult<F::Out, &'a [char]>) {
        match self.parser.parse(input) {
            Ok((o, i)) => Ok((self.f.apply(o), i)),
            Err(e) => Err(e),
        }
    }
}

/// Maps the error of `parser` through `f`.
pub struct MapErr<P, F> {
    pub parser: P,
    pub f: F,
}

impl<'a, P: Parser<&'a [char]>, F: ErrMapper> Parser<&'a [char]> for MapErr<P, F> {
    type Output = P::Output;

    open spec fn spec_parse(&self, s: Seq<char>) -> SpecResult<<P::Output as DeepView>::V> {
        match self.parser.spec_parse(s) {
            Ok(t) => Ok(t),
            Err(e) => Err(self.f.spec_apply(e)),
        }
    }

    open spec fn parse_requires(&self) -> bool {
        self.parser.parse_requires()
    }

    proof fn lemma_parse_len(&self, s: Seq<char>) {
        self.parser.lemma_parse_len(s);
    }

    fn parse(&self, input: &'a [char]) -> (r: ParseResult<P::Output, &'a [char]>) {
        match self.parser.parse(input) {
            Ok(t) => Ok(t),
            Err(e) => Err(self.f.apply(e)),
        }
    }
}

/// Tries `first`, and `second` on the same input where `first` fails.
pub struct Or<A, B> {
    pub first: A,
    pub second: B,
}

impl<'a, A: Parser<&'a [char]>, B: Parser<&'a [char], Output = A::Output>> Parser<&'a [char]> for Or<A, B> {
    type Output = A::Output;

    open spec fn spec_parse(&self, s: Seq<char>) -> SpecResult<<A::Output as DeepView>::V> {
        match self.first.spec_parse(s) {
            Ok(t) => Ok(t),
            Err(_) => self.second.spec_parse(s),
        }
    }

    open spec fn parse_requires(&self) -> bool {
        self.first.parse_requires() && self.second.parse_requires()
    }

    proof fn lemma_parse_len(&self, s: Seq<char>) {
        self.first.lemma_parse_len(s);
        self.second.lemma_parse_len(s);
    }

    fn parse(&self, input: &'a [char]) -> (r: ParseResult<A::Output, &'a [char]>) {
        match self.first.parse(input) {
            Ok(t) => Ok(t),
            Err(e1) => match self.second.parse(input) {
                Ok(t) => Ok(t),
                Err(e2) => Err(e1.merge(e2)),
            },
        }
    }
}

/// Runs `first` then `second`, keeping the value of `first`.
pub struct Andl<A, B> {
    pub first: A,
    pub second: B,
}

impl<'a, A: Parser<&'a [char]>, B: Parser<&'a [char]>> Parser<&'a [char]> for Andl<A, B> {
    type Output = A::Output;

    open spec fn spec_parse(&self, s: Seq<char>) -> SpecResult<<A::Output as DeepView>::V> {
        let r1 = self.first.spec_parse(s);
        match seq_spec(r1, self.second.spec_parse(rest_after(r1, s))) {
            Ok((v, n)) => Ok((v.0, n)),
            Err(e) => Err(e),
        }
    }

    open spec fn parse_requires(&self) -> bool {
        self.first.parse_requires() && self.second.parse_requires()
    }

    proof fn lemma_parse_len(&self, s: Seq<char>) {
        self.first.lemma_parse_len(s);
        self.second.lemma_parse_len(rest_after(self.first.spec_parse(s), s));
    }

    fn parse(&self, input: &'a [char]) -> (r: ParseResult<A::Output, &'a [char]>) {
        proof {
            self.first.lemma_parse_len(input@);
        }
        let (o, i) = self.first.parse(input)?;
        proof {
            self.second.lemma_parse_len(i@);
        }
        let (_, i2) = self.second.parse(i)?;
        proof {
            lemma_then(input@, self.first.spec_parse(input@), self.second.spec_parse(rest_after(self.first.spec_parse(input@), input@)));
        }
        Ok((o, i2))
    }
}

/// Runs `first` then `second`, keeping the value of `second`.
pub struct Andr<A, B> {
    pub first: A,
    pub second: B,
}

impl<'a, A: Parser<&'a [char]>, B: Parser<&'a [char]>> Parser<&'a [char]> for Andr<A, B> {
    type Output = B::Output;

    open spec fn spec_parse(&self, s: Seq<char>) -> SpecResult<<B::Output as DeepView>::V> {
        let r1 = self.first.spec_parse(s);
        match seq_spec(r1, self.second.spec_parse(rest_after(r1, s))) {
            Ok((v, n)) => Ok((v.1, n)),
            Err(e) => Err(e),
        }
    }

    open spec fn parse_requires(&self) -> bool {
        self.first.parse_requires() && self.second.parse_requires()
    }

    proof fn lemma_parse_len(&self, s: Seq<char>) {
        self.first.lemma_parse_len(s);
        self.second.lemma_parse_len(rest_after(self.first.spec_parse(s), s));
    }

    fn parse(&self, input: &'a [char]) -> (r: ParseResult<B::Output, &'a [char]>) {
        proof {
            self.first.lemma_parse_len(input@);
        }
        let (_, i) = self.first.parse(input)?;
        proof {
            self.second.lemma_parse_len(i@);
            lemma_then(input@, self.first.spec_parse(input@), self.second.spec_parse(rest_after(self.first.spec_parse(input@), input@)));
        }
        self.second.parse(i)
    }
}

/// Runs `first` then `second`, keeping both values.
pub struct And<A, B> {
    pub first: A,
    pub second: B,
}

impl<'a, A: Parser<&'a [char]>, B: Parser<&'a [char]>> Parser<&'a [char]> for And<A, B> {
    type Output = (A::Output, B::Output);

    open spec fn spec_parse(&self, s: Seq<char>) -> SpecResult<
        (<A::Output as DeepView>::V, <B::Output as DeepView>::V),
    > {
        let r1 = self.first.spec_parse(s);
        seq_spec(r1, self.second.spec_parse(rest_after(r1, s)))
    }

    open spec fn parse_requires(&self) -> bool {
        self.first.parse_requires() && self.second.parse_requires()
    }

    proof fn lemma_parse_len(&self, s: Seq<char>) {
        self.first.lemma_parse_len(s);
        self.second.lemma_parse_len(rest_after(self.first.spec_parse(s), s));
    }

    fn parse(&self, input: &'a [char]) -> (r: ParseResult<(A::Output, B::Output), &'a [char]>) {
        proof {
            self.first.lemma_parse_len(input@);
        }
        let (o1, i) = self.first.parse(input)?;
        proof {
            self.second.lemma_parse_len(i@);
        }
        let (o2, i2) = self.second.parse(i)?;
        proof {
            lemma_then(input@, self.first.spec_parse(input@), self.second.spec_parse(rest_after(self.first.spec_parse(input@), input@)));
        }
        Ok(((o1, o2), i2))
    }
}

/// Runs `parser`, then the parser that `f` builds from its value.
pub struct AndThen<P, F> {
    pub parser: P,
    pub f: F,
}

impl<'a, P: Parser<&'a [char]>, F: ThenFn<P::Output, &'a [char]>> Parser<&'a [char]> for AndThen<P, F> {
    type Output = <F::Next as Parser<&'a [char]>>::Output;

    open spec fn spec_parse(&self, s: Seq<char>) -> SpecResult<<Self::Output as DeepView>::V> {
        match self.parser.spec_parse(s) {
            Err(e) => Err(e),
            Ok((v, n)) => match self.f.spec_apply(v).spec_parse(s.skip(n)) {
                Err(e) => Err(e),
                Ok((w, m)) => Ok((w, n + m)),
            },
        }
    }

    open spec fn parse_requires(&self) -> bool {
        &&& self.parser.parse_requires()
        &&& forall|v| #[trigger] self.f.spec_apply(v).parse_requires()
    }

    proof fn lemma_parse_len(&self, s: Seq<char>) {
        self.parser.lemma_parse_len(s);
        if let Ok((v, n)) = self.parser.spec_parse(s) {
            self.f.spec_apply(v).lemma_parse_len(s.skip(n));
        }
    }

    fn parse(&self, input: &'a [char]) -> (r: ParseResult<Self::Output, &'a [char]>) {
        proof {
            self.parser.lemma_parse_len(input@);
        }
        let (o, i) = self.parser.parse(input)?;
        let next = self.f.apply(o);
        proof {
            next.lemma_parse_len(i@);
            lemma_then(input@, self.parser.spec_parse(input@), next.spec_parse(i@));
        }
        next.parse(i)
    }
}

/// Runs `parser` and drops its value.
pub struct Ignore<P> {
    pub parser: P,
}

impl<'a, P: Parser<&'a [char]>> Parser<&'a [char]> for Ignore<P> {
    type Output = ();

    open spec fn spec_parse(&self, s: Seq<char>) -> SpecResult<()> {
        match self.parser.spec_parse(s) {
            Ok((_, n)) => Ok(((), n)),
            Err(e) => Err(e),
        }
    }

    open spec fn parse_requires(&self) -> bool {
        self.parser.parse_requires()
    }

    proof fn lemma_parse_len(&self, s: Seq<char>) {
        self.parser.lemma_parse_len(s);
    }

    fn parse(&self, input: &'a [char]) -> (r: ParseResult<(), &'a [char]>) {
        match self.parser.parse(input) {
            Ok((_, i)) => Ok(((), i)),
            Err(e) => Err(e),
        }
    }
}

/// Runs the parser it refers to.
pub struct RefMut<'b, P> {
    pub parser: &'b P,
}

impl<'a, 'b, P: Parser<&'a [char]>> Parser<&'a [char]> for RefMut<'b, P> {
    type Output = P::Output;

    open spec fn spec_parse(&self, s: Seq<char>) -> SpecResult<<P::Output as DeepView>::V> {
        self.parser.spec_parse(s)
    }

    open spec fn parse_requires(&self) -> bool {
        self.parser.parse_requires()
    }

    proof fn lemma_parse_len(&self, s: Seq<char>) {
        self.parser.lemma_parse_len(s);
    }

    fn parse(&self, input: &'a [char]) -> (r: ParseResult<P::Output, &'a [char]>) {
        self.parser.parse(input)
    }
}

/// Reports a failure of `parser` as an error that names `message`.
pub struct Expect<P> {
    pub parser: P,
    pub message: String,
}

impl<'a, P: Parser<&'a [char]>> Parser<&'a [char]> for Expect<P> {
    type Output = P::Output;

    open spec fn spec_parse(&self, s: Seq<char>) -> SpecResult<<P::Output as DeepView>::V> {
        match self.parser.spec_parse(s) {
            Ok(t) => Ok(t),
            Err(_) => Err(ErrorView::Expected(self.message@, first_token(s))),
        }
    }

    open spec fn parse_requires(&self) -> bool {
        self.parser.parse_requires()
    }

    proof fn lemma_parse_len(&self, s: Seq<char>) {
        self.parser.lemma_parse_len(s);
    }

    fn parse(&self, input: &'a [char]) -> (r: ParseResult<P::Output, &'a [char]>) {
        match self.parser.parse(input) {
            Ok(t) => Ok(t),
            Err(_) => Err(SimpleError::expect(self.message.clone(), input)),
        }
    }
}


/// An operator that a parser yields, to combine two values into one.
pub trait BinOp<T: DeepView>: DeepView {
    spec fn spec_apply(op: <Self as DeepView>::V, l: T::V, r: T::V) -> T::V;

    fn apply(&self, l: T, r: T) -> (o: T)
        ensures
            o.deep_view() == Self::spec_apply(self.deep_view(), l.deep_view(), r.deep_view()),
    ;
}

/// Arithmetic on 64-bit integers, wrapping around on overflow.
#[derive(Debug, Clone, Copy, PartialEq, Eq)]
pub enum ArithOp {
    Add,
    Sub,
    Mul,
}

impl DeepView for ArithOp {
    type V = ArithOp;

    open spec fn deep_view(&self) -> ArithOp {
        *self
    }
}

impl BinOp<i64> for ArithOp {
    open spec fn spec_apply(op: ArithOp, l: i64, r: i64) -> i64 {
        match op {
            ArithOp::Add => vstd::wrapping::i64_specs::wrapping_add(l, r),
            ArithOp::Sub => vstd::wrapping::i64_specs::wrapping_sub(l, r),
            ArithOp::Mul => vstd::wrapping::i64_specs::wrapping_mul(l, r),
        }
    }

    fn apply(&self, l: i64, r: i64) -> (o: i64) {
        match self {
            ArithOp::Add => l.wrapping_add(r),
            ArithOp::Sub => l.wrapping_sub(r),
            ArithOp::Mul => l.wrapping_mul(r),
        }
    }
}

/// `r`, shifted by `n` more tokens consumed.
pub open spec fn shift<V>(n: int, r: SpecResult<V>) -> SpecResult<V> {
    match r {
        Ok((v, m)) => Ok((v, n + m)),
        Err(e) => Err(e),
    }
}

/// What the loop of [`Chainl`] does from `s` on, with `acc` on the left.
pub open spec fn chainl_rec<'a, A: Parser<&'a [char]>, B: Parser<&'a [char]>>(
    p: A,
    op: B,
    acc: <A::Output as DeepView>::V,
    s: Seq<char>,
) -> SpecResult<<A::Output as DeepView>::V>
    where B::Output: BinOp<A::Output>,
    decreases s.len(),
{
    match op.spec_parse(s) {
        Err(_) => Ok((acc, 0)),
        Ok((f, n1)) => match p.spec_parse(s.skip(n1)) {
            Err(e) => Err(e),
            Ok((r, n2)) => if 0 <= n1 <= s.len() && 0 <= n2 <= s.len() - n1 && 0 < n1 + n2 {
                shift(
                    n1 + n2,
                    chainl_rec(p, op, <B::Output as BinOp<A::Output>>::spec_apply(f, acc, r), s.skip(n1 + n2)),
                )
            } else {
                Ok((acc, 0))
            },
        },
    }
}

/// The loop stays within the input.
pub proof fn lemma_chainl_rec_len<'a, A: Parser<&'a [char]>, B: Parser<&'a [char]>>(
    p: A,
    op: B,
    acc: <A::Output as DeepView>::V,
    s: Seq<char>,
)
    where B::Output: BinOp<A::Output>,
    ensures
        consumes_within(chainl_rec(p, op, acc, s), s),
    decreases s.len(),
{
    if let Ok((f, n1)) = op.spec_parse(s) {
        if let Ok((r, n2)) = p.spec_parse(s.skip(n1)) {
            if 0 <= n1 <= s.len() && 0 <= n2 <= s.len() - n1 && 0 < n1 + n2 {
                lemma_chainl_rec_len(p, op, <B::Output as BinOp<A::Output>>::spec_apply(f, acc, r), s.skip(n1 + n2));
            }
        }
    }
}

/// Applies `parser` one or more times, separated by `op`, combining the values
/// from the left with the operators that `op` yields. Where the first
/// application fails: with `value`, succeeds with it; without, fails.
pub struct Chainl<A, B, V> {
    pub parser: A,
    pub op: B,
    pub value: Option<V>,
}

impl<'a, A: Parser<&'a [char]>, B: Parser<&'a [char]>> Parser<&'a [char]> for Chainl<A, B, A::Output>
    where B::Output: BinOp<A::Output>, A::Output: Copy,
{
    type Output = A::Output;

    open spec fn spec_parse(&self, s: Seq<char>) -> SpecResult<<A::Output as DeepView>::V> {
        match self.parser.spec_parse(s) {
            Err(e) => match self.value {
                Some(v) => Ok((v.deep_view(), 0)),
                None => Err(e),
            },
            Ok((l, n)) => shift(n, chainl_rec(self.parser, self.op, l, s.skip(n))),
        }
    }

    open spec fn parse_requires(&self) -> bool {
        self.parser.parse_requires() && self.op.parse_requires() && (productive(self.parser)
            || productive(self.op))
    }

    proof fn lemma_parse_len(&self, s: Seq<char>) {
        self.parser.lemma_parse_len(s);
        if let Ok((l, n)) = self.parser.spec_parse(s) {
            lemma_chainl_rec_len(self.parser, self.op, l, s.skip(n));
        }
    }

    fn parse(&self, input: &'a [char]) -> (r: ParseResult<A::Output, &'a [char]>) {
        proof {
            self.parser.lemma_parse_len(input@);
        }
        let (mut left, mut rest) = match self.parser.parse(input) {
            Ok(t) => t,
            Err(e) => {
                proof {
                    assert(input@.skip(0) =~= input@);
                }
                return match self.value {
                    Some(v) => Ok((v, input)),
                    None => Err(e),
                };
            },
        };
        loop
            invariant
                self.parse_requires(),
                rest@.len() <= input@.len(),
                rest@ == input@.skip(input@.len() - rest@.len()),
                self.spec_parse(input@) == shift(
                    input@.len() - rest@.len(),
                    chainl_rec(self.parser, self.op, left.deep_view(), rest@),
                ),
            decreases rest@.len(),
        {
            let ghost c = input@.len() - rest@.len();
            proof {
                self.op.lemma_parse_len(rest@);
            }
            let (f, after) = match self.op.parse(rest) {
                Ok(t) => t,
                Err(_) => {
                    proof {
                        assert(rest@.skip(0) =~= rest@);
                    }
                    return Ok((left, rest));
                },
            };
            proof {
                self.parser.lemma_parse_len(after@);
            }
            let (right, next) = self.parser.parse(after)?;
            let ghost n1 = rest@.len() - after@.len();
            let ghost n2 = after@.len() - next@.len();
            proof {
                if productive(self.op) {
                    assert(self.op.spec_parse(rest@) matches Ok((_, m)) && m > 0);
                } else {
                    assert(self.parser.spec_parse(after@) matches Ok((_, m)) && m > 0);
                }
                lemma_skip_skip(rest@, n1, n2);
                lemma_skip_skip(input@, c, n1 + n2);
            }
            left = f.apply(left, right);
            rest = next;
        }
    }
}

/// What [`Chainr`] does: the right-associative chain.
pub open spec fn chainr_spec<'a, A: Parser<&'a [char]>, B: Parser<&'a [char]>>(
    p: A,
    op: B,
    value: Option<A::Output>,
    s: Seq<char>,
) -> SpecResult<<A::Output as DeepView>::V>
    where B::Output: BinOp<A::Output>,
    decreases s.len(), 0int,
{
    match p.spec_parse(s) {
        Err(e) => match value {
            Some(v) => Ok((v.deep_view(), 0)),
            None => Err(e),
        },
        Ok((l, n)) => if 0 < n <= s.len() {
            shift(n, chainr_loop(p, op, value, l, s.skip(n)))
        } else {
            Ok((l, 0))
        },
    }
}

/// What the loop of [`Chainr`] does from `s` on, with `acc` on the left; each
/// right operand is a whole chain.
pub open spec fn chainr_loop<'a, A: Parser<&'a [char]>, B: Parser<&'a [char]>>(
    p: A,
    op: B,
    value: Option<A::Output>,
    acc: <A::Output as DeepView>::V,
    s: Seq<char>,
) -> SpecResult<<A::Output as DeepView>::V>
    where B::Output: BinOp<A::Output>,
    decreases s.len(), 1int,
{
    match op.spec_parse(s) {
        Err(_) => Ok((acc, 0)),
        Ok((f, n1)) => if 0 <= n1 <= s.len() {
            match chainr_spec(p, op, value, s.skip(n1)) {
                Err(e) => Err(e),
                Ok((r, n2)) => if 0 <= n2 <= s.len() - n1 && 0 < n1 + n2 {
                    shift(
                        n1 + n2,
                        chainr_loop(p, op, value, <B::Output as BinOp<A::Output>>::spec_apply(f, acc, r), s.skip(n1 + n2)),
                    )
                } else {
                    Ok((acc, 0))
                },
            }
        } else {
            Ok((acc, 0))
        },
    }
}

/// The right-associative chain stays within the input.
pub proof fn lemma_chainr_len<'a, A: Parser<&'a [char]>, B: Parser<&'a [char]>>(
    p: A,
    op: B,
    value: Option<A::Output>,
    s: Seq<char>,
)
    where B::Output: BinOp<A::Output>,
    ensures
        consumes_within(chainr_spec(p, op, value, s), s),
        forall|acc| consumes_within(#[trigger] chainr_loop(p, op, value, acc, s), s),
    decreases s.len(),
{
    assert forall|acc| consumes_within(#[trigger] chainr_loop(p, op, value, acc, s), s) by {
        lemma_chainr_loop_len(p, op, value, acc, s);
    }
    if let Ok((l, n)) = p.spec_parse(s) {
        if 0 < n <= s.len() {
            lemma_chainr_loop_len(p, op, value, l, s.skip(n));
        }
    }
}

/// The loop of the right-associative chain stays within the input.
pub proof fn lemma_chainr_loop_len<'a, A: Parser<&'a [char]>, B: Parser<&'a [char]>>(
    p: A,
    op: B,
    value: Option<A::Output>,
    acc: <A::Output as DeepView>::V,
    s: Seq<char>,
)
    where B::Output: BinOp<A::Output>,
    ensures
        consumes_within(chainr_loop(p, op, value, acc, s), s),
    decreases s.len(),
{
    if let Ok((f, n1)) = op.spec_parse(s) {
        if 0 <= n1 <= s.len() {
            if let Ok((r, n2)) = chainr_spec(p, op, value, s.skip(n1)) {
                if 0 <= n2 <= s.len() - n1 && 0 < n1 + n2 {
                    lemma_chainr_loop_len(p, op, value, <B::Output as BinOp<A::Output>>::spec_apply(f, acc, r), s.skip(n1 + n2));
                }
            }
        }
    }
}

/// Applies `parser` one or more times, separated by `op`, combining the values
/// from the right: each right operand is itself a chain. Where the first
/// application fails: with `value`, succeeds with it; without, fails.
pub struct Chainr<A, B, V> {
    pub parser: A,
    pub op: B,
    pub value: Option<V>,
}

impl<A, B, V: DeepView> Chainr<A, B, V> {
    /// Runs the chain on `input`.
    fn run<'a>(&self, input: &'a [char]) -> (r: ParseResult<A::Output, &'a [char]>)
        where A: Parser<&'a [char], Output = V>, B: Parser<&'a [char]>, B::Output: BinOp<V>, V: Copy,
        requires
            self.parser.parse_requires(),
            self.op.parse_requires(),
            productive(self.parser),
            self.value is None || productive(self.op),
        ensures
            agrees(chainr_spec(self.parser, self.op, self.value, input@), input@, r),
        decreases input@.len(),
    {
        proof {
            self.parser.lemma_parse_len(input@);
        }
        let (mut left, mut rest) = match self.parser.parse(input) {
            Ok(t) => t,
            Err(e) => {
                proof {
                    assert(input@.skip(0) =~= input@);
                }
                return match self.value {
                    Some(v) => Ok((v, input)),
                    None => Err(e),
                };
            },
        };
        proof {
            assert(self.parser.spec_parse(input@) matches Ok((_, m)) && m > 0);
        }
        loop
            invariant
                self.parser.parse_requires(),
                self.op.parse_requires(),
                productive(self.parser),
                self.value is None || productive(self.op),
                rest@.len() < input@.len(),
                rest@ == input@.skip(input@.len() - rest@.len()),
                chainr_spec(self.parser, self.op, self.value, input@) == shift(
                    input@.len() - rest@.len(),
                    chainr_loop(self.parser, self.op, self.value, left.deep_view(), rest@),
                ),
            decreases rest@.len(),
        {
            let ghost c = input@.len() - rest@.len();
            proof {
                self.op.lemma_parse_len(rest@);
            }
            let (f, after) = match self.op.parse(rest) {
                Ok(t) => t,
                Err(_) => {
                    proof {
                        assert(rest@.skip(0) =~= rest@);
                    }
                    return Ok((left, rest));
                },
            };
            proof {
                lemma_chainr_len(self.parser, self.op, self.value, after@);
            }
            let (right, next) = self.run(after)?;
            let ghost n1 = rest@.len() - after@.len();
            let ghost n2 = after@.len() - next@.len();
            proof {
                lemma_skip_skip(rest@, n1, n2);
                lemma_skip_skip(input@, c, n1 + n2);
                if self.value is None {
                    if let Ok((l2, m)) = self.parser.spec_parse(after@) {
                        assert(m > 0);
                        self.parser.lemma_parse_len(after@);
                        lemma_chainr_loop_len(self.parser, self.op, self.value, l2, after@.skip(m));
                        assert(n2 >= m);
                    }
                } else {
                    assert(self.op.spec_parse(rest@) matches Ok((_, m)) && m > 0);
                }
                assert(n1 + n2 > 0);
                assert(0 <= n1 <= rest@.len());
                assert(0 <= n2 <= rest@.len() - n1);
                assert(rest@.skip(n1) == after@);
            }
            left = f.apply(left, right);
            rest = next;
        }
    }
}

impl<'a, A: Parser<&'a [char]>, B: Parser<&'a [char]>> Parser<&'a [char]> for Chainr<A, B, A::Output>
    where B::Output: BinOp<A::Output>, A::Output: Copy,
{
    type Output = A::Output;

    open spec fn spec_parse(&self, s: Seq<char>) -> SpecResult<<A::Output as DeepView>::V> {
        chainr_spec(self.parser, self.op, self.value, s)
    }

    open spec fn parse_requires(&self) -> bool {
        &&& self.parser.parse_requires()
        &&& self.op.parse_requires()
        &&& productive(self.parser)
        &&& self.value is None || productive(self.op)
    }

    proof fn lemma_parse_len(&self, s: Seq<char>) {
        lemma_chainr_len(self.parser, self.op, self.value, s);
    }

    fn parse(&self, input: &'a [char]) -> (r: ParseResult<A::Output, &'a [char]>) {
        self.run(input)
    }
}

/// The left-associative chain without a value to fall back on.
pub type Chainl1<A, B, V> = Chainl<A, B, V>;

/// The right-associative chain without a value to fall back on.
pub type Chainr1<A, B, V> = Chainr<A, B, V>;


/// Applies a parser again and again to what it leaves, one value at a time,
/// until it fails; the error is kept.
pub struct ParseIter<'b, P, I> {
    pub parser: &'b P,
    pub input: I,
    pub error: Option<SimpleError<char>>,
}

impl<'a, 'b, P: Parser<&'a [char]>> ParseIter<'b, P, &'a [char]> {
    /// The input left.
    pub fn get(self) -> (r: &'a [char])
        ensures
            r == self.input,
    {
        self.input
    }

    /// The input left, or the error that stopped the iteration.
    pub fn try_get(self) -> (r: Result<&'a [char], SimpleError<char>>)
        ensures
            match self.error {
                None => r == Ok::<&'a [char], SimpleError<char>>(self.input),
                Some(e) => r == Err::<&'a [char], SimpleError<char>>(e),
            },
    {
        match self.error {
            None => Ok(self.input),
            Some(e) => Err(e),
        }
    }

    /// The next value; `None` once the parser has failed.
    pub fn next(&mut self) -> (r: Option<P::Output>)
        requires
            old(self).parser.parse_requires(),
        ensures
            final(self).parser == old(self).parser,
            old(self).error is Some ==> r is None && *final(self) == *old(self),
            old(self).error is None ==> match old(self).parser.spec_parse(old(self).input@) {
                Ok((v, n)) => {
                    &&& r matches Some(o) && o.deep_view() == v
                    &&& final(self).input@ == old(self).input@.skip(n)
                    &&& final(self).error is None
                },
                Err(e) => {
                    &&& r is None
                    &&& final(self).input == old(self).input
                    &&& final(self).error matches Some(e2) && e2@ == e
                },
            },
    {
        if self.error.is_some() {
            return None;
        }
        match self.parser.parse(self.input) {
            Ok((o, i)) => {
                self.input = i;
                Some(o)
            },
            Err(e) => {
                self.error = Some(e);
                None
            },
        }
    }
}

} // verus!
