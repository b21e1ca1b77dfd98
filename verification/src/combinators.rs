//! Combinators of parsers that read in place and go back where an attempt fails.
use vstd::prelude::*;

use crate::adapters::{failed, lemma_keeps_live_trans, then_outcome};
use crate::cursor::Cursor;
use crate::traits::{keeps_live, ran, Input, Outcome, Parser};

verus! {

/// What attempting `o`, from `at`, does: where it fails, the input goes back
/// to `at`; the messages it reported stay.
pub open spec fn attempted<V, E>(o: Outcome<V, E>, at: int) -> Outcome<V, E> {
    match o.result {
        Ok(_) => o,
        Err(e) => Outcome { result: Err(e), end: at, errs: o.errs },
    }
}

/// Runs `p` under a cursor: where it fails, `input` goes back to where it stood.
pub(crate) fn try_parse<I: Input, P: Parser<I>>(p: &P, input: &mut I) -> (r: Result<P::Output, P::Error>)
    requires
        p.parse_requires(),
        old(input).inv(),
    ensures
        ran(attempted(p.spec_parse(old(input).text(), old(input).index() as int), old(input).index() as int), r, *old(input), *final(input)),
{
    let ghost a = *input;
    let c = input.cursor();
    let ghost b = *input;
    let r = p.parse(input);
    let ghost d = *input;
    proof {
        assert(d.live(c));
    }
    match r {
        Ok(v) => {
            input.commit_callback(c);
            proof {
                assert forall|c2: Cursor<I::Pos>| a.live(c2) implies #[trigger] input.live(c2) by {
                    a.lemma_live(c2);
                    assert(b.live(c2));
                    assert(d.live(c2));
                }
            }
            Ok(v)
        },
        Err(e) => {
            input.restore_callback(c);
            proof {
                assert forall|c2: Cursor<I::Pos>| a.live(c2) implies #[trigger] input.live(c2) by {
                    a.lemma_live(c2);
                    assert(b.live(c2));
                    assert(d.live(c2));
                }
            }
            Err(e)
        },
    }
}

/// Runs `parser`; where it fails, the input goes back to where it stood.
pub struct Attempt<P> {
    pub parser: P,
}

impl<I: Input, P: Parser<I>> Parser<I> for Attempt<P> {
    type Output = P::Output;
    type Error = P::Error;

    open spec fn spec_parse(&self, text: Seq<char>, at: int) -> Outcome<
        <P::Output as DeepView>::V,
        <P::Error as DeepView>::V,
    > {
        attempted(self.parser.spec_parse(text, at), at)
    }

    open spec fn parse_requires(&self) -> bool {
        self.parser.parse_requires()
    }

    proof fn lemma_parse_len(&self, text: Seq<char>, at: int) {
        self.parser.lemma_parse_len(text, at);
    }

    fn parse(&self, input: &mut I) -> (r: Result<P::Output, P::Error>) {
        try_parse(&self.parser, input)
    }
}

/// A parser that runs `parser`, and where it fails, goes back to where it started.
pub fn attempt<P>(parser: P) -> (r: Attempt<P>)
    ensures
        r == (Attempt { parser }),
{
    Attempt { parser }
}

/// Runs the parser behind a reference.
pub struct Refer<'b, P> {
    pub parser: &'b P,
}

impl<'b, I: Input, P: Parser<I>> Parser<I> for Refer<'b, P> {
    type Output = P::Output;
    type Error = P::Error;

    open spec fn spec_parse(&self, text: Seq<char>, at: int) -> Outcome<
        <P::Output as DeepView>::V,
        <P::Error as DeepView>::V,
    > {
        self.parser.spec_parse(text, at)
    }

    open spec fn parse_requires(&self) -> bool {
        self.parser.parse_requires()
    }

    proof fn lemma_parse_len(&self, text: Seq<char>, at: int) {
        self.parser.lemma_parse_len(text, at);
    }

    fn parse(&self, input: &mut I) -> (r: Result<P::Output, P::Error>) {
        self.parser.parse(input)
    }
}

/// A parser that runs `parser` through a reference, leaving it with the caller.
#[inline]
pub fn refer<'b, P>(parser: &'b P) -> (r: Refer<'b, P>)
    ensures
        r.parser == parser,
{
    Refer { parser }
}

/// Runs `lparser`, `mparser` and `rparser` in turn, keeping the value of `mparser`.
pub struct Between<L, M, R> {
    pub lparser: L,
    pub mparser: M,
    pub rparser: R,
}

/// Three outcomes one after the other, with the value that `pick` takes from
/// the first and the third.
pub open spec fn three<V1, V2, V3, V, E>(
    o1: Outcome<V1, E>,
    o2: Outcome<V2, E>,
    o3: Outcome<V3, E>,
    v: V,
) -> Outcome<V, E> {
    if o1.result is Err {
        failed(o1)
    } else if o2.result is Err {
        Outcome { result: Err(o2.result->Err_0), end: o2.end, errs: o1.errs + o2.errs }
    } else if o3.result is Err {
        Outcome { result: Err(o3.result->Err_0), end: o3.end, errs: o1.errs + o2.errs + o3.errs }
    } else {
        Outcome { result: Ok(v), end: o3.end, errs: o1.errs + o2.errs + o3.errs }
    }
}

impl<I: Input, L: Parser<I, Error = M::Error>, M: Parser<I>, R: Parser<I, Error = M::Error>> Parser<I> for Between<
    L,
    M,
    R,
> {
    type Output = M::Output;
    type Error = M::Error;

    open spec fn spec_parse(&self, text: Seq<char>, at: int) -> Outcome<
        <M::Output as DeepView>::V,
        <M::Error as DeepView>::V,
    > {
        let o1 = self.lparser.spec_parse(text, at);
        let o2 = self.mparser.spec_parse(text, o1.end);
        let o3 = self.rparser.spec_parse(text, o2.end);
        three(o1, o2, o3, o2.result->Ok_0)
    }

    open spec fn parse_requires(&self) -> bool {
        self.lparser.parse_requires() && self.mparser.parse_requires() && self.rparser.parse_requires()
    }

    proof fn lemma_parse_len(&self, text: Seq<char>, at: int) {
        self.lparser.lemma_parse_len(text, at);
        let o1 = self.lparser.spec_parse(text, at);
        self.mparser.lemma_parse_len(text, o1.end);
        let o2 = self.mparser.spec_parse(text, o1.end);
        self.rparser.lemma_parse_len(text, o2.end);
    }

    fn parse(&self, input: &mut I) -> (r: Result<M::Output, M::Error>) {
        let ghost a = *input;
        self.lparser.parse(input)?;
        let ghost b = *input;
        let m = self.mparser.parse(input);
        let ghost c = *input;
        proof {
            lemma_keeps_live_trans(a, b, c);
            let o1 = self.lparser.spec_parse(a.text(), a.index() as int);
            let o2 = self.mparser.spec_parse(a.text(), o1.end);
            assert(c.errs() =~= a.errs() + (o1.errs + o2.errs));
        }
        let m = m?;
        let r = self.rparser.parse(input);
        proof {
            lemma_keeps_live_trans(a, c, *input);
            let o1 = self.lparser.spec_parse(a.text(), a.index() as int);
            let o2 = self.mparser.spec_parse(a.text(), o1.end);
            let o3 = self.rparser.spec_parse(a.text(), o2.end);
            assert(input.errs() =~= a.errs() + (o1.errs + o2.errs + o3.errs));
        }
        r?;
        Ok(m)
    }
}

/// A parser that runs `lparser`, `mparser` and `rparser`, keeping the value of `mparser`.
pub fn between<L, M, R>(lparser: L, mparser: M, rparser: R) -> (r: Between<L, M, R>)
    ensures
        r == (Between { lparser, mparser, rparser }),
{
    Between { lparser, mparser, rparser }
}

/// Runs `lparser`, `mparser` and `rparser` in turn, keeping the values of
/// `lparser` and `rparser`.
pub struct Pair<L, M, R> {
    pub lparser: L,
    pub mparser: M,
    pub rparser: R,
}

impl<I: Input, L: Parser<I>, M: Parser<I, Error = L::Error>, R: Parser<I, Error = L::Error>> Parser<I> for Pair<
    L,
    M,
    R,
> {
    type Output = (L::Output, R::Output);
    type Error = L::Error;

    open spec fn spec_parse(&self, text: Seq<char>, at: int) -> Outcome<
        (<L::Output as DeepView>::V, <R::Output as DeepView>::V),
        <L::Error as DeepView>::V,
    > {
        let o1 = self.lparser.spec_parse(text, at);
        let o2 = self.mparser.spec_parse(text, o1.end);
        let o3 = self.rparser.spec_parse(text, o2.end);
        three(o1, o2, o3, (o1.result->Ok_0, o3.result->Ok_0))
    }

    open spec fn parse_requires(&self) -> bool {
        self.lparser.parse_requires() && self.mparser.parse_requires() && self.rparser.parse_requires()
    }

    proof fn lemma_parse_len(&self, text: Seq<char>, at: int) {
        self.lparser.lemma_parse_len(text, at);
        let o1 = self.lparser.spec_parse(text, at);
        self.mparser.lemma_parse_len(text, o1.end);
        let o2 = self.mparser.spec_parse(text, o1.end);
        self.rparser.lemma_parse_len(text, o2.end);
    }

    fn parse(&self, input: &mut I) -> (r: Result<(L::Output, R::Output), L::Error>) {
        let ghost a = *input;
        let left = self.lparser.parse(input)?;
        let ghost b = *input;
        let m = self.mparser.parse(input);
        let ghost c = *input;
        proof {
            lemma_keeps_live_trans(a, b, c);
            let o1 = self.lparser.spec_parse(a.text(), a.index() as int);
            let o2 = self.mparser.spec_parse(a.text(), o1.end);
            assert(c.errs() =~= a.errs() + (o1.errs + o2.errs));
        }
        m?;
        let right = self.rparser.parse(input);
        proof {
            lemma_keeps_live_trans(a, c, *input);
            let o1 = self.lparser.spec_parse(a.text(), a.index() as int);
            let o2 = self.mparser.spec_parse(a.text(), o1.end);
            let o3 = self.rparser.spec_parse(a.text(), o2.end);
            assert(input.errs() =~= a.errs() + (o1.errs + o2.errs + o3.errs));
        }
        let right = right?;
        Ok((left, right))
    }
}

/// A parser that runs three parsers and keeps the values of the first and the last.
pub fn pair<L, M, R>(lparser: L, mparser: M, rparser: R) -> (r: Pair<L, M, R>)
    ensures
        r == (Pair { lparser, mparser, rparser }),
{
    Pair { lparser, mparser, rparser }
}

/// Tries `parser`: `Some` of its value, or `None` back where it started.
pub struct Opt<P> {
    pub parser: P,
}

impl<I: Input, P: Parser<I>> Parser<I> for Opt<P> {
    type Output = Option<P::Output>;
    type Error = P::Error;

    open spec fn spec_parse(&self, text: Seq<char>, at: int) -> Outcome<
        Option<<P::Output as DeepView>::V>,
        <P::Error as DeepView>::V,
    > {
        let o = self.parser.spec_parse(text, at);
        match o.result {
            Ok(v) => Outcome { result: Ok(Some(v)), end: o.end, errs: o.errs },
            Err(_) => Outcome { result: Ok(None), end: at, errs: o.errs },
        }
    }

    open spec fn parse_requires(&self) -> bool {
        self.parser.parse_requires()
    }

    proof fn lemma_parse_len(&self, text: Seq<char>, at: int) {
        self.parser.lemma_parse_len(text, at);
    }

    fn parse(&self, input: &mut I) -> (r: Result<Option<P::Output>, P::Error>) {
        match try_parse(&self.parser, input) {
            Ok(v) => Ok(Some(v)),
            Err(_) => Ok(None),
        }
    }
}

/// A parser that tries `parser` and succeeds with `None` where it fails.
pub fn opt<P>(parser: P) -> (r: Opt<P>)
    ensures
        r == (Opt { parser }),
{
    Opt { parser }
}

/// A value to fall back on, with the statement of what it is.
pub trait DefaultValue: DeepView + Sized {
    spec fn spec_default() -> Self::V;

    fn default_value() -> (r: Self)
        ensures
            r.deep_view() == Self::spec_default(),
    ;
}

impl DefaultValue for char {
    open spec fn spec_default() -> char {
        '\0'
    }

    fn default_value() -> (r: char) {
        '\0'
    }
}

impl DefaultValue for () {
    open spec fn spec_default() -> () {
        ()
    }

    fn default_value() -> (r: ()) {
        ()
    }
}

impl<T: DeepView> DefaultValue for Vec<T> {
    open spec fn spec_default() -> Seq<T::V> {
        Seq::empty()
    }

    fn default_value() -> (r: Vec<T>) {
        let r: Vec<T> = Vec::new();
        proof {
            assert(r.deep_view() =~= Seq::<T::V>::empty());
        }
        r
    }
}

impl<T: DeepView> DefaultValue for Option<T> {
    open spec fn spec_default() -> Option<T::V> {
        None
    }

    fn default_value() -> (r: Option<T>) {
        None
    }
}

/// Tries `parser`: its value, or the default value back where it started.
pub struct OptOrDefault<P> {
    pub parser: P,
}

impl<I: Input, P: Parser<I>> Parser<I> for OptOrDefault<P> where P::Output: DefaultValue {
    type Output = P::Output;
    type Error = P::Error;

    open spec fn spec_parse(&self, text: Seq<char>, at: int) -> Outcome<
        <P::Output as DeepView>::V,
        <P::Error as DeepView>::V,
    > {
        let o = self.parser.spec_parse(text, at);
        match o.result {
            Ok(v) => o,
            Err(_) => Outcome { result: Ok(P::Output::spec_default()), end: at, errs: o.errs },
        }
    }

    open spec fn parse_requires(&self) -> bool {
        self.parser.parse_requires()
    }

    proof fn lemma_parse_len(&self, text: Seq<char>, at: int) {
        self.parser.lemma_parse_len(text, at);
    }

    fn parse(&self, input: &mut I) -> (r: Result<P::Output, P::Error>) {
        match try_parse(&self.parser, input) {
            Ok(v) => Ok(v),
            Err(_) => Ok(P::Output::default_value()),
        }
    }
}

/// A parser that tries `parser` and succeeds with the default value where it fails.
pub fn opt_or_default<P>(parser: P) -> (r: OptOrDefault<P>)
    ensures
        r == (OptOrDefault { parser }),
{
    OptOrDefault { parser }
}

/// Runs `parser` and goes back to where it started, whatever it gave.
pub struct Peek<P> {
    pub parser: P,
}

impl<I: Input, P: Parser<I>> Parser<I> for Peek<P> {
    type Output = P::Output;
    type Error = P::Error;

    open spec fn spec_parse(&self, text: Seq<char>, at: int) -> Outcome<
        <P::Output as DeepView>::V,
        <P::Error as DeepView>::V,
    > {
        let o = self.parser.spec_parse(text, at);
        Outcome { result: o.result, end: at, errs: o.errs }
    }

    open spec fn parse_requires(&self) -> bool {
        self.parser.parse_requires()
    }

    proof fn lemma_parse_len(&self, text: Seq<char>, at: int) {
    }

    fn parse(&self, input: &mut I) -> (r: Result<P::Output, P::Error>) {
        let ghost a = *input;
        let c = input.cursor();
        let ghost b = *input;
        let r = self.parser.parse(input);
        let ghost d = *input;
        proof {
            assert(d.live(c));
        }
        input.restore_callback(c);
        proof {
            assert forall|c2: Cursor<I::Pos>| a.live(c2) implies #[trigger] input.live(c2) by {
                a.lemma_live(c2);
                assert(b.live(c2));
                assert(d.live(c2));
            }
        }
        r
    }
}

/// A parser that runs `parser` without moving the input.
pub fn peek<P>(parser: P) -> (r: Peek<P>)
    ensures
        r == (Peek { parser }),
{
    Peek { parser }
}

/// Succeeds with `v`, reading nothing.
pub struct Pure<T, E> {
    pub v: T,
    pub error: core::marker::PhantomData<E>,
}

impl<I: Input, T: Copy + DeepView, E: DeepView> Parser<I> for Pure<T, E> {
    type Output = T;
    type Error = E;

    open spec fn spec_parse(&self, text: Seq<char>, at: int) -> Outcome<T::V, E::V> {
        Outcome { result: Ok(self.v.deep_view()), end: at, errs: Seq::empty() }
    }

    open spec fn parse_requires(&self) -> bool {
        true
    }

    proof fn lemma_parse_len(&self, text: Seq<char>, at: int) {
    }

    fn parse(&self, input: &mut I) -> (r: Result<T, E>) {
        proof {
            assert(input.errs() + Seq::<Seq<char>>::empty() =~= input.errs());
        }
        Ok(self.v)
    }
}

/// A parser that succeeds with `v` and reads nothing.
pub fn pure<T, E>(v: T) -> (r: Pure<T, E>)
    ensures
        r.v == v,
{
    Pure { v, error: core::marker::PhantomData }
}

/// `p` reads at least one character whenever it succeeds.
pub open spec fn advances<I: Input, P: Parser<I>>(p: P) -> bool {
    forall|text: Seq<char>, at: int|
        0 <= at <= text.len() && (#[trigger] p.spec_parse(text, at)).result is Ok ==> p.spec_parse(text, at).end > at
}

/// The values that attempting `p` again and again from `at` gives, where it
/// stops, and the messages reported on the way; the failed attempt at the
/// end leaves the input where it stood.
pub open spec fn many_from<I: Input, P: Parser<I>>(p: P, text: Seq<char>, at: int) -> (
    Seq<<P::Output as DeepView>::V>,
    int,
    Seq<Seq<char>>,
)
    decreases text.len() - at,
{
    let o = p.spec_parse(text, at);
    match o.result {
        Ok(v) => if at < o.end <= text.len() {
            let r = many_from(p, text, o.end);
            (seq![v] + r.0, r.1, o.errs + r.2)
        } else {
            (seq![v], o.end, o.errs)
        },
        Err(_) => (seq![], at, o.errs),
    }
}

/// The repetition stops between its start and the end of the text.
pub proof fn lemma_many_from_len<I: Input, P: Parser<I>>(p: P, text: Seq<char>, at: int)
    requires
        0 <= at <= text.len(),
    ensures
        at <= many_from(p, text, at).1 <= text.len(),
    decreases text.len() - at,
{
    p.lemma_parse_len(text, at);
    let o = p.spec_parse(text, at);
    if o.result is Ok && at < o.end <= text.len() {
        lemma_many_from_len(p, text, o.end);
    }
}

/// One more value at the end of a vector adds its deep view at the end.
pub proof fn lemma_push_view<T: DeepView>(old_v: Seq<T>, new_v: Seq<T>, x: T)
    requires
        new_v == old_v.push(x),
    ensures
        Seq::new(new_v.len(), |i: int| new_v[i].deep_view())
            == Seq::new(old_v.len(), |i: int| old_v[i].deep_view()).push(x.deep_view()),
{
    assert(Seq::new(new_v.len(), |i: int| new_v[i].deep_view())
        =~= Seq::new(old_v.len(), |i: int| old_v[i].deep_view()).push(x.deep_view()));
}

/// Attempts `p` from where `input` stands until it fails, pushing the values
/// onto `values`.
pub(crate) fn many_loop<I: Input, P: Parser<I>>(p: &P, input: &mut I, values: &mut Vec<P::Output>)
    requires
        p.parse_requires(),
        advances(*p),
        old(input).inv(),
    ensures
        final(input).inv(),
        final(input).text() == old(input).text(),
        final(input).depth() == old(input).depth(),
        keeps_live(*old(input), *final(input)),
        final(input).index() == many_from(*p, old(input).text(), old(input).index() as int).1,
        final(input).errs() == old(input).errs() + many_from(*p, old(input).text(), old(input).index() as int).2,
        final(values).deep_view() == old(values).deep_view() + many_from(*p, old(input).text(), old(input).index() as int).0,
{
    let ghost a = *input;
    let ghost text = a.text();
    let ghost at0 = a.index() as int;
    proof {
        a.lemma_index();
        assert(values.deep_view() + many_from(*p, text, at0).0 =~= old(values).deep_view() + many_from(*p, text, at0).0);
        assert(input.errs() + many_from(*p, text, at0).2 =~= a.errs() + many_from(*p, text, at0).2);
    }
    loop
        invariant
            p.parse_requires(),
            advances(*p),
            a == *old(input),
            text == a.text(),
            at0 == a.index(),
            input.inv(),
            input.text() == text,
            input.depth() == a.depth(),
            keeps_live(a, *input),
            at0 <= input.index() <= text.len(),
            values.deep_view() + many_from(*p, text, input.index() as int).0 == old(values).deep_view() + many_from(*p, text, at0).0,
            many_from(*p, text, input.index() as int).1 == many_from(*p, text, at0).1,
            input.errs() + many_from(*p, text, input.index() as int).2 == a.errs() + many_from(*p, text, at0).2,
        decreases text.len() - input.index(),
    {
        let ghost s = *input;
        let ghost at = s.index() as int;
        let ghost o = p.spec_parse(text, at);
        proof {
            p.lemma_parse_len(text, at);
        }
        match try_parse(p, input) {
            Ok(v) => {
                let ghost before = values@;
                values.push(v);
                proof {
                    lemma_keeps_live_trans(a, s, *input);
                    lemma_push_view(before, values@, v);
                    let r = many_from(*p, text, o.end);
                    assert(many_from(*p, text, at) == (seq![v.deep_view()] + r.0, r.1, o.errs + r.2));
                    assert(values.deep_view() + r.0 =~= (values.deep_view().drop_last()) + (seq![v.deep_view()] + r.0));
                    assert(input.errs() + r.2 =~= s.errs() + (o.errs + r.2));
                }
            },
            Err(_) => {
                proof {
                    lemma_keeps_live_trans(a, s, *input);
                    assert(values.deep_view() + many_from(*p, text, at).0 =~= values.deep_view());
                    assert(input.errs() =~= s.errs() + many_from(*p, text, at).2);
                }
                return;
            },
        }
    }
}

/// Attempts `parser` again and again until it fails, collecting its values;
/// with `at_least_one`, the first application is made without a cursor and
/// its failure is the parser's.
pub struct Many<P> {
    pub parser: P,
    pub at_least_one: bool,
}

impl<I: Input, P: Parser<I>> Parser<I> for Many<P> {
    type Output = Vec<P::Output>;
    type Error = P::Error;

    open spec fn spec_parse(&self, text: Seq<char>, at: int) -> Outcome<
        Seq<<P::Output as DeepView>::V>,
        <P::Error as DeepView>::V,
    > {
        let o = self.parser.spec_parse(text, at);
        if self.at_least_one && o.result is Err {
            failed(o)
        } else {
            let r = many_from(self.parser, text, at);
            Outcome { result: Ok(r.0), end: r.1, errs: r.2 }
        }
    }

    open spec fn parse_requires(&self) -> bool {
        self.parser.parse_requires() && advances(self.parser)
    }

    proof fn lemma_parse_len(&self, text: Seq<char>, at: int) {
        self.parser.lemma_parse_len(text, at);
        lemma_many_from_len(self.parser, text, at);
    }

    fn parse(&self, input: &mut I) -> (r: Result<Vec<P::Output>, P::Error>) {
        let ghost a = *input;
        let mut result: Vec<P::Output> = Vec::new();
        proof {
            a.lemma_index();
            self.parser.lemma_parse_len(a.text(), a.index() as int);
            assert(result.deep_view() =~= Seq::<<P::Output as DeepView>::V>::empty());
        }
        if self.at_least_one {
            let first = self.parser.parse(input)?;
            let ghost b = *input;
            let ghost o = self.parser.spec_parse(a.text(), a.index() as int);
            result.push(first);
            proof {
                lemma_push_view(Seq::<P::Output>::empty(), result@, first);
                assert(result.deep_view() =~= seq![first.deep_view()]);
            }
            many_loop(&self.parser, input, &mut result);
            proof {
                lemma_keeps_live_trans(a, b, *input);
                let r = many_from(self.parser, a.text(), o.end);
                assert(input.errs() =~= a.errs() + (o.errs + r.2));
            }
        } else {
            many_loop(&self.parser, input, &mut result);
            proof {
                assert(result.deep_view() =~= many_from(self.parser, a.text(), a.index() as int).0);
            }
        }
        Ok(result)
    }
}

/// A parser that attempts `parser` zero or more times.
pub fn many<P>(parser: P) -> (r: Many<P>)
    ensures
        r == (Many { parser, at_least_one: false }),
{
    Many { parser, at_least_one: false }
}

/// A parser that applies `parser` once, then attempts it again and again.
pub fn many1<P>(parser: P) -> (r: Many<P>)
    ensures
        r == (Many { parser, at_least_one: true }),
{
    Many { parser, at_least_one: true }
}

/// Attempts `parser` again and again until it fails, keeping no value.
pub struct Ignore<P> {
    pub parser: P,
}

impl<I: Input, P: Parser<I>> Parser<I> for Ignore<P> {
    type Output = ();
    type Error = P::Error;

    open spec fn spec_parse(&self, text: Seq<char>, at: int) -> Outcome<(), <P::Error as DeepView>::V> {
        let r = many_from(self.parser, text, at);
        Outcome { result: Ok(()), end: r.1, errs: r.2 }
    }

    open spec fn parse_requires(&self) -> bool {
        self.parser.parse_requires() && advances(self.parser)
    }

    proof fn lemma_parse_len(&self, text: Seq<char>, at: int) {
        lemma_many_from_len(self.parser, text, at);
    }

    fn parse(&self, input: &mut I) -> (r: Result<(), P::Error>) {
        let mut values: Vec<P::Output> = Vec::new();
        many_loop(&self.parser, input, &mut values);
        Ok(())
    }
}

/// A parser that attempts `parser` until it fails and keeps nothing.
pub fn ignore<P>(parser: P) -> (r: Ignore<P>)
    ensures
        r == (Ignore { parser }),
{
    Ignore { parser }
}

/// What applying `p` exactly `k` times from `at` does: the values, or the
/// first failure, which stops there.
pub open spec fn count_from<I: Input, P: Parser<I>>(p: P, text: Seq<char>, at: int, k: nat) -> Outcome<
    Seq<<P::Output as DeepView>::V>,
    <P::Error as DeepView>::V,
>
    decreases k,
{
    if k == 0 {
        Outcome { result: Ok(seq![]), end: at, errs: seq![] }
    } else {
        let o = p.spec_parse(text, at);
        match o.result {
            Err(e) => Outcome { result: Err(e), end: o.end, errs: o.errs },
            Ok(v) => {
                let r = count_from(p, text, o.end, (k - 1) as nat);
                Outcome {
                    result: match r.result {
                        Ok(vs) => Ok(seq![v] + vs),
                        Err(e) => Err(e),
                    },
                    end: r.end,
                    errs: o.errs + r.errs,
                }
            },
        }
    }
}

/// The repetition stops between its start and the end of the text.
pub proof fn lemma_count_from_len<I: Input, P: Parser<I>>(p: P, text: Seq<char>, at: int, k: nat)
    requires
        0 <= at <= text.len(),
    ensures
        at <= count_from(p, text, at, k).end <= text.len(),
        count_from(p, text, at, k).result matches Ok(vs) ==> vs.len() == k,
    decreases k,
{
    if k > 0 {
        p.lemma_parse_len(text, at);
        let o = p.spec_parse(text, at);
        if o.result is Ok {
            lemma_count_from_len(p, text, o.end, (k - 1) as nat);
        }
    }
}

/// Applies `p` `n` times from where `input` stands, pushing the values onto
/// `values`; the first failure stops it and is returned.
pub(crate) fn count_loop<I: Input, P: Parser<I>>(p: &P, n: usize, input: &mut I, values: &mut Vec<P::Output>) -> (r: Result<(), P::Error>)
    requires
        p.parse_requires(),
        old(input).inv(),
    ensures
        final(input).inv(),
        final(input).text() == old(input).text(),
        final(input).depth() == old(input).depth(),
        keeps_live(*old(input), *final(input)),
        ({
            let o = count_from(*p, old(input).text(), old(input).index() as int, n as nat);
            &&& final(input).index() == o.end
            &&& final(input).errs() == old(input).errs() + o.errs
            &&& match o.result {
                Ok(vs) => r is Ok && final(values).deep_view() == old(values).deep_view() + vs,
                Err(e) => r matches Err(x) && x.deep_view() == e,
            }
        }),
{
    let ghost a = *input;
    let ghost text = a.text();
    let ghost at0 = a.index() as int;
    let mut i: usize = 0;
    proof {
        a.lemma_index();
        assert(input.errs() + count_from(*p, text, at0, n as nat).errs =~= a.errs() + count_from(*p, text, at0, n as nat).errs);
    }
    while i < n
        invariant
            p.parse_requires(),
            a == *old(input),
            text == a.text(),
            at0 == a.index(),
            i <= n,
            input.inv(),
            input.text() == text,
            input.depth() == a.depth(),
            keeps_live(a, *input),
            at0 <= input.index() <= text.len(),
            ({
                let rest = count_from(*p, text, input.index() as int, (n - i) as nat);
                let all = count_from(*p, text, at0, n as nat);
                &&& rest.end == all.end
                &&& input.errs() + rest.errs == a.errs() + all.errs
                &&& match all.result {
                    Ok(vs) => rest.result matches Ok(ws) && values.deep_view() + ws == old(values).deep_view() + vs,
                    Err(e) => rest.result == Err::<Seq<<P::Output as DeepView>::V>, <P::Error as DeepView>::V>(e),
                }
            }),
        decreases n - i,
    {
        let ghost s = *input;
        let ghost at = s.index() as int;
        let ghost o = p.spec_parse(text, at);
        let ghost k = (n - i) as nat;
        proof {
            p.lemma_parse_len(text, at);
        }
        match p.parse(input) {
            Ok(v) => {
                let ghost before = values@;
                values.push(v);
                i = i + 1;
                proof {
                    lemma_keeps_live_trans(a, s, *input);
                    lemma_push_view(before, values@, v);
                    let r = count_from(*p, text, o.end, (k - 1) as nat);
                    assert(input.errs() + r.errs =~= s.errs() + (o.errs + r.errs));
                    if let Ok(ws) = r.result {
                        assert(values.deep_view() + ws =~= values.deep_view().drop_last() + (seq![v.deep_view()] + ws));
                    }
                }
            },
            Err(e) => {
                proof {
                    lemma_keeps_live_trans(a, s, *input);
                }
                return Err(e);
            },
        }
    }
    proof {
        assert(values.deep_view() + Seq::<<P::Output as DeepView>::V>::empty() =~= values.deep_view());
        assert(input.errs() + Seq::<Seq<char>>::empty() =~= input.errs());
    }
    Ok(())
}

/// Applies `parser` exactly `n` times.
pub struct Repeat<P> {
    pub parser: P,
    pub n: usize,
}

impl<I: Input, P: Parser<I>> Parser<I> for Repeat<P> {
    type Output = Vec<P::Output>;
    type Error = P::Error;

    open spec fn spec_parse(&self, text: Seq<char>, at: int) -> Outcome<
        Seq<<P::Output as DeepView>::V>,
        <P::Error as DeepView>::V,
    > {
        count_from(self.parser, text, at, self.n as nat)
    }

    open spec fn parse_requires(&self) -> bool {
        self.parser.parse_requires()
    }

    proof fn lemma_parse_len(&self, text: Seq<char>, at: int) {
        lemma_count_from_len(self.parser, text, at, self.n as nat);
    }

    fn parse(&self, input: &mut I) -> (r: Result<Vec<P::Output>, P::Error>) {
        let mut result: Vec<P::Output> = Vec::new();
        proof {
            assert(result.deep_view() =~= Seq::<<P::Output as DeepView>::V>::empty());
        }
        let ghost a = *input;
        let r = count_loop(&self.parser, self.n, input, &mut result);
        match r {
            Ok(()) => {
                proof {
                    if let Ok(vs) = count_from(self.parser, a.text(), a.index() as int, self.n as nat).result {
                        assert(result.deep_view() =~= vs);
                    }
                }
                Ok(result)
            },
            Err(e) => Err(e),
        }
    }
}

/// A parser that applies `parser` exactly `n` times.
pub fn repeat<P>(parser: P, n: usize) -> (r: Repeat<P>)
    ensures
        r == (Repeat { parser, n }),
{
    Repeat { parser, n }
}

/// What attempting `p` up to `k` times from `at` gives: the values until the
/// first failure, where it stops, and the messages.
pub open spec fn many_upto<I: Input, P: Parser<I>>(p: P, text: Seq<char>, at: int, k: nat) -> (
    Seq<<P::Output as DeepView>::V>,
    int,
    Seq<Seq<char>>,
)
    decreases k,
{
    if k == 0 {
        (seq![], at, seq![])
    } else {
        let o = p.spec_parse(text, at);
        match o.result {
            Ok(v) => {
                let r = many_upto(p, text, o.end, (k - 1) as nat);
                (seq![v] + r.0, r.1, o.errs + r.2)
            },
            Err(_) => (seq![], at, o.errs),
        }
    }
}

/// The bounded repetition stops between its start and the end of the text.
pub proof fn lemma_many_upto_len<I: Input, P: Parser<I>>(p: P, text: Seq<char>, at: int, k: nat)
    requires
        0 <= at <= text.len(),
    ensures
        at <= many_upto(p, text, at, k).1 <= text.len(),
        many_upto(p, text, at, k).0.len() <= k,
    decreases k,
{
    if k > 0 {
        p.lemma_parse_len(text, at);
        let o = p.spec_parse(text, at);
        if o.result is Ok {
            lemma_many_upto_len(p, text, o.end, (k - 1) as nat);
        }
    }
}

/// Attempts `p` up to `k` times from where `input` stands, pushing the values
/// onto `values`.
pub(crate) fn upto_loop<I: Input, P: Parser<I>>(p: &P, k: usize, input: &mut I, values: &mut Vec<P::Output>)
    requires
        p.parse_requires(),
        old(input).inv(),
    ensures
        final(input).inv(),
        final(input).text() == old(input).text(),
        final(input).depth() == old(input).depth(),
        keeps_live(*old(input), *final(input)),
        final(input).index() == many_upto(*p, old(input).text(), old(input).index() as int, k as nat).1,
        final(input).errs() == old(input).errs() + many_upto(*p, old(input).text(), old(input).index() as int, k as nat).2,
        final(values).deep_view() == old(values).deep_view() + many_upto(*p, old(input).text(), old(input).index() as int, k as nat).0,
{
    let ghost a = *input;
    let ghost text = a.text();
    let ghost at0 = a.index() as int;
    let mut i: usize = 0;
    proof {
        a.lemma_index();
        assert(values.deep_view() + many_upto(*p, text, at0, k as nat).0 =~= old(values).deep_view() + many_upto(*p, text, at0, k as nat).0);
        assert(input.errs() + many_upto(*p, text, at0, k as nat).2 =~= a.errs() + many_upto(*p, text, at0, k as nat).2);
    }
    while i < k
        invariant
            p.parse_requires(),
            a == *old(input),
            text == a.text(),
            at0 == a.index(),
            i <= k,
            input.inv(),
            input.text() == text,
            input.depth() == a.depth(),
            keeps_live(a, *input),
            at0 <= input.index() <= text.len(),
            values.deep_view() + many_upto(*p, text, input.index() as int, (k - i) as nat).0 == old(values).deep_view() + many_upto(*p, text, at0, k as nat).0,
            many_upto(*p, text, input.index() as int, (k - i) as nat).1 == many_upto(*p, text, at0, k as nat).1,
            input.errs() + many_upto(*p, text, input.index() as int, (k - i) as nat).2 == a.errs() + many_upto(*p, text, at0, k as nat).2,
        decreases k - i,
    {
        let ghost s = *input;
        let ghost at = s.index() as int;
        let ghost o = p.spec_parse(text, at);
        let ghost j = (k - i) as nat;
        proof {
            p.lemma_parse_len(text, at);
        }
        match try_parse(p, input) {
            Ok(v) => {
                let ghost before = values@;
                values.push(v);
                i = i + 1;
                proof {
                    lemma_keeps_live_trans(a, s, *input);
                    lemma_push_view(before, values@, v);
                    let r = many_upto(*p, text, o.end, (j - 1) as nat);
                    assert(many_upto(*p, text, at, j) == (seq![v.deep_view()] + r.0, r.1, o.errs + r.2));
                    assert(values.deep_view() + r.0 =~= (values.deep_view().drop_last()) + (seq![v.deep_view()] + r.0));
                    assert(input.errs() + r.2 =~= s.errs() + (o.errs + r.2));
                }
            },
            Err(_) => {
                proof {
                    lemma_keeps_live_trans(a, s, *input);
                    assert(values.deep_view() + many_upto(*p, text, at, j).0 =~= values.deep_view());
                    assert(input.errs() =~= s.errs() + many_upto(*p, text, at, j).2);
                }
                return;
            },
        }
    }
    proof {
        assert(values.deep_view() + many_upto(*p, text, input.index() as int, 0).0 =~= values.deep_view());
        assert(input.errs() + many_upto(*p, text, input.index() as int, 0).2 =~= input.errs());
    }
}

/// Applies `parser` `min` times, then attempts it until it fails, at most
/// until `max` values are there where `max` is given.
pub struct Bounded<P> {
    pub parser: P,
    pub min: usize,
    pub max: Option<usize>,
}

impl<I: Input, P: Parser<I>> Parser<I> for Bounded<P> {
    type Output = Vec<P::Output>;
    type Error = P::Error;

    open spec fn spec_parse(&self, text: Seq<char>, at: int) -> Outcome<
        Seq<<P::Output as DeepView>::V>,
        <P::Error as DeepView>::V,
    > {
        let c = count_from(self.parser, text, at, self.min as nat);
        match c.result {
            Err(e) => Outcome { result: Err(e), end: c.end, errs: c.errs },
            Ok(vs) => {
                let r = match self.max {
                    Some(m) => many_upto(self.parser, text, c.end, (m - self.min) as nat),
                    None => many_from(self.parser, text, c.end),
                };
                Outcome { result: Ok(vs + r.0), end: r.1, errs: c.errs + r.2 }
            },
        }
    }

    open spec fn parse_requires(&self) -> bool {
        &&& self.parser.parse_requires()
        &&& self.max is None ==> advances(self.parser)
        &&& self.max matches Some(m) ==> self.min <= m
    }

    proof fn lemma_parse_len(&self, text: Seq<char>, at: int) {
        lemma_count_from_len(self.parser, text, at, self.min as nat);
        let c = count_from(self.parser, text, at, self.min as nat);
        if c.result is Ok {
            match self.max {
                Some(m) => lemma_many_upto_len(self.parser, text, c.end, (m - self.min) as nat),
                None => lemma_many_from_len(self.parser, text, c.end),
            }
        }
    }

    fn parse(&self, input: &mut I) -> (r: Result<Vec<P::Output>, P::Error>) {
        let ghost a = *input;
        let mut result: Vec<P::Output> = Vec::new();
        proof {
            assert(result.deep_view() =~= Seq::<<P::Output as DeepView>::V>::empty());
        }
        count_loop(&self.parser, self.min, input, &mut result)?;
        let ghost b = *input;
        let ghost c = count_from(self.parser, a.text(), a.index() as int, self.min as nat);
        proof {
            assert(result.deep_view() =~= c.result->Ok_0);
        }
        match self.max {
            Some(max) => {
                upto_loop(&self.parser, max - self.min, input, &mut result);
            },
            None => {
                many_loop(&self.parser, input, &mut result);
            },
        }
        proof {
            lemma_keeps_live_trans(a, b, *input);
            let r = match self.max {
                Some(m) => many_upto(self.parser, a.text(), c.end, (m - self.min) as nat),
                None => many_from(self.parser, a.text(), c.end),
            };
            assert(input.errs() =~= a.errs() + (c.errs + r.2));
        }
        Ok(result)
    }
}

/// A parser that applies `parser` at least `bounds.start` times and at most
/// `bounds.end` times: the first ones must succeed, the others are attempted.
pub fn range<P>(parser: P, bounds: core::ops::Range<usize>) -> (r: Bounded<P>)
    requires
        bounds.start <= bounds.end,
    ensures
        r == (Bounded { parser, min: bounds.start, max: Some(bounds.end) }),
{
    Bounded { parser, min: bounds.start, max: Some(bounds.end) }
}

/// What `sepby` does from `at`, where it is about to attempt an element:
/// the values, where it stops, and the messages. A failed element or
/// separator is undone.
pub open spec fn sep_from<I: Input, P: Parser<I>, D: Parser<I>>(p: P, d: D, text: Seq<char>, at: int) -> (
    Seq<<P::Output as DeepView>::V>,
    int,
    Seq<Seq<char>>,
)
    decreases text.len() - at,
{
    let o1 = p.spec_parse(text, at);
    match o1.result {
        Err(_) => (seq![], at, o1.errs),
        Ok(v) => {
            let o2 = d.spec_parse(text, o1.end);
            match o2.result {
                Err(_) => (seq![v], o1.end, o1.errs + o2.errs),
                Ok(_) => if at < o2.end <= text.len() {
                    let r = sep_from(p, d, text, o2.end);
                    (seq![v] + r.0, r.1, o1.errs + o2.errs + r.2)
                } else {
                    (seq![v], o2.end, o1.errs + o2.errs)
                },
            }
        },
    }
}

/// What `sepby1` does after its first element, where it is about to attempt
/// a separator: a separator followed by a failed element is kept, the
/// element is undone.
pub open spec fn sep1_from<I: Input, P: Parser<I>, D: Parser<I>>(p: P, d: D, text: Seq<char>, at: int) -> (
    Seq<<P::Output as DeepView>::V>,
    int,
    Seq<Seq<char>>,
)
    decreases text.len() - at,
{
    let o1 = d.spec_parse(text, at);
    match o1.result {
        Err(_) => (seq![], at, o1.errs),
        Ok(_) => {
            let o2 = p.spec_parse(text, o1.end);
            match o2.result {
                Err(_) => (seq![], o1.end, o1.errs + o2.errs),
                Ok(v) => if at < o2.end <= text.len() {
                    let r = sep1_from(p, d, text, o2.end);
                    (seq![v] + r.0, r.1, o1.errs + o2.errs + r.2)
                } else {
                    (seq![v], o2.end, o1.errs + o2.errs)
                },
            }
        },
    }
}

/// The separated repetition stops between its start and the end of the text.
pub proof fn lemma_sep_from_len<I: Input, P: Parser<I>, D: Parser<I>>(p: P, d: D, text: Seq<char>, at: int)
    requires
        0 <= at <= text.len(),
    ensures
        at <= sep_from(p, d, text, at).1 <= text.len(),
        at <= sep1_from(p, d, text, at).1 <= text.len(),
    decreases text.len() - at,
{
    p.lemma_parse_len(text, at);
    d.lemma_parse_len(text, at);
    let o1 = p.spec_parse(text, at);
    if o1.result is Ok {
        d.lemma_parse_len(text, o1.end);
        let o2 = d.spec_parse(text, o1.end);
        if o2.result is Ok && at < o2.end <= text.len() {
            lemma_sep_from_len(p, d, text, o2.end);
        }
    }
    let q1 = d.spec_parse(text, at);
    if q1.result is Ok {
        p.lemma_parse_len(text, q1.end);
        let q2 = p.spec_parse(text, q1.end);
        if q2.result is Ok && at < q2.end <= text.len() {
            lemma_sep_from_len(p, d, text, q2.end);
        }
    }
}

/// Attempts elements of `p` separated by `d` from where `input` stands,
/// pushing the values onto `values`; with `after_first`, it starts with a
/// separator.
pub(crate) fn sep_loop<I: Input, P: Parser<I>, D: Parser<I>>(
    p: &P,
    d: &D,
    after_first: bool,
    input: &mut I,
    values: &mut Vec<P::Output>,
)
    requires
        p.parse_requires(),
        d.parse_requires(),
        advances(*p) || advances(*d),
        old(input).inv(),
    ensures
        final(input).inv(),
        final(input).text() == old(input).text(),
        final(input).depth() == old(input).depth(),
        keeps_live(*old(input), *final(input)),
        ({
            let r = if after_first {
                sep1_from(*p, *d, old(input).text(), old(input).index() as int)
            } else {
                sep_from(*p, *d, old(input).text(), old(input).index() as int)
            };
            &&& final(input).index() == r.1
            &&& final(input).errs() == old(input).errs() + r.2
            &&& final(values).deep_view() == old(values).deep_view() + r.0
        }),
{
    let ghost a = *input;
    let ghost text = a.text();
    let ghost at0 = a.index() as int;
    let ghost f = |at: int| if after_first { sep1_from(*p, *d, text, at) } else { sep_from(*p, *d, text, at) };
    proof {
        a.lemma_index();
        assert(values.deep_view() + f(at0).0 =~= old(values).deep_view() + f(at0).0);
        assert(input.errs() + f(at0).2 =~= a.errs() + f(at0).2);
    }
    loop
        invariant
            p.parse_requires(),
            d.parse_requires(),
            advances(*p) || advances(*d),
            a == *old(input),
            text == a.text(),
            at0 == a.index(),
            f == (|at: int| if after_first { sep1_from(*p, *d, text, at) } else { sep_from(*p, *d, text, at) }),
            input.inv(),
            input.text() == text,
            input.depth() == a.depth(),
            keeps_live(a, *input),
            at0 <= input.index() <= text.len(),
            values.deep_view() + f(input.index() as int).0 == old(values).deep_view() + f(at0).0,
            f(input.index() as int).1 == f(at0).1,
            input.errs() + f(input.index() as int).2 == a.errs() + f(at0).2,
        decreases text.len() - input.index(),
    {
        let ghost s = *input;
        let ghost at = s.index() as int;
        if after_first {
            let ghost o1 = d.spec_parse(text, at);
            proof {
                d.lemma_parse_len(text, at);
            }
            match try_parse(d, input) {
                Ok(_) => {},
                Err(_) => {
                    proof {
                        lemma_keeps_live_trans(a, s, *input);
                        assert(values.deep_view() + f(at).0 =~= values.deep_view());
                        assert(input.errs() =~= s.errs() + f(at).2);
                    }
                    return;
                },
            }
            let ghost s1 = *input;
            let ghost o2 = p.spec_parse(text, o1.end);
            proof {
                p.lemma_parse_len(text, o1.end);
                lemma_keeps_live_trans(a, s, s1);
            }
            match try_parse(p, input) {
                Ok(v) => {
                    let ghost before = values@;
                    values.push(v);
                    proof {
                        lemma_keeps_live_trans(a, s1, *input);
                        lemma_push_view(before, values@, v);
                        assert(o2.end > at);
                        let r = f(o2.end);
                        assert(f(at) == (seq![v.deep_view()] + r.0, r.1, o1.errs + o2.errs + r.2));
                        assert(values.deep_view() + r.0 =~= (values.deep_view().drop_last()) + (seq![v.deep_view()] + r.0));
                        assert(input.errs() + r.2 =~= s.errs() + (o1.errs + o2.errs + r.2));
                    }
                },
                Err(_) => {
                    proof {
                        lemma_keeps_live_trans(a, s1, *input);
                        assert(values.deep_view() + f(at).0 =~= values.deep_view());
                        assert(input.errs() =~= s.errs() + f(at).2);
                    }
                    return;
                },
            }
        } else {
            let ghost o1 = p.spec_parse(text, at);
            proof {
                p.lemma_parse_len(text, at);
            }
            let v = match try_parse(p, input) {
                Ok(v) => v,
                Err(_) => {
                    proof {
                        lemma_keeps_live_trans(a, s, *input);
                        assert(values.deep_view() + f(at).0 =~= values.deep_view());
                        assert(input.errs() =~= s.errs() + f(at).2);
                    }
                    return;
                },
            };
            let ghost before = values@;
            values.push(v);
            let ghost s1 = *input;
            let ghost o2 = d.spec_parse(text, o1.end);
            proof {
                d.lemma_parse_len(text, o1.end);
                lemma_keeps_live_trans(a, s, s1);
                lemma_push_view(before, values@, v);
            }
            match try_parse(d, input) {
                Ok(_) => {
                    proof {
                        lemma_keeps_live_trans(a, s1, *input);
                        assert(o2.end > at);
                        let r = f(o2.end);
                        assert(f(at) == (seq![v.deep_view()] + r.0, r.1, o1.errs + o2.errs + r.2));
                        assert(values.deep_view() + r.0 =~= (values.deep_view().drop_last()) + (seq![v.deep_view()] + r.0));
                        assert(input.errs() + r.2 =~= s.errs() + (o1.errs + o2.errs + r.2));
                    }
                },
                Err(_) => {
                    proof {
                        lemma_keeps_live_trans(a, s1, *input);
                        assert(f(at) == (seq![v.deep_view()], o1.end, o1.errs + o2.errs));
                        assert(values.deep_view() =~= Seq::new(before.len(), |i: int| before[i].deep_view()) + seq![v.deep_view()]);
                        assert(input.errs() =~= s.errs() + f(at).2);
                    }
                    return;
                },
            }
        }
    }
}

/// Elements of `parser` separated by `delim`; with `at_least_one`, the first
/// element is applied without a cursor and its failure is the parser's.
pub struct SepBy<P, D> {
    pub parser: P,
    pub delim: D,
    pub at_least_one: bool,
}

impl<I: Input, P: Parser<I>, D: Parser<I>> Parser<I> for SepBy<P, D> {
    type Output = Vec<P::Output>;
    type Error = P::Error;

    open spec fn spec_parse(&self, text: Seq<char>, at: int) -> Outcome<
        Seq<<P::Output as DeepView>::V>,
        <P::Error as DeepView>::V,
    > {
        if self.at_least_one {
            let o = self.parser.spec_parse(text, at);
            match o.result {
                Err(e) => Outcome { result: Err(e), end: o.end, errs: o.errs },
                Ok(v) => {
                    let r = sep1_from(self.parser, self.delim, text, o.end);
                    Outcome { result: Ok(seq![v] + r.0), end: r.1, errs: o.errs + r.2 }
                },
            }
        } else {
            let r = sep_from(self.parser, self.delim, text, at);
            Outcome { result: Ok(r.0), end: r.1, errs: r.2 }
        }
    }

    open spec fn parse_requires(&self) -> bool {
        &&& self.parser.parse_requires()
        &&& self.delim.parse_requires()
        &&& advances(self.parser) || advances(self.delim)
    }

    proof fn lemma_parse_len(&self, text: Seq<char>, at: int) {
        self.parser.lemma_parse_len(text, at);
        lemma_sep_from_len(self.parser, self.delim, text, at);
        let o = self.parser.spec_parse(text, at);
        if o.result is Ok {
            lemma_sep_from_len(self.parser, self.delim, text, o.end);
        }
    }

    fn parse(&self, input: &mut I) -> (r: Result<Vec<P::Output>, P::Error>) {
        let ghost a = *input;
        let mut result: Vec<P::Output> = Vec::new();
        proof {
            assert(result.deep_view() =~= Seq::<<P::Output as DeepView>::V>::empty());
        }
        if self.at_least_one {
            let first = self.parser.parse(input)?;
            let ghost b = *input;
            let ghost o = self.parser.spec_parse(a.text(), a.index() as int);
            result.push(first);
            proof {
                lemma_push_view(Seq::<P::Output>::empty(), result@, first);
            }
            sep_loop(&self.parser, &self.delim, true, input, &mut result);
            proof {
                lemma_keeps_live_trans(a, b, *input);
                let r = sep1_from(self.parser, self.delim, a.text(), o.end);
                assert(input.errs() =~= a.errs() + (o.errs + r.2));
                assert(result.deep_view() =~= seq![first.deep_view()] + r.0);
            }
        } else {
            sep_loop(&self.parser, &self.delim, false, input, &mut result);
            proof {
                assert(result.deep_view() =~= sep_from(self.parser, self.delim, a.text(), a.index() as int).0);
            }
        }
        Ok(result)
    }
}

/// A parser of zero or more elements of `parser` separated by `delim`.
pub fn sepby<P, D>(parser: P, delim: D) -> (r: SepBy<P, D>)
    ensures
        r == (SepBy { parser, delim, at_least_one: false }),
{
    SepBy { parser, delim, at_least_one: false }
}

/// A parser of one or more elements of `parser` separated by `delim`.
pub fn sepby1<P, D>(parser: P, delim: D) -> (r: SepBy<P, D>)
    ensures
        r == (SepBy { parser, delim, at_least_one: true }),
{
    SepBy { parser, delim, at_least_one: true }
}

/// A parser for the unbounded bounds `min..` (`0..` for `..`): `parser` must
/// succeed `min` times, then is attempted until it fails.
pub fn range_from<P>(parser: P, min: usize) -> (r: Bounded<P>)
    ensures
        r == (Bounded { parser, min, max: None::<usize> }),
{
    Bounded { parser, min, max: None }
}

/// Two parsers in turn, keeping both values; the first failure stops.
impl<I: Input, A: Parser<I>, B: Parser<I, Error = A::Error>> Parser<I> for (A, B) {
    type Output = (A::Output, B::Output);
    type Error = A::Error;

    open spec fn spec_parse(&self, text: Seq<char>, at: int) -> Outcome<
        (<A::Output as DeepView>::V, <B::Output as DeepView>::V),
        <A::Error as DeepView>::V,
    > {
        let o1 = self.0.spec_parse(text, at);
        let o2 = self.1.spec_parse(text, o1.end);
        if o1.result is Err {
            failed(o1)
        } else {
            Outcome {
                result: match o2.result {
                    Ok(v2) => Ok((o1.result->Ok_0, v2)),
                    Err(e) => Err(e),
                },
                end: o2.end,
                errs: o1.errs + o2.errs,
            }
        }
    }

    open spec fn parse_requires(&self) -> bool {
        self.0.parse_requires() && self.1.parse_requires()
    }

    proof fn lemma_parse_len(&self, text: Seq<char>, at: int) {
        self.0.lemma_parse_len(text, at);
        let o1 = self.0.spec_parse(text, at);
        self.1.lemma_parse_len(text, o1.end);
    }

    fn parse(&self, input: &mut I) -> (r: Result<(A::Output, B::Output), A::Error>) {
        let ghost a = *input;
        let first = self.0.parse(input)?;
        let ghost b = *input;
        let second = self.1.parse(input);
        proof {
            lemma_keeps_live_trans(a, b, *input);
            let o1 = self.0.spec_parse(a.text(), a.index() as int);
            let o2 = self.1.spec_parse(a.text(), o1.end);
            assert(input.errs() =~= a.errs() + (o1.errs + o2.errs));
        }
        let second = second?;
        Ok((first, second))
    }
}

/// Three parsers in turn, keeping the three values; the first failure stops.
impl<I: Input, A: Parser<I>, B: Parser<I, Error = A::Error>, C: Parser<I, Error = A::Error>> Parser<I> for (A, B, C) {
    type Output = (A::Output, B::Output, C::Output);
    type Error = A::Error;

    open spec fn spec_parse(&self, text: Seq<char>, at: int) -> Outcome<
        (<A::Output as DeepView>::V, <B::Output as DeepView>::V, <C::Output as DeepView>::V),
        <A::Error as DeepView>::V,
    > {
        let o1 = self.0.spec_parse(text, at);
        let o2 = self.1.spec_parse(text, o1.end);
        let o3 = self.2.spec_parse(text, o2.end);
        three(o1, o2, o3, (o1.result->Ok_0, o2.result->Ok_0, o3.result->Ok_0))
    }

    open spec fn parse_requires(&self) -> bool {
        self.0.parse_requires() && self.1.parse_requires() && self.2.parse_requires()
    }

    proof fn lemma_parse_len(&self, text: Seq<char>, at: int) {
        self.0.lemma_parse_len(text, at);
        let o1 = self.0.spec_parse(text, at);
        self.1.lemma_parse_len(text, o1.end);
        let o2 = self.1.spec_parse(text, o1.end);
        self.2.lemma_parse_len(text, o2.end);
    }

    fn parse(&self, input: &mut I) -> (r: Result<(A::Output, B::Output, C::Output), A::Error>) {
        let ghost a = *input;
        let first = self.0.parse(input)?;
        let ghost b = *input;
        let second = self.1.parse(input);
        let ghost c = *input;
        proof {
            lemma_keeps_live_trans(a, b, c);
            let o1 = self.0.spec_parse(a.text(), a.index() as int);
            let o2 = self.1.spec_parse(a.text(), o1.end);
            assert(c.errs() =~= a.errs() + (o1.errs + o2.errs));
        }
        let second = second?;
        let third = self.2.parse(input);
        proof {
            lemma_keeps_live_trans(a, c, *input);
            let o1 = self.0.spec_parse(a.text(), a.index() as int);
            let o2 = self.1.spec_parse(a.text(), o1.end);
            let o3 = self.2.spec_parse(a.text(), o2.end);
            assert(input.errs() =~= a.errs() + (o1.errs + o2.errs + o3.errs));
        }
        let third = third?;
        Ok((first, second, third))
    }
}

} // verus!
