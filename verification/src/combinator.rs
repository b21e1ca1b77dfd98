//! Combinators that build parsers out of parsers.
use vstd::prelude::*;

use crate::error::{first_token, unexpected_at, ErrorView, ParseError, SimpleError};
use crate::parser::{
    agrees, consumes_within, lemma_skip_skip, productive, And, Andl, Andr, Ignore, Mapped, Mapper,
    ParseResult, Parser, SpecResult,
};
use crate::pred::Pred;
use crate::tuple::{Choice, Sequenced};
use crate::slice::{lemma_chars_deep_view, prefix, suffix};

verus! {

// ---------------------------------------------------------------------------
// Runs of tokens
// ---------------------------------------------------------------------------

/// The end of the run of tokens, from index `i` on, of which `f` answers `want`.
pub open spec fn span_from<F: Pred>(f: F, want: bool, s: Seq<char>, i: int) -> int
    decreases s.len() - i,
{
    if 0 <= i < s.len() && f.spec_test(s[i]) == want {
        span_from(f, want, s, i + 1)
    } else {
        i
    }
}

/// The run ends between its start and the end of the input.
pub proof fn lemma_span_bounds<F: Pred>(f: F, want: bool, s: Seq<char>, i: int)
    requires
        0 <= i <= s.len(),
    ensures
        i <= span_from(f, want, s, i) <= s.len(),
    decreases s.len() - i,
{
    if 0 <= i < s.len() && f.spec_test(s[i]) == want {
        lemma_span_bounds(f, want, s, i + 1);
    }
}

/// Finds where the run of tokens, of which `f` answers `want`, ends.
fn run_end<F: Pred>(f: &F, want: bool, input: &[char], start: usize) -> (k: usize)
    requires
        start <= input@.len(),
    ensures
        k as int == span_from(*f, want, input@, start as int),
{
    let mut i = start;
    while i < input.len() && f.test(input[i]) == want
        invariant
            start <= i <= input@.len(),
            span_from(*f, want, input@, start as int) == span_from(*f, want, input@, i as int),
        decreases input@.len() - i,
    {
        i = i + 1;
    }
    i
}

/// What [`Take`] does: accept `n` tokens that all satisfy `f`.
pub open spec fn take_spec<F: Pred>(f: F, n: int, s: Seq<char>) -> SpecResult<Seq<char>> {
    let k = span_from(f, true, s, 0);
    if k >= n {
        Ok((s.take(n), n))
    } else {
        Err(unexpected_at(s.skip(k)))
    }
}

/// Accepts `n` tokens that all satisfy `f`; the value is the tokens accepted.
pub struct Take<F> {
    pub f: F,
    pub n: usize,
}

impl<'a, F: Pred> Parser<&'a [char]> for Take<F> {
    type Output = &'a [char];

    open spec fn spec_parse(&self, s: Seq<char>) -> SpecResult<Seq<char>> {
        take_spec(self.f, self.n as int, s)
    }

    open spec fn parse_requires(&self) -> bool {
        true
    }

    proof fn lemma_parse_len(&self, s: Seq<char>) {
        lemma_span_bounds(self.f, true, s, 0);
    }

    fn parse(&self, input: &'a [char]) -> (r: ParseResult<&'a [char], &'a [char]>) {
        let mut i: usize = 0;
        while i < self.n
            invariant
                i <= self.n,
                i <= input@.len(),
                span_from(self.f, true, input@, 0) == span_from(self.f, true, input@, i as int),
            decreases self.n - i,
        {
            if i < input.len() && self.f.test(input[i]) {
                i = i + 1;
            } else {
                return Err(SimpleError::unexpect(suffix(input, i)));
            }
        }
        proof {
            lemma_span_bounds(self.f, true, input@, i as int);
        }
        let front = prefix(input, i);
        proof {
            lemma_chars_deep_view(front);
        }
        Ok((front, suffix(input, i)))
    }
}

/// What [`TakeWhile`] does: accept the longest run of tokens that satisfy `f`,
/// which must not be empty when `at_least_one` holds.
pub open spec fn take_while_spec<F: Pred>(f: F, at_least_one: bool, s: Seq<char>) -> SpecResult<Seq<char>> {
    let k = span_from(f, true, s, 0);
    if at_least_one && k == 0 {
        Err(unexpected_at(s))
    } else {
        Ok((s.take(k), k))
    }
}

/// Accepts the longest run of tokens that satisfy `f` (a non-empty one when
/// `at_least_one` holds); the value is the tokens accepted.
pub struct TakeWhile<F> {
    pub f: F,
    pub at_least_one: bool,
}

impl<'a, F: Pred> Parser<&'a [char]> for TakeWhile<F> {
    type Output = &'a [char];

    open spec fn spec_parse(&self, s: Seq<char>) -> SpecResult<Seq<char>> {
        take_while_spec(self.f, self.at_least_one, s)
    }

    open spec fn parse_requires(&self) -> bool {
        true
    }

    proof fn lemma_parse_len(&self, s: Seq<char>) {
        lemma_span_bounds(self.f, true, s, 0);
    }

    fn parse(&self, input: &'a [char]) -> (r: ParseResult<&'a [char], &'a [char]>) {
        let k = run_end(&self.f, true, input, 0);
        proof {
            lemma_span_bounds(self.f, true, input@, 0);
        }
        if self.at_least_one && k == 0 {
            return Err(SimpleError::unexpect(input));
        }
        let front = prefix(input, k);
        proof {
            lemma_chars_deep_view(front);
        }
        Ok((front, suffix(input, k)))
    }
}

/// What [`TakeTill`] does: accept the tokens up to the first one that satisfies
/// `f` (which stays), failing at the end of the input; when `at_least_one`
/// holds, the first token must not satisfy `f`.
pub open spec fn take_till_spec<F: Pred>(f: F, at_least_one: bool, s: Seq<char>) -> SpecResult<Seq<char>> {
    if at_least_one && s.len() > 0 && f.spec_test(s[0]) {
        Err(unexpected_at(s))
    } else {
        let start: int = if at_least_one && s.len() > 0 { 1 } else { 0 };
        let k = span_from(f, false, s, start);
        if k == s.len() {
            Err(ErrorView::Unexpected(None))
        } else {
            Ok((s.take(k), k))
        }
    }
}

/// Accepts the tokens up to the first one that satisfies `f`.
pub struct TakeTill<F> {
    pub f: F,
    pub at_least_one: bool,
}

impl<'a, F: Pred> Parser<&'a [char]> for TakeTill<F> {
    type Output = &'a [char];

    open spec fn spec_parse(&self, s: Seq<char>) -> SpecResult<Seq<char>> {
        take_till_spec(self.f, self.at_least_one, s)
    }

    open spec fn parse_requires(&self) -> bool {
        true
    }

    proof fn lemma_parse_len(&self, s: Seq<char>) {
        let start: int = if self.at_least_one && s.len() > 0 { 1 } else { 0 };
        lemma_span_bounds(self.f, false, s, start);
    }

    fn parse(&self, input: &'a [char]) -> (r: ParseResult<&'a [char], &'a [char]>) {
        let mut start: usize = 0;
        if self.at_least_one {
            if input.len() > 0 {
                if self.f.test(input[0]) {
                    return Err(SimpleError::unexpect(input));
                }
                start = 1;
            }
        }
        let k = run_end(&self.f, false, input, start);
        proof {
            lemma_span_bounds(self.f, false, input@, start as int);
        }
        if k == input.len() {
            return Err(SimpleError::Unexpected(None));
        }
        let front = prefix(input, k);
        proof {
            lemma_chars_deep_view(front);
        }
        Ok((front, suffix(input, k)))
    }
}

/// A parser that accepts `n` tokens satisfying `f`.
pub fn take<F: Pred>(f: F, n: usize) -> (r: Take<F>)
    ensures
        r == (Take { f, n }),
{
    Take { f, n }
}

/// A parser that accepts the longest run of tokens satisfying `f`.
pub fn take_while<F: Pred>(f: F) -> (r: TakeWhile<F>)
    ensures
        r == (TakeWhile { f, at_least_one: false }),
{
    TakeWhile { f, at_least_one: false }
}

/// A parser that accepts the longest non-empty run of tokens satisfying `f`.
pub fn take_while1<F: Pred>(f: F) -> (r: TakeWhile<F>)
    ensures
        r == (TakeWhile { f, at_least_one: true }),
{
    TakeWhile { f, at_least_one: true }
}

/// A parser that accepts the tokens up to the first one satisfying `f`.
pub fn take_till<F: Pred>(f: F) -> (r: TakeTill<F>)
    ensures
        r == (TakeTill { f, at_least_one: false }),
{
    TakeTill { f, at_least_one: false }
}

/// A parser that accepts the tokens, at least one, up to the first one satisfying `f`.
pub fn take_till1<F: Pred>(f: F) -> (r: TakeTill<F>)
    ensures
        r == (TakeTill { f, at_least_one: true }),
{
    TakeTill { f, at_least_one: true }
}


// ---------------------------------------------------------------------------
// Repetition
// ---------------------------------------------------------------------------

/// The values that `p` parses again and again from `s` on, and the number of
/// tokens they take, stopping at the first failure.
pub open spec fn many_rec<'a, P: Parser<&'a [char]>>(p: P, s: Seq<char>) -> (Seq<<P::Output as DeepView>::V>, int)
    decreases s.len(),
{
    match p.spec_parse(s) {
        Ok((v, n)) => if 0 < n <= s.len() {
            let (vs, m) = many_rec(p, s.skip(n));
            (seq![v] + vs, n + m)
        } else {
            (seq![], 0)
        },
        Err(_) => (seq![], 0),
    }
}

/// The repeated parse stays within the input.
pub proof fn lemma_many_rec_len<'a, P: Parser<&'a [char]>>(p: P, s: Seq<char>)
    ensures
        0 <= many_rec(p, s).1 <= s.len(),
    decreases s.len(),
{
    if let Ok((v, n)) = p.spec_parse(s) {
        if 0 < n <= s.len() {
            lemma_many_rec_len(p, s.skip(n));
        }
    }
}

/// One more value at the end of a vector adds its deep view at the end of the sequence.
pub proof fn lemma_push_deep_view<T: DeepView>(old_v: Seq<T>, new_v: Seq<T>, x: T)
    requires
        new_v == old_v.push(x),
    ensures
        Seq::new(new_v.len(), |i: int| new_v[i].deep_view())
            == Seq::new(old_v.len(), |i: int| old_v[i].deep_view()).push(x.deep_view()),
{
    assert(Seq::new(new_v.len(), |i: int| new_v[i].deep_view())
        =~= Seq::new(old_v.len(), |i: int| old_v[i].deep_view()).push(x.deep_view()));
}

/// Applies `parser` again and again until it fails, collecting its values; with
/// `at_least_one`, the first application must succeed.
pub struct Many<P> {
    pub parser: P,
    pub at_least_one: bool,
}

/// Runs `p` from `input` until it fails, pushing the values onto `values`.
pub(crate) fn repeat_until_failure<'a, P: Parser<&'a [char]>>(p: &P, input: &'a [char], values: &mut Vec<P::Output>) -> (rest: &'a [char])
    requires
        p.parse_requires(),
        productive(*p),
    ensures
        final(values).deep_view() == old(values).deep_view() + many_rec(*p, input@).0,
        0 <= many_rec(*p, input@).1 <= input@.len(),
        rest@ == input@.skip(many_rec(*p, input@).1),
{
    let ghost start = old(values).deep_view();
    let mut rest = input;
    proof {
        lemma_many_rec_len(*p, input@);
        assert(input@.skip(0) =~= input@);
    }
    loop
        invariant
            p.parse_requires(),
            productive(*p),
            start == old(values).deep_view(),
            rest@.len() <= input@.len(),
            rest@ == input@.skip(input@.len() - rest@.len()),
            start + many_rec(*p, input@).0 == values.deep_view() + many_rec(*p, rest@).0,
            many_rec(*p, input@).1 == (input@.len() - rest@.len()) + many_rec(*p, rest@).1,
        decreases rest@.len(),
    {
        proof {
            p.lemma_parse_len(rest@);
        }
        match p.parse(rest) {
            Ok((o, i)) => {
                let ghost old_vals = values@;
                let ghost n = input@.len() - rest@.len();
                let ghost k = rest@.len() - i@.len();
                proof {
                    assert(p.spec_parse(rest@) matches Ok((_, m)) && m > 0);
                    let (vs, m) = many_rec(*p, i@);
                    assert(many_rec(*p, rest@) == (seq![o.deep_view()] + vs, k + m));
                }
                values.push(o);
                proof {
                    lemma_push_deep_view(old_vals, values@, o);
                    let (vs, m) = many_rec(*p, i@);
                    assert(seq![o.deep_view()] + vs == seq![o.deep_view()] + vs);
                    assert(values.deep_view() + vs =~= (values.deep_view().drop_last()) + (seq![o.deep_view()] + vs));
                    lemma_skip_skip(input@, n, k);
                }
                rest = i;
            },
            Err(_) => {
                proof {
                    assert(values.deep_view() + many_rec(*p, rest@).0 =~= values.deep_view());
                    assert(values.deep_view() =~= start + many_rec(*p, input@).0);
                }
                return rest;
            },
        }
    }
}

impl<'a, P: Parser<&'a [char]>> Parser<&'a [char]> for Many<P> {
    type Output = Vec<P::Output>;

    open spec fn spec_parse(&self, s: Seq<char>) -> SpecResult<Seq<<P::Output as DeepView>::V>> {
        if self.at_least_one && self.parser.spec_parse(s) is Err {
            match self.parser.spec_parse(s) {
                Err(e) => Err(e),
                Ok(_) => Err(unexpected_at(s)),
            }
        } else {
            Ok(many_rec(self.parser, s))
        }
    }

    open spec fn parse_requires(&self) -> bool {
        self.parser.parse_requires() && productive(self.parser)
    }

    proof fn lemma_parse_len(&self, s: Seq<char>) {
        lemma_many_rec_len(self.parser, s);
    }

    fn parse(&self, input: &'a [char]) -> (r: ParseResult<Vec<P::Output>, &'a [char]>) {
        if self.at_least_one {
            if let Err(e) = self.parser.parse(input) {
                return Err(e);
            }
        }
        let mut values: Vec<P::Output> = Vec::new();
        proof {
            assert(values.deep_view() =~= Seq::<<P::Output as DeepView>::V>::empty());
        }
        let rest = repeat_until_failure(&self.parser, input, &mut values);
        proof {
            assert(values.deep_view() =~= many_rec(self.parser, input@).0);
        }
        Ok((values, rest))
    }
}

/// A parser that applies `parser` zero or more times.
pub fn many<P>(parser: P) -> (r: Many<P>)
    ensures
        r == (Many { parser, at_least_one: false }),
{
    Many { parser, at_least_one: false }
}

/// A parser that applies `parser` one or more times.
pub fn many1<P>(parser: P) -> (r: Many<P>)
    ensures
        r == (Many { parser, at_least_one: true }),
{
    Many { parser, at_least_one: true }
}


/// `vs` and `c` tokens, followed by what `r` parses.
pub open spec fn prepend<V>(vs: Seq<V>, c: int, r: SpecResult<Seq<V>>) -> SpecResult<Seq<V>> {
    match r {
        Ok((ws, m)) => Ok((vs + ws, c + m)),
        Err(e) => Err(e),
    }
}

/// Prepending twice is prepending the two together.
pub proof fn lemma_prepend_push<V>(vs: Seq<V>, c: int, v: V, k: int, r: SpecResult<Seq<V>>)
    ensures
        prepend(vs, c, prepend(seq![v], k, r)) == prepend(vs.push(v), c + k, r),
{
    if let Ok((ws, m)) = r {
        assert(vs + (seq![v] + ws) =~= vs.push(v) + ws);
    }
}

/// Prepending to the empty result.
pub proof fn lemma_prepend_empty<V>(vs: Seq<V>, c: int)
    ensures
        prepend(vs, c, Ok((Seq::<V>::empty(), 0))) == Ok::<(Seq<V>, int), ErrorView>((vs, c)),
{
    assert(vs + Seq::<V>::empty() =~= vs);
}

/// What [`Count`] does: apply `p` exactly `k` times.
pub open spec fn count_rec<'a, P: Parser<&'a [char]>>(p: P, k: nat, s: Seq<char>) -> SpecResult<Seq<<P::Output as DeepView>::V>>
    decreases k,
{
    if k == 0 {
        Ok((seq![], 0))
    } else {
        match p.spec_parse(s) {
            Err(e) => Err(e),
            Ok((v, n)) => prepend(seq![v], n, count_rec(p, (k - 1) as nat, s.skip(n))),
        }
    }
}

/// Applying `p` `k` times stays within the input.
pub proof fn lemma_count_rec_len<'a, P: Parser<&'a [char]>>(p: P, k: nat, s: Seq<char>)
    ensures
        consumes_within(count_rec(p, k, s), s),
    decreases k,
{
    if k > 0 {
        p.lemma_parse_len(s);
        if let Ok((v, n)) = p.spec_parse(s) {
            lemma_count_rec_len(p, (k - 1) as nat, s.skip(n));
        }
    }
}

/// Applies `parser` exactly `n` times, collecting its values.
pub struct Count<P> {
    pub parser: P,
    pub n: usize,
}

impl<'a, P: Parser<&'a [char]>> Parser<&'a [char]> for Count<P> {
    type Output = Vec<P::Output>;

    open spec fn spec_parse(&self, s: Seq<char>) -> SpecResult<Seq<<P::Output as DeepView>::V>> {
        count_rec(self.parser, self.n as nat, s)
    }

    open spec fn parse_requires(&self) -> bool {
        self.parser.parse_requires()
    }

    proof fn lemma_parse_len(&self, s: Seq<char>) {
        lemma_count_rec_len(self.parser, self.n as nat, s);
    }

    fn parse(&self, input: &'a [char]) -> (r: ParseResult<Vec<P::Output>, &'a [char]>) {
        let mut values: Vec<P::Output> = Vec::new();
        let mut rest = input;
        let mut i: usize = 0;
        proof {
            assert(values.deep_view() =~= Seq::<<P::Output as DeepView>::V>::empty());
            assert(input@.skip(0) =~= input@);
            assert(prepend(values.deep_view(), 0, count_rec(self.parser, self.n as nat, input@))
                =~~= count_rec(self.parser, self.n as nat, input@));
        }
        while i < self.n
            invariant
                self.parser.parse_requires(),
                i <= self.n,
                rest@.len() <= input@.len(),
                rest@ == input@.skip(input@.len() - rest@.len()),
                count_rec(self.parser, self.n as nat, input@) == prepend(
                    values.deep_view(),
                    input@.len() - rest@.len(),
                    count_rec(self.parser, (self.n - i) as nat, rest@),
                ),
            decreases self.n - i,
        {
            proof {
                self.parser.lemma_parse_len(rest@);
            }
            let ghost c = input@.len() - rest@.len();
            match self.parser.parse(rest) {
                Ok((o, next)) => {
                    let ghost old_vals = values@;
                    let ghost k = rest@.len() - next@.len();
                    proof {
                        lemma_prepend_push(values.deep_view(), c, o.deep_view(), k,
                            count_rec(self.parser, (self.n - i - 1) as nat, next@));
                    }
                    values.push(o);
                    proof {
                        lemma_push_deep_view(old_vals, values@, o);
                        lemma_skip_skip(input@, c, k);
                    }
                    rest = next;
                    i = i + 1;
                },
                Err(e) => {
                    return Err(e);
                },
            }
        }
        proof {
            lemma_prepend_empty(values.deep_view(), input@.len() - rest@.len());
        }
        Ok((values, rest))
    }
}

/// A parser that applies `parser` exactly `n` times.
pub fn count<P>(parser: P, n: usize) -> (r: Count<P>)
    ensures
        r == (Count { parser, n }),
{
    Count { parser, n }
}


/// What [`ManyTill`] does from `s` on: while `f` fails, apply `p`.
pub open spec fn till_rec<'a, P: Parser<&'a [char]>, F: Parser<&'a [char]>>(p: P, f: F, s: Seq<char>) -> SpecResult<Seq<<P::Output as DeepView>::V>>
    decreases s.len(),
{
    match f.spec_parse(s) {
        Ok(_) => Ok((seq![], 0)),
        Err(_) => match p.spec_parse(s) {
            Err(e) => Err(e),
            Ok((v, n)) => if 0 < n <= s.len() {
                prepend(seq![v], n, till_rec(p, f, s.skip(n)))
            } else {
                Ok((seq![], 0))
            },
        },
    }
}

/// The repetition stays within the input.
pub proof fn lemma_till_rec_len<'a, P: Parser<&'a [char]>, F: Parser<&'a [char]>>(p: P, f: F, s: Seq<char>)
    ensures
        consumes_within(till_rec(p, f, s), s),
    decreases s.len(),
{
    if let Err(_) = f.spec_parse(s) {
        if let Ok((v, n)) = p.spec_parse(s) {
            if 0 < n <= s.len() {
                lemma_till_rec_len(p, f, s.skip(n));
            }
        }
    }
}

/// Applies `parser` until `pred` succeeds (without consuming what `pred` accepts).
pub struct ManyTill<P, F> {
    pub parser: P,
    pub pred: F,
}

impl<'a, P: Parser<&'a [char]>, F: Parser<&'a [char]>> Parser<&'a [char]> for ManyTill<P, F> {
    type Output = Vec<P::Output>;

    open spec fn spec_parse(&self, s: Seq<char>) -> SpecResult<Seq<<P::Output as DeepView>::V>> {
        till_rec(self.parser, self.pred, s)
    }

    open spec fn parse_requires(&self) -> bool {
        self.parser.parse_requires() && self.pred.parse_requires() && productive(self.parser)
    }

    proof fn lemma_parse_len(&self, s: Seq<char>) {
        lemma_till_rec_len(self.parser, self.pred, s);
    }

    fn parse(&self, input: &'a [char]) -> (r: ParseResult<Vec<P::Output>, &'a [char]>) {
        let mut values: Vec<P::Output> = Vec::new();
        let mut rest = input;
        proof {
            assert(values.deep_view() =~= Seq::<<P::Output as DeepView>::V>::empty());
            assert(input@.skip(0) =~= input@);
            assert(prepend(values.deep_view(), 0, till_rec(self.parser, self.pred, input@))
                =~~= till_rec(self.parser, self.pred, input@));
        }
        loop
            invariant
                self.parse_requires(),
                rest@.len() <= input@.len(),
                rest@ == input@.skip(input@.len() - rest@.len()),
                till_rec(self.parser, self.pred, input@) == prepend(
                    values.deep_view(),
                    input@.len() - rest@.len(),
                    till_rec(self.parser, self.pred, rest@),
                ),
            decreases rest@.len(),
        {
            let ghost c = input@.len() - rest@.len();
            if let Ok(_) = self.pred.parse(rest) {
                proof {
                    lemma_prepend_empty(values.deep_view(), c);
                }
                return Ok((values, rest));
            }
            proof {
                self.parser.lemma_parse_len(rest@);
            }
            match self.parser.parse(rest) {
                Ok((o, next)) => {
                    let ghost old_vals = values@;
                    let ghost k = rest@.len() - next@.len();
                    proof {
                        assert(self.parser.spec_parse(rest@) matches Ok((_, m)) && m > 0);
                        lemma_prepend_push(values.deep_view(), c, o.deep_view(), k,
                            till_rec(self.parser, self.pred, next@));
                    }
                    values.push(o);
                    proof {
                        lemma_push_deep_view(old_vals, values@, o);
                        lemma_skip_skip(input@, c, k);
                    }
                    rest = next;
                },
                Err(e) => {
                    return Err(e);
                },
            }
        }
    }
}

/// A parser that applies `parser` until `f` succeeds.
pub fn many_till<P, F>(parser: P, f: F) -> (r: ManyTill<P, F>)
    ensures
        r == (ManyTill { parser, pred: f }),
{
    ManyTill { parser, pred: f }
}

/// What [`SepBy`] does after an element: while `sep` succeeds, apply `p` after it.
pub open spec fn sep_tail<'a, P: Parser<&'a [char]>, S: Parser<&'a [char]>>(p: P, sep: S, s: Seq<char>) -> SpecResult<Seq<<P::Output as DeepView>::V>>
    decreases s.len(),
{
    match sep.spec_parse(s) {
        Err(_) => Ok((seq![], 0)),
        Ok((_, n1)) => match p.spec_parse(s.skip(n1)) {
            Err(e) => Err(e),
            Ok((v, n2)) => if 0 <= n1 <= s.len() && 0 <= n2 <= s.len() - n1 && 0 < n1 + n2 {
                prepend(seq![v], n1 + n2, sep_tail(p, sep, s.skip(n1 + n2)))
            } else {
                Ok((seq![], 0))
            },
        },
    }
}

/// The separated repetition stays within the input.
pub proof fn lemma_sep_tail_len<'a, P: Parser<&'a [char]>, S: Parser<&'a [char]>>(p: P, sep: S, s: Seq<char>)
    ensures
        consumes_within(sep_tail(p, sep, s), s),
    decreases s.len(),
{
    if let Ok((_, n1)) = sep.spec_parse(s) {
        if let Ok((v, n2)) = p.spec_parse(s.skip(n1)) {
            if 0 <= n1 <= s.len() && 0 <= n2 <= s.len() - n1 && 0 < n1 + n2 {
                lemma_sep_tail_len(p, sep, s.skip(n1 + n2));
            }
        }
    }
}

/// Either `p` or `q` makes progress whenever it succeeds.
pub open spec fn one_productive<'a, P: Parser<&'a [char]>, Q: Parser<&'a [char]>>(p: P, q: Q) -> bool {
    productive(p) || productive(q)
}

/// Applies `parser` repeatedly, separated by `sep`; with `at_least_one`, the
/// first element must be there.
pub struct SepBy<P, S> {
    pub parser: P,
    pub sep: S,
    pub at_least_one: bool,
}

impl<'a, P: Parser<&'a [char]>, S: Parser<&'a [char]>> Parser<&'a [char]> for SepBy<P, S> {
    type Output = Vec<P::Output>;

    open spec fn spec_parse(&self, s: Seq<char>) -> SpecResult<Seq<<P::Output as DeepView>::V>> {
        match self.parser.spec_parse(s) {
            Err(e) => if self.at_least_one {
                Err(e)
            } else {
                Ok((seq![], 0))
            },
            Ok((v, n)) => prepend(seq![v], n, sep_tail(self.parser, self.sep, s.skip(n))),
        }
    }

    open spec fn parse_requires(&self) -> bool {
        self.parser.parse_requires() && self.sep.parse_requires() && one_productive(self.parser, self.sep)
    }

    proof fn lemma_parse_len(&self, s: Seq<char>) {
        self.parser.lemma_parse_len(s);
        if let Ok((v, n)) = self.parser.spec_parse(s) {
            lemma_sep_tail_len(self.parser, self.sep, s.skip(n));
        }
    }

    fn parse(&self, input: &'a [char]) -> (r: ParseResult<Vec<P::Output>, &'a [char]>) {
        proof {
            self.parser.lemma_parse_len(input@);
        }
        let (first, mut rest) = match self.parser.parse(input) {
            Ok(t) => t,
            Err(e) => {
                if self.at_least_one {
                    return Err(e);
                }
                let empty: Vec<P::Output> = Vec::new();
                proof {
                    assert(empty.deep_view() =~= Seq::<<P::Output as DeepView>::V>::empty());
                    assert(input@.skip(0) =~= input@);
                }
                return Ok((empty, input));
            },
        };
        let mut values: Vec<P::Output> = Vec::new();
        values.push(first);
        proof {
            assert(values.deep_view() =~= seq![first.deep_view()]);
        }
        loop
            invariant
                self.parse_requires(),
                rest@.len() <= input@.len(),
                rest@ == input@.skip(input@.len() - rest@.len()),
                self.spec_parse(input@) == prepend(
                    values.deep_view(),
                    input@.len() - rest@.len(),
                    sep_tail(self.parser, self.sep, rest@),
                ),
            decreases rest@.len(),
        {
            let ghost c = input@.len() - rest@.len();
            proof {
                self.sep.lemma_parse_len(rest@);
            }
            let after_sep = match self.sep.parse(rest) {
                Ok((_, i)) => i,
                Err(_) => {
                    proof {
                        lemma_prepend_empty(values.deep_view(), c);
                    }
                    return Ok((values, rest));
                },
            };
            proof {
                self.parser.lemma_parse_len(after_sep@);
            }
            match self.parser.parse(after_sep) {
                Ok((o, next)) => {
                    let ghost old_vals = values@;
                    let ghost n1 = rest@.len() - after_sep@.len();
                    let ghost n2 = after_sep@.len() - next@.len();
                    proof {
                        if productive(self.sep) {
                            assert(self.sep.spec_parse(rest@) matches Ok((_, m)) && m > 0);
                        } else {
                            assert(self.parser.spec_parse(after_sep@) matches Ok((_, m)) && m > 0);
                        }
                        lemma_skip_skip(rest@, n1, n2);
                        lemma_prepend_push(values.deep_view(), c, o.deep_view(), n1 + n2,
                            sep_tail(self.parser, self.sep, next@));
                    }
                    values.push(o);
                    proof {
                        lemma_push_deep_view(old_vals, values@, o);
                        lemma_skip_skip(input@, c, n1 + n2);
                    }
                    rest = next;
                },
                Err(e) => {
                    return Err(e);
                },
            }
        }
    }
}

/// A parser that applies `parser` zero or more times, separated by `sep`.
pub fn sep_by<P, S>(parser: P, sep: S) -> (r: SepBy<P, S>)
    ensures
        r == (SepBy { parser, sep, at_least_one: false }),
{
    SepBy { parser, sep, at_least_one: false }
}

/// A parser that applies `parser` one or more times, separated by `sep`.
pub fn sep_by1<P, S>(parser: P, sep: S) -> (r: SepBy<P, S>)
    ensures
        r == (SepBy { parser, sep, at_least_one: true }),
{
    SepBy { parser, sep, at_least_one: true }
}

/// What [`EndBy`] does from `s` on: while `p` succeeds, `sep` must follow it.
pub open spec fn end_tail<'a, P: Parser<&'a [char]>, S: Parser<&'a [char]>>(p: P, sep: S, s: Seq<char>) -> SpecResult<Seq<<P::Output as DeepView>::V>>
    decreases s.len(),
{
    match p.spec_parse(s) {
        Err(_) => Ok((seq![], 0)),
        Ok((v, n1)) => match sep.spec_parse(s.skip(n1)) {
            Err(e) => Err(e),
            Ok((_, n2)) => if 0 <= n1 <= s.len() && 0 <= n2 <= s.len() - n1 && 0 < n1 + n2 {
                prepend(seq![v], n1 + n2, end_tail(p, sep, s.skip(n1 + n2)))
            } else {
                Ok((seq![], 0))
            },
        },
    }
}

/// The terminated repetition stays within the input.
pub proof fn lemma_end_tail_len<'a, P: Parser<&'a [char]>, S: Parser<&'a [char]>>(p: P, sep: S, s: Seq<char>)
    ensures
        consumes_within(end_tail(p, sep, s), s),
    decreases s.len(),
{
    if let Ok((v, n1)) = p.spec_parse(s) {
        if let Ok((_, n2)) = sep.spec_parse(s.skip(n1)) {
            if 0 <= n1 <= s.len() && 0 <= n2 <= s.len() - n1 && 0 < n1 + n2 {
                lemma_end_tail_len(p, sep, s.skip(n1 + n2));
            }
        }
    }
}

/// Applies `parser`, each time followed by `sep`, repeatedly; with
/// `at_least_one`, the first element must be there.
pub struct EndBy<P, S> {
    pub parser: P,
    pub sep: S,
    pub at_least_one: bool,
}

impl<'a, P: Parser<&'a [char]>, S: Parser<&'a [char]>> Parser<&'a [char]> for EndBy<P, S> {
    type Output = Vec<P::Output>;

    open spec fn spec_parse(&self, s: Seq<char>) -> SpecResult<Seq<<P::Output as DeepView>::V>> {
        match self.parser.spec_parse(s) {
            Err(e) => if self.at_least_one {
                Err(e)
            } else {
                Ok((seq![], 0))
            },
            Ok(_) => end_tail(self.parser, self.sep, s),
        }
    }

    open spec fn parse_requires(&self) -> bool {
        self.parser.parse_requires() && self.sep.parse_requires() && one_productive(self.parser, self.sep)
    }

    proof fn lemma_parse_len(&self, s: Seq<char>) {
        lemma_end_tail_len(self.parser, self.sep, s);
    }

    fn parse(&self, input: &'a [char]) -> (r: ParseResult<Vec<P::Output>, &'a [char]>) {
        let mut values: Vec<P::Output> = Vec::new();
        let mut rest = input;
        proof {
            assert(values.deep_view() =~= Seq::<<P::Output as DeepView>::V>::empty());
            assert(input@.skip(0) =~= input@);
            assert(prepend(values.deep_view(), 0, end_tail(self.parser, self.sep, input@))
                =~~= end_tail(self.parser, self.sep, input@));
        }
        loop
            invariant
                self.parse_requires(),
                rest@.len() <= input@.len(),
                rest@ == input@.skip(input@.len() - rest@.len()),
                end_tail(self.parser, self.sep, input@) == prepend(
                    values.deep_view(),
                    input@.len() - rest@.len(),
                    end_tail(self.parser, self.sep, rest@),
                ),
                self.at_least_one && rest@.len() == input@.len() ==> rest@ == input@,
            decreases rest@.len(),
        {
            let ghost c = input@.len() - rest@.len();
            proof {
                self.parser.lemma_parse_len(rest@);
            }
            let (o, after) = match self.parser.parse(rest) {
                Ok(t) => t,
                Err(e) => {
                    if self.at_least_one && rest.len() == input.len() {
                        return Err(e);
                    }
                    proof {
                        lemma_prepend_empty(values.deep_view(), c);
                    }
                    return Ok((values, rest));
                },
            };
            proof {
                self.sep.lemma_parse_len(after@);
            }
            match self.sep.parse(after) {
                Ok((_, next)) => {
                    let ghost old_vals = values@;
                    let ghost n1 = rest@.len() - after@.len();
                    let ghost n2 = after@.len() - next@.len();
                    proof {
                        if productive(self.sep) {
                            assert(self.sep.spec_parse(after@) matches Ok((_, m)) && m > 0);
                        } else {
                            assert(self.parser.spec_parse(rest@) matches Ok((_, m)) && m > 0);
                        }
                        lemma_skip_skip(rest@, n1, n2);
                        lemma_prepend_push(values.deep_view(), c, o.deep_view(), n1 + n2,
                            end_tail(self.parser, self.sep, next@));
                    }
                    values.push(o);
                    proof {
                        lemma_push_deep_view(old_vals, values@, o);
                        lemma_skip_skip(input@, c, n1 + n2);
                    }
                    rest = next;
                },
                Err(e) => {
                    return Err(e);
                },
            }
        }
    }
}

/// A parser that applies `parser` zero or more times, each time followed by `sep`.
pub fn end_by<P, S>(parser: P, sep: S) -> (r: EndBy<P, S>)
    ensures
        r == (EndBy { parser, sep, at_least_one: false }),
{
    EndBy { parser, sep, at_least_one: false }
}

/// A parser that applies `parser` one or more times, each time followed by `sep`.
pub fn end_by1<P, S>(parser: P, sep: S) -> (r: EndBy<P, S>)
    ensures
        r == (EndBy { parser, sep, at_least_one: true }),
{
    EndBy { parser, sep, at_least_one: true }
}


// ---------------------------------------------------------------------------
// Choice, look-ahead and sequencing
// ---------------------------------------------------------------------------

/// Tries `parser`; where it fails, succeeds with `None` without consuming input.
pub struct Opt<P> {
    pub parser: P,
}

impl<'a, P: Parser<&'a [char]>> Parser<&'a [char]> for Opt<P> {
    type Output = Option<P::Output>;

    open spec fn spec_parse(&self, s: Seq<char>) -> SpecResult<Option<<P::Output as DeepView>::V>> {
        match self.parser.spec_parse(s) {
            Ok((v, n)) => Ok((Some(v), n)),
            Err(_) => Ok((None, 0)),
        }
    }

    open spec fn parse_requires(&self) -> bool {
        self.parser.parse_requires()
    }

    proof fn lemma_parse_len(&self, s: Seq<char>) {
        self.parser.lemma_parse_len(s);
    }

    fn parse(&self, input: &'a [char]) -> (r: ParseResult<Option<P::Output>, &'a [char]>) {
        match self.parser.parse(input) {
            Ok((o, i)) => Ok((Some(o), i)),
            Err(_) => {
                proof {
                    assert(input@.skip(0) =~= input@);
                }
                Ok((None, input))
            },
        }
    }
}

/// A parser that tries `parser` and succeeds with `None` where it fails.
pub fn opt<P>(parser: P) -> (r: Opt<P>)
    ensures
        r == (Opt { parser }),
{
    Opt { parser }
}

/// A parser that applies `open`, `parser` and `close` in turn, keeping the value of `parser`.
pub fn between<L, P, R>(open: L, parser: P, close: R) -> (r: Andr<L, Andl<P, R>>)
    ensures
        r == (Andr { first: open, second: Andl { first: parser, second: close } }),
{
    Andr { first: open, second: Andl { first: parser, second: close } }
}

/// A parser that applies `left`, `sep` and `right` in turn, keeping the values of `left` and `right`.
pub fn pair<L, S, R>(left: L, sep: S, right: R) -> (r: And<L, Andr<S, R>>)
    ensures
        r == (And { first: left, second: Andr { first: sep, second: right } }),
{
    And { first: left, second: Andr { first: sep, second: right } }
}

/// A parser that applies `first` then `second`, keeping the value of `second`.
pub fn preceded<A, B>(first: A, second: B) -> (r: Andr<A, B>)
    ensures
        r == (Andr { first, second }),
{
    Andr { first, second }
}

/// A parser that applies `first` then `second`, keeping the value of `first`.
pub fn terminated<A, B>(first: A, second: B) -> (r: Andl<A, B>)
    ensures
        r == (Andl { first, second }),
{
    Andl { first, second }
}

/// A parser that applies `parser` zero or more times and drops the values.
pub fn skip_many<P>(parser: P) -> (r: Ignore<Many<P>>)
    ensures
        r == (Ignore { parser: Many { parser, at_least_one: false } }),
{
    Ignore { parser: Many { parser, at_least_one: false } }
}

/// A parser that applies `parser` one or more times and drops the values.
pub fn skip_many1<P>(parser: P) -> (r: Ignore<Many<P>>)
    ensures
        r == (Ignore { parser: Many { parser, at_least_one: true } }),
{
    Ignore { parser: Many { parser, at_least_one: true } }
}

/// A parser that applies `parser` until `f` succeeds and drops the values.
pub fn skip_till<P, F>(parser: P, f: F) -> (r: Ignore<ManyTill<P, F>>)
    ensures
        r == (Ignore { parser: ManyTill { parser, pred: f } }),
{
    Ignore { parser: ManyTill { parser, pred: f } }
}

/// A parser that applies `parser` exactly `n` times and drops the values.
pub fn skip<P>(parser: P, n: usize) -> (r: Ignore<Count<P>>)
    ensures
        r == (Ignore { parser: Count { parser, n } }),
{
    Ignore { parser: Count { parser, n } }
}

/// Applies `parser` without consuming input.
pub struct Peek<P> {
    pub parser: P,
}

impl<'a, P: Parser<&'a [char]>> Parser<&'a [char]> for Peek<P> {
    type Output = P::Output;

    open spec fn spec_parse(&self, s: Seq<char>) -> SpecResult<<P::Output as DeepView>::V> {
        match self.parser.spec_parse(s) {
            Ok((v, _)) => Ok((v, 0)),
            Err(e) => Err(e),
        }
    }

    open spec fn parse_requires(&self) -> bool {
        self.parser.parse_requires()
    }

    proof fn lemma_parse_len(&self, s: Seq<char>) {
    }

    fn parse(&self, input: &'a [char]) -> (r: ParseResult<P::Output, &'a [char]>) {
        proof {
            assert(input@.skip(0) =~= input@);
        }
        match self.parser.parse(input) {
            Ok((o, _)) => Ok((o, input)),
            Err(e) => Err(e),
        }
    }
}

/// A parser that applies `parser` without consuming input.
pub fn peek<P>(parser: P) -> (r: Peek<P>)
    ensures
        r == (Peek { parser }),
{
    Peek { parser }
}

/// Applies `parser`; the value is the input it consumed.
pub struct Recognize<P> {
    pub parser: P,
}

impl<'a, P: Parser<&'a [char]>> Parser<&'a [char]> for Recognize<P> {
    type Output = &'a [char];

    open spec fn spec_parse(&self, s: Seq<char>) -> SpecResult<Seq<char>> {
        match self.parser.spec_parse(s) {
            Ok((_, n)) => Ok((s.take(n), n)),
            Err(e) => Err(e),
        }
    }

    open spec fn parse_requires(&self) -> bool {
        self.parser.parse_requires()
    }

    proof fn lemma_parse_len(&self, s: Seq<char>) {
        self.parser.lemma_parse_len(s);
    }

    fn parse(&self, input: &'a [char]) -> (r: ParseResult<&'a [char], &'a [char]>) {
        let src = input;
        let (_, i) = self.parser.parse(input)?;
        let consumed = crate::slice::diff(src, i);
        proof {
            lemma_chars_deep_view(consumed);
        }
        Ok((consumed, i))
    }
}

/// A parser whose value is the input that `parser` consumed.
pub fn recognize<P>(parser: P) -> (r: Recognize<P>)
    ensures
        r == (Recognize { parser }),
{
    Recognize { parser }
}

/// Succeeds, consuming nothing, where `parser` fails.
pub struct Not<P> {
    pub parser: P,
}

impl<'a, P: Parser<&'a [char]>> Parser<&'a [char]> for Not<P> {
    type Output = ();

    open spec fn spec_parse(&self, s: Seq<char>) -> SpecResult<()> {
        match self.parser.spec_parse(s) {
            Err(_) => Ok(((), 0)),
            Ok(_) => Err(unexpected_at(s)),
        }
    }

    open spec fn parse_requires(&self) -> bool {
        self.parser.parse_requires()
    }

    proof fn lemma_parse_len(&self, s: Seq<char>) {
    }

    fn parse(&self, input: &'a [char]) -> (r: ParseResult<(), &'a [char]>) {
        match self.parser.parse(input) {
            Err(_) => {
                proof {
                    assert(input@.skip(0) =~= input@);
                }
                Ok(((), input))
            },
            Ok(_) => Err(SimpleError::unexpect(input)),
        }
    }
}

/// A parser that succeeds where `parser` fails.
pub fn not<P>(parser: P) -> (r: Not<P>)
    ensures
        r == (Not { parser }),
{
    Not { parser }
}

/// Applies `parser` after `cond`; where `cond` fails, succeeds with `None`.
pub struct Cond<C, P> {
    pub cond: C,
    pub parser: P,
}

impl<'a, C: Parser<&'a [char]>, P: Parser<&'a [char]>> Parser<&'a [char]> for Cond<C, P> {
    type Output = Option<P::Output>;

    open spec fn spec_parse(&self, s: Seq<char>) -> SpecResult<Option<<P::Output as DeepView>::V>> {
        match self.cond.spec_parse(s) {
            Ok((_, n)) => match self.parser.spec_parse(s.skip(n)) {
                Ok((v, m)) => Ok((Some(v), n + m)),
                Err(e) => Err(e),
            },
            Err(_) => Ok((None, 0)),
        }
    }

    open spec fn parse_requires(&self) -> bool {
        self.cond.parse_requires() && self.parser.parse_requires()
    }

    proof fn lemma_parse_len(&self, s: Seq<char>) {
        self.cond.lemma_parse_len(s);
        if let Ok((_, n)) = self.cond.spec_parse(s) {
            self.parser.lemma_parse_len(s.skip(n));
        }
    }

    fn parse(&self, input: &'a [char]) -> (r: ParseResult<Option<P::Output>, &'a [char]>) {
        proof {
            self.cond.lemma_parse_len(input@);
        }
        match self.cond.parse(input) {
            Ok((_, i)) => {
                proof {
                    self.parser.lemma_parse_len(i@);
                }
                match self.parser.parse(i) {
                    Ok((o, i2)) => {
                        proof {
                            let n = input@.len() - i@.len();
                            let m = i@.len() - i2@.len();
                            lemma_skip_skip(input@, n, m);
                        }
                        Ok((Some(o), i2))
                    },
                    Err(e) => Err(e),
                }
            },
            Err(_) => {
                proof {
                    assert(input@.skip(0) =~= input@);
                }
                Ok((None, input))
            },
        }
    }
}

/// A parser that applies `parser` where `f` succeeds, and yields `None` where it fails.
pub fn cond<F, P>(f: F, parser: P) -> (r: Cond<F, P>)
    ensures
        r == (Cond { cond: f, parser }),
{
    Cond { cond: f, parser }
}

// ---------------------------------------------------------------------------
// Parsers that consume nothing or check the end
// ---------------------------------------------------------------------------

/// What [`eof`] does: succeed at the end of the input.
pub open spec fn eof_spec(s: Seq<char>) -> SpecResult<()> {
    if s.len() == 0 {
        Ok(((), 0))
    } else {
        Err(unexpected_at(s))
    }
}

/// Succeeds at the end of the input.
pub fn eof<'a>(input: &'a [char]) -> (r: ParseResult<(), &'a [char]>)
    ensures
        agrees(eof_spec(input@), input@, r),
{
    if input.len() == 0 {
        proof {
            assert(input@.skip(0) =~= input@);
        }
        Ok(((), input))
    } else {
        Err(SimpleError::unexpect(input))
    }
}

/// Succeeds without consuming input.
pub fn empty<'a>(input: &'a [char]) -> (r: ParseResult<(), &'a [char]>)
    ensures
        agrees(Ok::<((), int), ErrorView>(((), 0)), input@, r),
{
    proof {
        assert(input@.skip(0) =~= input@);
    }
    Ok(((), input))
}

/// Always fails.
pub fn error<'a>(input: &'a [char]) -> (r: ParseResult<(), &'a [char]>)
    ensures
        agrees(Err::<((), int), ErrorView>(unexpected_at(input@)), input@, r),
{
    Err(SimpleError::unexpect(input))
}

/// Succeeds with `value` without consuming input.
pub struct Pure<T> {
    pub value: T,
}

impl<'a, T: Copy + DeepView> Parser<&'a [char]> for Pure<T> {
    type Output = T;

    open spec fn spec_parse(&self, s: Seq<char>) -> SpecResult<T::V> {
        Ok((self.value.deep_view(), 0))
    }

    open spec fn parse_requires(&self) -> bool {
        true
    }

    proof fn lemma_parse_len(&self, s: Seq<char>) {
    }

    fn parse(&self, input: &'a [char]) -> (r: ParseResult<T, &'a [char]>) {
        proof {
            assert(input@.skip(0) =~= input@);
        }
        Ok((self.value, input))
    }
}

/// A parser that succeeds with `t` without consuming input.
pub fn pure<T>(t: T) -> (r: Pure<T>)
    ensures
        r == (Pure { value: t }),
{
    Pure { value: t }
}

/// The function that maps every value to `value`.
pub struct Const<T> {
    pub value: T,
}

impl<A: DeepView, T: Copy + DeepView> Mapper<A> for Const<T> {
    type Out = T;

    open spec fn spec_apply(&self, a: A::V) -> T::V {
        self.value.deep_view()
    }

    fn apply(&self, a: A) -> (b: T) {
        self.value
    }
}

/// A parser that applies `parser` and yields `v` in place of its value.
pub fn value<T, P>(v: T, parser: P) -> (r: Mapped<P, Const<T>>)
    ensures
        r == (Mapped { parser, f: Const { value: v } }),
{
    Mapped { parser, f: Const { value: v } }
}

/// A test on parsed values, with the statement of what it accepts.
pub trait Check<O: DeepView> {
    spec fn spec_check(&self, v: O::V) -> bool;

    fn check(&self, o: &O) -> (b: bool)
        ensures
            b == self.spec_check(o.deep_view()),
    ;
}

/// Applies `parser` and fails, in front of the original input, where `f`
/// rejects the value.
pub struct Verify<P, F> {
    pub parser: P,
    pub f: F,
}

impl<'a, P: Parser<&'a [char]>, F: Check<P::Output>> Parser<&'a [char]> for Verify<P, F> {
    type Output = P::Output;

    open spec fn spec_parse(&self, s: Seq<char>) -> SpecResult<<P::Output as DeepView>::V> {
        match self.parser.spec_parse(s) {
            Ok((v, n)) => if self.f.spec_check(v) {
                Ok((v, n))
            } else {
                Err(unexpected_at(s))
            },
            Err(e) => Err(e),
        }
    }

    open spec fn parse_requires(&self) -> bool {
        self.parser.parse_requires()
    }

    proof fn lemma_parse_len(&self, s: Seq<char>) {
        self.parser.lemma_parse_len(s);
    }

    fn parse(&self, input: &'a [char]) -> (r: ParseResult<P::Output, &'a [char]>) {
        let src = input;
        let (o, i) = self.parser.parse(input)?;
        if self.f.check(&o) {
            Ok((o, i))
        } else {
            Err(SimpleError::unexpect(src))
        }
    }
}

/// A parser that applies `parser` and keeps its value only where `f` accepts it.
pub fn verify<P, F>(parser: P, f: F) -> (r: Verify<P, F>)
    ensures
        r == (Verify { parser, f }),
{
    Verify { parser, f }
}


/// A parser that tries the parsers of the tuple `list` in turn.
pub fn alt<L>(list: L) -> (r: Choice<L>)
    ensures
        r == (Choice { list }),
{
    Choice { list }
}

/// A parser that runs the parsers of the tuple `list` in sequence.
pub fn seq<L>(list: L) -> (r: Sequenced<L>)
    ensures
        r == (Sequenced { list }),
{
    Sequenced { list }
}

} // verus!
