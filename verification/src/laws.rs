//! What holds of the combinators on every input.
use vstd::prelude::*;

use crate::combinator::{
    count_rec, eof_spec, many_rec, Count, Many, Not, Opt, Peek, Recognize, SepBy,
};
use crate::char::{literal_match_from, literal_spec};
use crate::error::ErrorView;
use crate::combinator::{span_from, Take, TakeTill, TakeWhile};
use crate::parser::{chainl_rec, chainr_loop, chainr_spec, lemma_skip_skip, productive, BinOp, Chainl, Chainr, Ignore, Or, Parser, SpecResult};
use crate::pred::{CharClass, Pred};
use crate::tuple::Choice;
use crate::combinators as stream;
use crate::traits::{Input, Parser as StreamParser};

verus! {

/// `r` succeeds, and its value is `v`, taking `n` tokens.
pub open spec fn gives<V>(r: SpecResult<V>, v: V, n: int) -> bool {
    r == Ok::<(V, int), crate::error::ErrorView>((v, n))
}

/// `opt` never fails: it gives `Some` of what the parser gives, or `None`
/// without consuming input where the parser fails.
pub proof fn lemma_opt_total<'a, P: Parser<&'a [char]>>(p: P, s: Seq<char>)
    ensures
        (Opt { parser: p }).spec_parse(s) is Ok,
        p.spec_parse(s) is Err ==> (Opt { parser: p }).spec_parse(s) == Ok::<
            (Option<<P::Output as DeepView>::V>, int),
            crate::error::ErrorView,
        >((None, 0)),
{
}

/// `many` never fails, and takes at most the input.
pub proof fn lemma_many_total<'a, P: Parser<&'a [char]>>(p: P, s: Seq<char>)
    ensures
        (Many { parser: p, at_least_one: false }).spec_parse(s) is Ok,
        (Many { parser: p, at_least_one: false }).spec_parse(s) matches Ok((_, n)) && 0 <= n <= s.len(),
{
    crate::combinator::lemma_many_rec_len(p, s);
}

/// `many1` fails exactly where the parser fails on the input, with its
/// error; elsewhere it gives what `many` gives, which holds at least one value.
pub proof fn lemma_many1_many<'a, P: Parser<&'a [char]>>(p: P, s: Seq<char>)
    requires
        crate::parser::productive(p),
    ensures
        (Many { parser: p, at_least_one: true }).spec_parse(s) is Err <==> p.spec_parse(s) is Err,
        p.spec_parse(s) matches Err(e) ==> (Many { parser: p, at_least_one: true }).spec_parse(s)
            == Err::<(Seq<<P::Output as DeepView>::V>, int), crate::error::ErrorView>(e),
        p.spec_parse(s) is Ok ==> {
            &&& (Many { parser: p, at_least_one: true }).spec_parse(s) == (Many {
                parser: p,
                at_least_one: false,
            }).spec_parse(s)
            &&& many_rec(p, s).0.len() >= 1
        },
{
    p.lemma_parse_len(s);
}

/// `skip_many` takes exactly the input that `many` takes, and gives `()`.
pub proof fn lemma_skip_many<'a, P: Parser<&'a [char]>>(p: P, s: Seq<char>)
    ensures
        (Ignore { parser: Many { parser: p, at_least_one: false } }).spec_parse(s) == Ok::<
            ((), int),
            crate::error::ErrorView,
        >(((), many_rec(p, s).1)),
{
}

/// `peek` gives what the parser gives, or fails with its error, and never
/// consumes input.
pub proof fn lemma_peek_consumes_nothing<'a, P: Parser<&'a [char]>>(p: P, s: Seq<char>)
    ensures
        (Peek { parser: p }).spec_parse(s) matches Ok((_, n)) ==> n == 0,
        (Peek { parser: p }).spec_parse(s) is Ok <==> p.spec_parse(s) is Ok,
        p.spec_parse(s) matches Ok((v, _)) ==> gives((Peek { parser: p }).spec_parse(s), v, 0),
{
}

/// `recognize` gives exactly the input that the parser consumed: its value
/// followed by what is left is the input.
pub proof fn lemma_recognize_prefix<'a, P: Parser<&'a [char]>>(p: P, s: Seq<char>)
    ensures
        (Recognize { parser: p }).spec_parse(s) matches Ok((v, n)) ==> v + s.skip(n) == s && v.len() == n,
        (Recognize { parser: p }).spec_parse(s) is Ok <==> p.spec_parse(s) is Ok,
{
    p.lemma_parse_len(s);
    if let Ok((v, n)) = (Recognize { parser: p }).spec_parse(s) {
        assert(v + s.skip(n) =~= s);
    }
}

/// `not` succeeds, consuming nothing, exactly where the parser fails.
pub proof fn lemma_not<'a, P: Parser<&'a [char]>>(p: P, s: Seq<char>)
    ensures
        (Not { parser: p }).spec_parse(s) is Ok <==> p.spec_parse(s) is Err,
        (Not { parser: p }).spec_parse(s) is Ok ==> gives((Not { parser: p }).spec_parse(s), (), 0),
{
}

/// `not(not(p))` succeeds exactly where `p` succeeds, and consumes nothing:
/// it is a look-ahead that keeps no value.
pub proof fn lemma_not_not<'a, P: Parser<&'a [char]>>(p: P, s: Seq<char>)
    ensures
        (Not { parser: Not { parser: p } }).spec_parse(s) is Ok <==> p.spec_parse(s) is Ok,
        (Not { parser: Not { parser: p } }).spec_parse(s) matches Ok((_, n)) ==> n == 0,
{
}

/// Where `count(p, n)` succeeds, it holds exactly `n` values.
pub proof fn lemma_count_len<'a, P: Parser<&'a [char]>>(p: P, k: nat, s: Seq<char>)
    ensures
        count_rec(p, k, s) matches Ok((vs, _)) ==> vs.len() == k,
    decreases k,
{
    if k > 0 {
        if let Ok((v, n)) = p.spec_parse(s) {
            lemma_count_len(p, (k - 1) as nat, s.skip(n));
        }
    }
}

/// `count(p, n)` succeeds with `n` values or fails: the exact statement over
/// the parser.
pub proof fn lemma_count<'a, P: Parser<&'a [char]>>(p: P, n: usize, s: Seq<char>)
    ensures
        (Count { parser: p, n }).spec_parse(s) matches Ok((vs, _)) ==> vs.len() == n,
{
    lemma_count_len(p, n as nat, s);
}

/// Where the first element fails, `sep_by` succeeds with no value and
/// consumes nothing, and `sep_by1` fails with that error; where it succeeds,
/// the two give the same.
pub proof fn lemma_sep_by<'a, P: Parser<&'a [char]>, S: Parser<&'a [char]>>(p: P, sep: S, s: Seq<char>)
    ensures
        p.spec_parse(s) is Err ==> (SepBy { parser: p, sep, at_least_one: false }).spec_parse(s)
            == Ok::<(Seq<<P::Output as DeepView>::V>, int), crate::error::ErrorView>((seq![], 0)),
        p.spec_parse(s) matches Err(e) ==> (SepBy { parser: p, sep, at_least_one: true }).spec_parse(s)
            == Err::<(Seq<<P::Output as DeepView>::V>, int), crate::error::ErrorView>(e),
        p.spec_parse(s) is Ok ==> (SepBy { parser: p, sep, at_least_one: true }).spec_parse(s)
            == (SepBy { parser: p, sep, at_least_one: false }).spec_parse(s),
{
}

/// `or` gives the first parser's outcome where it succeeds, and otherwise
/// runs the second on the same input: where the first succeeds, the second
/// is never looked at.
pub proof fn lemma_or<'a, A: Parser<&'a [char]>, B: Parser<&'a [char], Output = A::Output>>(
    a: A,
    b: B,
    s: Seq<char>,
)
    ensures
        a.spec_parse(s) is Ok ==> (Or { first: a, second: b }).spec_parse(s) == a.spec_parse(s),
        a.spec_parse(s) is Err ==> (Or { first: a, second: b }).spec_parse(s) == b.spec_parse(s),
{
}

/// `eof` succeeds exactly on the empty input, and consumes nothing.
pub proof fn lemma_eof(s: Seq<char>)
    ensures
        eof_spec(s) is Ok <==> s.len() == 0,
        eof_spec(s) is Ok ==> gives(eof_spec(s), (), 0),
{
}

/// An attempt that fails leaves the input where it stood, with the error of
/// the parser; one that succeeds is the parser's run.
pub proof fn lemma_attempt_restores<I: Input, P: StreamParser<I>>(p: P, text: Seq<char>, at: int)
    ensures
        (stream::Attempt { parser: p }).spec_parse(text, at).result == p.spec_parse(text, at).result,
        (stream::Attempt { parser: p }).spec_parse(text, at).errs == p.spec_parse(text, at).errs,
        p.spec_parse(text, at).result is Err ==> (stream::Attempt { parser: p }).spec_parse(text, at).end == at,
        p.spec_parse(text, at).result is Ok ==> (stream::Attempt { parser: p }).spec_parse(text, at)
            == p.spec_parse(text, at),
{
}

/// `opt` never fails; where the parser fails, it stays where it started.
pub proof fn lemma_stream_opt<I: Input, P: StreamParser<I>>(p: P, text: Seq<char>, at: int)
    ensures
        (stream::Opt { parser: p }).spec_parse(text, at).result is Ok,
        p.spec_parse(text, at).result is Err ==> (stream::Opt { parser: p }).spec_parse(text, at).end == at
            && (stream::Opt { parser: p }).spec_parse(text, at).result == Ok::<
            Option<<P::Output as DeepView>::V>,
            <P::Error as DeepView>::V,
        >(None),
{
}

/// `peek` gives the parser's result and never moves the input.
pub proof fn lemma_stream_peek<I: Input, P: StreamParser<I>>(p: P, text: Seq<char>, at: int)
    ensures
        (stream::Peek { parser: p }).spec_parse(text, at).result == p.spec_parse(text, at).result,
        (stream::Peek { parser: p }).spec_parse(text, at).end == at,
{
}

/// `many` never fails; `many1` fails exactly where the first application
/// fails, and otherwise gives what `many` gives, at least one value.
pub proof fn lemma_stream_many<I: Input, P: StreamParser<I>>(p: P, text: Seq<char>, at: int)
    requires
        stream::advances(p),
        0 <= at <= text.len(),
    ensures
        (stream::Many { parser: p, at_least_one: false }).spec_parse(text, at).result is Ok,
        (stream::Many { parser: p, at_least_one: true }).spec_parse(text, at).result is Err
            <==> p.spec_parse(text, at).result is Err,
        p.spec_parse(text, at).result is Ok ==> {
            &&& (stream::Many { parser: p, at_least_one: true }).spec_parse(text, at)
                == (stream::Many { parser: p, at_least_one: false }).spec_parse(text, at)
            &&& stream::many_from(p, text, at).0.len() >= 1
        },
{
}

/// Where `repeat(p, n)` succeeds, it holds exactly `n` values.
pub proof fn lemma_stream_repeat<I: Input, P: StreamParser<I>>(p: P, n: usize, text: Seq<char>, at: int)
    requires
        0 <= at <= text.len(),
    ensures
        (stream::Repeat { parser: p, n }).spec_parse(text, at).result matches Ok(vs) ==> vs.len() == n,
{
    stream::lemma_count_from_len(p, text, at, n as nat);
}

/// Bounded attempts stop only after `k` values or before a failing attempt.
pub proof fn lemma_many_upto_greedy<I: Input, P: StreamParser<I>>(p: P, text: Seq<char>, at: int, k: nat)
    ensures
        stream::many_upto(p, text, at, k).0.len() < k ==> p.spec_parse(text, stream::many_upto(p, text, at, k).1).result is Err,
    decreases k,
{
    if k > 0 {
        let o = p.spec_parse(text, at);
        if o.result is Ok {
            lemma_many_upto_greedy(p, text, o.end, (k - 1) as nat);
        }
    }
}

/// Unbounded attempts stop only before a failing attempt.
pub proof fn lemma_many_from_greedy<I: Input, P: StreamParser<I>>(p: P, text: Seq<char>, at: int)
    requires
        stream::advances(p),
        0 <= at <= text.len(),
    ensures
        p.spec_parse(text, stream::many_from(p, text, at).1).result is Err,
    decreases text.len() - at,
{
    p.lemma_parse_len(text, at);
    let o = p.spec_parse(text, at);
    if o.result is Ok {
        lemma_many_from_greedy(p, text, o.end);
    }
}

/// `range(p, min..max)` and `range_from(p, min)` fail exactly where one of the
/// first `min` applications fails, with its error. Where they succeed they
/// hold at least `min` values, at most `max` for `min..max`, and they are
/// greedy: they stop after `max` values, or before an attempt that fails
/// (whose reading is undone).
pub proof fn lemma_stream_range<I: Input, P: StreamParser<I>>(p: P, min: usize, max: Option<usize>, text: Seq<char>, at: int)
    requires
        0 <= at <= text.len(),
        max matches Some(m) ==> min <= m,
        max is None ==> stream::advances(p),
    ensures
        ({
            let c = stream::count_from(p, text, at, min as nat);
            let o = (stream::Bounded { parser: p, min, max }).spec_parse(text, at);
            &&& o.result is Err <==> c.result is Err
            &&& c.result matches Err(e) ==> o.result == Err::<Seq<<P::Output as DeepView>::V>, <P::Error as DeepView>::V>(e)
            &&& o.result matches Ok(vs) ==> {
                &&& min <= vs.len()
                &&& max matches Some(m) ==> vs.len() <= m
                &&& (max matches Some(m) && vs.len() == m) || p.spec_parse(text, o.end).result is Err
            }
        }),
{
    stream::lemma_count_from_len(p, text, at, min as nat);
    let c = stream::count_from(p, text, at, min as nat);
    if c.result is Ok {
        match max {
            Some(m) => {
                stream::lemma_many_upto_len(p, text, c.end, (m - min) as nat);
                lemma_many_upto_greedy(p, text, c.end, (m - min) as nat);
            },
            None => {
                lemma_many_from_greedy(p, text, c.end);
            },
        }
    }
}

/// After a first element `v` ending at `e1`, `sepby` goes on exactly as
/// `sepby1` does after its first element.
proof fn lemma_sep_from_join<I: Input, P: StreamParser<I>, D: StreamParser<I>>(p: P, d: D, text: Seq<char>, at: int)
    requires
        stream::advances(p) || stream::advances(d),
        0 <= at <= text.len(),
        p.spec_parse(text, at).result is Ok,
    ensures
        ({
            let o1 = p.spec_parse(text, at);
            let r = stream::sep1_from(p, d, text, o1.end);
            stream::sep_from(p, d, text, at) == (seq![o1.result->Ok_0] + r.0, r.1, o1.errs + r.2)
        }),
    decreases text.len() - at,
{
    p.lemma_parse_len(text, at);
    let o1 = p.spec_parse(text, at);
    let e1 = o1.end;
    d.lemma_parse_len(text, e1);
    let o2 = d.spec_parse(text, e1);
    let v = o1.result->Ok_0;
    if o2.result is Err {
        assert(stream::sep_from(p, d, text, at) == (seq![v], e1, o1.errs + o2.errs));
        assert(stream::sep1_from(p, d, text, e1) == (Seq::<<P::Output as DeepView>::V>::empty(), e1, o2.errs));
        assert(seq![v] + Seq::<<P::Output as DeepView>::V>::empty() =~= seq![v]);
    } else {
        let e2 = o2.end;
        assert(at < e2);
        p.lemma_parse_len(text, e2);
        let o3 = p.spec_parse(text, e2);
        if o3.result is Err {
            assert(stream::sep_from(p, d, text, e2) == (Seq::<<P::Output as DeepView>::V>::empty(), e2, o3.errs));
            assert(stream::sep_from(p, d, text, at) == (seq![v] + Seq::<<P::Output as DeepView>::V>::empty(), e2, o1.errs + o2.errs + o3.errs));
            assert(stream::sep1_from(p, d, text, e1) == (Seq::<<P::Output as DeepView>::V>::empty(), e2, o2.errs + o3.errs));
            assert(seq![v] + Seq::<<P::Output as DeepView>::V>::empty() =~= seq![v]);
            assert(o1.errs + o2.errs + o3.errs =~= o1.errs + (o2.errs + o3.errs));
        } else {
            assert(e1 < o3.end);
            lemma_sep_from_join(p, d, text, e2);
            let r = stream::sep1_from(p, d, text, o3.end);
            assert(o1.errs + o2.errs + (o3.errs + r.2) =~= o1.errs + (o2.errs + o3.errs + r.2));
            assert(seq![o1.result->Ok_0] + (seq![o3.result->Ok_0] + r.0) =~= seq![o1.result->Ok_0] + (seq![o3.result->Ok_0] + r.0));
        }
    }
}

/// `sepby` never fails. Where the first element fails, it gives no value and
/// leaves the input where it started; elsewhere it gives exactly what
/// `sepby1` gives. `sepby1` fails exactly where its first element fails, with
/// that error, and otherwise reads elements separated by separators, stopping
/// before a failing separator or after a separator followed by a failing
/// element (that separator stays read).
pub proof fn lemma_stream_sepby<I: Input, P: StreamParser<I>, D: StreamParser<I>>(
    p: P,
    d: D,
    text: Seq<char>,
    at: int,
)
    requires
        stream::advances(p) || stream::advances(d),
        0 <= at <= text.len(),
    ensures
        (stream::SepBy { parser: p, delim: d, at_least_one: false }).spec_parse(text, at).result is Ok,
        p.spec_parse(text, at).result is Err ==> {
            &&& (stream::SepBy { parser: p, delim: d, at_least_one: false }).spec_parse(text, at).result
                == Ok::<Seq<<P::Output as DeepView>::V>, <P::Error as DeepView>::V>(seq![])
            &&& (stream::SepBy { parser: p, delim: d, at_least_one: false }).spec_parse(text, at).end == at
            &&& (stream::SepBy { parser: p, delim: d, at_least_one: true }).spec_parse(text, at).result
                == Err::<Seq<<P::Output as DeepView>::V>, <P::Error as DeepView>::V>(p.spec_parse(text, at).result->Err_0)
        },
        p.spec_parse(text, at).result is Ok ==> (stream::SepBy { parser: p, delim: d, at_least_one: false }).spec_parse(
            text,
            at,
        ) == (stream::SepBy { parser: p, delim: d, at_least_one: true }).spec_parse(text, at),
{
    if p.spec_parse(text, at).result is Ok {
        lemma_sep_from_join(p, d, text, at);
    }
}

/// After its first element, `sepby1` reads `d q` pairs: where the separator
/// fails it stops before it (the separator's reading is undone); where the
/// separator succeeds and the element fails, it stops after the separator
/// (which stays read) and the element's reading is undone; where both
/// succeed, it keeps the element and goes on after it.
pub proof fn lemma_stream_sepby1<I: Input, P: StreamParser<I>, D: StreamParser<I>>(
    p: P,
    d: D,
    text: Seq<char>,
    at: int,
)
    requires
        stream::advances(p) || stream::advances(d),
        0 <= at <= text.len(),
    ensures
        ({
            let o1 = d.spec_parse(text, at);
            let o2 = p.spec_parse(text, o1.end);
            let r = stream::sep1_from(p, d, text, at);
            &&& o1.result is Err ==> r == (Seq::<<P::Output as DeepView>::V>::empty(), at, o1.errs)
            &&& o1.result is Ok && o2.result is Err ==> r == (Seq::<<P::Output as DeepView>::V>::empty(), o1.end, o1.errs
                + o2.errs)
            &&& o1.result is Ok && o2.result is Ok ==> {
                let t = stream::sep1_from(p, d, text, o2.end);
                &&& at < o2.end
                &&& r == (seq![o2.result->Ok_0] + t.0, t.1, o1.errs + o2.errs + t.2)
            }
        }),
{
    d.lemma_parse_len(text, at);
    let o1 = d.spec_parse(text, at);
    if o1.result is Ok {
        p.lemma_parse_len(text, o1.end);
    }
}

/// The leading characters that `lit` and `s` have in common, from `i` on, run
/// up to `literal_match_from`: all of them match, and it stops at the end of
/// `lit`, the end of `s`, or the first character that differs.
proof fn lemma_match_from(lit: Seq<char>, s: Seq<char>, i: int)
    requires
        0 <= i <= lit.len(),
        i <= s.len(),
        s.take(i) == lit.take(i),
    ensures
        ({
            let k = literal_match_from(lit, false, s, i);
            &&& i <= k <= lit.len()
            &&& k <= s.len()
            &&& s.take(k) == lit.take(k)
            &&& (k == lit.len() || k == s.len() || s[k] != lit[k])
        }),
    decreases lit.len() - i,
{
    if i < lit.len() && i < s.len() && s[i] == lit[i] {
        assert(s.take(i + 1) =~= lit.take(i + 1)) by {
            assert(s.take(i + 1) =~= s.take(i).push(s[i]));
            assert(lit.take(i + 1) =~= lit.take(i).push(lit[i]));
        }
        lemma_match_from(lit, s, i + 1);
    }
}

/// `string(lit)` succeeds exactly where the input begins with `lit`, giving
/// `lit` and consuming it (so the empty literal always succeeds and consumes
/// nothing); elsewhere it fails naming the first character after the longest
/// common prefix of `lit` and the input (`None` where the input ends there).
pub proof fn lemma_string(lit: Seq<char>, s: Seq<char>)
    ensures
        literal_spec(lit, false, s) is Ok <==> lit.is_prefix_of(s),
        lit.is_prefix_of(s) ==> gives(literal_spec(lit, false, s), lit, lit.len() as int),
        !lit.is_prefix_of(s) ==> exists|k: int|
            0 <= k < lit.len() && k <= s.len() && #[trigger] s.take(k) == lit.take(k) && (k == s.len() || s[k] != lit[k])
                && literal_spec(lit, false, s) == Err::<(Seq<char>, int), ErrorView>(
                ErrorView::Unexpected(if k < s.len() { Some(s[k]) } else { None }),
            ),
{
    assert(s.take(0) =~= lit.take(0));
    lemma_match_from(lit, s, 0);
    let k = literal_match_from(lit, false, s, 0);
    if k == lit.len() {
        assert(lit.take(k) =~= lit);
        assert(lit.is_prefix_of(s));
    } else {
        if lit.is_prefix_of(s) {
            assert(s[k] == lit[k]);
            assert(k < s.len());
        }
        assert(s.skip(k).len() == s.len() - k);
        if k < s.len() {
            assert(s.skip(k)[0] == s[k]);
        }
    }
}

// ---------------------------------------------------------------------------
// Runs of tokens
// ---------------------------------------------------------------------------

/// The run of tokens from `i` on of which `f` answers `want` ends at the
/// first token past `i` of which it does not (or at the end).
proof fn lemma_span_prop<F: Pred>(f: F, want: bool, s: Seq<char>, i: int)
    requires
        0 <= i <= s.len(),
    ensures
        i <= span_from(f, want, s, i) <= s.len(),
        forall|j: int| i <= j < span_from(f, want, s, i) ==> #[trigger] f.spec_test(s[j]) == want,
        span_from(f, want, s, i) < s.len() ==> f.spec_test(s[span_from(f, want, s, i)]) != want,
    decreases s.len() - i,
{
    if i < s.len() && f.spec_test(s[i]) == want {
        lemma_span_prop(f, want, s, i + 1);
    }
}

/// `take_while` (and `take_while1`) give the longest run at the front of the
/// input whose tokens all satisfy `f`: the value is that run, what is left
/// starts with a token that does not satisfy `f` (or is empty). `take_while`
/// never fails; `take_while1` fails exactly where the first token is missing
/// or does not satisfy `f`.
pub proof fn lemma_take_while<F: Pred>(f: F, at_least_one: bool, s: Seq<char>)
    ensures
        (TakeWhile { f, at_least_one }).spec_parse(s) matches Ok((v, n)) ==> {
            &&& 0 <= n <= s.len()
            &&& v == s.take(n)
            &&& forall|j: int| 0 <= j < n ==> #[trigger] f.spec_test(s[j])
            &&& n < s.len() ==> !f.spec_test(s[n])
        },
        !at_least_one ==> (TakeWhile { f, at_least_one }).spec_parse(s) is Ok,
        at_least_one ==> ((TakeWhile { f, at_least_one }).spec_parse(s) is Err <==> (s.len() == 0 || !f.spec_test(s[0]))),
{
    lemma_span_prop(f, true, s, 0);
}

/// `take_till` gives the tokens before the first one that satisfies `f`,
/// which stays in the input: the value holds no token satisfying `f`, and
/// what is left starts with one that does. It succeeds exactly where such a
/// token is found; `take_till1` also fails where it is the first token.
pub proof fn lemma_take_till<F: Pred>(f: F, at_least_one: bool, s: Seq<char>)
    ensures
        (TakeTill { f, at_least_one }).spec_parse(s) matches Ok((v, n)) ==> {
            &&& 0 <= n < s.len()
            &&& v == s.take(n)
            &&& forall|j: int| 0 <= j < n ==> !#[trigger] f.spec_test(s[j])
            &&& f.spec_test(s[n])
            &&& at_least_one ==> n >= 1
        },
        !at_least_one ==> ((TakeTill { f, at_least_one }).spec_parse(s) is Ok <==> exists|j: int|
            0 <= j < s.len() && #[trigger] f.spec_test(s[j])),
        at_least_one ==> ((TakeTill { f, at_least_one }).spec_parse(s) is Ok <==> (s.len() > 0 && !f.spec_test(s[0])
            && exists|j: int| 0 <= j < s.len() && #[trigger] f.spec_test(s[j]))),
{
    lemma_span_prop(f, false, s, 0);
    if s.len() > 0 {
        lemma_span_prop(f, false, s, 1);
    }
    let k0 = span_from(f, false, s, 0);
    if s.len() > 0 && !f.spec_test(s[0]) {
        assert(span_from(f, false, s, 0) == span_from(f, false, s, 1));
    }
    if exists|j: int| 0 <= j < s.len() && #[trigger] f.spec_test(s[j]) {
        let j = choose|j: int| 0 <= j < s.len() && #[trigger] f.spec_test(s[j]);
        assert(k0 <= j) by {
            if k0 > j {
                assert(f.spec_test(s[j]) == false);
            }
        }
    }
    if k0 < s.len() {
        assert(f.spec_test(s[k0]));
    }
}

/// `take(f, n)` gives the first `n` tokens, all satisfying `f`; it succeeds
/// exactly where the input has `n` tokens that all do.
pub proof fn lemma_take<F: Pred>(f: F, n: usize, s: Seq<char>)
    ensures
        (Take { f, n }).spec_parse(s) matches Ok((v, m)) ==> m == n && v == s.take(n as int),
        (Take { f, n }).spec_parse(s) is Ok <==> (n <= s.len() && forall|j: int| 0 <= j < n ==> #[trigger] f.spec_test(s[j])),
{
    lemma_span_prop(f, true, s, 0);
    let k = span_from(f, true, s, 0);
    if n <= s.len() && (forall|j: int| 0 <= j < n ==> #[trigger] f.spec_test(s[j])) {
        assert(k >= n) by {
            if k < n {
                assert(f.spec_test(s[k]));
            }
        }
    }
}

// ---------------------------------------------------------------------------
// Chains of operands and operators
// ---------------------------------------------------------------------------

/// `chainl1` on one operator: where `p` reads `v0`, `op` reads the operator
/// `f`, `p` reads `v1`, and no operator follows, the chain gives `f` applied
/// with `v0` on the left and `v1` on the right, and takes all of it.
pub proof fn lemma_chainl_one<'a, A: Parser<&'a [char]>, B: Parser<&'a [char]>>(
    p: A,
    op: B,
    value: Option<A::Output>,
    s: Seq<char>,
    v0: <A::Output as DeepView>::V,
    f: <B::Output as DeepView>::V,
    v1: <A::Output as DeepView>::V,
    n0: int,
    n1: int,
    n2: int,
)
    where B::Output: BinOp<A::Output>, A::Output: Copy,
    requires
        productive(p) || productive(op),
        p.spec_parse(s) == Ok::<(<A::Output as DeepView>::V, int), ErrorView>((v0, n0)),
        op.spec_parse(s.skip(n0)) == Ok::<(<B::Output as DeepView>::V, int), ErrorView>((f, n1)),
        p.spec_parse(s.skip(n0 + n1)) == Ok::<(<A::Output as DeepView>::V, int), ErrorView>((v1, n2)),
        op.spec_parse(s.skip(n0 + n1 + n2)) is Err,
    ensures
        (Chainl { parser: p, op, value }).spec_parse(s) == Ok::<(<A::Output as DeepView>::V, int), ErrorView>(
            (<B::Output as BinOp<A::Output>>::spec_apply(f, v0, v1), n0 + n1 + n2),
        ),
{
    p.lemma_parse_len(s);
    op.lemma_parse_len(s.skip(n0));
    lemma_skip_skip(s, n0, n1);
    p.lemma_parse_len(s.skip(n0 + n1));
    lemma_skip_skip(s, n0, n1 + n2);
    let s1 = s.skip(n0);
    assert(s1.skip(n1) == s.skip(n0 + n1));
    assert(s1.skip(n1 + n2) == s.skip(n0 + n1 + n2));
    if productive(p) {
        assert(p.spec_parse(s.skip(n0 + n1)) matches Ok((_, m)) && m > 0);
    } else {
        assert(op.spec_parse(s1) matches Ok((_, m)) && m > 0);
    }
    let w = <B::Output as BinOp<A::Output>>::spec_apply(f, v0, v1);
    assert(chainl_rec(p, op, w, s1.skip(n1 + n2)) == Ok::<(<A::Output as DeepView>::V, int), ErrorView>((w, 0)));
    assert(chainl_rec(p, op, v0, s1) == Ok::<(<A::Output as DeepView>::V, int), ErrorView>((w, n1 + n2)));
}

/// `chainl1` on two operators combines from the left: where the chain reads
/// `v0 f1 v1 f2 v2` and no operator follows, it gives
/// `f2(f1(v0, v1), v2)`.
pub proof fn lemma_chainl_two<'a, A: Parser<&'a [char]>, B: Parser<&'a [char]>>(
    p: A,
    op: B,
    value: Option<A::Output>,
    s: Seq<char>,
    v0: <A::Output as DeepView>::V,
    f1: <B::Output as DeepView>::V,
    v1: <A::Output as DeepView>::V,
    f2: <B::Output as DeepView>::V,
    v2: <A::Output as DeepView>::V,
    n0: int,
    n1: int,
    n2: int,
    n3: int,
    n4: int,
)
    where B::Output: BinOp<A::Output>, A::Output: Copy,
    requires
        productive(p) || productive(op),
        p.spec_parse(s) == Ok::<(<A::Output as DeepView>::V, int), ErrorView>((v0, n0)),
        op.spec_parse(s.skip(n0)) == Ok::<(<B::Output as DeepView>::V, int), ErrorView>((f1, n1)),
        p.spec_parse(s.skip(n0 + n1)) == Ok::<(<A::Output as DeepView>::V, int), ErrorView>((v1, n2)),
        op.spec_parse(s.skip(n0 + n1 + n2)) == Ok::<(<B::Output as DeepView>::V, int), ErrorView>((f2, n3)),
        p.spec_parse(s.skip(n0 + n1 + n2 + n3)) == Ok::<(<A::Output as DeepView>::V, int), ErrorView>((v2, n4)),
        op.spec_parse(s.skip(n0 + n1 + n2 + n3 + n4)) is Err,
    ensures
        (Chainl { parser: p, op, value }).spec_parse(s) == Ok::<(<A::Output as DeepView>::V, int), ErrorView>(
            (
                <B::Output as BinOp<A::Output>>::spec_apply(
                    f2,
                    <B::Output as BinOp<A::Output>>::spec_apply(f1, v0, v1),
                    v2,
                ),
                n0 + n1 + n2 + n3 + n4,
            ),
        ),
{
    p.lemma_parse_len(s);
    op.lemma_parse_len(s.skip(n0));
    lemma_skip_skip(s, n0, n1);
    p.lemma_parse_len(s.skip(n0 + n1));
    lemma_skip_skip(s, n0 + n1, n2);
    op.lemma_parse_len(s.skip(n0 + n1 + n2));
    lemma_skip_skip(s, n0 + n1 + n2, n3);
    p.lemma_parse_len(s.skip(n0 + n1 + n2 + n3));
    lemma_skip_skip(s, n0 + n1 + n2 + n3, n4);
    let s1 = s.skip(n0);
    lemma_skip_skip(s1, n1, n2);
    let s2 = s.skip(n0 + n1 + n2);
    assert(s1.skip(n1) == s.skip(n0 + n1));
    assert(s1.skip(n1 + n2) == s2);
    lemma_skip_skip(s2, n3, n4);
    assert(s2.skip(n3) == s.skip(n0 + n1 + n2 + n3));
    assert(s2.skip(n3 + n4) == s.skip(n0 + n1 + n2 + n3 + n4));
    if productive(p) {
        assert(p.spec_parse(s.skip(n0 + n1)) matches Ok((_, m)) && m > 0);
        assert(p.spec_parse(s.skip(n0 + n1 + n2 + n3)) matches Ok((_, m)) && m > 0);
    } else {
        assert(op.spec_parse(s1) matches Ok((_, m)) && m > 0);
        assert(op.spec_parse(s2) matches Ok((_, m)) && m > 0);
    }
    let w1 = <B::Output as BinOp<A::Output>>::spec_apply(f1, v0, v1);
    let w2 = <B::Output as BinOp<A::Output>>::spec_apply(f2, w1, v2);
    assert(chainl_rec(p, op, w2, s2.skip(n3 + n4)) == Ok::<(<A::Output as DeepView>::V, int), ErrorView>((w2, 0)));
    assert(chainl_rec(p, op, w1, s2) == Ok::<(<A::Output as DeepView>::V, int), ErrorView>((w2, n3 + n4)));
    assert(chainl_rec(p, op, v0, s1) == Ok::<(<A::Output as DeepView>::V, int), ErrorView>((w2, n1 + n2 + n3 + n4)));
}

/// `chainr1` on one operator: where `p` reads `v0`, `op` reads `f`, `p`
/// reads `v1`, and no operator follows, the chain gives `f(v0, v1)`.
pub proof fn lemma_chainr_one<'a, A: Parser<&'a [char]>, B: Parser<&'a [char]>>(
    p: A,
    op: B,
    value: Option<A::Output>,
    s: Seq<char>,
    v0: <A::Output as DeepView>::V,
    f: <B::Output as DeepView>::V,
    v1: <A::Output as DeepView>::V,
    n0: int,
    n1: int,
    n2: int,
)
    where B::Output: BinOp<A::Output>, A::Output: Copy,
    requires
        productive(p),
        p.spec_parse(s) == Ok::<(<A::Output as DeepView>::V, int), ErrorView>((v0, n0)),
        op.spec_parse(s.skip(n0)) == Ok::<(<B::Output as DeepView>::V, int), ErrorView>((f, n1)),
        p.spec_parse(s.skip(n0 + n1)) == Ok::<(<A::Output as DeepView>::V, int), ErrorView>((v1, n2)),
        op.spec_parse(s.skip(n0 + n1 + n2)) is Err,
    ensures
        (Chainr { parser: p, op, value }).spec_parse(s) == Ok::<(<A::Output as DeepView>::V, int), ErrorView>(
            (<B::Output as BinOp<A::Output>>::spec_apply(f, v0, v1), n0 + n1 + n2),
        ),
{
    p.lemma_parse_len(s);
    op.lemma_parse_len(s.skip(n0));
    lemma_skip_skip(s, n0, n1);
    p.lemma_parse_len(s.skip(n0 + n1));
    lemma_skip_skip(s, n0 + n1, n2);
    let s1 = s.skip(n0);
    let s2 = s.skip(n0 + n1);
    lemma_skip_skip(s1, n1, n2);
    assert(s1.skip(n1) == s2);
    assert(s1.skip(n1 + n2) == s.skip(n0 + n1 + n2));
    assert(p.spec_parse(s) matches Ok((_, m)) && m > 0);
    assert(p.spec_parse(s2) matches Ok((_, m)) && m > 0);
    assert(chainr_loop(p, op, value, v1, s2.skip(n2)) == Ok::<(<A::Output as DeepView>::V, int), ErrorView>((v1, 0)));
    assert(chainr_spec(p, op, value, s2) == Ok::<(<A::Output as DeepView>::V, int), ErrorView>((v1, n2)));
    let w = <B::Output as BinOp<A::Output>>::spec_apply(f, v0, v1);
    assert(chainr_loop(p, op, value, w, s1.skip(n1 + n2)) == Ok::<(<A::Output as DeepView>::V, int), ErrorView>((w, 0)));
    assert(chainr_loop(p, op, value, v0, s1) == Ok::<(<A::Output as DeepView>::V, int), ErrorView>((w, n1 + n2)));
}

/// `chainr1` on two operators combines from the right: where the chain reads
/// `v0 f1 v1 f2 v2` and no operator follows, it gives `f1(v0, f2(v1, v2))`.
pub proof fn lemma_chainr_two<'a, A: Parser<&'a [char]>, B: Parser<&'a [char]>>(
    p: A,
    op: B,
    value: Option<A::Output>,
    s: Seq<char>,
    v0: <A::Output as DeepView>::V,
    f1: <B::Output as DeepView>::V,
    v1: <A::Output as DeepView>::V,
    f2: <B::Output as DeepView>::V,
    v2: <A::Output as DeepView>::V,
    n0: int,
    n1: int,
    n2: int,
    n3: int,
    n4: int,
)
    where B::Output: BinOp<A::Output>, A::Output: Copy,
    requires
        productive(p),
        p.spec_parse(s) == Ok::<(<A::Output as DeepView>::V, int), ErrorView>((v0, n0)),
        op.spec_parse(s.skip(n0)) == Ok::<(<B::Output as DeepView>::V, int), ErrorView>((f1, n1)),
        p.spec_parse(s.skip(n0 + n1)) == Ok::<(<A::Output as DeepView>::V, int), ErrorView>((v1, n2)),
        op.spec_parse(s.skip(n0 + n1 + n2)) == Ok::<(<B::Output as DeepView>::V, int), ErrorView>((f2, n3)),
        p.spec_parse(s.skip(n0 + n1 + n2 + n3)) == Ok::<(<A::Output as DeepView>::V, int), ErrorView>((v2, n4)),
        op.spec_parse(s.skip(n0 + n1 + n2 + n3 + n4)) is Err,
    ensures
        (Chainr { parser: p, op, value }).spec_parse(s) == Ok::<(<A::Output as DeepView>::V, int), ErrorView>(
            (
                <B::Output as BinOp<A::Output>>::spec_apply(
                    f1,
                    v0,
                    <B::Output as BinOp<A::Output>>::spec_apply(f2, v1, v2),
                ),
                n0 + n1 + n2 + n3 + n4,
            ),
        ),
{
    p.lemma_parse_len(s);
    op.lemma_parse_len(s.skip(n0));
    lemma_skip_skip(s, n0, n1);
    p.lemma_parse_len(s.skip(n0 + n1));
    lemma_skip_skip(s, n0 + n1, n2);
    op.lemma_parse_len(s.skip(n0 + n1 + n2));
    lemma_skip_skip(s, n0 + n1 + n2, n3);
    p.lemma_parse_len(s.skip(n0 + n1 + n2 + n3));
    lemma_skip_skip(s, n0 + n1 + n2 + n3, n4);
    let s1 = s.skip(n0);
    let s2 = s.skip(n0 + n1);
    let s3 = s.skip(n0 + n1 + n2);
    let s4 = s.skip(n0 + n1 + n2 + n3);
    let s5 = s.skip(n0 + n1 + n2 + n3 + n4);
    lemma_skip_skip(s1, n1, n2);
    lemma_skip_skip(s2, n2, n3);
    lemma_skip_skip(s3, n3, n4);
    lemma_skip_skip(s2, n2 + n3, n4);
    lemma_skip_skip(s1, n1, n2 + n3 + n4);
    assert(s1.skip(n1) == s2);
    assert(s2.skip(n2) == s3);
    assert(s3.skip(n3) == s4);
    assert(s4.skip(n4) == s5);
    assert(s2.skip(n2 + n3 + n4) == s5);
    assert(s1.skip(n1 + (n2 + n3 + n4)) == s5);
    // The inner chain, from `v1` on.
    assert(chainr_spec(p, op, value, s4) == Ok::<(<A::Output as DeepView>::V, int), ErrorView>((v2, n4)));
    let w = <B::Output as BinOp<A::Output>>::spec_apply(f2, v1, v2);
    assert(chainr_loop(p, op, value, w, s5) == Ok::<(<A::Output as DeepView>::V, int), ErrorView>((w, 0)));
    assert(chainr_loop(p, op, value, v1, s3) == Ok::<(<A::Output as DeepView>::V, int), ErrorView>((w, n3 + n4)));
    assert(chainr_spec(p, op, value, s2) == Ok::<(<A::Output as DeepView>::V, int), ErrorView>((w, n2 + n3 + n4)));
    assert(p.spec_parse(s) matches Ok((_, m)) && m > 0);
    let z = <B::Output as BinOp<A::Output>>::spec_apply(f1, v0, w);
    assert(chainr_loop(p, op, value, z, s1.skip(n1 + (n2 + n3 + n4))) == Ok::<(<A::Output as DeepView>::V, int), ErrorView>((z, 0)));
    assert(chainr_loop(p, op, value, v0, s1) == Ok::<(<A::Output as DeepView>::V, int), ErrorView>((z, n1 + n2 + n3 + n4)));
}

// ---------------------------------------------------------------------------
// Separated lists and alternation
// ---------------------------------------------------------------------------

/// `sepby` never fails: where the first element fails, it gives the empty
/// list and consumes nothing. `sepby1` fails exactly where the first element
/// fails, with its error. Where the first element gives `v` taking `n`
/// tokens, both give a list that starts with `v` and take at least `n`
/// tokens, and they give the same.
pub proof fn lemma_combine_sepby<'a, P: Parser<&'a [char]>, S: Parser<&'a [char]>>(p: P, sep: S, s: Seq<char>)
    ensures
        (crate::combine::SepBy { parser: p, sep, at_least_one: false }).spec_parse(s) is Ok,
        p.spec_parse(s) is Err ==> (crate::combine::SepBy { parser: p, sep, at_least_one: false }).spec_parse(s)
            == Ok::<(Seq<<P::Output as DeepView>::V>, int), ErrorView>((seq![], 0)),
        p.spec_parse(s) matches Err(e) ==> (crate::combine::SepBy { parser: p, sep, at_least_one: true }).spec_parse(s)
            == Err::<(Seq<<P::Output as DeepView>::V>, int), ErrorView>(e),
        p.spec_parse(s) matches Ok((v, n)) ==> {
            &&& (crate::combine::SepBy { parser: p, sep, at_least_one: true }).spec_parse(s)
                == (crate::combine::SepBy { parser: p, sep, at_least_one: false }).spec_parse(s)
            &&& (crate::combine::SepBy { parser: p, sep, at_least_one: true }).spec_parse(s) matches Ok((vs, m))
                && vs.len() >= 1 && vs[0] == v && m >= n
        },
{
    if let Ok((v, n)) = p.spec_parse(s) {
        let step = crate::combine::sep_then(&p, &sep);
        crate::combinator::lemma_many_rec_len(step, s.skip(n));
    }
}

/// Alternation over two parsers tries them in turn on the same input: where
/// the first succeeds, its result; where it fails, the second's result on
/// the same input.
pub proof fn lemma_alt_two<'a, A: Parser<&'a [char]>, B: Parser<&'a [char], Output = A::Output>>(
    a: A,
    b: B,
    s: Seq<char>,
)
    ensures
        a.spec_parse(s) is Ok ==> (Choice { list: (a, b) }).spec_parse(s) == a.spec_parse(s),
        a.spec_parse(s) is Err ==> (Choice { list: (a, b) }).spec_parse(s) == b.spec_parse(s),
{
}

/// Alternation over three parsers: the result of the first that succeeds on
/// the input, each tried on the same input; where all fail, the third's error.
pub proof fn lemma_alt_three<
    'a,
    A: Parser<&'a [char]>,
    B: Parser<&'a [char], Output = A::Output>,
    C: Parser<&'a [char], Output = A::Output>,
>(a: A, b: B, c: C, s: Seq<char>)
    ensures
        a.spec_parse(s) is Ok ==> (Choice { list: (a, b, c) }).spec_parse(s) == a.spec_parse(s),
        a.spec_parse(s) is Err && b.spec_parse(s) is Ok ==> (Choice { list: (a, b, c) }).spec_parse(s)
            == b.spec_parse(s),
        a.spec_parse(s) is Err && b.spec_parse(s) is Err ==> (Choice { list: (a, b, c) }).spec_parse(s)
            == c.spec_parse(s),
{
}

// ---------------------------------------------------------------------------
// Character classes
// ---------------------------------------------------------------------------

/// What the ASCII character classes accept, by the characters themselves:
/// digits `0`-`9`; letters `a`-`z` and `A`-`Z`; hexadecimal digits `0`-`9`,
/// `a`-`f` and `A`-`F`; white space space, tab, line feed, form feed and
/// carriage return; blanks space, carriage return, line feed and tab; `Is(x)`
/// only `x`; `IsNoCase(x)` `x` and its other ASCII case; `Any` everything.
pub proof fn lemma_ascii_classes(c: char, x: char)
    ensures
        CharClass::AsciiDigit.spec_test(c) <==> ('0' <= c && c <= '9'),
        CharClass::AsciiLowercase.spec_test(c) <==> ('a' <= c && c <= 'z'),
        CharClass::AsciiUppercase.spec_test(c) <==> ('A' <= c && c <= 'Z'),
        CharClass::AsciiAlpha.spec_test(c) <==> (('a' <= c && c <= 'z') || ('A' <= c && c <= 'Z')),
        CharClass::AsciiAlphanum.spec_test(c) <==> (('a' <= c && c <= 'z') || ('A' <= c && c <= 'Z') || ('0' <= c
            && c <= '9')),
        CharClass::AsciiHex.spec_test(c) <==> (('0' <= c && c <= '9') || ('a' <= c && c <= 'f') || ('A' <= c && c
            <= 'F')),
        CharClass::AsciiSpace.spec_test(c) <==> (c == ' ' || c == '\t' || c == '\n' || c == '\x0C' || c == '\r'),
        CharClass::Blank.spec_test(c) <==> (c == ' ' || c == '\r' || c == '\n' || c == '\t'),
        CharClass::Is(x).spec_test(c) <==> c == x,
        CharClass::IsNoCase(x).spec_test(c) <==> (c == x || ('A' <= c && c <= 'Z' && (c as u32) + 32 == (x as u32))
            || ('A' <= x && x <= 'Z' && (x as u32) + 32 == (c as u32))),
        CharClass::Any.spec_test(c),
{
    let lc = crate::pred::to_ascii_lowercase(c);
    let lx = crate::pred::to_ascii_lowercase(x);
    if 'A' <= c && c <= 'Z' {
        assert(lc as u32 == (c as u32) + 32);
    } else {
        assert(lc == c);
    }
    if 'A' <= x && x <= 'Z' {
        assert(lx as u32 == (x as u32) + 32);
    } else {
        assert(lx == x);
    }
}

} // verus!
