//! Parsers that read from an input in place, going back to saved places
//! where an attempt fails.
use vstd::prelude::*;

use crate::adapters::{And, AndThen, Expect, Mapped, MapErr, Or};
use crate::cursor::{Cursor, CursorState};
use crate::pred::Pred;
use crate::text::position::{position_after, Position};

verus! {

/// Every cursor that `a` can still end, `b` can still end.
pub open spec fn keeps_live<I: Input>(a: I, b: I) -> bool {
    forall|c: Cursor<I::Pos>| a.live(c) ==> #[trigger] b.live(c)
}

/// The first place from `at` on where `text` holds a character that `pred`
/// accepts, or its end.
pub open spec fn first_accepted<F: Pred>(pred: F, text: Seq<char>, at: int) -> int
    decreases text.len() - at,
{
    if 0 <= at < text.len() && !pred.spec_test(text[at]) {
        first_accepted(pred, text, at + 1)
    } else {
        at
    }
}

/// A source of characters, read one at a time, that can come back to places
/// saved by cursors. Cursors nest: the last one opened is the first one ended.
pub trait Input: Sized {
    /// The input's own record of a place.
    type Pos: Copy;

    /// The whole text: what was read and what is still to come.
    spec fn text(&self) -> Seq<char>;

    /// How many characters were read.
    spec fn index(&self) -> nat;

    /// How many cursors are open.
    spec fn depth(&self) -> nat;

    /// The messages reported so far, in order.
    spec fn errs(&self) -> Seq<Seq<char>>;

    /// The input is consistent.
    spec fn inv(&self) -> bool;

    /// The cursor `c` is open on this input and can still be ended.
    spec fn live(&self, c: Cursor<Self::Pos>) -> bool;

    /// What was read lies within the text.
    proof fn lemma_index(&self)
        requires
            self.inv(),
        ensures
            self.index() <= self.text().len(),
    ;

    /// An open cursor lies at or before the place where the input stands.
    proof fn lemma_live(&self, c: Cursor<Self::Pos>)
        requires
            self.inv(),
            self.live(c),
        ensures
            c.index@ <= self.index(),
            1 <= c.level@ <= self.depth(),
    ;

    /// Reads the next character, if there is one.
    fn next(&mut self) -> (r: Option<char>)
        requires
            old(self).inv(),
        ensures
            final(self).inv(),
            final(self).text() == old(self).text(),
            final(self).depth() == old(self).depth(),
            final(self).errs() == old(self).errs(),
            old(self).index() < old(self).text().len() ==> r == Some(old(self).text()[old(self).index() as int])
                && final(self).index() == old(self).index() + 1,
            old(self).index() >= old(self).text().len() ==> r is None && final(self).index() == old(self).index(),
            forall|c: Cursor<Self::Pos>| old(self).live(c) ==> #[trigger] final(self).live(c),
    ;

    /// Opens a cursor at the place where the input stands.
    fn cursor(&mut self) -> (c: Cursor<Self::Pos>)
        requires
            old(self).inv(),
        ensures
            final(self).inv(),
            final(self).text() == old(self).text(),
            final(self).index() == old(self).index(),
            final(self).errs() == old(self).errs(),
            final(self).depth() == old(self).depth() + 1,
            c.index@ == old(self).index(),
            c.level@ == final(self).depth(),
            final(self).live(c),
            forall|c: Cursor<Self::Pos>| old(self).live(c) ==> #[trigger] final(self).live(c),
    ;

    /// Comes back to the place of the innermost cursor, and closes it.
    fn restore_callback(&mut self, cursor: Cursor<Self::Pos>)
        requires
            old(self).inv(),
            old(self).live(cursor),
            cursor.level@ == old(self).depth(),
        ensures
            final(self).inv(),
            final(self).text() == old(self).text(),
            final(self).errs() == old(self).errs(),
            final(self).index() == cursor.index@,
            final(self).depth() == old(self).depth() - 1,
            forall|c: Cursor<Self::Pos>|
                old(self).live(c) && c.level@ < cursor.level@ && c.index@ <= cursor.index@
                    ==> #[trigger] final(self).live(c),
    ;

    /// Closes the innermost cursor and stays where the input stands.
    fn commit_callback(&mut self, cursor: Cursor<Self::Pos>)
        requires
            old(self).inv(),
            old(self).live(cursor),
            cursor.level@ == old(self).depth(),
        ensures
            final(self).inv(),
            final(self).text() == old(self).text(),
            final(self).errs() == old(self).errs(),
            final(self).index() == old(self).index(),
            final(self).depth() == old(self).depth() - 1,
            forall|c: Cursor<Self::Pos>|
                old(self).live(c) && c.level@ < cursor.level@ ==> #[trigger] final(self).live(c),
    ;

    /// Reports a message, kept until the end.
    fn report_err(&mut self, err: String)
        requires
            old(self).inv(),
        ensures
            final(self).inv(),
            final(self).text() == old(self).text(),
            final(self).index() == old(self).index(),
            final(self).depth() == old(self).depth(),
            final(self).errs() == old(self).errs().push(err@),
            forall|c: Cursor<Self::Pos>| old(self).live(c) ==> #[trigger] final(self).live(c),
    ;

    /// Ends the input: `Ok` where no message was reported, else the messages.
    fn finish(self) -> (r: Result<(), Vec<String>>)
        requires
            self.inv(),
        ensures
            r is Ok <==> self.errs().len() == 0,
            r matches Err(v) ==> v.deep_view() == self.errs(),
    ;

    /// Reads the characters that `pred` refuses, and stops before the first
    /// one that it accepts (which stays to be read), or at the end.
    fn consume_while<F: Pred>(&mut self, pred: F)
        requires
            old(self).inv(),
        ensures
            final(self).inv(),
            final(self).text() == old(self).text(),
            final(self).depth() == old(self).depth(),
            final(self).errs() == old(self).errs(),
            final(self).index() == first_accepted(pred, old(self).text(), old(self).index() as int),
            forall|c: Cursor<Self::Pos>| old(self).live(c) ==> #[trigger] final(self).live(c),
    {
        let ghost text = self.text();
        let ghost at0 = self.index() as int;
        proof {
            self.lemma_index();
        }
        loop
            invariant
                self.inv(),
                self.text() == text,
                text == old(self).text(),
                at0 == old(self).index(),
                self.depth() == old(self).depth(),
                self.errs() == old(self).errs(),
                at0 <= self.index() <= text.len(),
                first_accepted(pred, text, self.index() as int) == first_accepted(pred, text, at0),
                forall|c: Cursor<Self::Pos>| old(self).live(c) ==> #[trigger] self.live(c),
            decreases text.len() - self.index(),
        {
            let ghost s = *self;
            let c = self.cursor();
            let ghost s1 = *self;
            let next = self.next();
            let ghost s2 = *self;
            proof {
                assert(s2.live(c));
                assert forall|c2: Cursor<Self::Pos>| s.live(c2) implies s1.live(c2) && s2.live(c2)
                    && c2.level@ < c.level@ && c2.index@ <= c.index@ by {
                    s.lemma_live(c2);
                }
            }
            match next {
                Some(t) => {
                    if !pred.test(t) {
                        self.commit_callback(c);
                        continue;
                    }
                    self.restore_callback(c);
                    return;
                },
                None => {
                    self.commit_callback(c);
                    return;
                },
            }
        }
    }

    /// Ends the innermost cursor as `state` says: back to its place, or where
    /// the input stands.
    fn update(&mut self, cursor: Cursor<Self::Pos>, state: CursorState<Self::Pos>)
        requires
            old(self).inv(),
            old(self).live(cursor),
            cursor.level@ == old(self).depth(),
        ensures
            final(self).inv(),
            final(self).text() == old(self).text(),
            final(self).errs() == old(self).errs(),
            final(self).depth() == old(self).depth() - 1,
            state is Commit ==> final(self).index() == old(self).index(),
            state is Rollback ==> final(self).index() == cursor.index@,
    {
        match state {
            CursorState::Rollback(_) => self.restore_callback(cursor),
            CursorState::Commit => self.commit_callback(cursor),
        }
    }
}

/// An input that knows the line and column where it stands.
pub trait Located: Input {
    /// The line and column reached by what was read.
    fn position(&self) -> (r: Position)
        requires
            self.inv(),
        ensures
            r@ == position_after(self.text().take(self.index() as int)),
    ;
}

/// The characters that `k` calls of `next` give on `text` from the place
/// `at`: those from `at` on, at most `k` of them.
pub open spec fn reads(text: Seq<char>, at: int, k: nat) -> Seq<char> {
    text.subrange(at, if at + k <= text.len() { at + k } else { text.len() as int })
}

/// One call of `next` gives the first of those characters, and the others
/// follow from the next place.
pub proof fn lemma_reads_step(text: Seq<char>, at: int, k: nat)
    requires
        0 <= at <= text.len(),
        k > 0,
    ensures
        at < text.len() ==> reads(text, at, k) == seq![text[at]] + reads(text, at + 1, (k - 1) as nat),
        at == text.len() ==> reads(text, at, k) == Seq::<char>::empty(),
{
    if at < text.len() {
        assert(reads(text, at, k) =~= seq![text[at]] + reads(text, at + 1, (k - 1) as nat));
    } else {
        assert(reads(text, at, k) =~= Seq::<char>::empty());
    }
}

/// Rolling back to a cursor makes the input read again what it read after
/// the cursor was opened: where `b` is `a` brought back to a cursor opened
/// at `a` (the same text, the same place), the next `k` reads from `b` give
/// the same characters as the next `k` reads from `a`, and the line and
/// column are those of `a`.
pub proof fn lemma_rollback_rereads<I: Input>(a: I, c: Cursor<I::Pos>, b: I, k: nat)
    requires
        a.inv(),
        b.inv(),
        c.index@ == a.index(),
        b.text() == a.text(),
        b.index() == c.index@,
    ensures
        reads(b.text(), b.index() as int, k) == reads(a.text(), a.index() as int, k),
        position_after(b.text().take(b.index() as int)) == position_after(a.text().take(a.index() as int)),
{
}

/// What a parser does from a place in a text: its result, where it stops,
/// and the messages it reports on the way.
pub struct Outcome<V, E> {
    pub result: Result<V, E>,
    pub end: int,
    pub errs: Seq<Seq<char>>,
}

/// The run of a parser from `a` to `b`, with result `r`, is the one that `o` describes.
pub open spec fn ran<I: Input, O: DeepView, E: DeepView>(
    o: Outcome<O::V, E::V>,
    r: Result<O, E>,
    a: I,
    b: I,
) -> bool {
    &&& b.inv()
    &&& b.text() == a.text()
    &&& b.depth() == a.depth()
    &&& b.index() == o.end
    &&& b.errs() == a.errs() + o.errs
    &&& keeps_live(a, b)
    &&& match o.result {
        Ok(v) => r matches Ok(x) && x.deep_view() == v,
        Err(e) => r matches Err(x) && x.deep_view() == e,
    }
}

/// A parser over an input read in place.
///
/// `spec_parse` states what the parser does from each place of each text;
/// `parse` runs it.
pub trait Parser<I: Input> {
    type Output: DeepView;
    type Error: DeepView;

    /// What the parser does on `text` from the place `at`.
    spec fn spec_parse(&self, text: Seq<char>, at: int) -> Outcome<
        <Self::Output as DeepView>::V,
        <Self::Error as DeepView>::V,
    >;

    /// What a caller must know of the parser before running it.
    spec fn parse_requires(&self) -> bool;

    /// A parser stops between its start and the end of the text.
    proof fn lemma_parse_len(&self, text: Seq<char>, at: int)
        requires
            0 <= at <= text.len(),
        ensures
            at <= self.spec_parse(text, at).end <= text.len(),
    ;

    /// Runs the parser on `input`.
    fn parse(&self, input: &mut I) -> (r: Result<Self::Output, Self::Error>)
        requires
            self.parse_requires(),
            old(input).inv(),
        ensures
            ran(self.spec_parse(old(input).text(), old(input).index() as int), r, *old(input), *final(input)),
    ;

    /// Applies `f` to the value parsed.
    fn map<F>(self, f: F) -> (r: Mapped<Self, F>)
        where Self: Sized,
        ensures
            r == (Mapped { parser: self, f }),
    {
        Mapped { parser: self, f }
    }

    /// Applies `f` to the error raised.
    fn map_err<F>(self, f: F) -> (r: MapErr<Self, F>)
        where Self: Sized,
        ensures
            r == (MapErr { parser: self, f }),
    {
        MapErr { parser: self, f }
    }

    /// Runs `self`, then the parser that `f` builds from its value.
    fn and_then<F>(self, f: F) -> (r: AndThen<Self, F>)
        where Self: Sized,
        ensures
            r == (AndThen { parser: self, f }),
    {
        AndThen { parser: self, f }
    }

    /// Runs `self`, then `parser`, keeping the value of `parser`.
    fn and<P>(self, parser: P) -> (r: And<Self, P>)
        where Self: Sized,
        ensures
            r == (And { aparser: self, bparser: parser }),
    {
        And { aparser: self, bparser: parser }
    }

    /// Runs `self`, and `parser` from where it stopped if it fails.
    fn or<P>(self, parser: P) -> (r: Or<Self, P>)
        where Self: Sized,
        ensures
            r == (Or { aparser: self, bparser: parser }),
    {
        Or { aparser: self, bparser: parser }
    }

    /// Where `self` fails, reports `msg` and succeeds with `None`.
    fn expect(self, msg: String) -> (r: Expect<Self>)
        where Self: Sized,
        ensures
            r == (Expect { parser: self, msg }),
    {
        Expect { parser: self, msg }
    }
}

} // verus!
