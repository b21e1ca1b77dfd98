//! Inputs that parsers read token by token, and positions in them.
use vstd::prelude::*;

use crate::slice::{prefix, suffix};
use crate::text::position::{after_last_newline, lemma_position_counts, newlines, position_after};
use crate::tokens::AsChar;

verus! {

/// A source of tokens, read from the front.
pub trait Input: Sized {
    type Token;

    /// The tokens left, in order.
    spec fn spec_tokens(&self) -> Seq<Self::Token>;

    /// What a caller must know before taking the next token.
    spec fn next_requires(&self) -> bool;

    /// Takes the first token, if any.
    fn next(&mut self) -> (r: Option<Self::Token>)
        requires
            old(self).next_requires(),
        ensures
            old(self).spec_tokens().len() == 0 ==> r is None && final(self).spec_tokens() == old(self).spec_tokens(),
            old(self).spec_tokens().len() > 0 ==> r == Some(old(self).spec_tokens()[0])
                && final(self).spec_tokens() == old(self).spec_tokens().drop_first(),
    ;

    /// The first token, if any, leaving the input as it is.
    fn peek(&mut self) -> (r: Option<Self::Token>)
        ensures
            *final(self) == *old(self),
            old(self).spec_tokens().len() == 0 ==> r is None,
            old(self).spec_tokens().len() > 0 ==> r == Some(old(self).spec_tokens()[0]),
    ;

    /// The tokens that `self` holds and `other`, a rest of it, does not.
    fn diff(&self, other: &Self) -> (r: Self)
        requires
            other.spec_tokens().len() <= self.spec_tokens().len(),
        ensures
            r.spec_tokens() == self.spec_tokens().take(self.spec_tokens().len() - other.spec_tokens().len()),
    ;

    /// The tokens left, in order.
    fn tokens(&self) -> (r: Vec<Self::Token>)
        ensures
            r@ == self.spec_tokens(),
    ;
}

/// A copy of the characters of `s`.
fn chars_to_vec(s: &[char]) -> (v: Vec<char>)
    ensures
        v@ == s@,
{
    let mut v: Vec<char> = Vec::new();
    let mut i: usize = 0;
    while i < s.len()
        invariant
            i <= s@.len(),
            v@ == s@.take(i as int),
        decreases s@.len() - i,
    {
        v.push(s[i]);
        i = i + 1;
        assert(v@ =~= s@.take(i as int));
    }
    assert(s@.take(s@.len() as int) =~= s@);
    v
}

impl<'a> Input for &'a [char] {
    type Token = char;

    open spec fn spec_tokens(&self) -> Seq<char> {
        (**self)@
    }

    open spec fn next_requires(&self) -> bool {
        true
    }

    fn next(&mut self) -> (r: Option<char>) {
        if self.len() == 0 {
            return None;
        }
        let c = self[0];
        *self = suffix(*self, 1);
        Some(c)
    }

    fn peek(&mut self) -> (r: Option<char>) {
        if self.len() == 0 {
            None
        } else {
            Some(self[0])
        }
    }

    fn diff(&self, other: &Self) -> (r: Self) {
        prefix(*self, self.len() - other.len())
    }

    fn tokens(&self) -> (r: Vec<char>) {
        chars_to_vec(*self)
    }
}

/// A line and a column, both counted from 1.
#[derive(Debug, Clone, Copy, PartialEq, Eq)]
pub struct Pos {
    pub line: usize,
    pub column: usize,
}

/// Where a position goes past the character `ch`: a line feed starts the next
/// line, any other character moves one column on.
pub open spec fn advanced(line: usize, column: usize, ch: char) -> (int, int) {
    if ch == '\n' {
        (line + 1, 1)
    } else {
        (line as int, column + 1)
    }
}

/// Counting lines and columns with `advance`: from line 1, column 1 (where
/// `new` starts), each call of `advance` moves past one character, so that
/// after the characters `s` the line is one more than the line feeds of `s`
/// and the column one more than the characters after its last line feed.
/// Stated one step at a time: where the position is the one after `s`, moving
/// past `ch` gives the one after `s` followed by `ch`.
pub proof fn lemma_advance_counts(line: usize, column: usize, s: Seq<char>, ch: char)
    requires
        (line as nat, column as nat) == position_after(s),
    ensures
        (1nat, 1nat) == position_after(Seq::<char>::empty()),
        advanced(line, column, ch) == (position_after(s.push(ch)).0 as int, position_after(s.push(ch)).1 as int),
        position_after(s.push(ch)) == (1 + newlines(s.push(ch)), 1 + after_last_newline(s.push(ch))),
{
    assert(s.push(ch).drop_last() =~= s);
    lemma_position_counts(s.push(ch));
}

/// The position can move past `ch` without overflow.
pub open spec fn can_advance(line: usize, column: usize, ch: char) -> bool {
    if ch == '\n' {
        line < usize::MAX
    } else {
        column < usize::MAX
    }
}

impl Pos {
    /// The start of the input: line 1, column 1.
    pub fn new() -> (r: Self)
        ensures
            r.line == 1,
            r.column == 1,
    {
        Self { line: 1, column: 1 }
    }

    /// Moves past the character `ch`.
    pub fn advance(&mut self, ch: char)
        requires
            can_advance(old(self).line, old(self).column, ch),
        ensures
            (final(self).line as int, final(self).column as int) == advanced(old(self).line, old(self).column, ch),
    {
        if ch == '\n' {
            self.line += 1;
            self.column = 1;
        } else {
            self.column += 1;
        }
    }

    /// The line, counted from 1.
    pub fn line(&self) -> (r: usize)
        ensures
            r == self.line,
    {
        self.line
    }

    /// The column, counted from 1.
    pub fn column(&self) -> (r: usize)
        ensures
            r == self.column,
    {
        self.column
    }
}

/// An input together with the position of its front.
#[derive(Debug, Clone)]
pub struct State<I> {
    pub input: I,
    pub pos: Pos,
}

impl<I> State<I> {
    /// `input`, at line 1, column 1.
    pub fn new(input: I) -> (r: Self)
        ensures
            r.input == input,
            r.pos == (Pos { line: 1, column: 1 }),
    {
        Self { input, pos: Pos::new() }
    }

    /// The position of the front of the input.
    pub fn pos(&self) -> (r: Pos)
        ensures
            r == self.pos,
    {
        self.pos
    }
}

impl<I> core::ops::Deref for State<I> {
    type Target = I;

    fn deref(&self) -> (r: &I)
        ensures
            *r == self.input,
    {
        &self.input
    }
}

impl<I: Input> Input for State<I> where I::Token: AsChar + Copy {
    type Token = I::Token;

    open spec fn spec_tokens(&self) -> Seq<I::Token> {
        self.input.spec_tokens()
    }

    open spec fn next_requires(&self) -> bool {
        &&& self.input.next_requires()
        &&& self.input.spec_tokens().len() > 0 ==> can_advance(
            self.pos.line,
            self.pos.column,
            self.input.spec_tokens()[0].spec_as_char(),
        )
    }

    fn next(&mut self) -> (r: Option<I::Token>) {
        let t = self.input.next()?;
        let c = t.as_char();
        self.pos.advance(c);
        Some(t)
    }

    fn peek(&mut self) -> (r: Option<I::Token>) {
        self.input.peek()
    }

    fn diff(&self, other: &Self) -> (r: Self) {
        State { input: self.input.diff(&other.input), pos: self.pos }
    }

    fn tokens(&self) -> (r: Vec<I::Token>) {
        self.input.tokens()
    }
}

} // verus!
