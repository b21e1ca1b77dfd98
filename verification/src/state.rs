//! An input with the position of its front and data carried along.
use vstd::prelude::*;

use crate::input::{advanced, can_advance, Input};
use crate::tokens::AsChar;

verus! {

/// A line and a column, both counted from 1.
#[derive(Debug, Clone, Copy, PartialEq, Eq)]
pub struct Pos {
    pub line: usize,
    pub column: usize,
}

impl Pos {
    /// The start of the input: line 1, column 1.
    pub fn new() -> (r: Self)
        ensures
            r.line == 1,
            r.column == 1,
    {
        Self { line: 1, column: 1 }
    }

    /// Moves past the character `ch`: a line feed starts the next line, any
    /// other character moves one column on.
    pub fn advance(&mut self, ch: char)
        requires
            can_advance(old(self).line, old(self).column, ch),
        ensures
            (final(self).line as int, final(self).column as int) == advanced(old(self).line, old(self).column, ch),
    {
        if ch == '\n' {
            self.line += 1;
            self.column = 1;
        } else {
            self.column += 1;
        }
    }

    /// The line, counted from 1.
    pub fn line(&self) -> (r: usize)
        ensures
            r == self.line,
    {
        self.line
    }

    /// The column, counted from 1.
    pub fn column(&self) -> (r: usize)
        ensures
            r == self.column,
    {
        self.column
    }
}

/// An input, the position of its front, and `data` that travels with it.
#[derive(Debug, Clone)]
pub struct State<I, Data> {
    pub input: I,
    pub pos: Pos,
    pub data: Data,
}

impl<I> State<I, ()> {
    /// `input`, at line 1, column 1, with no data.
    pub fn new(input: I) -> (r: Self)
        ensures
            r.input == input,
            r.pos == (Pos { line: 1, column: 1 }),
    {
        Self { input, pos: Pos::new(), data: () }
    }
}

impl<I, Data> State<I, Data> {
    /// `input`, at line 1, column 1, carrying `data`.
    pub fn with_data(data: Data, input: I) -> (r: Self)
        ensures
            r.input == input,
            r.pos == (Pos { line: 1, column: 1 }),
            r.data == data,
    {
        Self { input, pos: Pos::new(), data }
    }

    /// The position of the front of the input.
    pub fn pos(&self) -> (r: Pos)
        ensures
            r == self.pos,
    {
        self.pos
    }
}

impl<I, Data> core::ops::Deref for State<I, Data> {
    type Target = I;

    fn deref(&self) -> (r: &I)
        ensures
            *r == self.input,
    {
        &self.input
    }
}

impl<I: Input, Data: Copy> Input for State<I, Data> where I::Token: AsChar + Copy {
    type Token = I::Token;

    open spec fn spec_tokens(&self) -> Seq<I::Token> {
        self.input.spec_tokens()
    }

    open spec fn next_requires(&self) -> bool {
        &&& self.input.next_requires()
        &&& self.input.spec_tokens().len() > 0 ==> can_advance(
            self.pos.line,
            self.pos.column,
            self.input.spec_tokens()[0].spec_as_char(),
        )
    }

    fn next(&mut self) -> (r: Option<I::Token>) {
        let t = self.input.next()?;
        let c = t.as_char();
        self.pos.advance(c);
        Some(t)
    }

    fn peek(&mut self) -> (r: Option<I::Token>) {
        self.input.peek()
    }

    fn diff(&self, other: &Self) -> (r: Self) {
        State { input: self.input.diff(&other.input), pos: self.pos, data: self.data }
    }

    fn tokens(&self) -> (r: Vec<I::Token>) {
        self.input.tokens()
    }
}

} // verus!
