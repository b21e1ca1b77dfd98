//! Positions that move one column per character.
use vstd::prelude::*;

verus! {

/// A line and a column, both counted from 1.
#[derive(Debug, Clone, Copy, PartialEq, Eq)]
pub struct Pos {
    pub line: usize,
    pub column: usize,
}

impl Pos {
    /// The start of the input: line 1, column 1.
    pub fn new() -> (r: Self)
        ensures
            r.line == 1,
            r.column == 1,
    {
        Self { line: 1, column: 1 }
    }

    /// Moves past the character `ch`: one column on, and for a line feed to
    /// column 1 of the next line.
    pub fn move_by(&mut self, ch: char)
        requires
            old(self).column < usize::MAX,
            ch == '\n' ==> old(self).line < usize::MAX,
        ensures
            ch == '\n' ==> final(self).line == old(self).line + 1 && final(self).column == 1,
            ch != '\n' ==> final(self).line == old(self).line && final(self).column == old(self).column + 1,
    {
        self.column += 1;

        if ch == '\n' {
            self.line += 1;
            self.column = 1;
        }
    }

    /// The line, counted from 1.
    pub fn line(&self) -> (r: usize)
        ensures
            r == self.line,
    {
        self.line
    }

    /// The column, counted from 1.
    pub fn column(&self) -> (r: usize)
        ensures
            r == self.column,
    {
        self.column
    }
}

} // verus!
