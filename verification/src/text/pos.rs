//! A line and column pair used inside the text module.
use vstd::prelude::*;

use super::position::step;

verus! {

/// A line and a column, both counted from 1.
#[derive(Debug, Clone, Copy)]
pub struct Pos {
    pub line: usize,
    pub column: usize,
}

impl View for Pos {
    type V = (nat, nat);

    open spec fn view(&self) -> (nat, nat) {
        (self.line as nat, self.column as nat)
    }
}

impl Pos {
    /// Line 1, column 1.
    pub(crate) fn new() -> (r: Self)
        ensures
            r@ == (1nat, 1nat),
    {
        Self { line: 1, column: 1 }
    }

    /// Moves past the character `v`.
    pub(crate) fn advance(&mut self, v: char)
        requires
            old(self).column < usize::MAX,
            v == '\n' ==> old(self).line < usize::MAX,
        ensures
            final(self)@ == step(old(self)@, v),
    {
        match v {
            '\n' => {
                self.line += 1;
                self.column = 1;
            },
            _ => self.column += 1,
        }
    }

    /// The line.
    #[inline]
    pub(crate) fn line(&self) -> (r: usize)
        ensures
            r == self.line,
    {
        self.line
    }

    /// The column.
    #[inline]
    pub(crate) fn column(&self) -> (r: usize)
        ensures
            r == self.column,
    {
        self.column
    }
}

} // verus!
