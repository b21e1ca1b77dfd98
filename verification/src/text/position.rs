//! Lines and columns in a text.
use vstd::prelude::*;

verus! {

/// The line and column after the character `c`, from `lc`: a line feed
/// starts the next line at column 1, any other character moves one column on.
pub open spec fn step(lc: (nat, nat), c: char) -> (nat, nat) {
    if c == '\n' {
        (lc.0 + 1, 1)
    } else {
        (lc.0, lc.1 + 1)
    }
}

/// The line and column reached after reading `s` from the start of a text.
pub open spec fn position_after(s: Seq<char>) -> (nat, nat)
    decreases s.len(),
{
    if s.len() == 0 {
        (1, 1)
    } else {
        step(position_after(s.drop_last()), s.last())
    }
}

/// Reading `s` takes the line and the column at most one past its length.
pub proof fn lemma_position_bound(s: Seq<char>)
    ensures
        1 <= position_after(s).0 <= s.len() + 1,
        1 <= position_after(s).1 <= s.len() + 1,
    decreases s.len(),
{
    if s.len() > 0 {
        lemma_position_bound(s.drop_last());
    }
}

/// Reading one more character of `t` steps the position by it.
pub proof fn lemma_position_next(t: Seq<char>, k: int)
    requires
        0 <= k < t.len(),
    ensures
        position_after(t.take(k + 1)) == step(position_after(t.take(k)), t[k]),
{
    assert(t.take(k + 1).drop_last() =~= t.take(k));
}

/// The number of line feeds in `s`.
pub open spec fn newlines(s: Seq<char>) -> nat
    decreases s.len(),
{
    if s.len() == 0 {
        0
    } else {
        newlines(s.drop_last()) + if s.last() == '\n' { 1nat } else { 0nat }
    }
}

/// The number of characters of `s` after its last line feed; all of them
/// where it holds none.
pub open spec fn after_last_newline(s: Seq<char>) -> nat
    decreases s.len(),
{
    if s.len() == 0 {
        0
    } else if s.last() == '\n' {
        0
    } else {
        after_last_newline(s.drop_last()) + 1
    }
}

/// After reading `s` from the start of a text, the line is one more than the
/// number of line feeds read, and the column one more than the number of
/// characters read since the last line feed.
pub proof fn lemma_position_counts(s: Seq<char>)
    ensures
        position_after(s) == (1 + newlines(s), 1 + after_last_newline(s)),
    decreases s.len(),
{
    if s.len() > 0 {
        lemma_position_counts(s.drop_last());
    }
}

/// A line and a column, both counted from 1.
#[derive(Debug, Clone, Copy)]
pub struct Position {
    pub line: usize,
    pub column: usize,
}

impl View for Position {
    type V = (nat, nat);

    open spec fn view(&self) -> (nat, nat) {
        (self.line as nat, self.column as nat)
    }
}

impl Position {
    /// The start of a text: line 1, column 1.
    pub fn start() -> (r: Self)
        ensures
            r@ == (1nat, 1nat),
    {
        Self { line: 1, column: 1 }
    }

    /// Moves past the character `split`.
    pub fn forward(&mut self, split: char)
        requires
            old(self).column < usize::MAX,
            split == '\n' ==> old(self).line < usize::MAX,
        ensures
            final(self)@ == step(old(self)@, split),
    {
        if split == '\n' {
            self.line += 1;
            self.column = 1;
        } else {
            self.column += 1;
        }
    }

    /// The line.
    pub fn line(&self) -> (r: usize)
        ensures
            r == self.line,
    {
        self.line
    }

    /// Gives the line, as `line` does: the column is not read.
    pub fn column(&self) -> (r: usize)
        ensures
            r == self.line,
    {
        self.line
    }
}

} // verus!
