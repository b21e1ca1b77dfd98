//! An input over a string for the parsers of [`super::primitive`].
use vstd::prelude::*;

use crate::cursor::Cursor;
use crate::pos::Pos;
use crate::text::position::{lemma_position_bound, lemma_position_next, position_after, step, Position};
use crate::text_util::str_chars;
use crate::traits::{Input, Located};

verus! {

/// A place saved in a string: the characters read and the position there.
#[derive(Debug, Clone, Copy)]
pub struct Mark {
    pub index: usize,
    pub pos: Pos,
}

/// The line and column of `p`.
pub open spec fn pos_view(p: Pos) -> (nat, nat) {
    (p.line as nat, p.column as nat)
}

/// The characters of a string, read in place, with the position reached.
pub struct State<'a> {
    pub str: &'a str,
    pub source: Vec<char>,
    pub index: usize,
    pub pos: Pos,
    pub msgs: Vec<String>,
    pub depth: Ghost<nat>,
}

impl<'a> State<'a> {
    /// Reads `str` from its start.
    pub fn new(str: &'a str) -> (r: Self)
        requires
            str@.len() < usize::MAX,
        ensures
            r.inv(),
            r.text() == str@,
            r.index() == 0,
            r.depth() == 0,
            r.errs() == Seq::<Seq<char>>::empty(),
    {
        let source = str_chars(str);
        let r = Self { str, source, index: 0, pos: Pos::new(), msgs: Vec::new(), depth: Ghost(0) };
        proof {
            assert(r.source@.take(0) =~= Seq::<char>::empty());
            assert(r.msgs.deep_view() =~= Seq::<Seq<char>>::empty());
        }
        r
    }

    /// The characters still to read.
    pub fn as_source(&self) -> (r: &[char])
        requires
            self.inv(),
        ensures
            r@ == self.text().skip(self.index() as int),
    {
        let (_, rest) = self.source.as_slice().split_at(self.index);
        rest
    }

    /// The position reached.
    pub fn pos(&self) -> (r: Pos)
        requires
            self.inv(),
        ensures
            pos_view(r) == position_after(self.text().take(self.index() as int)),
    {
        self.pos
    }
}

impl<'a> Input for State<'a> {
    type Pos = Mark;

    open spec fn text(&self) -> Seq<char> {
        self.source@
    }

    open spec fn index(&self) -> nat {
        self.index as nat
    }

    open spec fn depth(&self) -> nat {
        self.depth@
    }

    open spec fn errs(&self) -> Seq<Seq<char>> {
        self.msgs.deep_view()
    }

    open spec fn inv(&self) -> bool {
        &&& self.index <= self.source@.len()
        &&& self.source@.len() < usize::MAX
        &&& pos_view(self.pos) == position_after(self.source@.take(self.index as int))
    }

    open spec fn live(&self, c: Cursor<Mark>) -> bool {
        &&& 1 <= c.level@ <= self.depth@
        &&& c.index@ <= self.index
        &&& c.pos.index == c.index@
        &&& pos_view(c.pos.pos) == position_after(self.source@.take(c.index@ as int))
    }

    proof fn lemma_index(&self) {
    }

    proof fn lemma_live(&self, c: Cursor<Mark>) {
    }

    fn next(&mut self) -> (r: Option<char>) {
        if self.index >= self.source.len() {
            return None;
        }
        let ch = self.source[self.index];
        proof {
            lemma_position_bound(self.source@.take(self.index as int));
            lemma_position_next(self.source@, self.index as int);
        }
        self.pos.move_by(ch);
        self.index += 1;
        proof {
            assert(pos_view(self.pos) == step(pos_view(old(self).pos), ch));
        }
        Some(ch)
    }

    fn cursor(&mut self) -> (c: Cursor<Mark>) {
        self.depth = Ghost(self.depth@ + 1);
        Cursor { pos: Mark { index: self.index, pos: self.pos }, index: Ghost(self.index as nat), level: Ghost(self.depth@) }
    }

    fn restore_callback(&mut self, cursor: Cursor<Mark>) {
        self.index = cursor.pos.index;
        self.pos = cursor.pos.pos;
        self.depth = Ghost((self.depth@ - 1) as nat);
    }

    fn commit_callback(&mut self, cursor: Cursor<Mark>) {
        self.depth = Ghost((self.depth@ - 1) as nat);
    }

    fn report_err(&mut self, err: String) {
        let ghost before = self.msgs@;
        self.msgs.push(err);
        proof {
            assert(self.msgs.deep_view() =~= old(self).msgs.deep_view().push(err@)) by {
                assert(self.msgs@ == before.push(err));
            }
        }
    }

    fn finish(self) -> (r: Result<(), Vec<String>>) {
        if self.msgs.len() == 0 {
            Ok(())
        } else {
            Err(self.msgs)
        }
    }
}

impl<'a> Located for State<'a> {
    fn position(&self) -> (r: Position) {
        Position { line: self.pos.line, column: self.pos.column }
    }
}

} // verus!
