//! An input over a text held whole in memory.
use vstd::prelude::*;

use super::position::{lemma_position_bound, lemma_position_next, position_after, Position};
use crate::cursor::Cursor;
use crate::text_util::str_chars;
use crate::traits::{Input, Located};

verus! {

/// A place saved in a text: the characters read, and the line and column there.
#[derive(Debug, Clone, Copy)]
pub struct Place {
    pub offset: usize,
    pub pos: Position,
}

/// The characters of a string, read in place, with the line and column
/// reached and the messages reported.
pub struct StaticInput<'a> {
    pub str: &'a str,
    pub chars: Vec<char>,
    pub pos: Position,
    pub offset: usize,
    pub msgs: Vec<String>,
    pub depth: Ghost<nat>,
}

impl<'a> StaticInput<'a> {
    /// Reads `str` from its start.
    pub fn new(str: &'a str) -> (r: Self)
        requires
            str@.len() < usize::MAX,
        ensures
            r.inv(),
            r.text() == str@,
            r.index() == 0,
            r.depth() == 0,
            r.errs() == Seq::<Seq<char>>::empty(),
    {
        let chars = str_chars(str);
        let r = Self { str, chars, pos: Position::start(), offset: 0, msgs: Vec::new(), depth: Ghost(0) };
        proof {
            assert(r.chars@.take(0) =~= Seq::<char>::empty());
            assert(r.msgs.deep_view() =~= Seq::<Seq<char>>::empty());
        }
        r
    }

    /// The line and column reached.
    pub fn pos(&self) -> (r: Position)
        requires
            self.inv(),
        ensures
            r@ == position_after(self.text().take(self.index() as int)),
    {
        self.pos
    }
}

impl<'a> Input for StaticInput<'a> {
    type Pos = Place;

    open spec fn text(&self) -> Seq<char> {
        self.chars@
    }

    open spec fn index(&self) -> nat {
        self.offset as nat
    }

    open spec fn depth(&self) -> nat {
        self.depth@
    }

    open spec fn errs(&self) -> Seq<Seq<char>> {
        self.msgs.deep_view()
    }

    open spec fn inv(&self) -> bool {
        &&& self.offset <= self.chars@.len()
        &&& self.chars@.len() < usize::MAX
        &&& self.pos@ == position_after(self.chars@.take(self.offset as int))
    }

    open spec fn live(&self, c: Cursor<Place>) -> bool {
        &&& 1 <= c.level@ <= self.depth@
        &&& c.index@ <= self.offset
        &&& c.pos.offset == c.index@
        &&& c.pos.pos@ == position_after(self.chars@.take(c.index@ as int))
    }

    proof fn lemma_index(&self) {
    }

    proof fn lemma_live(&self, c: Cursor<Place>) {
    }

    fn next(&mut self) -> (r: Option<char>) {
        if self.offset >= self.chars.len() {
            return None;
        }
        let ch = self.chars[self.offset];
        proof {
            lemma_position_bound(self.chars@.take(self.offset as int));
            lemma_position_next(self.chars@, self.offset as int);
        }
        self.pos.forward(ch);
        self.offset += 1;
        Some(ch)
    }

    fn cursor(&mut self) -> (c: Cursor<Place>) {
        self.depth = Ghost(self.depth@ + 1);
        Cursor { pos: Place { offset: self.offset, pos: self.pos }, index: Ghost(self.offset as nat), level: Ghost(self.depth@) }
    }

    fn restore_callback(&mut self, cursor: Cursor<Place>) {
        self.offset = cursor.pos.offset;
        self.pos = cursor.pos.pos;
        self.depth = Ghost((self.depth@ - 1) as nat);
    }

    fn commit_callback(&mut self, cursor: Cursor<Place>) {
        self.depth = Ghost((self.depth@ - 1) as nat);
    }

    fn report_err(&mut self, err: String) {
        let ghost before = self.msgs@;
        self.msgs.push(err);
        proof {
            assert(self.msgs.deep_view() =~= old(self).msgs.deep_view().push(err@)) by {
                assert(self.msgs@ == before.push(err));
            }
        }
    }

    fn finish(self) -> (r: Result<(), Vec<String>>) {
        if self.msgs.len() == 0 {
            Ok(())
        } else {
            Err(self.msgs)
        }
    }
}

impl<'a> Located for StaticInput<'a> {
    fn position(&self) -> (r: Position) {
        self.pos()
    }
}

} // verus!
