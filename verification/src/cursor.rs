//! Saved places in an input, to come back to or to let go.
use vstd::prelude::*;

use crate::traits::{keeps_live, Input};

verus! {

/// A place saved in an input: the input's own record of it, with the number
/// of characters read there and how deeply it is nested among open cursors.
pub struct Cursor<Pos> {
    pub pos: Pos,
    pub index: Ghost<nat>,
    pub level: Ghost<nat>,
}

impl<Pos: Copy> Cursor<Pos> {
    /// The input's record of the place.
    pub fn pos(&self) -> (r: Pos)
        ensures
            r == self.pos,
    {
        self.pos
    }
}

/// How a cursor ends: back to its place, or kept where the input stands.
#[derive(Debug, Clone, Copy)]
pub enum CursorState<Pos> {
    Rollback(Pos),
    Commit,
}

/// A cursor that is ended by hand: rolled back, or committed.
pub struct CursorGuard<Pos> {
    pub cursor: Cursor<Pos>,
}

impl<Pos: Copy> CursorGuard<Pos> {
    /// Opens a cursor at the place where `input` stands.
    pub fn new<I: Input<Pos = Pos>>(input: &mut I) -> (r: Self)
        requires
            old(input).inv(),
        ensures
            final(input).inv(),
            final(input).text() == old(input).text(),
            final(input).index() == old(input).index(),
            final(input).errs() == old(input).errs(),
            final(input).depth() == old(input).depth() + 1,
            r.cursor.index@ == old(input).index(),
            r.cursor.level@ == final(input).depth(),
            final(input).live(r.cursor),
            keeps_live(*old(input), *final(input)),
    {
        let cursor = input.cursor();
        Self { cursor }
    }

    /// Brings `input` back to the place of the cursor, and closes it.
    #[inline]
    pub fn rollback<I: Input<Pos = Pos>>(self, input: &mut I)
        requires
            old(input).inv(),
            old(input).live(self.cursor),
            self.cursor.level@ == old(input).depth(),
        ensures
            final(input).inv(),
            final(input).text() == old(input).text(),
            final(input).errs() == old(input).errs(),
            final(input).index() == self.cursor.index@,
            final(input).depth() == old(input).depth() - 1,
            forall|c: Cursor<Pos>|
                old(input).live(c) && c.level@ < self.cursor.level@ && c.index@ <= self.cursor.index@
                    ==> #[trigger] final(input).live(c),
    {
        input.restore_callback(self.cursor);
    }

    /// Closes the cursor and leaves `input` where it stands.
    #[inline]
    pub fn commit<I: Input<Pos = Pos>>(self, input: &mut I)
        requires
            old(input).inv(),
            old(input).live(self.cursor),
            self.cursor.level@ == old(input).depth(),
        ensures
            final(input).inv(),
            final(input).text() == old(input).text(),
            final(input).errs() == old(input).errs(),
            final(input).index() == old(input).index(),
            final(input).depth() == old(input).depth() - 1,
            forall|c: Cursor<Pos>|
                old(input).live(c) && c.level@ < self.cursor.level@ ==> #[trigger] final(input).live(c),
    {
        input.commit_callback(self.cursor);
    }
}

} // verus!
