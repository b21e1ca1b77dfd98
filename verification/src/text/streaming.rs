//! An input over the characters of a byte source, decoded as they are needed.
use vstd::prelude::*;

use super::position::{lemma_position_bound, lemma_position_next, position_after, Position};
use crate::bytereader::Source;
use crate::cursor::Cursor;
use crate::decode::{decoded_len, lemma_decoded_len_bounds, lemma_lossy_chars_len, lossy, lossy_chars, DecodeUtf8Lossy};
use crate::traits::{reads, Input, Located};

verus! {

/// A ring of values that grows, twice as large, when it is full.
#[derive(Debug)]
pub struct Buffer<T: Copy> {
    pub buf: Vec<Option<T>>,
    pub cap: usize,
    pub head: usize,
    pub tail: usize,
    pub len: usize,
}

/// `x` brought back into `0..cap`, where it is below `2 * cap`.
pub open spec fn wrap(x: int, cap: int) -> int {
    if x < cap {
        x
    } else {
        x - cap
    }
}

impl<T: Copy> View for Buffer<T> {
    type V = Seq<T>;

    /// The values held, from the front.
    open spec fn view(&self) -> Seq<T> {
        Seq::new(self.len as nat, |i: int| self.buf@[wrap(self.head + i, self.cap as int)]->Some_0)
    }
}

impl<T: Copy> Buffer<T> {
    /// The ring is consistent: its values run from `head` for `len` slots,
    /// wrapping round, and `tail` is the slot after them.
    pub open spec fn wf(&self) -> bool {
        &&& self.buf@.len() == self.cap
        &&& self.cap > 0
        &&& self.head < self.cap
        &&& self.len <= self.cap
        &&& self.tail == wrap(self.head + self.len, self.cap as int)
        &&& self.filled()
    }

    /// An empty ring of `cap` slots.
    fn with_capacity(cap: usize) -> (r: Self)
        requires
            cap > 0,
        ensures
            r.wf(),
            r.cap == cap,
            r@ == Seq::<T>::empty(),
    {
        let mut buf: Vec<Option<T>> = Vec::new();
        let mut i: usize = 0;
        while i < cap
            invariant
                i <= cap,
                buf@.len() == i,
            decreases cap - i,
        {
            buf.push(None);
            i = i + 1;
        }
        let r = Self { buf, cap, head: 0, tail: 0, len: 0 };
        assert(r@ =~= Seq::<T>::empty());
        r
    }

    /// Whether the ring holds no value.
    #[inline]
    pub fn is_empty(&self) -> (r: bool)
        ensures
            r == (self@.len() == 0),
    {
        self.len == 0
    }

    /// Whether every slot holds a value.
    #[inline]
    fn is_full(&self) -> (r: bool)
        ensures
            r == (self.len == self.cap),
    {
        return self.len == self.cap;
    }

    /// The number of values held.
    #[inline]
    fn len(&self) -> (r: usize)
        ensures
            r == self@.len(),
    {
        self.len
    }

    /// Adds `value` at the back, growing the ring where it is full.
    fn push_back(&mut self, value: T)
        requires
            old(self).wf(),
            old(self)@.len() < usize::MAX / 2,
        ensures
            final(self).wf(),
            final(self)@ == old(self)@.push(value),
    {
        if self.is_full() {
            self.grow();
        }
        let ghost before = self@;
        let tail = self.tail;
        self.buf_write(tail, value);
        self.tail = if tail + 1 == self.cap { 0 } else { tail + 1 };
        self.len += 1;
        assert(self@ =~= before.push(value));
    }

    /// Drops the first `end` values.
    fn truncate_front(&mut self, end: usize)
        requires
            old(self).wf(),
            end <= old(self)@.len(),
        ensures
            final(self).wf(),
            final(self)@ == old(self)@.skip(end as int),
    {
        self.head = if end >= self.cap - self.head { end - (self.cap - self.head) } else { self.head + end };
        self.len -= end;
        assert forall|i: int| 0 <= i < self.len implies (#[trigger] self.buf@[wrap(self.head + i, self.cap as int)]) is Some by {
            assert(wrap(self.head + i, self.cap as int) == wrap(old(self).head + (end + i), self.cap as int));
            assert(old(self).buf@[wrap(old(self).head + (end + i), self.cap as int)] is Some);
        }
        assert(self@ =~= old(self)@.skip(end as int));
    }

    /// Takes the value at the front, if any.
    fn pop_front(&mut self) -> (r: Option<T>)
        requires
            old(self).wf(),
        ensures
            final(self).wf(),
            old(self)@.len() == 0 ==> r is None && final(self)@ == old(self)@,
            old(self)@.len() > 0 ==> r == Some(old(self)@[0]) && final(self)@ == old(self)@.drop_first(),
    {
        if self.is_empty() {
            return None;
        }
        assert(self.buf@[wrap(self.head + 0, self.cap as int)] is Some);
        let value = self.buf_read(self.head);
        self.head = if self.head + 1 == self.cap { 0 } else { self.head + 1 };
        self.len -= 1;
        assert forall|i: int| 0 <= i < self.len implies (#[trigger] self.buf@[wrap(self.head + i, self.cap as int)]) is Some by {
            assert(wrap(self.head + i, self.cap as int) == wrap(old(self).head + (1 + i), self.cap as int));
            assert(old(self).buf@[wrap(old(self).head + (1 + i), self.cap as int)] is Some);
        }
        assert(self@ =~= old(self)@.drop_first());
        Some(value)
    }

    /// Moves the values into a ring twice as large.
    fn grow(&mut self)
        requires
            old(self).wf(),
            old(self)@.len() == old(self).cap,
            old(self).cap < usize::MAX / 2,
        ensures
            final(self).wf(),
            final(self)@ == old(self)@,
            final(self).cap == 2 * old(self).cap,
            final(self).len == old(self).len,
            final(self).head == 0,
            final(self).tail == old(self).cap,
    {
        let new_cap = self.cap * 2;
        let mut new_buf: Vec<Option<T>> = Vec::new();
        let mut i: usize = 0;
        while i < self.len
            invariant
                self.wf(),
                *self == *old(self),
                i <= self.len,
                new_buf@.len() == i,
                forall|j: int| 0 <= j < i ==> #[trigger] new_buf@[j] == Some(self@[j]),
            decreases self.len - i,
        {
            let slot = if i >= self.cap - self.head { i - (self.cap - self.head) } else { self.head + i };
            assert(slot == wrap(self.head + i, self.cap as int));
            assert(self.buf@[wrap(self.head + i, self.cap as int)] is Some);
            new_buf.push(Some(self.buf_read(slot)));
            i = i + 1;
        }
        while i < new_cap
            invariant
                self.len <= i <= new_cap,
                new_buf@.len() == i,
                forall|j: int| 0 <= j < self.len ==> #[trigger] new_buf@[j] == Some(old(self)@[j]),
                *self == *old(self),
            decreases new_cap - i,
        {
            new_buf.push(None);
            i = i + 1;
        }
        let len = self.len;
        self.buf = new_buf;
        self.head = 0;
        self.tail = len;
        self.cap = new_cap;
        assert(self@ =~= old(self)@);
    }

    /// Writes `value` into the slot `index`.
    #[inline]
    fn buf_write(&mut self, index: usize, value: T)
        requires
            index < old(self).buf@.len(),
        ensures
            final(self).buf@ == old(self).buf@.update(index as int, Some(value)),
            final(self).cap == old(self).cap,
            final(self).head == old(self).head,
            final(self).tail == old(self).tail,
            final(self).len == old(self).len,
    {
        self.buf.set(index, Some(value));
    }

    /// The value in the slot `index`.
    #[inline]
    fn buf_read(&self, index: usize) -> (r: T)
        requires
            index < self.buf@.len(),
            self.buf@[index as int] is Some,
        ensures
            Some(r) == self.buf@[index as int],
    {
        self.buf[index].unwrap()
    }

    /// The value at `index` from the front.
    pub fn index(&self, index: usize) -> (r: &T)
        requires
            self.wf(),
            index < self@.len(),
        ensures
            *r == self@[index as int],
    {
        let slot = if index >= self.cap - self.head { index - (self.cap - self.head) } else { self.head + index };
        assert(self.buf@[wrap(self.head + index, self.cap as int)] is Some);
        self.buf[slot].as_ref().unwrap()
    }

    /// Every slot in use holds a value.
    pub open spec fn filled(&self) -> bool {
        forall|i: int| 0 <= i < self.len ==> (#[trigger] self.buf@[wrap(self.head + i, self.cap as int)]) is Some
    }
}

/// A place saved in a stream: the offset in the buffer of characters kept,
/// the line and column, and whether the cursor is the outermost one open.
#[derive(Debug, Clone, Copy)]
pub struct Mark {
    pub offset: usize,
    pub pos: Position,
    pub outermost: bool,
}

/// The characters of a byte source, decoded as they are needed (with U+FFFD
/// for bytes that do not decode). While a cursor is open, the characters read
/// since the outermost cursor are kept in a buffer, to be read again after a
/// rollback.
pub struct StreamInput<R: Source> {
    pub decoder: DecodeUtf8Lossy<R>,
    pub buf: Buffer<char>,
    pub pos: Position,
    pub offset: usize,
    pub open: bool,
    pub msgs: Vec<String>,
    pub consumed: Ghost<Seq<char>>,
    pub depth: Ghost<nat>,
}

/// Splitting the kept characters at a cursor's offset.
proof fn lemma_split_kept(consumed: Seq<char>, buf: Seq<char>, offset: int, coff: int, ci: int)
    requires
        0 <= coff <= offset <= buf.len(),
        offset <= consumed.len(),
        buf.take(offset) == consumed.skip(consumed.len() - offset),
        coff + (consumed.len() - offset) == ci,
    ensures
        consumed.take(ci) + buf.skip(coff) == consumed + buf.skip(offset),
        buf.take(coff) == consumed.take(ci).skip(ci - coff),
{
    let base = consumed.len() - offset;
    assert forall|j: int| 0 <= j < offset implies #[trigger] buf[j] == consumed[base + j] by {
        assert(buf.take(offset)[j] == consumed.skip(base)[j]);
    }
    assert(consumed.take(ci) + buf.skip(coff) =~= consumed + buf.skip(offset));
    assert(buf.take(coff) =~= consumed.take(ci).skip(ci - coff));
}

/// Rolling a stream input back to a cursor brings back its line and column
/// and makes it read again what it read after the cursor: where `a` is the
/// input when the cursor `c` was opened (its `cursor` keeps text and place)
/// and `b` the input after `restore_callback(c)` (which keeps the text and
/// goes back to the cursor's place), `pos` gives the same line and column on
/// both, and the next `k` calls of `next` give the same characters.
pub proof fn lemma_stream_rollback<R: Source>(a: StreamInput<R>, c: Cursor<Mark>, b: StreamInput<R>, k: nat)
    requires
        a.inv(),
        b.inv(),
        c.index@ == a.index(),
        b.text() == a.text(),
        b.index() == c.index@,
    ensures
        position_after(b.text().take(b.index() as int)) == position_after(a.text().take(a.index() as int)),
        reads(b.text(), b.index() as int, k) == reads(a.text(), a.index() as int, k),
{
}

impl<R: Source> StreamInput<R> {
    /// Reads the characters of `reader`.
    pub fn new(reader: R) -> (r: Self)
        requires
            reader.spec_data().len() < usize::MAX / 2,
        ensures
            r.inv(),
            r.text() == lossy_chars(reader.spec_data()),
            r.index() == 0,
            r.depth() == 0,
            r.errs() == Seq::<Seq<char>>::empty(),
    {
        proof {
            lemma_lossy_chars_len(reader.spec_data());
        }
        let r = Self {
            decoder: DecodeUtf8Lossy::new(reader),
            buf: Buffer::with_capacity(5),
            pos: Position::start(),
            offset: 0,
            open: false,
            msgs: Vec::new(),
            consumed: Ghost(Seq::empty()),
            depth: Ghost(0),
        };
        proof {
            assert(r.buf@.take(0) =~= r.consumed@.skip(0));
            assert(r.text() =~= lossy_chars(reader.spec_data()));
            assert(r.msgs.deep_view() =~= Seq::<Seq<char>>::empty());
        }
        r
    }

    /// The line and column reached.
    pub fn pos(&self) -> (r: Position)
        requires
            self.inv(),
        ensures
            r@ == position_after(self.text().take(self.index() as int)),
    {
        proof {
            assert(self.text().take(self.index() as int) =~= self.consumed@);
        }
        self.pos
    }

    /// Keeps the message `msg`, to be given back at the end.
    pub fn report(&mut self, msg: String)
        requires
            old(self).inv(),
        ensures
            final(self).inv(),
            final(self).text() == old(self).text(),
            final(self).index() == old(self).index(),
            final(self).depth() == old(self).depth(),
            final(self).errs() == old(self).errs().push(msg@),
            forall|c: Cursor<Mark>| old(self).live(c) ==> #[trigger] final(self).live(c),
    {
        self.report_err(msg);
    }
}

impl<R: Source> Input for StreamInput<R> {
    type Pos = Mark;

    open spec fn text(&self) -> Seq<char> {
        self.consumed@ + self.buf@.skip(self.offset as int) + lossy_chars(self.decoder@)
    }

    open spec fn index(&self) -> nat {
        self.consumed@.len()
    }

    open spec fn depth(&self) -> nat {
        self.depth@
    }

    open spec fn errs(&self) -> Seq<Seq<char>> {
        self.msgs.deep_view()
    }

    open spec fn inv(&self) -> bool {
        &&& self.decoder.wf()
        &&& self.buf.wf()
        &&& self.offset <= self.buf@.len()
        &&& self.offset <= self.consumed@.len()
        &&& self.buf@.take(self.offset as int) == self.consumed@.skip(self.consumed@.len() - self.offset)
        &&& !self.open ==> self.offset == 0 && self.depth@ == 0
        &&& self.open ==> self.depth@ >= 1
        &&& self.pos@ == position_after(self.consumed@)
        &&& self.text().len() < usize::MAX / 2
    }

    open spec fn live(&self, c: Cursor<Mark>) -> bool {
        &&& self.open
        &&& 1 <= c.level@ <= self.depth@
        &&& (c.pos.outermost <==> c.level@ == 1)
        &&& c.index@ <= self.consumed@.len()
        &&& c.pos.offset + (self.consumed@.len() - self.offset) == c.index@
        &&& c.pos.pos@ == position_after(self.consumed@.take(c.index@ as int))
    }

    proof fn lemma_index(&self) {
    }

    proof fn lemma_live(&self, c: Cursor<Mark>) {
    }

    fn next(&mut self) -> (r: Option<char>) {
        let ghost t = self.text();
        let ghost idx = self.consumed@.len();
        proof {
            lemma_position_bound(self.consumed@);
            assert(t.take(idx as int) =~= self.consumed@);
        }
        let ch: char;
        if !self.open {
            match self.buf.pop_front() {
                Some(c) => {
                    ch = c;
                },
                None => {
                    let ghost bytes = self.decoder@;
                    match self.decoder.next() {
                        Some(c) => {
                            proof {
                                lemma_decoded_len_bounds(bytes);
                            }
                            ch = c;
                        },
                        None => {
                            assert(t =~= self.consumed@);
                            return None;
                        },
                    }
                },
            }
        } else if self.offset == self.buf.len() {
            let ghost bytes = self.decoder@;
            let ghost before = self.buf@;
            match self.decoder.next() {
                Some(c) => {
                    proof {
                        lemma_decoded_len_bounds(bytes);
                    }
                    self.buf.push_back(c);
                    self.offset += 1;
                    ch = c;
                    proof {
                        let off = self.offset - 1;
                        let len = self.consumed@.len();
                        assert(before.take(off) =~= before);
                        assert(before =~= self.consumed@.skip(len - off));
                        assert(self.buf@.take(self.offset as int) =~= self.buf@);
                        assert(self.consumed@.push(c).skip(len + 1 - self.offset) =~= self.consumed@.skip(len - off).push(c));
                    }
                },
                None => {
                    assert(t =~= self.consumed@);
                    return None;
                },
            }
        } else {
            ch = *self.buf.index(self.offset);
            self.offset += 1;
            proof {
                assert(self.buf@.take(self.offset as int) =~= self.consumed@.push(ch).skip(
                    self.consumed@.len() + 1 - self.offset,
                ));
            }
        }
        proof {
            assert(ch == t[idx as int]);
            lemma_position_next(t, idx as int);
            assert(t.take(idx as int + 1) =~= self.consumed@.push(ch));
        }
        self.pos.forward(ch);
        self.consumed = Ghost(self.consumed@.push(ch));
        proof {
            assert(self.text() =~= t);
            if !self.open {
                assert(self.buf@.take(0) =~= self.consumed@.skip(self.consumed@.len() as int));
            }
            assert forall|c: Cursor<Mark>| old(self).live(c) implies #[trigger] self.live(c) by {
                assert(self.consumed@.take(c.index@ as int) =~= old(self).consumed@.take(c.index@ as int));
            }
        }
        Some(ch)
    }

    fn cursor(&mut self) -> (c: Cursor<Mark>) {
        let outermost = !self.open;
        self.open = true;
        self.depth = Ghost(self.depth@ + 1);
        proof {
            assert(self.consumed@.take(self.consumed@.len() as int) =~= self.consumed@);
        }
        Cursor {
            pos: Mark { offset: self.offset, pos: self.pos, outermost },
            index: Ghost(self.consumed@.len()),
            level: Ghost(self.depth@),
        }
    }

    fn restore_callback(&mut self, cursor: Cursor<Mark>) {
        let ghost t = self.text();
        let ghost ci = cursor.index@ as int;
        proof {
            lemma_split_kept(self.consumed@, self.buf@, self.offset as int, cursor.pos.offset as int, ci);
        }
        self.offset = cursor.pos.offset;
        self.pos = cursor.pos.pos;
        self.consumed = Ghost(self.consumed@.take(ci));
        self.depth = Ghost((self.depth@ - 1) as nat);
        if cursor.pos.outermost {
            let ghost before = self.buf@;
            self.buf.truncate_front(self.offset);
            self.offset = 0;
            self.open = false;
            proof {
                assert(self.buf@.take(0) =~= self.consumed@.skip(self.consumed@.len() as int));
            }
        }
        proof {
            assert(self.text() =~= t);
            assert forall|c: Cursor<Mark>|
                old(self).live(c) && c.level@ < cursor.level@ && c.index@ <= cursor.index@
                    implies #[trigger] self.live(c) by {
                assert(self.consumed@.take(c.index@ as int) =~= old(self).consumed@.take(c.index@ as int));
            }
        }
    }

    fn commit_callback(&mut self, cursor: Cursor<Mark>) {
        let ghost t = self.text();
        self.depth = Ghost((self.depth@ - 1) as nat);
        if cursor.pos.outermost {
            self.buf.truncate_front(self.offset);
            self.offset = 0;
            self.open = false;
            proof {
                assert(self.buf@.take(0) =~= self.consumed@.skip(self.consumed@.len() as int));
            }
        }
        proof {
            assert(self.text() =~= t);
        }
    }

    fn report_err(&mut self, err: String) {
        let ghost before = self.msgs@;
        self.msgs.push(err);
        proof {
            assert(self.msgs.deep_view() =~= old(self).msgs.deep_view().push(err@)) by {
                assert(self.msgs@ == before.push(err));
            }
        }
    }

    fn finish(self) -> (r: Result<(), Vec<String>>) {
        if self.msgs.len() == 0 {
            Ok(())
        } else {
            Err(self.msgs)
        }
    }
}

impl<R: Source> Located for StreamInput<R> {
    fn position(&self) -> (r: Position) {
        self.pos()
    }
}

} // verus!
