//! A stream of decoded characters that can look ahead.
use vstd::prelude::*;

use crate::bytereader::Source;
use crate::decode::{decode_agrees, decoded, decoded_len, lemma_decode_utf8, lemma_decoded_len_bounds, DecodeUtf8};
use vstd::utf8::{decode_utf8, pop_first_scalar, valid_utf8};

verus! {

/// A byte sequence that is not UTF-8.
pub type DecodeUtf8Error = crate::decode::DecodeUtf8Error;

/// What decoding a character gives, as a value: the character, or the bytes
/// of the failed sequence.
pub open spec fn item_view(r: Result<char, DecodeUtf8Error>) -> Result<char, Seq<u8>> {
    match r {
        Ok(c) => Ok(c),
        Err(e) => Err(e.bytes@.take(e.error_len as int)),
    }
}

/// What decoding every byte of `s` yields, in order.
pub open spec fn items(s: Seq<u8>) -> Seq<Result<char, Seq<u8>>>
    decreases s.len(),
{
    if s.len() == 0 {
        Seq::empty()
    } else {
        proof {
            lemma_decoded_len_bounds(s);
        }
        seq![decoded(s)] + items(s.skip(decoded_len(s)))
    }
}

/// Decoding valid UTF-8 call after call gives each character it encodes, in
/// order, and no error: `DecodeUtf8::next` gives `decoded(s)` and leaves
/// `s.skip(decoded_len(s))`, so its successive results from the bytes `s` are
/// `items(s)` (then `None` on every later call), and on valid UTF-8 these are
/// the characters of `decode_utf8(s)`, each as `Ok`.
pub proof fn lemma_items_valid(s: Seq<u8>)
    requires
        valid_utf8(s),
    ensures
        items(s) == decode_utf8(s).map_values(|c: char| Ok::<char, Seq<u8>>(c)),
    decreases s.len(),
{
    if s.len() > 0 {
        lemma_decode_utf8(s);
        lemma_decoded_len_bounds(s);
        lemma_items_valid(s.skip(decoded_len(s)));
        assert(decode_utf8(s) =~= seq![decode_utf8(s)[0]] + decode_utf8(pop_first_scalar(s)));
        assert(items(s) =~= decode_utf8(s).map_values(|c: char| Ok::<char, Seq<u8>>(c)));
    } else {
        assert(items(s) =~= decode_utf8(s).map_values(|c: char| Ok::<char, Seq<u8>>(c)));
    }
}

/// A decoded item taken out of `s` is what `items` lists first.
proof fn lemma_decode_item(d: Result<char, DecodeUtf8Error>, s: Seq<u8>)
    requires
        s.len() > 0,
        decode_agrees(d, s),
    ensures
        item_view(d) == decoded(s),
        items(s) == seq![item_view(d)] + items(s.skip(decoded_len(s))),
{
    lemma_decoded_len_bounds(s);
}

/// A ring of decoded items, which grows when it is full.
#[derive(Debug)]
pub struct Buffer {
    pub buf: Vec<Result<char, DecodeUtf8Error>>,
    pub cap: usize,
    pub head: usize,
    pub tail: usize,
    pub len: usize,
}

/// `x` brought back into `0..cap`, where it is below `2 * cap`.
pub open spec fn wrap(x: int, cap: int) -> int {
    if x < cap {
        x
    } else {
        x - cap
    }
}

impl View for Buffer {
    type V = Seq<Result<char, DecodeUtf8Error>>;

    /// The items held, from the front.
    open spec fn view(&self) -> Seq<Result<char, DecodeUtf8Error>> {
        Seq::new(self.len as nat, |i: int| self.buf@[wrap(self.head + i, self.cap as int)])
    }
}

impl Buffer {
    /// The ring is consistent: its items run from `head` for `len` slots,
    /// wrapping round, and `tail` is the slot after them.
    pub open spec fn wf(&self) -> bool {
        &&& self.buf@.len() == self.cap
        &&& self.cap > 0
        &&& self.head < self.cap
        &&& self.len <= self.cap
        &&& self.tail == wrap(self.head + self.len, self.cap as int)
    }

    /// An empty ring of `cap` slots.
    fn with_capacity(cap: usize) -> (r: Self)
        requires
            cap > 0,
        ensures
            r.wf(),
            r.cap == cap,
            r@ == Seq::<Result<char, DecodeUtf8Error>>::empty(),
    {
        let mut buf: Vec<Result<char, DecodeUtf8Error>> = Vec::new();
        let mut i: usize = 0;
        while i < cap
            invariant
                i <= cap,
                buf@.len() == i,
            decreases cap - i,
        {
            buf.push(Ok('\0'));
            i = i + 1;
        }
        let r = Self { buf, cap, head: 0, tail: 0, len: 0 };
        assert(r@ =~= Seq::<Result<char, DecodeUtf8Error>>::empty());
        r
    }

    /// Whether the ring holds no item.
    #[inline]
    pub fn is_empty(&self) -> (r: bool)
        ensures
            r == (self@.len() == 0),
    {
        self.len == 0
    }

    /// The number of items held.
    #[inline]
    pub fn len(&self) -> (r: usize)
        ensures
            r == self@.len(),
    {
        self.len
    }

    /// Adds `value` at the back, growing the ring where it is full.
    fn push_back(&mut self, value: Result<char, DecodeUtf8Error>)
        requires
            old(self).wf(),
            old(self)@.len() < usize::MAX / 2,
        ensures
            final(self).wf(),
            final(self)@ == old(self)@.push(value),
    {
        if self.len == self.cap {
            self.grow();
        }
        let ghost before = self@;
        let tail = self.tail;
        self.buf.set(tail, value);
        self.tail = if tail + 1 == self.cap { 0 } else { tail + 1 };
        self.len += 1;
        assert(self@ =~= before.push(value));
    }

    /// Takes the item at the front, if any.
    fn pop_front(&mut self) -> (r: Option<Result<char, DecodeUtf8Error>>)
        requires
            old(self).wf(),
        ensures
            final(self).wf(),
            old(self)@.len() == 0 ==> r is None && final(self)@ == old(self)@,
            old(self)@.len() > 0 ==> r == Some(old(self)@[0]) && final(self)@ == old(self)@.drop_first(),
    {
        if self.is_empty() {
            return None;
        }
        let value = self.buf[self.head];
        self.head = if self.head + 1 == self.cap { 0 } else { self.head + 1 };
        self.len -= 1;
        assert(self@ =~= old(self)@.drop_first());
        Some(value)
    }

    /// Drops `count` items from the front, or all of them where there are fewer.
    #[inline]
    pub fn consume(&mut self, count: usize)
        requires
            old(self).wf(),
        ensures
            final(self).wf(),
            count >= old(self)@.len() ==> final(self)@.len() == 0,
            count < old(self)@.len() ==> final(self)@ == old(self)@.skip(count as int),
    {
        let count = if count >= self.len { self.len } else { count };
        self.head = if count >= self.cap - self.head { count - (self.cap - self.head) } else { self.head + count };
        self.len -= count;
        assert(self@ =~= old(self)@.skip(count as int));
    }

    /// Moves the items into a larger ring: twice as large below 1024 slots,
    /// a quarter larger from there on.
    fn grow(&mut self)
        requires
            old(self).wf(),
            old(self)@.len() == old(self).cap,
            old(self).cap < usize::MAX / 2,
        ensures
            final(self).wf(),
            final(self)@ == old(self)@,
            final(self).cap == if old(self).cap < 1024 {
                2 * old(self).cap
            } else {
                old(self).cap + old(self).cap / 4
            },
            final(self).len == old(self).len,
            final(self).head == 0,
            final(self).tail == old(self).cap,
    {
        let new_cap = if self.cap < 1024 { self.cap * 2 } else { self.cap + self.cap / 4 };
        let mut new_buf: Vec<Result<char, DecodeUtf8Error>> = Vec::new();
        let mut i: usize = 0;
        while i < self.len
            invariant
                self.wf(),
                *self == *old(self),
                i <= self.len,
                new_buf@.len() == i,
                forall|j: int| 0 <= j < i ==> new_buf@[j] == self@[j],
            decreases self.len - i,
        {
            let slot = if i >= self.cap - self.head { i - (self.cap - self.head) } else { self.head + i };
            new_buf.push(self.buf[slot]);
            i = i + 1;
        }
        while i < new_cap
            invariant
                self.len <= i <= new_cap,
                new_buf@.len() == i,
                forall|j: int| 0 <= j < self.len ==> new_buf@[j] == old(self)@[j],
                *self == *old(self),
            decreases new_cap - i,
        {
            new_buf.push(Ok('\0'));
            i = i + 1;
        }
        let len = self.len;
        self.buf = new_buf;
        self.head = 0;
        self.tail = len;
        self.cap = new_cap;
        assert(self@ =~= old(self)@);
    }

    /// The item at `index` from the front.
    pub fn index(&self, index: usize) -> (r: &Result<char, DecodeUtf8Error>)
        requires
            self.wf(),
            index < self@.len(),
        ensures
            *r == self@[index as int],
    {
        let slot = if index >= self.cap - self.head { index - (self.cap - self.head) } else { self.head + index };
        &self.buf[slot]
    }
}

/// What goes wrong in a stream of characters: bytes that do not decode.
#[derive(Clone, Copy, Debug)]
pub enum Utf8StreamError {
    DecodeUtf8Error(DecodeUtf8Error),
}

/// What a stream item gives, as a value: the character, or the bytes of the
/// failed sequence.
pub open spec fn stream_item_view(r: Result<char, Utf8StreamError>) -> Result<char, Seq<u8>> {
    match r {
        Ok(c) => Ok(c),
        Err(Utf8StreamError::DecodeUtf8Error(e)) => Err(e.bytes@.take(e.error_len as int)),
    }
}

/// The item as the stream hands it out.
fn to_stream_item(r: Result<char, DecodeUtf8Error>) -> (s: Result<char, Utf8StreamError>)
    ensures
        stream_item_view(s) == item_view(r),
{
    match r {
        Ok(t) => Ok(t),
        Err(e) => Err(Utf8StreamError::DecodeUtf8Error(e)),
    }
}

/// The items that `n` calls of `next` hand out from a stream whose view is
/// `v`: the first `n` of them, fewer where the stream ends before.
pub open spec fn handed_out(v: Seq<Result<char, Seq<u8>>>, n: nat) -> Seq<Result<char, Seq<u8>>> {
    v.take(if n <= v.len() { n as int } else { v.len() as int })
}

/// One call of `next` hands out the first item, and the following calls hand
/// out those of the rest.
pub proof fn lemma_next_step(v: Seq<Result<char, Seq<u8>>>, n: nat)
    requires
        v.len() > 0,
    ensures
        handed_out(v, n + 1) == seq![v[0]] + handed_out(v.drop_first(), n),
{
    assert(handed_out(v, n + 1) =~= seq![v[0]] + handed_out(v.drop_first(), n));
}

/// Looking ahead changes nothing of what the stream hands out: where `after`
/// is the view after `peek(k)` and `before` the view before it (they are
/// equal, by `peek`), `n` calls of `next` hand out the same items from both,
/// and the item that `peek(k)` gave is the one that the `k + 1`-th call of
/// `next` hands out; past the end, `peek` gives `None` and so many calls of
/// `next` hand out fewer than `k + 1` items.
pub proof fn lemma_peek_then_next(before: Seq<Result<char, Seq<u8>>>, after: Seq<Result<char, Seq<u8>>>, k: nat, n: nat)
    requires
        after == before,
    ensures
        handed_out(after, n) == handed_out(before, n),
        k < before.len() ==> handed_out(after, k + 1).last() == before[k as int],
        k >= before.len() ==> handed_out(after, k + 1).len() <= k,
{
}

/// The characters of a byte source, decoded on demand, with the items looked
/// at ahead kept in a ring.
pub struct Utf8Stream<R> {
    pub decode_utf8: DecodeUtf8<R>,
    pub peeked: Buffer,
}

impl<R: Source> View for Utf8Stream<R> {
    type V = Seq<Result<char, Seq<u8>>>;

    /// The items still to come: those looked at ahead, then the rest of the bytes decoded.
    open spec fn view(&self) -> Seq<Result<char, Seq<u8>>> {
        self.peeked@.map_values(|r: Result<char, DecodeUtf8Error>| item_view(r)) + items(self.decode_utf8@)
    }
}

impl<R: Source> Utf8Stream<R> {
    /// The stream is consistent.
    pub open spec fn wf(&self) -> bool {
        &&& self.decode_utf8.wf()
        &&& self.peeked.wf()
    }

    /// The characters of `reader`.
    pub fn new(reader: R) -> (r: Self)
        ensures
            r.wf(),
            r@ == items(reader.spec_data()),
            r.peeked@.len() == 0,
    {
        let r = Self { decode_utf8: DecodeUtf8::new(reader), peeked: Buffer::with_capacity(1) };
        assert(r@ =~= items(reader.spec_data()));
        r
    }

    /// The items looked at ahead.
    pub fn peeked(&self) -> (r: &Buffer)
        ensures
            *r == self.peeked,
    {
        &self.peeked
    }

    /// The items looked at ahead, to change.
    pub fn peeked_mut(&mut self) -> (r: &mut Buffer)
        ensures
            *r == old(self).peeked,
            final(self).peeked == *final(r),
            final(self).decode_utf8 == old(self).decode_utf8,
    {
        &mut self.peeked
    }

    /// The item `count` places ahead, without taking it; `None` where the
    /// stream ends before it. The items up to it are decoded and kept.
    pub fn peek(&mut self, count: usize) -> (r: Option<Result<char, Utf8StreamError>>)
        requires
            old(self).wf(),
            count < usize::MAX / 2 - 1,
        ensures
            final(self).wf(),
            final(self)@ == old(self)@,
            count < old(self)@.len() ==> (r matches Some(x) && stream_item_view(x) == old(self)@[count as int]),
            count >= old(self)@.len() ==> r is None,
            count < old(self).peeked@.len() ==> final(self).peeked == old(self).peeked,
            count >= old(self).peeked@.len() ==> final(self).peeked@.len() == if count < old(self)@.len() {
                count + 1
            } else {
                old(self)@.len() as int
            },
    {
        let peeked_len = self.peeked.len();
        if count < peeked_len {
            return Some(to_stream_item(*self.peeked.index(count)));
        }
        let ghost v = self@;
        let mut i: usize = peeked_len;
        while i < count + 1
            invariant
                self.wf(),
                self@ == v,
                v == old(self)@,
                old(self).peeked@.len() <= i <= count + 1,
                count < usize::MAX / 2 - 1,
                self.peeked@.len() == i,
            decreases count + 1 - i,
        {
            let ghost s = self.decode_utf8@;
            let ghost before = self.peeked@;
            let r = match self.decode_utf8.next() {
                Some(r) => r,
                None => {
                    assert(v =~= before.map_values(|r: Result<char, DecodeUtf8Error>| item_view(r)));
                    return None;
                },
            };
            proof {
                lemma_decode_item(r, s);
            }
            self.peeked.push_back(r);
            assert(self@ =~= v) by {
                assert(self.peeked@.map_values(|r: Result<char, DecodeUtf8Error>| item_view(r))
                    =~= before.map_values(|r: Result<char, DecodeUtf8Error>| item_view(r)).push(item_view(r)));
            }
            i = i + 1;
        }
        Some(to_stream_item(*self.peeked.index(count)))
    }

    /// Takes the next item: the first one looked at ahead, or else the next
    /// one decoded.
    pub fn next(&mut self) -> (r: Option<Result<char, Utf8StreamError>>)
        requires
            old(self).wf(),
        ensures
            final(self).wf(),
            old(self)@.len() == 0 ==> r is None && final(self)@.len() == 0,
            old(self)@.len() > 0 ==> (r matches Some(x) && stream_item_view(x) == old(self)@[0]
                && final(self)@ == old(self)@.drop_first()),
            old(self).peeked@.len() > 0 ==> final(self).peeked@ == old(self).peeked@.drop_first()
                && final(self).decode_utf8 == old(self).decode_utf8,
            old(self).peeked@.len() == 0 ==> final(self).peeked == old(self).peeked,
    {
        if self.peeked.is_empty() {
            let ghost s = self.decode_utf8@;
            assert(self@ =~= items(s));
            return match self.decode_utf8.next() {
                Some(d) => {
                    proof {
                        lemma_decode_item(d, s);
                    }
                    assert(self@ =~= old(self)@.drop_first());
                    Some(to_stream_item(d))
                },
                None => None,
            };
        }
        let peeked = match self.peeked.pop_front() {
            Some(p) => p,
            None => return None,
        };
        assert(self@ =~= old(self)@.drop_first());
        Some(to_stream_item(peeked))
    }
}

} // verus!
