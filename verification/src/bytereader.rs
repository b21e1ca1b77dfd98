//! Reading bytes from a source through a buffer.
use vstd::prelude::*;

verus! {

/// Where bytes come from: each read hands over the next bytes, as many as fit.
pub trait Source {
    /// The bytes not read yet.
    spec fn spec_data(&self) -> Seq<u8>;

    /// Reads the next bytes into the front of `buf` and returns their number:
    /// none only when no byte is left (or `buf` is empty).
    fn read(&mut self, buf: &mut [u8]) -> (n: usize)
        ensures
            final(buf)@.len() == old(buf)@.len(),
            n <= old(buf)@.len(),
            n <= old(self).spec_data().len(),
            n == 0 ==> old(self).spec_data().len() == 0 || old(buf)@.len() == 0,
            final(buf)@.take(n as int) == old(self).spec_data().take(n as int),
            final(self).spec_data() == old(self).spec_data().skip(n as int),
    ;
}

impl<'a> Source for &'a [u8] {
    open spec fn spec_data(&self) -> Seq<u8> {
        (**self)@
    }

    fn read(&mut self, buf: &mut [u8]) -> (n: usize) {
        let n = if buf.len() < self.len() { buf.len() } else { self.len() };
        let mut i: usize = 0;
        while i < n
            invariant
                n <= old(buf)@.len(),
                n <= self@.len(),
                i <= n,
                buf@.len() == old(buf)@.len(),
                *self == *old(self),
                forall|j: int| 0 <= j < i ==> buf@[j] == self@[j],
            decreases n - i,
        {
            buf[i] = self[i];
            i = i + 1;
        }
        assert(buf@.take(n as int) =~= self@.take(n as int));
        let (_, rest) = self.split_at(n);
        *self = rest;
        n
    }
}

/// A fixed-size buffer of bytes, filled from the front and read in order.
pub struct Buffer {
    pub buf: Vec<u8>,
    pub filled: usize,
    pub cap: usize,
    pub pos: usize,
}

impl Buffer {
    /// The buffer is consistent: what was read lies between `pos` and `filled`.
    pub open spec fn wf(&self) -> bool {
        &&& self.buf@.len() == self.cap
        &&& self.pos <= self.filled <= self.cap
    }

    /// The bytes not read yet.
    pub open spec fn pending(&self) -> Seq<u8> {
        self.buf@.subrange(self.pos as int, self.filled as int)
    }

    /// An empty buffer that holds `cap` bytes.
    fn with_capacity(cap: usize) -> (r: Self)
        ensures
            r.wf(),
            r.cap == cap,
            r.pending() == Seq::<u8>::empty(),
    {
        let mut buf: Vec<u8> = Vec::new();
        let mut i: usize = 0;
        while i < cap
            invariant
                i <= cap,
                buf@.len() == i,
            decreases cap - i,
        {
            buf.push(0);
            i = i + 1;
        }
        Self { buf, filled: 0, cap, pos: 0 }
    }

    /// Refills the buffer from `reader`; the number of bytes read.
    fn fill<R: Source>(&mut self, reader: &mut R) -> (n: usize)
        requires
            old(self).wf(),
        ensures
            final(self).wf(),
            final(self).cap == old(self).cap,
            n <= old(reader).spec_data().len(),
            n == 0 ==> old(reader).spec_data().len() == 0 || old(self).cap == 0,
            final(self).pending() == old(reader).spec_data().take(n as int),
            final(reader).spec_data() == old(reader).spec_data().skip(n as int),
    {
        let n = reader.read(self.as_mut());
        self.filled = n;
        self.pos = 0;
        assert(self.pending() =~= self.buf@.take(n as int));
        n
    }

    /// The next byte, if the buffer holds one.
    fn consume(&mut self) -> (r: Option<u8>)
        requires
            old(self).wf(),
        ensures
            final(self).wf(),
            final(self).cap == old(self).cap,
            old(self).pending().len() == 0 ==> r is None && *final(self) == *old(self),
            old(self).pending().len() > 0 ==> r == Some(old(self).pending()[0])
                && final(self).pending() == old(self).pending().drop_first(),
    {
        if self.is_empty() {
            return None;
        }
        let ret = self.buf_read(self.pos);
        self.pos += 1;
        assert(self.pending() =~= old(self).pending().drop_first());
        Some(ret)
    }

    /// Whether every byte of the buffer was read.
    #[inline]
    fn is_empty(&self) -> (r: bool)
        requires
            self.wf(),
        ensures
            r == (self.pending().len() == 0),
    {
        return self.pos == self.filled;
    }

    /// The whole storage of the buffer.
    #[inline]
    fn as_mut(&mut self) -> (r: &mut [u8])
        ensures
            r@ == old(self).buf@,
            final(self).buf@ == final(r)@,
            final(self).filled == old(self).filled,
            final(self).pos == old(self).pos,
            final(self).cap == old(self).cap,
    {
        self.buf.as_mut_slice()
    }

    /// The byte at `index`.
    #[inline]
    fn buf_read(&self, index: usize) -> (r: u8)
        requires
            index < self.buf@.len(),
        ensures
            r == self.buf@[index as int],
    {
        self.buf[index]
    }
}

/// The bytes that `k` calls of `ByteReader::next` give from a reader whose
/// bytes left are `data`: its first `k` bytes, fewer where it ends before.
pub open spec fn given(data: Seq<u8>, k: nat) -> Seq<u8> {
    data.take(if k <= data.len() { k as int } else { data.len() as int })
}

/// A reader gives the bytes of its source in order, then nothing: one call of
/// `next` gives the first byte left and leaves the others, so `k + 1` calls
/// give what `k` calls give followed by the byte after them; once the bytes
/// are all given, every call gives `None`.
pub proof fn lemma_given_step(data: Seq<u8>, k: nat)
    ensures
        k < data.len() ==> given(data, k + 1) == given(data, k).push(data.skip(k as int)[0])
            && data.skip(k as int).drop_first() == data.skip(k as int + 1),
        k >= data.len() ==> given(data, k + 1) == given(data, k),
{
    if k < data.len() {
        assert(given(data, k + 1) =~= given(data, k).push(data.skip(k as int)[0]));
        assert(data.skip(k as int).drop_first() =~= data.skip(k as int + 1));
    }
}

/// The bytes of a source, read through a buffer of 1024 bytes.
pub struct ByteReader<R> {
    pub reader: R,
    pub buf: Buffer,
    pub is_eof: bool,
}

impl<R: Source> View for ByteReader<R> {
    type V = Seq<u8>;

    /// The bytes left to read.
    open spec fn view(&self) -> Seq<u8> {
        if self.is_eof {
            Seq::empty()
        } else {
            self.buf.pending() + self.reader.spec_data()
        }
    }
}

impl<R: Source> ByteReader<R> {
    /// The reader is consistent.
    pub open spec fn wf(&self) -> bool {
        &&& self.buf.wf()
        &&& self.buf.cap > 0
    }

    /// Reads the bytes of `reader`.
    pub fn new(reader: R) -> (r: Self)
        ensures
            r.wf(),
            r@ == reader.spec_data(),
    {
        let r = Self { reader, buf: Buffer::with_capacity(1024), is_eof: false };
        assert(r@ =~= r.reader.spec_data());
        r
    }

    /// The next byte, if any.
    pub fn next(&mut self) -> (r: Option<u8>)
        requires
            old(self).wf(),
        ensures
            final(self).wf(),
            old(self)@.len() == 0 ==> r is None && final(self)@.len() == 0,
            old(self)@.len() > 0 ==> r == Some(old(self)@[0]) && final(self)@ == old(self)@.drop_first(),
    {
        let ghost start = self@;
        loop
            invariant
                self.wf(),
                self@ == start,
                start == old(self)@,
            decreases self.reader.spec_data().len(), self.buf.pending().len(),
        {
            if self.is_eof {
                return None;
            }
            let ghost pending = self.buf.pending();
            let ghost data = self.reader.spec_data();
            match self.buf.consume() {
                Some(b) => {
                    assert(self@ =~= start.drop_first());
                    return Some(b);
                },
                None => {
                    let n = self.buf.fill(&mut self.reader);
                    if n == 0 {
                        self.is_eof = true;
                        return None;
                    }
                    assert(self@ =~= start) by {
                        assert(data.take(n as int) + data.skip(n as int) =~= data);
                        assert(pending =~= Seq::<u8>::empty());
                    }
                },
            }
        }
    }
}

} // verus!
