//! Decoding UTF-8 from a byte source, one character at a time.
use vstd::prelude::*;
use vstd::utf8::{
    char_u32_cast, codepoint_width_2, codepoint_width_3, codepoint_width_4, decode_first_scalar,
    decode_utf8, encode_utf8, encode_utf8_first_scalar, is_scalar, length_of_first_scalar,
    pop_first_scalar, valid_first_scalar, valid_utf8,
};

use crate::bytereader::{ByteReader, Source};

verus! {

/// A byte sequence that is not UTF-8: the bytes read for the character that
/// failed, the first `error_len` of `bytes` (the others are zero).
#[derive(Clone, Copy, Debug)]
pub struct DecodeUtf8Error {
    pub bytes: [u8; 4],
    pub error_len: u8,
}

impl DecodeUtf8Error {
    /// The error holds its bytes at the front of the array, zeros behind them.
    pub open spec fn wf(&self) -> bool {
        &&& 1 <= self.error_len <= 4
        &&& forall|i: int| self.error_len <= i < 4 ==> #[trigger] self.bytes@[i] == 0u8
    }

    /// The bytes of the failed character.
    pub fn bytes(&self) -> (r: &[u8])
        requires
            self.error_len <= 4,
        ensures
            r@ == self.bytes@.take(self.error_len as int),
    {
        let len = self.error_len as usize;
        let all: &[u8] = self.bytes.as_slice();
        slice_prefix(all, len)
    }
}

/// The first `n` elements of `s`.
fn slice_prefix(s: &[u8], n: usize) -> (r: &[u8])
    requires
        n <= s@.len(),
    ensures
        r@ == s@.take(n as int),
{
    let (front, _) = s.split_at(n);
    front
}

/// `e` holds exactly the bytes `s`.
pub open spec fn error_holds(e: DecodeUtf8Error, s: Seq<u8>) -> bool {
    &&& e.wf()
    &&& e.error_len == s.len()
    &&& e.bytes@.take(s.len() as int) == s
}

/// The number of bytes of the character that the byte `x` begins: zero where
/// no character begins with `x`.
pub open spec fn lead_width(x: u8) -> int {
    if x <= 0x7F {
        1
    } else if 0xC2 <= x <= 0xDF {
        2
    } else if 0xE0 <= x <= 0xEF {
        3
    } else if 0xF0 <= x <= 0xF4 {
        4
    } else {
        0
    }
}

/// The bits that the leading byte `x` of a character of `w` bytes carries.
pub open spec fn lead_bits(x: u8, w: int) -> u32 {
    if w == 2 {
        (x & 0x1F) as u32
    } else if w == 3 {
        (x & 0x0F) as u32
    } else {
        (x & 0x07) as u32
    }
}

/// The code point `point` extended by the six bits of the continuation byte `cont`.
pub open spec fn acc_spec(point: u32, cont: u8) -> u32 {
    (point << 6u32) | ((cont as u32) & 0x3Fu32)
}

/// The code point that the first `w` bytes of `s` encode.
pub open spec fn point_of(s: Seq<u8>, w: int) -> u32
    decreases w,
{
    if w <= 1 {
        lead_bits(s[0], lead_width(s[0]))
    } else {
        acc_spec(point_of(s, w - 1), s[w - 1])
    }
}

/// The byte `i` of `s` is there and is a continuation byte.
pub open spec fn cont_at(s: Seq<u8>, i: int) -> bool {
    0 <= i < s.len() && 0x80 <= s[i] <= 0xBF
}

/// The index of the first byte of `s`, from `i` on and before `w`, that is
/// missing or is no continuation byte; `w` where there is none.
pub open spec fn run_from(s: Seq<u8>, i: int, w: int) -> int
    decreases w - i,
{
    if i >= w {
        w
    } else if !cont_at(s, i) {
        i
    } else {
        run_from(s, i + 1, w)
    }
}

/// How many bytes of `s` (not empty) the next character takes, whether it
/// decodes or not.
pub open spec fn decoded_len(s: Seq<u8>) -> int {
    let w = lead_width(s[0]);
    if w <= 1 {
        1
    } else {
        run_from(s, 1, w)
    }
}

/// Whether the next character of `s` (not empty) decodes, and to which code point.
pub open spec fn decodes(s: Seq<u8>) -> bool {
    let w = lead_width(s[0]);
    w == 1 || (w > 1 && run_from(s, 1, w) == w && is_scalar(point_of(s, w)))
}

/// The code point of the next character of `s`, where it decodes.
pub open spec fn decoded_point(s: Seq<u8>) -> u32 {
    let w = lead_width(s[0]);
    if w == 1 {
        s[0] as u32
    } else {
        point_of(s, w)
    }
}

/// What decoding the bytes `s` (not empty) yields next: the character, or the
/// bytes taken for it.
pub open spec fn decoded(s: Seq<u8>) -> Result<char, Seq<u8>> {
    if decodes(s) {
        Ok(decoded_point(s) as char)
    } else {
        Err(s.take(decoded_len(s)))
    }
}

/// `r` is what decoding `s` gives next, as `decoded` describes it.
pub open spec fn decode_agrees(r: Result<char, DecodeUtf8Error>, s: Seq<u8>) -> bool {
    match decoded(s) {
        Ok(c) => r == Ok::<char, DecodeUtf8Error>(c),
        Err(b) => r matches Err(e) && error_holds(e, b),
    }
}

/// Extends `point` by the six bits of the continuation byte `cont`.
#[inline]
fn acc_codepoint(point: u32, cont: u8) -> (r: u32)
    ensures
        r == acc_spec(point, cont),
{
    (point << 6) | (cont as u32 & 0x3F)
}

/// The character whose scalar value is `v`, if there is one.
///
/// Calls `char::from_u32`; its documentation says that it returns `None`
/// exactly where `v` is no Unicode scalar value, which is what this states.
#[verifier::external_body]
fn char_from_u32(v: u32) -> (r: Option<char>)
    ensures
        is_scalar(v) ==> r == Some(v as char),
        !is_scalar(v) ==> r is None,
{
    char::from_u32(v)
}

/// Decodes the UTF-8 bytes of a source into characters.
pub struct DecodeUtf8<R> {
    pub bytes: ByteReader<R>,
    /// A byte read but not used yet: it ended the character before it.
    pub buf: Option<u8>,
}

impl<R: Source> View for DecodeUtf8<R> {
    type V = Seq<u8>;

    /// The bytes left to decode.
    open spec fn view(&self) -> Seq<u8> {
        match self.buf {
            Some(b) => seq![b] + self.bytes@,
            None => self.bytes@,
        }
    }
}

/// From the byte `i` of `s` up to the byte `k`, all are continuation bytes,
/// so the run of continuation bytes from `i` reaches as far as the one from `k`.
proof fn lemma_run_from(s: Seq<u8>, i: int, k: int, w: int)
    requires
        i <= k <= w,
        forall|j: int| i <= j < k ==> #[trigger] cont_at(s, j),
    ensures
        run_from(s, i, w) == run_from(s, k, w),
    decreases k - i,
{
    if i < k {
        assert(cont_at(s, i));
        lemma_run_from(s, i + 1, k, w);
    }
}

/// Where the run of continuation bytes after a leading byte of width `w`
/// stops at `k`, the character takes `k` bytes, and fails unless `k` is `w`.
proof fn lemma_decoded_len(s: Seq<u8>, w: int, k: int)
    requires
        s.len() >= 1,
        w == lead_width(s[0]),
        2 <= w,
        1 <= k <= w,
        run_from(s, 1, w) == run_from(s, k, w),
        k < w ==> !cont_at(s, k),
    ensures
        decoded_len(s) == k,
        k < w ==> decoded(s) == Err::<char, Seq<u8>>(s.take(k)),
        k == w ==> decodes(s) == is_scalar(point_of(s, w)),
{
}

/// The bits gathered from a leading byte and its continuation bytes are the
/// code point that vstd's UTF-8 model reads from them, and that point lies in
/// the range of its width.
proof fn lemma_points(x: u8, b1: u8, b2: u8, b3: u8)
    ensures
        acc_spec((x & 0x1F) as u32, b1) == codepoint_width_2(x, b1),
        acc_spec(acc_spec((x & 0x0F) as u32, b1), b2) == codepoint_width_3(x, b1, b2),
        acc_spec(acc_spec(acc_spec((x & 0x07) as u32, b1), b2), b3) == codepoint_width_4(x, b1, b2, b3),
        0xC0 <= x <= 0xC1 ==> codepoint_width_2(x, b1) < 0x80,
        codepoint_width_2(x, b1) <= 0x7FF,
        codepoint_width_3(x, b1, b2) <= 0xFFFF,
        0xF5 <= x <= 0xF7 ==> codepoint_width_4(x, b1, b2, b3) > 0x10FFFF,
{
    assert(acc_spec((x & 0x1F) as u32, b1) == codepoint_width_2(x, b1)) by (bit_vector);
    assert(acc_spec(acc_spec((x & 0x0F) as u32, b1), b2) == codepoint_width_3(x, b1, b2)) by (bit_vector);
    assert(acc_spec(acc_spec(acc_spec((x & 0x07) as u32, b1), b2), b3) == codepoint_width_4(x, b1, b2, b3)) by (bit_vector);
    assert(0xC0 <= x <= 0xC1 ==> codepoint_width_2(x, b1) < 0x80) by (bit_vector);
    assert(codepoint_width_2(x, b1) <= 0x7FF) by (bit_vector);
    assert(codepoint_width_3(x, b1, b2) <= 0xFFFF) by (bit_vector);
    assert(0xF5 <= x <= 0xF7 ==> codepoint_width_4(x, b1, b2, b3) > 0x10FFFF) by (bit_vector);
}

/// Where the bytes `s` begin with a well-formed UTF-8 encoding of a scalar,
/// the decoder yields that scalar and takes exactly its bytes.
pub proof fn lemma_decode_valid_first(s: Seq<u8>)
    requires
        valid_first_scalar(s),
    ensures
        decodes(s),
        decoded(s) == Ok::<char, Seq<u8>>(decode_first_scalar(s) as char),
        decoded_len(s) == length_of_first_scalar(s),
{
    let x = s[0];
    if x <= 0x7F {
        assert((x & 0x7F) as u32 == x as u32) by (bit_vector)
            requires x <= 0x7F;
    } else {
        let b1 = s[1];
        let b2 = if s.len() > 2 { s[2] } else { 0u8 };
        let b3 = if s.len() > 3 { s[3] } else { 0u8 };
        lemma_points(x, b1, b2, b3);
        let w = lead_width(x);
        assert(cont_at(s, 1));
        assert(point_of(s, 1) == lead_bits(x, w));
        assert(point_of(s, 2) == acc_spec(point_of(s, 1), b1));
        if w == 2 {
            assert(run_from(s, 2, 2) == 2);
            lemma_run_from(s, 1, 2, 2);
        } else if w == 3 {
            assert(cont_at(s, 2));
            assert(point_of(s, 3) == acc_spec(point_of(s, 2), b2));
            assert(run_from(s, 3, 3) == 3);
            lemma_run_from(s, 1, 3, 3);
        } else {
            assert(cont_at(s, 2));
            assert(cont_at(s, 3));
            assert(point_of(s, 3) == acc_spec(point_of(s, 2), b2));
            assert(point_of(s, 4) == acc_spec(point_of(s, 3), b3));
            assert(run_from(s, 4, 4) == 4);
            lemma_run_from(s, 1, 4, 4);
        }
    }
}

/// A decoder over valid UTF-8 yields the characters that the bytes encode, in
/// order: the first one, then those of the bytes after it.
pub proof fn lemma_decode_utf8(s: Seq<u8>)
    requires
        valid_utf8(s),
        s.len() > 0,
    ensures
        decoded(s) == Ok::<char, Seq<u8>>(decode_utf8(s)[0]),
        s.skip(decoded_len(s)) == pop_first_scalar(s),
        valid_utf8(s.skip(decoded_len(s))),
{
    lemma_decode_valid_first(s);
    assert(s.skip(decoded_len(s)) =~= pop_first_scalar(s));
}

/// Decoding the UTF-8 encoding of characters gives back the first of them,
/// and leaves the encoding of the others.
pub proof fn lemma_decode_encoded(chars: Seq<char>)
    requires
        chars.len() > 0,
    ensures
        decoded(encode_utf8(chars)) == Ok::<char, Seq<u8>>(chars[0]),
        encode_utf8(chars).skip(decoded_len(encode_utf8(chars))) == encode_utf8(chars.drop_first()),
{
    let bytes = encode_utf8(chars);
    encode_utf8_first_scalar(chars);
    lemma_decode_valid_first(bytes);
    char_u32_cast(chars[0], decode_first_scalar(bytes));
    assert(bytes.skip(decoded_len(bytes)) =~= encode_utf8(chars.drop_first()));
}

/// The number of bytes that the next character of `s` takes is at least one
/// and at most the length of `s`.
pub proof fn lemma_decoded_len_bounds(s: Seq<u8>)
    requires
        s.len() > 0,
    ensures
        1 <= decoded_len(s) <= s.len(),
{
    let w = lead_width(s[0]);
    if w > 1 {
        lemma_run_bounds(s, 1, w);
    }
}

proof fn lemma_run_bounds(s: Seq<u8>, i: int, w: int)
    requires
        1 <= i <= w,
        i <= s.len(),
    ensures
        i <= run_from(s, i, w) <= w,
        run_from(s, i, w) <= s.len(),
    decreases w - i,
{
    if i < w && cont_at(s, i) {
        lemma_run_bounds(s, i + 1, w);
    }
}

impl<R: Source> DecodeUtf8<R> {
    /// The decoder is consistent.
    pub open spec fn wf(&self) -> bool {
        self.bytes.wf()
    }

    /// Decodes the bytes of `reader`.
    pub fn new(reader: R) -> (r: Self)
        ensures
            r.wf(),
            r@ == reader.spec_data(),
    {
        Self { bytes: ByteReader::new(reader), buf: None }
    }

    /// Reads the continuation byte at `index` of the character whose bytes so
    /// far stand in `bytes`. A byte that is no continuation byte is kept for
    /// the next character, and the error holds the bytes before it.
    fn next_cont(&mut self, bytes: &mut [u8; 4], index: usize) -> (r: Result<u8, DecodeUtf8Error>)
        requires
            old(self).wf(),
            old(self).buf is None,
            1 <= index < 4,
            forall|j: int| index <= j < 4 ==> #[trigger] old(bytes)@[j] == 0u8,
        ensures
            final(self).wf(),
            final(self).buf is None || r is Err,
            match r {
                Ok(b) => {
                    &&& old(self)@.len() > 0
                    &&& b == old(self)@[0]
                    &&& 0x80 <= b <= 0xBF
                    &&& final(self)@ == old(self)@.drop_first()
                    &&& final(bytes)@ == old(bytes)@.update(index as int, b)
                },
                Err(e) => {
                    &&& !cont_at(old(self)@, 0)
                    &&& final(self)@ == old(self)@
                    &&& e.bytes == *old(bytes)
                    &&& e.error_len == index
                    &&& *final(bytes) == *old(bytes)
                },
            },
    {
        match self.bytes.next() {
            Some(b) => {
                if b < 0x80 || b > 0xBF {
                    self.buf = Some(b);
                    assert(self@ =~= old(self)@);
                    return Err(DecodeUtf8Error { bytes: *bytes, error_len: index as u8 });
                }
                bytes[index] = b;
                Ok(b)
            },
            None => Err(DecodeUtf8Error { bytes: *bytes, error_len: index as u8 }),
        }
    }

    /// The next character, or the error for the bytes that do not decode;
    /// `None` once every byte was read.
    pub fn next(&mut self) -> (r: Option<Result<char, DecodeUtf8Error>>)
        requires
            old(self).wf(),
        ensures
            final(self).wf(),
            old(self)@.len() == 0 ==> r is None && final(self)@.len() == 0,
            old(self)@.len() > 0 ==> {
                &&& r matches Some(d) && decode_agrees(d, old(self)@)
                &&& final(self)@ == old(self)@.skip(decoded_len(old(self)@))
            },
    {
        let ghost s = self@;
        let x = match self.buf.take() {
            Some(b) => b,
            None => match self.bytes.next() {
                Some(b) => b,
                None => return None,
            },
        };
        assert(self@ =~= s.skip(1));
        Some(self.decode_from(x, Ghost(s)))
    }

    /// Decodes the character that begins with the byte `x`, the first of `s`;
    /// the decoder holds the rest of `s`.
    fn decode_from(&mut self, x: u8, Ghost(s): Ghost<Seq<u8>>) -> (r: Result<char, DecodeUtf8Error>)
        requires
            old(self).wf(),
            old(self).buf is None,
            s.len() >= 1,
            s[0] == x,
            old(self)@ == s.skip(1),
        ensures
            final(self).wf(),
            decode_agrees(r, s),
            final(self)@ == s.skip(decoded_len(s)),
    {
        let mut bytes: [u8; 4] = [x, 0, 0, 0];
        if x <= 0x7F {
            return Ok(x as char);
        }
        let w: usize;
        let mut point: u32;
        if 0xC2 <= x && x <= 0xDF {
            w = 2;
            point = (x & 0x1F) as u32;
        } else if 0xE0 <= x && x <= 0xEF {
            w = 3;
            point = (x & 0x0F) as u32;
        } else if 0xF0 <= x && x <= 0xF4 {
            w = 4;
            point = (x & 0x07) as u32;
        } else {
            let e = DecodeUtf8Error { bytes, error_len: 1 };
            assert(e.bytes@.take(1) =~= s.take(1));
            return Err(e);
        }
        let mut index: usize = 1;
        while index < w
            invariant
                self.wf(),
                self.buf is None,
                1 <= index <= w <= 4,
                s.len() >= index,
                s[0] == x,
                w as int == lead_width(x),
                run_from(s, 1, w as int) == run_from(s, index as int, w as int),
                self@ == s.skip(index as int),
                point == point_of(s, index as int),
                forall|j: int| 0 <= j < index ==> #[trigger] bytes@[j] == s[j],
                forall|j: int| index <= j < 4 ==> #[trigger] bytes@[j] == 0u8,
            decreases w - index,
        {
            let ghost before = bytes@;
            match self.next_cont(&mut bytes, index) {
                Ok(b) => {
                    proof {
                        assert(s[index as int] == b);
                    assert(cont_at(s, index as int));
                        lemma_run_from(s, index as int, index + 1, w as int);
                        assert(self@ =~= s.skip(index + 1));
                    }
                    point = acc_codepoint(point, b);
                    index += 1;
                },
                Err(e) => {
                    proof {
                        assert(!cont_at(s, index as int));
                        assert(e.bytes@.take(index as int) =~= s.take(index as int));
                        lemma_decoded_len(s, w as int, index as int);
                    }
                    return Err(e);
                },
            }
        }
        proof {
            lemma_decoded_len(s, w as int, w as int);
        }
        match char_from_u32(point) {
            Some(c) => Ok(c),
            None => {
                let e = DecodeUtf8Error { bytes, error_len: w as u8 };
                assert(e.bytes@.take(w as int) =~= s.take(w as int));
                Err(e)
            },
        }
    }
}

/// Decodes the UTF-8 bytes of a source into characters, with U+FFFD in place
/// of each byte sequence that does not decode.
pub struct DecodeUtf8Lossy<R> {
    pub decoder: DecodeUtf8<R>,
}

/// The character that lossy decoding yields next from the bytes `s`.
pub open spec fn lossy(s: Seq<u8>) -> char {
    match decoded(s) {
        Ok(c) => c,
        Err(_) => '\u{FFFD}',
    }
}

impl<R: Source> View for DecodeUtf8Lossy<R> {
    type V = Seq<u8>;

    /// The bytes left to decode.
    open spec fn view(&self) -> Seq<u8> {
        self.decoder@
    }
}

impl<R: Source> DecodeUtf8Lossy<R> {
    /// The decoder is consistent.
    pub open spec fn wf(&self) -> bool {
        self.decoder.wf()
    }

    /// Decodes the bytes of `reader`.
    pub fn new(reader: R) -> (r: Self)
        ensures
            r.wf(),
            r@ == reader.spec_data(),
    {
        Self { decoder: DecodeUtf8::new(reader) }
    }

    /// The next character, U+FFFD for bytes that do not decode; `None` once
    /// every byte was read.
    pub fn next(&mut self) -> (r: Option<char>)
        requires
            old(self).wf(),
        ensures
            final(self).wf(),
            old(self)@.len() == 0 ==> r is None && final(self)@.len() == 0,
            old(self)@.len() > 0 ==> {
                &&& r == Some(lossy(old(self)@))
                &&& final(self)@ == old(self)@.skip(decoded_len(old(self)@))
            },
    {
        match self.decoder.next() {
            Some(Ok(ch)) => Some(ch),
            Some(Err(_)) => Some('\u{FFFD}'),
            None => None,
        }
    }
}

/// The characters that lossy decoding yields from the bytes `s`, in order.
pub open spec fn lossy_chars(s: Seq<u8>) -> Seq<char>
    decreases s.len(),
{
    if s.len() == 0 {
        Seq::empty()
    } else {
        proof {
            lemma_decoded_len_bounds(s);
        }
        seq![lossy(s)] + lossy_chars(s.skip(decoded_len(s)))
    }
}

/// Lossy decoding yields at most one character per byte.
pub proof fn lemma_lossy_chars_len(s: Seq<u8>)
    ensures
        lossy_chars(s).len() <= s.len(),
    decreases s.len(),
{
    if s.len() > 0 {
        lemma_decoded_len_bounds(s);
        lemma_lossy_chars_len(s.skip(decoded_len(s)));
    }
}

/// Lossy decoding of valid UTF-8 gives exactly the characters it encodes:
/// nothing is replaced.
pub proof fn lemma_lossy_valid(s: Seq<u8>)
    requires
        valid_utf8(s),
    ensures
        lossy_chars(s) == decode_utf8(s),
    decreases s.len(),
{
    if s.len() > 0 {
        lemma_decode_utf8(s);
        lemma_decoded_len_bounds(s);
        lemma_lossy_valid(s.skip(decoded_len(s)));
        assert(decode_utf8(s) =~= seq![decode_utf8(s)[0]] + decode_utf8(pop_first_scalar(s)));
    }
}

/// Lossy decoding of the UTF-8 encoding of characters gives them back.
pub proof fn lemma_lossy_encoded(chars: Seq<char>)
    ensures
        lossy_chars(encode_utf8(chars)) == chars,
{
    vstd::utf8::encode_utf8_valid_utf8(chars);
    lemma_lossy_valid(encode_utf8(chars));
    vstd::utf8::encode_utf8_decode_utf8(chars);
}

} // verus!
