use lib::decode::{DecodeUtf8, DecodeUtf8Lossy};
use lib::utf8_stream::{Utf8Stream, Utf8StreamError};

fn decode_all(bytes: &[u8]) -> Vec<Result<char, Vec<u8>>> {
    let mut d = DecodeUtf8::new(bytes);
    let mut out = Vec::new();
    while let Some(r) = d.next() {
        out.push(r.map_err(|e| e.bytes().to_vec()));
    }
    out
}

#[test]
fn decodes_valid_text() {
    let text = "aé€😀z";
    let got = decode_all(text.as_bytes());
    let want: Vec<Result<char, Vec<u8>>> = text.chars().map(Ok).collect();
    assert_eq!(got, want);
}

#[test]
fn decodes_empty_input() {
    assert!(decode_all(b"").is_empty());
}

#[test]
fn invalid_leading_byte_is_one_byte_error() {
    assert_eq!(decode_all(b"\x80a"), vec![Err(vec![0x80]), Ok('a')]);
    assert_eq!(decode_all(b"\xC0"), vec![Err(vec![0xC0])]);
    assert_eq!(decode_all(b"\xFF"), vec![Err(vec![0xFF])]);
}

#[test]
fn truncated_sequence_keeps_following_byte() {
    // F0 90 80 is cut short by 'W', which is decoded on its own afterwards.
    assert_eq!(
        decode_all(b"\xF0\x90\x80W"),
        vec![Err(vec![0xF0, 0x90, 0x80]), Ok('W')]
    );
}

#[test]
fn sequence_cut_by_end_of_input() {
    assert_eq!(decode_all(b"\xE2\x82"), vec![Err(vec![0xE2, 0x82])]);
}

#[test]
fn surrogate_sequence_is_an_error() {
    assert_eq!(decode_all(b"\xED\xA0\x80x"), vec![Err(vec![0xED, 0xA0, 0x80]), Ok('x')]);
}

#[test]
fn error_bytes_are_padded_with_zeros() {
    let mut d = DecodeUtf8::new(&b"\xC3"[..]);
    match d.next() {
        Some(Err(e)) => {
            assert_eq!(e.error_len, 1);
            assert_eq!(e.bytes, [0xC3, 0, 0, 0]);
        }
        other => panic!("unexpected {:?}", other),
    }
    assert!(d.next().is_none());
}

#[test]
fn lossy_replaces_errors() {
    let mut d = DecodeUtf8Lossy::new(&b"a\xFFb\xE2\x82"[..]);
    let mut out = String::new();
    while let Some(c) = d.next() {
        out.push(c);
    }
    assert_eq!(out, "a\u{FFFD}b\u{FFFD}");
}

#[test]
fn stream_next_after_peek() {
    let mut s = Utf8Stream::new(&b"ab\xFFc"[..]);
    assert!(matches!(s.peek(2), Some(Err(Utf8StreamError::DecodeUtf8Error(_)))));
    assert_eq!(s.peeked().len(), 3);
    assert!(matches!(s.next(), Some(Ok('a'))));
    assert!(matches!(s.next(), Some(Ok('b'))));
    match s.next() {
        Some(Err(Utf8StreamError::DecodeUtf8Error(e))) => assert_eq!(e.bytes(), &[0xFF][..]),
        other => panic!("unexpected {:?}", other),
    }
    assert!(matches!(s.next(), Some(Ok('c'))));
    assert!(s.next().is_none());
}

#[test]
fn stream_peek_past_end() {
    let mut s = Utf8Stream::new(&b"xy"[..]);
    assert!(s.peek(5).is_none());
    assert_eq!(s.peeked().len(), 2);
    assert!(matches!(s.peek(1), Some(Ok('y'))));
}

#[test]
fn stream_ring_grows_and_wraps() {
    let text = "abcdefghijklmnopqrstuvwxyz";
    let mut s = Utf8Stream::new(text.as_bytes());
    assert!(matches!(s.peek(3), Some(Ok('d'))));
    s.peeked_mut().consume(2);
    assert!(matches!(s.peek(10), Some(Ok('m'))));
    let mut got = String::new();
    while let Some(Ok(c)) = s.next() {
        got.push(c);
    }
    assert_eq!(got, &text[2..]);
}

#[test]
fn consume_more_than_held_empties() {
    let mut s = Utf8Stream::new(&b"abc"[..]);
    s.peek(1);
    s.peeked_mut().consume(10);
    assert!(s.peeked().is_empty());
    assert!(matches!(s.next(), Some(Ok('c'))));
}

#[test]
fn lookahead_ring_grows_and_next_drops_front() {
    let mut s = Utf8Stream::new(&b"abcdefgh"[..]);
    assert_eq!(s.peeked().cap, 1);
    assert!(matches!(s.peek(5), Some(Ok('f'))));
    assert_eq!(s.peeked().cap, 8);
    assert_eq!(s.peeked().len(), 6);
    assert!(matches!(s.next(), Some(Ok('a'))));
    assert_eq!(s.peeked().len(), 5);
    assert!(matches!(s.peeked().index(0), Ok('b')));
}
