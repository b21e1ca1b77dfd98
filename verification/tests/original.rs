use lib::char::char;
use lib::combine::many_range;
use lib::Parser;
use lib::bytereader::ByteReader;
use lib::utf8_stream::Utf8Stream;
use lib::char::primitive::string;
use lib::char::state::State;
use lib::combinators::pure;
use lib::text::StreamInput;
use lib::traits::Input;
use lib::traits::Parser as StreamParser;

fn chars(s: &str) -> Vec<char> {
    s.chars().collect()
}

#[test]
fn mod_test() {}

#[test]
fn decode_test() {}

#[test]
fn statically_test() {}

#[test]
fn combine_test() {
    let input = chars("11112");
    let r = many_range(char('1'), 1..3).parse(&input[..]);
    println!("{:?}", r);
    assert_eq!(r, Ok((vec!['1'], &input[1..])));
}

#[test]
fn bytereader_test() {
    let bs = "abcdefg".as_bytes();
    let mut bytes = ByteReader::new(bs);
    let mut seen = Vec::new();
    while let Some(b) = bytes.next() {
        println!("{}", b);
        seen.push(b);
    }
    assert_eq!(seen, b"abcdefg".to_vec());
}

#[test]
fn utf8_stream_test() {
    let mut stream = Utf8Stream::new(&b"Hello \xF0\x90\x80World"[..]);

    let first = stream.peek(1);
    println!("{:?}", first);
    assert!(matches!(first, Some(Ok('e'))));
    stream.peeked_mut().consume(1);
    println!("{:?}", stream.peeked());
    let second = stream.peek(1);
    println!("{:?}", second);
    assert!(matches!(second, Some(Ok('l'))));

    println!("{:?}", stream.peeked());
    assert_eq!(stream.peeked().len(), 2);
    assert!(matches!(stream.peeked().index(0), Ok('e')));
    assert!(matches!(stream.peeked().index(1), Ok('l')));
}

#[test]
fn primitive_test() {
    let mut state = State::new("abc");

    let a = StreamParser::<State>::and_then(string("a"), |x| {
        StreamParser::<State>::and_then(string("b"), move |y| {
            StreamParser::<State>::and_then(string("c"), move |z| pure((x, y, z)))
        })
    });

    let r = a.parse(&mut state);
    println!("{:?}", r);
    println!("{:?} {:?}", state.pos(), state.as_source());
    assert!(matches!(r, Ok(("a", "b", "c"))));
    assert!(state.as_source().is_empty());
}

#[test]
fn streaming_test() {
    let mut input = StreamInput::new("asd".as_bytes());

    let c = input.cursor();
    assert_eq!(input.next(), Some('a'));
    input.restore_callback(c);
    assert_eq!(input.next(), Some('a'));

    drop(input);
}

#[test]
fn text_mod_test() {
    // The text module's own test, empty in its first form: one character
    // read from a string held in memory.
    let mut i = lib::text::StaticInput::new("a");
    assert_eq!(StreamParser::<lib::text::StaticInput>::parse(&lib::text::char('a'), &mut i), Ok('a'));
}
