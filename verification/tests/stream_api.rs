use lib::char::primitive;
use lib::char::state::State;
use lib::combinators::{
    attempt, between, many, many1, opt, opt_or_default, pair, peek, pure, range, refer, repeat,
    sepby, sepby1,
};
use lib::combinators::ignore as skip_all;
use lib::combinators::range_from;
use lib::pred::CharClass;
use lib::text::{self, ParseError, StaticInput, StreamInput};
use lib::traits::{Input, Parser};

fn input(s: &str) -> StaticInput<'_> {
    StaticInput::new(s)
}

fn rest(i: &mut StaticInput<'_>) -> String {
    let mut out = String::new();
    while let Some(c) = i.next() {
        out.push(c);
    }
    out
}

#[test]
fn char_reads_and_consumes_on_mismatch() {
    let mut i = input("ab");
    assert_eq!(Parser::<StaticInput>::parse(&text::char('a'), &mut i), Ok('a'));
    assert_eq!(Parser::<StaticInput>::parse(&text::char('a'), &mut i), Err(ParseError::UnexpectChar('b')));
    assert_eq!(Parser::<StaticInput>::parse(&text::char('a'), &mut i), Err(ParseError::Eof));
}

#[test]
fn string_reads_all_or_stops_at_difference() {
    let mut i = input("hello world");
    assert_eq!(Parser::<StaticInput>::parse(&text::string("hello"), &mut i), Ok("hello".to_string()));
    assert_eq!(Parser::<StaticInput>::parse(&text::string(" wx"), &mut i), Err(ParseError::UnexpectChar('o')));
    assert_eq!(rest(&mut i), "rld");
    let mut j = input("he");
    assert_eq!(Parser::<StaticInput>::parse(&text::string("hello"), &mut j), Err(ParseError::Eof));
}

#[test]
fn class_functions() {
    let mut i = input("7xF Q");
    assert_eq!(text::digit(&mut i), Ok('7'));
    assert_eq!(text::lowercase(&mut i), Ok('x'));
    assert_eq!(text::hex(&mut i), Ok('F'));
    assert_eq!(text::whitespace(&mut i), Ok(' '));
    assert_eq!(text::alpha(&mut i), Ok('Q'));
    assert_eq!(text::eof(&mut i), Ok(()));
    let mut j = input("a");
    assert_eq!(text::uppercase(&mut j), Err(ParseError::UnexpectChar('a')));
    let mut k = input("_");
    assert_eq!(text::alphanum(&mut k), Err(ParseError::UnexpectChar('_')));
    let mut e = input("z");
    assert_eq!(text::eof(&mut e), Err(ParseError::UnexpectChar('z')));
}

#[test]
fn oneof_sat_anychar() {
    let mut i = input("b-q");
    assert_eq!(Parser::<StaticInput>::parse(&text::oneof("abc"), &mut i), Ok('b'));
    assert_eq!(Parser::<StaticInput>::parse(&text::sat(CharClass::Is('-')), &mut i), Ok('-'));
    assert_eq!(Parser::<StaticInput>::parse(&text::anychar(), &mut i), Ok('q'));
    assert_eq!(Parser::<StaticInput>::parse(&text::anychar(), &mut i), Err(ParseError::Eof));
}

#[test]
fn token_skips_blanks() {
    let mut i = input(" \t\n x");
    assert_eq!(Parser::<StaticInput>::parse(&text::token(text::char('x')), &mut i), Ok('x'));
    let mut j = input("   ");
    assert_eq!(Parser::<StaticInput>::parse(&text::token(text::char('x')), &mut j), Err(ParseError::Eof));
}

#[test]
fn attempt_rolls_back_on_failure() {
    let mut i = input("abd");
    let p = attempt(text::string("abc"));
    assert_eq!(Parser::<StaticInput>::parse(&p, &mut i), Err(ParseError::UnexpectChar('d')));
    assert_eq!(rest(&mut i), "abd");
}

#[test]
fn opt_and_default() {
    let mut i = input("xy");
    assert_eq!(Parser::<StaticInput>::parse(&opt(text::char('y')), &mut i), Ok(None));
    assert_eq!(Parser::<StaticInput>::parse(&opt(text::char('x')), &mut i), Ok(Some('x')));
    assert_eq!(Parser::<StaticInput>::parse(&opt_or_default(text::char('z')), &mut i), Ok('\0'));
    assert_eq!(rest(&mut i), "y");
}

#[test]
fn many_and_many1() {
    let mut i = input("aaab");
    assert_eq!(Parser::<StaticInput>::parse(&many(text::char('a')), &mut i), Ok(vec!['a', 'a', 'a']));
    assert_eq!(Parser::<StaticInput>::parse(&many(text::char('a')), &mut i), Ok(vec![]));
    assert_eq!(Parser::<StaticInput>::parse(&many1(text::char('a')), &mut i), Err(ParseError::UnexpectChar('b')));
    assert_eq!(rest(&mut i), "");
}

#[test]
fn many_undoes_only_the_failed_attempt() {
    let mut i = input("ababac");
    let p = many(text::string("ab"));
    assert_eq!(Parser::<StaticInput>::parse(&p, &mut i), Ok(vec!["ab".to_string(), "ab".to_string()]));
    assert_eq!(rest(&mut i), "ac");
}

#[test]
fn sepby_and_sepby1() {
    let mut i = input("1,2,3;");
    let p = sepby(text::sat(CharClass::AsciiDigit), text::char(','));
    assert_eq!(Parser::<StaticInput>::parse(&p, &mut i), Ok(vec!['1', '2', '3']));
    assert_eq!(rest(&mut i), ";");

    let mut j = input("1,x");
    let q = sepby1(text::sat(CharClass::AsciiDigit), text::char(','));
    // The separator before the failed element stays read.
    assert_eq!(Parser::<StaticInput>::parse(&q, &mut j), Ok(vec!['1']));
    assert_eq!(rest(&mut j), "x");

    let mut k = input("x");
    assert_eq!(Parser::<StaticInput>::parse(&q, &mut k), Err(ParseError::UnexpectChar('x')));
    let mut m = input("x");
    assert_eq!(Parser::<StaticInput>::parse(&p, &mut m), Ok(vec![]));
    assert_eq!(rest(&mut m), "x");
}

#[test]
fn repeat_and_range() {
    let mut i = input("aaaaab");
    assert_eq!(Parser::<StaticInput>::parse(&repeat(text::char('a'), 2), &mut i), Ok(vec!['a', 'a']));
    assert_eq!(Parser::<StaticInput>::parse(&range(text::char('a'), 1..2), &mut i), Ok(vec!['a', 'a']));
    assert_eq!(Parser::<StaticInput>::parse(&range(text::char('a'), 0..5), &mut i), Ok(vec!['a']));
    assert_eq!(Parser::<StaticInput>::parse(&repeat(text::char('a'), 1), &mut i), Err(ParseError::UnexpectChar('b')));
}

#[test]
fn between_pair_peek_pure_ignore() {
    let mut i = input("(a)x:yzzzq");
    let b = between(text::char('('), text::char('a'), text::char(')'));
    assert_eq!(Parser::<StaticInput>::parse(&b, &mut i), Ok('a'));
    let p = pair(text::char('x'), text::char(':'), text::char('y'));
    assert_eq!(Parser::<StaticInput>::parse(&p, &mut i), Ok(('x', 'y')));
    assert_eq!(Parser::<StaticInput>::parse(&peek(text::char('z')), &mut i), Ok('z'));
    let pu = pure::<u8, ParseError>(7);
    assert_eq!(Parser::<StaticInput>::parse(&pu, &mut i), Ok(7));
    assert_eq!(Parser::<StaticInput>::parse(&skip_all(text::char('z')), &mut i), Ok(()));
    assert_eq!(rest(&mut i), "q");
}

#[test]
fn refer_and_adapters() {
    let a = text::char('a');
    let mut i = input("abab");
    assert_eq!(Parser::<StaticInput>::parse(&refer(&a), &mut i), Ok('a'));
    let both = Parser::<StaticInput>::and(text::char('b'), text::char('a'));
    assert_eq!(Parser::<StaticInput>::parse(&both, &mut i), Ok('a'));
    let either = Parser::<StaticInput>::or(text::char('x'), text::char('c'));
    // `or` does not go back: the second parser reads after the first one's failure.
    assert_eq!(Parser::<StaticInput>::parse(&either, &mut i), Err(ParseError::Eof));
}

#[test]
fn expect_reports_and_recovers() {
    let mut i = input("q");
    let p = Parser::<StaticInput>::expect(text::char('a'), "an a".to_string());
    assert_eq!(Parser::<StaticInput>::parse(&p, &mut i), Ok(None));
    assert_eq!(i.finish(), Err(vec!["an a".to_string()]));
    let j = input("");
    assert_eq!(j.finish(), Ok(()));
}

#[test]
fn static_input_positions() {
    let mut i = input("ab\ncd");
    assert_eq!(i.pos().line(), 1);
    i.next();
    i.next();
    i.next();
    assert_eq!(i.pos().line(), 2);
    // `column` gives the line, as in the original code.
    assert_eq!(i.pos().column(), 2);
    let c = i.cursor();
    i.next();
    i.restore_callback(c);
    assert_eq!(i.next(), Some('c'));
}

#[test]
fn stream_input_reads_back_after_rollback() {
    let mut s = StreamInput::new("héllo\u{1F600}!".as_bytes());
    let outer = s.cursor();
    assert_eq!(s.next(), Some('h'));
    let inner = s.cursor();
    assert_eq!(s.next(), Some('é'));
    assert_eq!(s.next(), Some('l'));
    s.restore_callback(inner);
    assert_eq!(s.next(), Some('é'));
    s.restore_callback(outer);
    let mut out = String::new();
    while let Some(c) = s.next() {
        out.push(c);
    }
    assert_eq!(out, "héllo\u{1F600}!");
}

#[test]
fn stream_input_commit_keeps_place() {
    let mut s = StreamInput::new(&b"abcdefgh"[..]);
    let c = s.cursor();
    for _ in 0..6 {
        s.next();
    }
    s.commit_callback(c);
    assert_eq!(s.next(), Some('g'));
    assert_eq!(s.pos().line(), 1);
}

#[test]
fn stream_input_replaces_bad_bytes() {
    let mut s = StreamInput::new(&b"a\xFFb"[..]);
    assert_eq!(s.next(), Some('a'));
    assert_eq!(s.next(), Some('\u{FFFD}'));
    assert_eq!(s.next(), Some('b'));
    assert_eq!(s.next(), None);
}

#[test]
fn stream_parsers_over_stream_input() {
    let mut s = StreamInput::new(&b"12,34,5x"[..]);
    let p = sepby(many1(text::sat(CharClass::AsciiDigit)), text::char(','));
    let got = Parser::<StreamInput<&[u8]>>::parse(&p, &mut s);
    assert_eq!(got, Ok(vec![vec!['1', '2'], vec!['3', '4'], vec!['5']]));
    assert_eq!(s.next(), Some('x'));
}

#[test]
fn positioned_errors() {
    let mut st = State::new("a\nbz");
    assert_eq!(Parser::<State>::parse(&primitive::string("a\nb"), &mut st).ok(), Some("a\nb"));
    let e = Parser::<State>::parse(&primitive::digit(), &mut st).unwrap_err();
    assert_eq!(e.pos.line(), 2);
    assert_eq!(e.expect, vec!["digit".to_string()]);
    assert_eq!(e.unexpect, Some('z'));
    let end = Parser::<State>::parse(&primitive::eof(), &mut st);
    assert!(end.is_ok());
    let mut st2 = State::new("q");
    let e2 = Parser::<State>::parse(&primitive::eof(), &mut st2).unwrap_err();
    assert_eq!(e2.expect, vec!["<eof>".to_string()]);
    let mut st3 = State::new("");
    let e3 = Parser::<State>::parse(&primitive::char('x'), &mut st3).unwrap_err();
    assert_eq!(e3.expect, vec!["x".to_string()]);
    assert_eq!(e3.unexpect, None);
    let mut st4 = State::new("m");
    let e4 = Parser::<State>::parse(&primitive::oneof("xyz"), &mut st4).unwrap_err();
    assert_eq!(e4.expect, vec!["oneof xyz".to_string()]);
    let mut st5 = State::new("x");
    let e5 = Parser::<State>::parse(&primitive::noneof("xyz"), &mut st5).unwrap_err();
    assert_eq!(e5.expect, vec!["noneof xyz".to_string()]);
}

#[test]
fn primitive_classes() {
    let mut st = State::new("aZ9 fQ");
    assert_eq!(Parser::<State>::parse(&primitive::lowercase(), &mut st).ok(), Some('a'));
    assert_eq!(Parser::<State>::parse(&primitive::uppercase(), &mut st).ok(), Some('Z'));
    assert_eq!(Parser::<State>::parse(&primitive::alphanum(), &mut st).ok(), Some('9'));
    assert_eq!(Parser::<State>::parse(&primitive::space(), &mut st).ok(), Some(' '));
    assert_eq!(Parser::<State>::parse(&primitive::hex(), &mut st).ok(), Some('f'));
    assert_eq!(Parser::<State>::parse(&primitive::alpha(), &mut st).ok(), Some('Q'));
    let mut st2 = State::new("!");
    assert_eq!(Parser::<State>::parse(&primitive::anychar(), &mut st2).ok(), Some('!'));
    let mut st3 = State::new("k");
    assert_eq!(Parser::<State>::parse(&primitive::satisfy(CharClass::Is('k')), &mut st3).ok(), Some('k'));
}

#[test]
fn tuples_run_in_turn() {
    let mut i = input("abcx");
    let two = (text::char('a'), text::char('b'));
    assert_eq!(Parser::<StaticInput>::parse(&two, &mut i), Ok(('a', 'b')));
    let three = (text::char('c'), text::char('x'), text::char('y'));
    assert_eq!(Parser::<StaticInput>::parse(&three, &mut i), Err(ParseError::Eof));
    let mut j = input("xyz");
    let three = (text::char('x'), text::char('y'), text::char('z'));
    assert_eq!(Parser::<StaticInput>::parse(&three, &mut j), Ok(('x', 'y', 'z')));
}

#[test]
fn consume_while_stops_before_accepted() {
    let mut i = input("abc;def");
    i.consume_while(CharClass::Is(';'));
    assert_eq!(i.next(), Some(';'));
    let mut j = input("abc");
    j.consume_while(CharClass::Is(';'));
    assert_eq!(j.next(), None);
}

#[test]
fn range_from_is_unbounded() {
    let mut i = input("aaaab");
    assert_eq!(Parser::<StaticInput>::parse(&range_from(text::char('a'), 2), &mut i), Ok(vec!['a', 'a', 'a', 'a']));
    assert_eq!(rest(&mut i), "b");
    let mut j = input("ab");
    assert_eq!(Parser::<StaticInput>::parse(&range_from(text::char('a'), 2), &mut j), Err(ParseError::UnexpectChar('b')));
    let mut k = input("b");
    assert_eq!(Parser::<StaticInput>::parse(&range_from(text::char('a'), 0), &mut k), Ok(vec![]));
}

#[test]
fn stream_buffer_doubles_when_full() {
    let mut s = StreamInput::new(&b"abcdefgh"[..]);
    assert_eq!(s.buf.cap, 5);
    let c = s.cursor();
    for _ in 0..6 {
        s.next();
    }
    assert_eq!(s.buf.cap, 10);
    assert_eq!(s.buf.len, 6);
    s.restore_callback(c);
    assert_eq!(s.next(), Some('a'));
}

#[test]
fn sepby_leaves_rest_after_last_element() {
    let mut i = input("a,a,b");
    let p = sepby(text::char('a'), text::char(','));
    assert_eq!(Parser::<StaticInput>::parse(&p, &mut i), Ok(vec!['a', 'a']));
    assert_eq!(rest(&mut i), "b");
}
