use lib::char::char;
use lib::combinator::{
    between, cond, count, end_by, end_by1, eof, error, many, many1, many_till, not, opt, pair, peek,
    preceded, pure, recognize, sep_by, sep_by1, skip, skip_many, skip_many1, skip_till, terminated,
};
use lib::combine::sepby;
use lib::pred::CharClass;
use lib::primitive::sat;
use lib::{Parser, SimpleError};

fn chars(s: &str) -> Vec<char> {
    s.chars().collect()
}

fn rest(s: &str) -> Vec<char> {
    chars(s)
}

/// Runs `p` on `s` and gives the value with the text left.
fn run<P, O>(p: &P, s: &str) -> Result<(O, Vec<char>), SimpleError<char>>
where
    P: for<'a> Parser<&'a [char], Output = O>,
{
    let input = chars(s);
    p.parse(&input[..]).map(|(o, r)| (o, r.to_vec()))
}

#[test]
fn opt_doc() {
    let p = opt(char('a'));
    assert_eq!(run(&p, "abc"), Ok((Some('a'), rest("bc"))));
    assert_eq!(run(&p, "bbc"), Ok((None, rest("bbc"))));
}

#[test]
fn between_doc() {
    let p = between(char('('), char('a'), char(')'));
    assert_eq!(run(&p, "(a)"), Ok(('a', rest(""))));
}

#[test]
fn pair_doc() {
    let p = pair(char('a'), char(':'), char('b'));
    assert_eq!(run(&p, "a:b"), Ok((('a', 'b'), rest(""))));
}

#[test]
fn many_doc() {
    let p = many(char('a'));
    assert_eq!(run(&p, "aaab"), Ok((vec!['a', 'a', 'a'], rest("b"))));
    assert_eq!(run(&p, "b"), Ok((vec![], rest("b"))));
}

#[test]
fn many1_doc() {
    let p = many1(char('a'));
    assert_eq!(run(&p, "aaab"), Ok((vec!['a', 'a', 'a'], rest("b"))));
    assert_eq!(run(&p, "b"), Err(SimpleError::Unexpected(Some('b'))));
}

#[test]
fn many_till_doc() {
    let p = many_till(char('a'), char('b'));
    assert_eq!(run(&p, "aaab"), Ok((vec!['a', 'a', 'a'], rest("b"))));
    assert_eq!(run(&p, "b"), Ok((vec![], rest("b"))));
    assert_eq!(run(&p, "acb"), Err(SimpleError::Unexpected(Some('c'))));
    assert_eq!(run(&p, "aa"), Err(SimpleError::Unexpected(None)));
}

#[test]
fn count_doc() {
    let p = count(char('a'), 3);
    assert_eq!(run(&p, "aaa"), Ok((vec!['a', 'a', 'a'], rest(""))));
    assert_eq!(run(&p, "aaaa"), Ok((vec!['a', 'a', 'a'], rest("a"))));
    assert_eq!(run(&p, "aa"), Err(SimpleError::Unexpected(None)));
}

#[test]
fn skip_many_doc() {
    let p = skip_many(char('a'));
    assert_eq!(run(&p, "aaab"), Ok(((), rest("b"))));
    assert_eq!(run(&p, "b"), Ok(((), rest("b"))));
}

#[test]
fn skip_many1_doc() {
    let p = skip_many1(char('a'));
    assert_eq!(run(&p, "aaab"), Ok(((), rest("b"))));
    assert_eq!(run(&p, "b"), Err(SimpleError::Unexpected(Some('b'))));
}

#[test]
fn skip_till_doc() {
    let p = skip_till(char('a'), char('b'));
    assert_eq!(run(&p, "aaab"), Ok(((), rest("b"))));
    assert_eq!(run(&p, "b"), Ok(((), rest("b"))));
    assert_eq!(run(&p, "acb"), Err(SimpleError::Unexpected(Some('c'))));
    assert_eq!(run(&p, "aa"), Err(SimpleError::Unexpected(None)));
}

#[test]
fn skip_doc() {
    let p = skip(char('a'), 3);
    assert_eq!(run(&p, "aaa"), Ok(((), rest(""))));
    assert_eq!(run(&p, "aaaa"), Ok(((), rest("a"))));
    assert_eq!(run(&p, "aa"), Err(SimpleError::Unexpected(None)));
}

#[test]
fn sep_by_doc() {
    let p = sep_by(char('a'), char(','));
    assert_eq!(run(&p, "a,a,a"), Ok((vec!['a', 'a', 'a'], rest(""))));
    assert_eq!(run(&p, "a"), Ok((vec!['a'], rest(""))));
    assert_eq!(run(&p, "b"), Ok((vec![], rest("b"))));
}

#[test]
fn sep_by1_doc() {
    let p = sep_by1(char('a'), char(','));
    assert_eq!(run(&p, "a,a,a"), Ok((vec!['a', 'a', 'a'], rest(""))));
    assert_eq!(run(&p, "a"), Ok((vec!['a'], rest(""))));
    assert_eq!(run(&p, "b"), Err(SimpleError::Unexpected(Some('b'))));
}

#[test]
fn end_by_doc() {
    let p = end_by(char('a'), char(';'));
    assert_eq!(run(&p, "a;a;a;"), Ok((vec!['a', 'a', 'a'], rest(""))));
    assert_eq!(run(&p, "a;"), Ok((vec!['a'], rest(""))));
    assert_eq!(run(&p, "b"), Ok((vec![], rest("b"))));
}

#[test]
fn end_by1_doc() {
    let p = end_by1(char('a'), char(';'));
    assert_eq!(run(&p, "a;a;a;"), Ok((vec!['a', 'a', 'a'], rest(""))));
    assert_eq!(run(&p, "a;"), Ok((vec!['a'], rest(""))));
    assert_eq!(run(&p, "a"), Err(SimpleError::Unexpected(None)));
    assert_eq!(run(&p, "b"), Err(SimpleError::Unexpected(Some('b'))));
}

#[test]
fn peek_doc() {
    let p = peek(char('a'));
    assert_eq!(run(&p, "abc"), Ok(('a', rest("abc"))));
    assert_eq!(run(&p, "cbc"), Err(SimpleError::Unexpected(Some('c'))));
}

#[test]
fn recognize_doc() {
    let p = recognize(many(char('a')));
    let input = chars("aaab");
    let r = p.parse(&input[..]);
    assert_eq!(r, Ok((&input[0..3], &input[3..])));
}

#[test]
fn not_doc() {
    let p = not(char('a'));
    assert_eq!(run(&p, "ba"), Ok(((), rest("ba"))));
    assert_eq!(run(&p, "ab"), Err(SimpleError::Unexpected(Some('a'))));
}

#[test]
fn cond_doc() {
    let p = cond(char('a'), char('b'));
    assert_eq!(run(&p, "abc"), Ok((Some('b'), rest("c"))));
    assert_eq!(run(&p, "cbc"), Ok((None, rest("cbc"))));
    assert_eq!(run(&p, "acb"), Err(SimpleError::Unexpected(Some('c'))));
}

#[test]
fn preceded_doc() {
    let p = preceded(char('a'), char('b'));
    assert_eq!(run(&p, "abc"), Ok(('b', rest("c"))));
}

#[test]
fn terminated_doc() {
    let p = terminated(char('a'), char('b'));
    assert_eq!(run(&p, "abc"), Ok(('a', rest("c"))));
}

#[test]
fn eof_doc() {
    let empty = chars("");
    assert_eq!(eof(&empty[..]), Ok(((), &empty[..])));
    let abc = chars("abc");
    assert_eq!(eof(&abc[..]), Err(SimpleError::Unexpected(Some('a'))));
}

#[test]
fn error_doc() {
    let abc = chars("abc");
    assert_eq!(error(&abc[..]), Err(SimpleError::Unexpected(Some('a'))));
}

#[test]
fn pure_doc() {
    let p = pure('1');
    assert_eq!(run(&p, "abc"), Ok(('1', rest("abc"))));
    assert_eq!(run(&p, ""), Ok(('1', rest(""))));
}

#[test]
fn readme_example() {
    let p = lib::combine::between('[', sepby(sat(CharClass::AsciiDigit), ','), ']');
    let input = chars("[1,2,3,4,5,6]");
    assert_eq!(
        p.parse(&input[..]),
        Ok((vec!['1', '2', '3', '4', '5', '6'], &input[13..]))
    );
}

#[test]
fn string_literal_cases() {
    let xy = chars("xy");
    let empty = lib::char::string("");
    assert_eq!(empty.parse(&xy[..]), Ok((&xy[0..0], &xy[..])));
    let abc = lib::char::string("abc");
    let abcd = chars("abcd");
    assert_eq!(abc.parse(&abcd[..]), Ok((&abcd[0..3], &abcd[3..])));
    let abd = chars("abd");
    assert_eq!(abc.parse(&abd[..]), Err(SimpleError::Unexpected(Some('d'))));
    let ab = chars("ab");
    assert_eq!(abc.parse(&ab[..]), Err(SimpleError::Unexpected(None)));
}
