use lib::char::unicode;
use lib::primitive::unicode as punicode;
use lib::SimpleError;

fn chars(s: &str) -> Vec<char> {
    s.chars().collect()
}

#[test]
fn unicode_alpha_accepts_letters_beyond_ascii() {
    let v = chars("éx");
    assert_eq!(unicode::alpha(&v[..]), Ok(('é', &v[1..])));
    let d = chars("5");
    assert_eq!(unicode::alpha(&d[..]), Err(SimpleError::Unexpected(Some('5'))));
}

#[test]
fn unicode_alphanum_lowercase_uppercase_space() {
    let v = chars("٣aΩ\u{3000}");
    assert_eq!(unicode::alphanum(&v[..]), Ok(('٣', &v[1..])));
    assert_eq!(unicode::lowercase(&v[1..]), Ok(('a', &v[2..])));
    assert_eq!(unicode::uppercase(&v[2..]), Ok(('Ω', &v[3..])));
    assert_eq!(unicode::space(&v[3..]), Ok(('\u{3000}', &v[4..])));
    assert_eq!(unicode::uppercase(&v[1..]), Err(SimpleError::Unexpected(Some('a'))));
}

#[test]
fn unicode_runs() {
    let v = chars("ÀÉÎ!x");
    assert_eq!(unicode::multi_alpha(&v[..]), Ok((&v[0..3], &v[3..])));
    assert_eq!(unicode::multi_alpha1(&v[3..]), Err(SimpleError::Unexpected(Some('!'))));
    let e: Vec<char> = Vec::new();
    assert_eq!(unicode::multi_space(&e[..]), Ok((&e[..], &e[..])));
}

#[test]
fn primitive_unicode_classes() {
    let v = chars("ß");
    assert_eq!(punicode::lowercase(&v[..]), Ok(('ß', &v[1..])));
    assert_eq!(punicode::alpha(&v[..]), Ok(('ß', &v[1..])));
    let e: Vec<char> = Vec::new();
    assert_eq!(punicode::space(&e[..]), Err(SimpleError::Unexpected(None)));
}
