use vstd::prelude::*;

verus! {

/// The abstract value of a [`SimpleError`]: the token that could not be
/// accepted (`None` at the end of the input), and, for errors raised by an
/// expectation, the message that names what was expected.
pub enum ErrorView {
    Unexpected(Option<char>),
    Expected(Seq<char>, Option<char>),
}

/// The error returned by the parsers of this library.
///
/// `Unexpected(t)` reports the token `t` found where the parser failed
/// (`None` when the input was exhausted); `Expected(msg, t)` additionally
/// carries the message given to [`crate::Parser::expect`].
#[derive(Debug, PartialEq, Eq)]
pub enum SimpleError<T> {
    Unexpected(Option<T>),
    Expected(String, Option<T>),
}

impl View for SimpleError<char> {
    type V = ErrorView;

    open spec fn view(&self) -> ErrorView {
        match self {
            SimpleError::Unexpected(t) => ErrorView::Unexpected(*t),
            SimpleError::Expected(m, t) => ErrorView::Expected(m@, *t),
        }
    }
}

/// The first token of `s`, if any.
pub open spec fn first_token(s: Seq<char>) -> Option<char> {
    if s.len() > 0 {
        Some(s[0])
    } else {
        None
    }
}

/// The error reported when a parser fails in front of the input `s`.
pub open spec fn unexpected_at(s: Seq<char>) -> ErrorView {
    ErrorView::Unexpected(first_token(s))
}

/// Errors that the parsers of this library can build.
pub trait ParseError<I>: Sized {
    /// Builds the error for a failure in front of `input`.
    fn unexpect(input: I) -> Self;

    /// Builds the error for a failure in front of `input`, naming what was expected.
    fn expect(message: String, input: I) -> Self;

    /// Combines the errors of two alternatives; by default the second one is kept.
    fn merge(self, other: Self) -> Self {
        other
    }
}

impl<'a> ParseError<&'a [char]> for SimpleError<char> {
    fn unexpect(input: &'a [char]) -> (r: Self)
        ensures
            r@ == unexpected_at(input@),
    {
        if input.len() > 0 {
            SimpleError::Unexpected(Some(input[0]))
        } else {
            SimpleError::Unexpected(None)
        }
    }

    fn expect(message: String, input: &'a [char]) -> (r: Self)
        ensures
            r@ == ErrorView::Expected(message@, first_token(input@)),
    {
        if input.len() > 0 {
            SimpleError::Expected(message, Some(input[0]))
        } else {
            SimpleError::Expected(message, None)
        }
    }

    fn merge(self, other: Self) -> (r: Self)
        ensures
            r == other,
    {
        other
    }
}

} // verus!
