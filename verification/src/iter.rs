//! Iteration of a parser over its own leftovers.
use vstd::prelude::*;

use crate::error::SimpleError;
use crate::parser::Parser;

verus! {

/// Applies `parser` again and again to what it leaves, one value at a time,
/// until it fails; the error is kept.
pub struct ParserIter<I, E, P> {
    pub input: I,
    pub parser: P,
    pub error: Option<E>,
}

impl<I, E, P> ParserIter<I, E, P> {
    /// Starts the iteration of `parser` at `input`.
    pub fn new(input: I, parser: P) -> (r: Self)
        ensures
            r.input == input,
            r.parser == parser,
            r.error is None,
    {
        Self { input, parser, error: None }
    }

    /// The input left.
    pub fn get(self) -> (r: I)
        ensures
            r == self.input,
    {
        self.input
    }

    /// The input left, or the error that stopped the iteration.
    pub fn try_get(self) -> (r: Result<I, E>)
        ensures
            match self.error {
                None => r == Ok::<I, E>(self.input),
                Some(e) => r == Err::<I, E>(e),
            },
    {
        match self.error {
            None => Ok(self.input),
            Some(e) => Err(e),
        }
    }
}

impl<'a, P: Parser<&'a [char]>> ParserIter<&'a [char], SimpleError<char>, P> {
    /// The next value; `None` once the parser has failed.
    pub fn next(&mut self) -> (r: Option<P::Output>)
        requires
            old(self).parser.parse_requires(),
        ensures
            final(self).parser == old(self).parser,
            old(self).error is Some ==> r is None && *final(self) == *old(self),
            old(self).error is None ==> match old(self).parser.spec_parse(old(self).input@) {
                Ok((v, n)) => {
                    &&& r matches Some(o) && o.deep_view() == v
                    &&& final(self).input@ == old(self).input@.skip(n)
                    &&& final(self).error is None
                },
                Err(e) => {
                    &&& r is None
                    &&& final(self).input == old(self).input
                    &&& final(self).error matches Some(e2) && e2@ == e
                },
            },
    {
        if self.error.is_some() {
            return None;
        }
        match self.parser.parse(self.input) {
            Ok((o, i)) => {
                self.input = i;
                Some(o)
            },
            Err(e) => {
                self.error = Some(e);
                None
            },
        }
    }
}

} // verus!
