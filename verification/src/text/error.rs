//! What goes wrong when a text parser reads.
use vstd::prelude::*;

verus! {

/// The input ended, or held a character that was not wanted.
#[derive(Debug, Clone, Copy, PartialEq, Eq)]
pub enum ParseError {
    Eof,
    UnexpectChar(char),
}

impl DeepView for ParseError {
    type V = ParseError;

    open spec fn deep_view(&self) -> ParseError {
        *self
    }
}

} // verus!
