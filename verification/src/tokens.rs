use vstd::prelude::*;

use crate::text_util::str_chars;

verus! {

/// Tokens that stand for a character.
pub trait AsChar {
    spec fn spec_as_char(&self) -> char;

    fn as_char(&self) -> (c: char)
        ensures
            c == self.spec_as_char(),
    ;
}

impl AsChar for u8 {
    open spec fn spec_as_char(&self) -> char {
        *self as char
    }

    fn as_char(&self) -> (c: char) {
        *self as char
    }
}

impl AsChar for char {
    open spec fn spec_as_char(&self) -> char {
        *self
    }

    fn as_char(&self) -> (c: char) {
        *self
    }
}

/// Collections of tokens that can be searched for one token.
pub trait FindToken<T> {
    /// Whether `token` is in the collection.
    spec fn spec_find_token(&self, token: T) -> bool;

    fn find_token(&self, token: &T) -> (b: bool)
        ensures
            b == self.spec_find_token(*token),
    ;
}

/// Whether `c` occurs in `s`.
fn seq_has(s: &[char], c: char) -> (b: bool)
    ensures
        b == s@.contains(c),
{
    let mut i: usize = 0;
    while i < s.len()
        invariant
            i <= s@.len(),
            forall|j: int| 0 <= j < i ==> s@[j] != c,
        decreases s@.len() - i,
    {
        if s[i] == c {
            return true;
        }
        i = i + 1;
    }
    false
}

impl<'a> FindToken<char> for &'a str {
    open spec fn spec_find_token(&self, token: char) -> bool {
        (**self)@.contains(token)
    }

    fn find_token(&self, token: &char) -> (b: bool) {
        let cs = str_chars(*self);
        seq_has(cs.as_slice(), *token)
    }
}

impl<'a> FindToken<u8> for &'a str {
    open spec fn spec_find_token(&self, token: u8) -> bool {
        (**self)@.contains(token as char)
    }

    fn find_token(&self, token: &u8) -> (b: bool) {
        let cs = str_chars(*self);
        seq_has(cs.as_slice(), *token as char)
    }
}

impl<const N: usize> FindToken<char> for [char; N] {
    open spec fn spec_find_token(&self, token: char) -> bool {
        self@.contains(token)
    }

    fn find_token(&self, token: &char) -> (b: bool) {
        seq_has(self.as_slice(), *token)
    }
}

impl<'a, const N: usize> FindToken<char> for &'a [char; N] {
    open spec fn spec_find_token(&self, token: char) -> bool {
        (**self)@.contains(token)
    }

    fn find_token(&self, token: &char) -> (b: bool) {
        seq_has(self.as_slice(), *token)
    }
}

impl<'a> FindToken<char> for &'a [char] {
    open spec fn spec_find_token(&self, token: char) -> bool {
        (**self)@.contains(token)
    }

    fn find_token(&self, token: &char) -> (b: bool) {
        seq_has(*self, *token)
    }
}

} // verus!
