use vstd::prelude::*;

verus! {

/// The input left after the first `n` tokens of `input`.
pub fn suffix<'a, T>(input: &'a [T], n: usize) -> (r: &'a [T])
    requires
        n <= input@.len(),
    ensures
        r@ == input@.skip(n as int),
{
    let (_, rest) = input.split_at(n);
    rest
}

/// The first `n` tokens of `input`.
pub fn prefix<'a, T>(input: &'a [T], n: usize) -> (r: &'a [T])
    requires
        n <= input@.len(),
    ensures
        r@ == input@.take(n as int),
{
    let (front, _) = input.split_at(n);
    front
}

/// The tokens that `input` holds and `rest` does not, where `rest` is what is
/// left of `input` after some tokens were consumed.
pub fn diff<'a, T>(input: &'a [T], rest: &'a [T]) -> (r: &'a [T])
    requires
        rest@.len() <= input@.len(),
    ensures
        r@ == input@.take(input@.len() - rest@.len()),
{
    prefix(input, input.len() - rest.len())
}

/// The deep view of a slice of characters is its view.
pub proof fn lemma_chars_deep_view(s: &[char])
    ensures
        s.deep_view() == s@,
{
    assert(s.deep_view() =~= s@);
}

} // verus!
