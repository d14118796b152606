//! Building strings one character at a time.

use crate::chars::{lower, lowered, to_ascii_lowercase};
use vstd::prelude::*;

verus! {

/// `String::push` of the standard library appends the character to the end of
/// the string and leaves what the string held before in place. This is taken
/// from its documentation, not proved.
pub assume_specification[ String::push ](s: &mut String, ch: char)
    ensures
        final(s)@ == old(s)@.push(ch),
;

/// A copy of `s` with each ASCII letter in lower case.
pub fn to_lowercase(s: &str) -> (l: String)
    ensures
        l@ == lowered(s@),
{
    let mut l = String::new();
    for c in it: s.chars()
        invariant
            it.seq() == s@,
            l@ == lowered(s@.take(it.index())),
    {
        proof {
            assert(lowered(s@.take(it.index() + 1)) =~= lowered(s@.take(it.index())).push(
                lower(c),
            ));
        }
        l.push(to_ascii_lowercase(c));
    }
    l
}

} // verus!
