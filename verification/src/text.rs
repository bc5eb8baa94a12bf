//! Tests on the characters of a string.

use vstd::prelude::*;
use vstd::std_specs::iter::IteratorSpec;

verus! {

broadcast use vstd::string::group_string_axioms;

/// Whether `text` begins with `prefix`.
pub fn starts_with(text: &str, prefix: &str) -> (yes: bool)
    ensures
        yes == prefix@.is_prefix_of(text@),
{
    let mut given = text.chars();
    let mut wanted = prefix.chars();
    let ghost mut matched: Seq<char> = Seq::empty();
    loop
        invariant
            given.obeys_prophetic_iter_laws(),
            wanted.obeys_prophetic_iter_laws(),
            matched + given.remaining() == text@,
            matched + wanted.remaining() == prefix@,
            wanted.decrease() is Some,
        decreases wanted.decrease()->0,
    {
        let ghost given_before = given.remaining();
        let ghost wanted_before = wanted.remaining();
        match wanted.next() {
            None => {
                assert(prefix@ =~= matched + wanted_before);
                assert(prefix@ =~= text@.subrange(0, prefix@.len() as int));
                return true;
            },
            Some(w) => match given.next() {
                None => {
                    assert(text@ =~= matched + given_before);
                    return false;
                },
                Some(c) => {
                    assert(prefix@[matched.len() as int] == w);
                    assert(text@[matched.len() as int] == c);
                    if c != w {
                        return false;
                    }
                    proof {
                        assert(matched.push(c) + given.remaining() =~= matched + given_before);
                        assert(matched.push(c) + wanted.remaining() =~= matched + wanted_before);
                        matched = matched.push(c);
                    }
                },
            },
        }
    }
}

} // verus!
