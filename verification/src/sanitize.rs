//! Names that are legal identifiers in C.

use crate::digits::{digits, push_char, push_digits};
use vstd::prelude::*;
use vstd::std_specs::iter::IteratorSpec;

verus! {

broadcast use vstd::string::group_string_axioms;

/// The characters that may stand in a C identifier: ASCII letters, digits
/// and the underscore.
pub open spec fn is_identifier_char(c: char) -> bool {
    ||| '0' <= c <= '9'
    ||| 'A' <= c <= 'Z'
    ||| 'a' <= c <= 'z'
    ||| c == '_'
}

/// What one character becomes: itself where it may stand in an identifier,
/// else its code point in upper-case hexadecimal between two underscores.
pub open spec fn sanitized_char(c: char) -> Seq<char> {
    if is_identifier_char(c) {
        seq![c]
    } else {
        seq!['_'] + digits(c as nat, 16) + seq!['_']
    }
}

/// The sanitized form of a name: the concatenation of what its characters
/// become, in order.
pub open spec fn sanitized(s: Seq<char>) -> Seq<char>
    decreases s.len(),
{
    if s.len() == 0 {
        Seq::empty()
    } else {
        sanitized(s.drop_last()) + sanitized_char(s.last())
    }
}

/// Whether every character of `s` may stand in an identifier.
pub open spec fn is_identifier(s: Seq<char>) -> bool {
    forall|i: int| 0 <= i < s.len() ==> is_identifier_char(#[trigger] s[i])
}

/// Every digit of a number in a base of at most 16 may stand in an
/// identifier.
pub proof fn lemma_digits_are_identifier_chars(n: nat, base: nat)
    requires
        2 <= base <= 16,
    ensures
        is_identifier(digits(n, base)),
    decreases n,
{
    if n < base {
    } else {
        assert(n / base < n) by (nonlinear_arith)
            requires
                n >= base,
                base >= 2,
        ;
        assert(n % base < 16) by (nonlinear_arith)
            requires
                2 <= base <= 16,
        ;
        lemma_digits_are_identifier_chars(n / base, base);
    }
}

/// What a name becomes when one more character follows it.
pub proof fn lemma_sanitized_push(s: Seq<char>, c: char)
    ensures
        sanitized(s.push(c)) == sanitized(s) + sanitized_char(c),
{
    assert(s.push(c).drop_last() =~= s);
}

/// The sanitized form of any name is an identifier.
pub proof fn lemma_sanitized_is_identifier(s: Seq<char>)
    ensures
        is_identifier(sanitized(s)),
    decreases s.len(),
{
    if s.len() > 0 {
        lemma_sanitized_is_identifier(s.drop_last());
        lemma_digits_are_identifier_chars(s.last() as nat, 16);
    }
}

/// A name that is an identifier already is its own sanitized form.
pub proof fn lemma_sanitized_keeps_identifier(s: Seq<char>)
    requires
        is_identifier(s),
    ensures
        sanitized(s) == s,
    decreases s.len(),
{
    if s.len() > 0 {
        lemma_sanitized_keeps_identifier(s.drop_last());
        assert(sanitized(s) =~= s);
    }
}

/// Whether `c` may stand in a C identifier.
pub fn identifier_char(c: char) -> (yes: bool)
    ensures
        yes == is_identifier_char(c),
{
    ('0' <= c && c <= '9') || ('A' <= c && c <= 'Z') || ('a' <= c && c <= 'z') || c == '_'
}

/// Appends to `out` what the character `c` becomes.
pub fn push_sanitized_char(out: &mut String, c: char)
    ensures
        final(out)@ == old(out)@ + sanitized_char(c),
{
    if identifier_char(c) {
        push_char(out, c);
    } else {
        push_char(out, '_');
        push_digits(out, c as u32, 16);
        push_char(out, '_');
    }
    assert(out@ =~= old(out)@ + sanitized_char(c));
}

/// Turns a type or function name into a legal C identifier.
///
/// Letters, digits and underscores stay; any other character becomes its
/// code point in upper-case hexadecimal between two underscores. The result
/// is always an identifier, and an identifier comes back unchanged.
pub fn sanitize_type_name(name: String) -> (out: String)
    ensures
        out@ == sanitized(name@),
        is_identifier(out@),
        is_identifier(name@) ==> out@ == name@,
{
    let mut out = String::new();
    let mut chars = name.as_str().chars();
    let ghost mut seen: Seq<char> = Seq::empty();
    loop
        invariant
            chars.obeys_prophetic_iter_laws(),
            seen + chars.remaining() == name@,
            out@ == sanitized(seen),
            chars.decrease() is Some,
        ensures
            seen == name@,
        decreases chars.decrease()->0,
    {
        let ghost before = chars.remaining();
        match chars.next() {
            None => {
                assert(seen =~= seen + before);
                break ;
            },
            Some(c) => {
                proof {
                    lemma_sanitized_push(seen, c);
                    assert(seen.push(c) + chars.remaining() =~= seen + before);
                    seen = seen.push(c);
                }
                push_sanitized_char(&mut out, c);
            },
        }
    }
    proof {
        lemma_sanitized_is_identifier(name@);
        if is_identifier(name@) {
            lemma_sanitized_keeps_identifier(name@);
        }
    }
    out
}

} // verus!
