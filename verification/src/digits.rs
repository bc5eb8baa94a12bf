//! Positional notation of numbers, as text.

use vstd::prelude::*;

verus! {

/// The character that stands for a digit value below 16: `0` to `9`, then
/// `A` to `F`.
pub open spec fn digit_char(d: nat) -> char {
    if d < 10 {
        ('0' as nat + d) as char
    } else {
        ('A' as nat + d - 10) as char
    }
}

/// The digits of `n` in the given base, most significant first, without
/// leading zeros; zero is the single digit `0`.
pub open spec fn digits(n: nat, base: nat) -> Seq<char>
    recommends
        2 <= base <= 16,
    decreases n,
{
    if base < 2 || n < base {
        seq![digit_char(n)]
    } else {
        proof {
            assert(n / base < n) by (nonlinear_arith)
                requires
                    n >= base,
                    base >= 2,
            ;
        }
        digits(n / base, base).push(digit_char(n % base))
    }
}

/// `String::push` of std: the string afterwards is the string before with
/// the character `c` appended to its end.
#[verifier::external_body]
pub(crate) fn push_char(out: &mut String, c: char)
    ensures
        final(out)@ == old(out)@.push(c),
{
    out.push(c);
}

/// The character of one digit.
pub(crate) fn digit(d: u32) -> (c: char)
    requires
        d < 16,
    ensures
        c == digit_char(d as nat),
{
    if d < 10 {
        ('0' as u8 + d as u8) as char
    } else {
        ('A' as u8 + (d as u8 - 10)) as char
    }
}

/// Appends the digits of `n` in the given base to `out`.
pub(crate) fn push_digits(out: &mut String, n: u32, base: u32)
    requires
        2 <= base <= 16,
    ensures
        final(out)@ == old(out)@ + digits(n as nat, base as nat),
    decreases n,
{
    if n >= base {
        assert(n / base < n) by (nonlinear_arith)
            requires
                n >= base,
                base >= 2,
        ;
        push_digits(out, n / base, base);
    }
    push_char(out, digit(n % base));
    proof {
        let (m, b) = (n as nat, base as nat);
        if n >= base {
            assert(digits(m, b) == digits(m / b, b).push(digit_char(m % b)));
            assert((n / base) as nat == m / b);
            assert((n % base) as nat == m % b);
        } else {
            assert((n % base) as nat == m) by (nonlinear_arith)
                requires
                    n < base,
                    m == n,
            ;
        }
        assert(out@ =~= old(out)@ + digits(m, b));
    }
}

} // verus!
