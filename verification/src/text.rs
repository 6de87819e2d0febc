//! Turning character sequences built by verified code into `String`s.
use vstd::prelude::*;

verus! {

/// Builds a `String` holding exactly the given characters, in order.
///
/// Calls `String::from_iter` over the characters; the contract claims the
/// result's characters are those of `chars`, as the std documentation of
/// `FromIterator<&char> for String` states.
#[verifier::external_body]
pub(crate) fn string_from_chars(chars: &Vec<char>) -> (s: String)
    ensures
        s@ == chars@,
{
    String::from_iter(chars.iter())
}

/// The decimal digits of a natural number, most significant first.
pub open spec fn decimal_digits(n: nat) -> Seq<char>
    decreases n,
{
    if n < 10 {
        seq![digit_char(n)]
    } else {
        decimal_digits(n / 10).push(digit_char(n % 10))
    }
}

/// The character of a single decimal digit.
pub open spec fn digit_char(d: nat) -> char {
    ((d + 48) as u8) as char
}

/// Appends the decimal representation of `n` to `out`.
pub fn push_decimal(out: &mut Vec<char>, n: u64)
    ensures
        final(out)@ == old(out)@ + decimal_digits(n as nat),
    decreases n,
{
    if n < 10 {
        let c = ((n as u8) + 48) as char;
        out.push(c);
    } else {
        push_decimal(out, n / 10);
        let c = (((n % 10) as u8) + 48) as char;
        out.push(c);
        assert(decimal_digits(n as nat) == decimal_digits((n / 10) as nat).push(
            digit_char((n % 10) as nat),
        ));
    }
}

} // verus!
