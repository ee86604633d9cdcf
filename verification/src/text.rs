//! Small helpers to build the strings the library returns: decimal numbers
//! and character sequences.

use vstd::prelude::*;

verus! {

/// The decimal digit character for a value in 0..9.
pub open spec fn dec_digit(d: int) -> char {
    (('0' as int) + d) as char
}

/// The decimal representation of a non-negative number, most significant digit first.
pub open spec fn dec_str(n: int) -> Seq<char>
    decreases n,
{
    if n < 10 {
        seq![dec_digit(n)]
    } else {
        dec_str(n / 10).push(dec_digit(n % 10))
    }
}

/// Appends the decimal representation of `n` to `out`.
pub fn push_decimal(out: &mut Vec<char>, n: usize)
    ensures
        final(out)@ == old(out)@ + dec_str(n as int),
    decreases n,
{
    if n < 10 {
        out.push(((48 + n) as u8) as char);
    } else {
        push_decimal(out, n / 10);
        out.push(((48 + n % 10) as u8) as char);
    }
}

/// Appends the characters of `s` to `out`.
pub fn push_str_chars(out: &mut Vec<char>, s: &str)
    ensures
        final(out)@ == old(out)@ + s@,
{
    let n = s.unicode_len();
    let mut i: usize = 0;
    while i < n
        invariant
            i <= n,
            n == s@.len(),
            out@ == old(out)@ + s@.take(i as int),
        decreases n - i,
    {
        out.push(s.get_char(i));
        proof {
            assert(out@ =~= old(out)@ + s@.take(i + 1));
        }
        i += 1;
    }
    proof {
        assert(out@ =~= old(out)@ + s@);
    }
}

/// Relies on `String`'s `FromIterator` implementation over `char`: the
/// collected string holds exactly the given characters, in order.
#[verifier::external_body]
pub fn chars_to_string(chars: &Vec<char>) -> (result: String)
    ensures
        result@ == chars@,
{
    chars.iter().collect()
}

} // verus!
