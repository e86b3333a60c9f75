//! Small text-building helpers shared by the formatting and serialisation
//! functions: appending one character to a `String`, and rendering unsigned
//! integers in decimal.

use vstd::prelude::*;

verus! {

/// Relies on `String::push`: appends exactly the one character to the string.
#[verifier::external_body]
pub(crate) fn push_char(s: &mut String, c: char)
    ensures
        final(s)@ == old(s)@ + seq![c],
{
    s.push(c);
}

/// The character for the decimal digit `d % 10`.
pub open spec fn digit_char(d: nat) -> char {
    ((48 + d % 10) as u8) as char
}

/// The decimal digits of `n`, most significant first, with no leading zeros.
pub open spec fn decimal_chars(n: nat) -> Seq<char>
    decreases n,
{
    if n < 10 {
        seq![digit_char(n)]
    } else {
        decimal_chars(n / 10) + seq![digit_char(n % 10)]
    }
}

/// Every character that `decimal_chars` emits is an ASCII digit.
pub proof fn lemma_decimal_chars_ascii(n: nat)
    ensures
        forall|i: int|
            0 <= i < decimal_chars(n).len() ==> '0' <= #[trigger] decimal_chars(n)[i] <= '9',
    decreases n,
{
    assert('0' <= digit_char(n) <= '9') by {
        assert(48 <= 48 + n % 10 < 58);
    }
    assert('0' <= digit_char(n % 10) <= '9') by {
        assert(48 <= 48 + (n % 10) % 10 < 58);
    }
    if n >= 10 {
        lemma_decimal_chars_ascii(n / 10);
        let prefix = decimal_chars(n / 10);
        assert forall|i: int| 0 <= i < decimal_chars(n).len() implies '0'
            <= #[trigger] decimal_chars(n)[i] <= '9' by {
            if i < prefix.len() {
                assert(decimal_chars(n)[i] == prefix[i]);
            } else {
                assert(decimal_chars(n)[i] == digit_char(n % 10));
            }
        }
    }
}

/// Appends the decimal rendering of `n` to `s`.
pub fn push_decimal(s: &mut String, n: u64)
    ensures
        final(s)@ == old(s)@ + decimal_chars(n as nat),
    decreases n,
{
    if n >= 10 {
        push_decimal(s, n / 10);
    }
    let d: u8 = (n % 10) as u8;
    push_char(s, (48 + d) as char);
    proof {
        assert(s@ =~= old(s)@ + decimal_chars(n as nat));
    }
}

/// The decimal rendering of `n` as a fresh string.
pub fn decimal_string(n: u64) -> (r: String)
    ensures
        r@ == decimal_chars(n as nat),
{
    let mut s = String::new();
    push_decimal(&mut s, n);
    proof {
        assert(s@ =~= decimal_chars(n as nat));
    }
    s
}

} // verus!
