//! Small verified helpers on strings.

use vstd::prelude::*;
use vstd::string::*;
use vstd::utf8::*;

verus! {

/// Whether two string slices hold the same characters.
///
/// The slices are compared byte by byte; equal encodings mean equal
/// characters because decoding undoes encoding.
pub fn str_eq(a: &str, b: &str) -> (same: bool)
    ensures
        same == (a@ == b@),
{
    let x = a.as_bytes();
    let y = b.as_bytes();
    proof {
        encode_utf8_decode_utf8(a@);
        encode_utf8_decode_utf8(b@);
    }
    if x.len() != y.len() {
        return false;
    }
    let mut i: usize = 0;
    while i < x.len()
        invariant
            x@ == a.spec_bytes(),
            y@ == b.spec_bytes(),
            x@.len() == y@.len(),
            i <= x@.len(),
            forall|j: int| 0 <= j < i ==> x@[j] == y@[j],
        decreases x.len() - i,
    {
        if x[i] != y[i] {
            return false;
        }
        i += 1;
    }
    assert(x@ =~= y@);
    true
}

/// `count` spaces.
pub open spec fn spaces(count: nat) -> Seq<char>
    decreases count,
{
    if count == 0 {
        Seq::empty()
    } else {
        spaces((count - 1) as nat) + " "@
    }
}

/// `text`, filled up with spaces behind it to `width` characters. A text
/// that is longer stays as it is.
pub open spec fn padded(text: Seq<char>, width: nat) -> Seq<char> {
    if text.len() >= width {
        text
    } else {
        text + spaces((width - text.len()) as nat)
    }
}

/// The parts in a row, with `separator` between each two.
pub open spec fn joined(parts: Seq<Seq<char>>, separator: Seq<char>) -> Seq<char>
    decreases parts.len(),
{
    if parts.len() == 0 {
        Seq::empty()
    } else if parts.len() == 1 {
        parts[0]
    } else {
        joined(parts.drop_last(), separator) + separator + parts.last()
    }
}

/// The numeral of a digit.
pub open spec fn digit_text(digit: nat) -> Seq<char> {
    if digit == 0 {
        "0"@
    } else if digit == 1 {
        "1"@
    } else if digit == 2 {
        "2"@
    } else if digit == 3 {
        "3"@
    } else if digit == 4 {
        "4"@
    } else if digit == 5 {
        "5"@
    } else if digit == 6 {
        "6"@
    } else if digit == 7 {
        "7"@
    } else if digit == 8 {
        "8"@
    } else {
        "9"@
    }
}

/// The decimal numeral of a natural number, without leading zeros.
pub open spec fn decimal_text(number: nat) -> Seq<char>
    decreases number,
{
    if number < 10 {
        digit_text(number)
    } else {
        decimal_text(number / 10) + digit_text(number % 10)
    }
}

/// The decimal numeral of an integer, with a minus sign before a negative
/// one.
pub open spec fn signed_text(number: int) -> Seq<char> {
    if number < 0 {
        "-"@ + decimal_text((-number) as nat)
    } else {
        decimal_text(number as nat)
    }
}

/// Appends `text` to `out`, filled up with spaces to `width` characters.
pub fn push_padded(out: &mut String, text: &str, width: usize)
    ensures
        final(out)@ == old(out)@ + padded(text@, width as nat),
{
    out.append(text);
    let length = text.unicode_len();
    let mut filled: usize = length;
    assert(old(out)@ + text@ + spaces(0) =~= old(out)@ + text@);
    while filled < width
        invariant
            length == text@.len(),
            length <= filled,
            filled <= width || filled == length,
            out@ == old(out)@ + text@ + spaces((filled - length) as nat),
        decreases width - filled,
    {
        out.append(" ");
        assert(old(out)@ + text@ + spaces((filled - length) as nat) + " "@ =~= old(out)@ + text@
            + spaces((filled + 1 - length) as nat));
        filled += 1;
    }
    assert(old(out)@ + text@ + spaces((filled - length) as nat) =~= old(out)@ + (text@ + spaces(
        (filled - length) as nat,
    )));
    assert(text@ + spaces(0) =~= text@);
}

/// The numeral of a digit, as a string slice.
fn digit_str(digit: u64) -> (numeral: &'static str)
    requires
        digit < 10,
    ensures
        numeral@ == digit_text(digit as nat),
{
    if digit == 0 {
        "0"
    } else if digit == 1 {
        "1"
    } else if digit == 2 {
        "2"
    } else if digit == 3 {
        "3"
    } else if digit == 4 {
        "4"
    } else if digit == 5 {
        "5"
    } else if digit == 6 {
        "6"
    } else if digit == 7 {
        "7"
    } else if digit == 8 {
        "8"
    } else {
        "9"
    }
}

/// Appends the decimal numeral of `number` to `out`.
pub fn push_unsigned(out: &mut String, number: u64)
    ensures
        final(out)@ == old(out)@ + decimal_text(number as nat),
    decreases number,
{
    if number >= 10 {
        push_unsigned(out, number / 10);
    }
    out.append(digit_str(number % 10));
    assert(old(out)@ + decimal_text(number as nat / 10) + digit_text(number as nat % 10)
        =~= old(out)@ + (decimal_text(number as nat / 10) + digit_text(number as nat % 10)));
}

/// Appends the decimal numeral of `number` to `out`.
pub fn push_signed(out: &mut String, number: i64)
    ensures
        final(out)@ == old(out)@ + signed_text(number as int),
{
    if number < 0 {
        out.append("-");
        let magnitude: u64 = (-(number + 1)) as u64 + 1;
        push_unsigned(out, magnitude);
        assert(old(out)@ + "-"@ + decimal_text(magnitude as nat) =~= old(out)@ + ("-"@
            + decimal_text(magnitude as nat)));
    } else {
        push_unsigned(out, number as u64);
    }
}

} // verus!
