//! Decimal text of integers, as error messages and map keys use it.

use vstd::prelude::*;

verus! {

/// The character of one decimal digit.
pub open spec fn digit_char(d: nat) -> char {
    if d == 0 {
        '0'
    } else if d == 1 {
        '1'
    } else if d == 2 {
        '2'
    } else if d == 3 {
        '3'
    } else if d == 4 {
        '4'
    } else if d == 5 {
        '5'
    } else if d == 6 {
        '6'
    } else if d == 7 {
        '7'
    } else if d == 8 {
        '8'
    } else {
        '9'
    }
}

/// The decimal digits of a natural number, most significant first, without
/// leading zeros.
pub open spec fn digits(n: nat) -> Seq<char>
    decreases n,
{
    if n < 10 {
        seq![digit_char(n)]
    } else {
        digits(n / 10).push(digit_char(n % 10))
    }
}

/// The decimal text of an integer: a minus sign for a negative one, then the
/// digits of its magnitude.
pub open spec fn decimal(v: int) -> Seq<char> {
    if v < 0 {
        seq!['-'] + digits((-v) as nat)
    } else {
        digits(v as nat)
    }
}

/// Calls `itoa::Buffer::format` on a signed integer. The contract claims that
/// the text is the integer in decimal: an optional minus sign and the digits,
/// with no leading zeros, no plus sign and no separators.
#[verifier::external_body]
pub(crate) fn format_signed(value: i128) -> (text: String)
    ensures
        text@ == decimal(value as int),
{
    itoa::Buffer::new().format(value).to_owned()
}

/// Calls `itoa::Buffer::format` on an unsigned integer. The contract claims
/// that the text is the integer in decimal, with no leading zeros.
#[verifier::external_body]
pub(crate) fn format_unsigned(value: u128) -> (text: String)
    ensures
        text@ == decimal(value as int),
{
    itoa::Buffer::new().format(value).to_owned()
}

/// The name that text made by `{:?}` formatting of a string has: the string in
/// double quotes with the escapes that the standard library chooses.
pub uninterp spec fn debug_text(s: Seq<char>) -> Seq<char>;

/// Formats a string with `{:?}`. The contract names the result; which
/// characters the standard library escapes is not stated.
#[verifier::external_body]
pub(crate) fn format_debug(s: &str) -> (text: String)
    ensures
        text@ == debug_text(s@),
{
    format!("{:?}", s)
}

/// True when the byte may stand in a path segment as it is.
pub open spec fn is_bare_byte(b: u8) -> bool {
    ||| 0x30 <= b <= 0x39
    ||| 0x41 <= b <= 0x5A
    ||| 0x61 <= b <= 0x7A
    ||| b == 0x2B
    ||| b == 0x2D
    ||| b == 0x2E
    ||| b == 0x5F
}

/// True when the text must be quoted: some byte of it is neither an ASCII
/// letter or digit nor one of `+`, `-`, `.` and `_`.
pub open spec fn name_needs_quotes(name: Seq<char>) -> bool {
    exists|i: int|
        0 <= i < vstd::utf8::encode_utf8(name).len() && !is_bare_byte(
            #[trigger] vstd::utf8::encode_utf8(name)[i],
        )
}

/// True when some byte of the text is neither an ASCII letter or digit nor
/// one of `+`, `-`, `.` and `_`, so that the text must be quoted.
pub fn needs_escaped(s: &str) -> (escaped: bool)
    ensures
        escaped == name_needs_quotes(s@),
{
    let bytes = s.as_bytes();
    let mut index: usize = 0;
    while index < bytes.len()
        invariant
            bytes@ == vstd::utf8::encode_utf8(s@),
            index <= bytes@.len(),
            forall|i: int| 0 <= i < index ==> is_bare_byte(#[trigger] bytes@[i]),
        decreases bytes@.len() - index,
    {
        let b = bytes[index];
        let bare = (0x30 <= b && b <= 0x39) || (0x41 <= b && b <= 0x5A) || (0x61 <= b && b <= 0x7A)
            || b == 0x2B || b == 0x2D || b == 0x2E || b == 0x5F;
        if !bare {
            return true;
        }
        index += 1;
    }
    false
}

/// True when the two texts hold the same characters.
pub fn str_eq(a: &str, b: &str) -> (equal: bool)
    ensures
        equal == (a@ == b@),
{
    let x = a.as_bytes();
    let y = b.as_bytes();
    proof {
        vstd::utf8::encode_utf8_decode_utf8(a@);
        vstd::utf8::encode_utf8_decode_utf8(b@);
    }
    if x.len() != y.len() {
        return false;
    }
    let mut i: usize = 0;
    while i < x.len()
        invariant
            x@.len() == y@.len(),
            x@ == vstd::utf8::encode_utf8(a@),
            y@ == vstd::utf8::encode_utf8(b@),
            i <= x@.len(),
            forall|j: int| 0 <= j < i ==> x@[j] == y@[j],
        decreases x@.len() - i,
    {
        if x[i] != y[i] {
            proof {
                if a@ == b@ {
                    assert(x@[i as int] == y@[i as int]);
                }
            }
            return false;
        }
        i += 1;
    }
    proof {
        assert(x@ =~= y@);
    }
    true
}

/// Calls `String::push`. The contract claims what the standard library
/// documents: the character is appended to the string.
#[verifier::external_body]
pub(crate) fn string_push(text: &mut String, c: char)
    ensures
        final(text)@ == old(text)@.push(c),
{
    text.push(c)
}

} // verus!
