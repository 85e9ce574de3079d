//! Character classification
//!
//! Unicode's character properties are defined by tables that take pages to
//! state; their results are named here and computed by `char`'s methods.

use vstd::prelude::*;

verus! {

/// Whether a character beyond ASCII has the Unicode `Alphabetic` property
/// (`char::is_alphabetic`)
pub uninterp spec fn alphabetic_beyond_ascii(c: char) -> bool;

/// Whether a character beyond ASCII has a Unicode numeric general category
/// (`char::is_numeric`)
pub uninterp spec fn numeric_beyond_ascii(c: char) -> bool;

/// Whether a character has the Unicode `Alphabetic` property: among ASCII
/// characters, the letters
pub open spec fn is_alphabetic(c: char) -> bool {
    if (c as u32) < 0x80 {
        ('a' <= c && c <= 'z') || ('A' <= c && c <= 'Z')
    } else {
        alphabetic_beyond_ascii(c)
    }
}

/// Whether a character has a Unicode numeric general category (`Nd`, `Nl`,
/// `No`): among ASCII characters, the digits
pub open spec fn is_numeric(c: char) -> bool {
    if (c as u32) < 0x80 {
        '0' <= c && c <= '9'
    } else {
        numeric_beyond_ascii(c)
    }
}

/// Whether a character has the Unicode `White_Space` property (the code
/// points listed for it in the Unicode Character Database's PropList.txt)
pub open spec fn is_whitespace(c: char) -> bool {
    let v = c as u32;
    ||| 0x09 <= v && v <= 0x0d
    ||| v == 0x20 || v == 0x85 || v == 0xa0 || v == 0x1680
    ||| 0x2000 <= v && v <= 0x200a
    ||| v == 0x2028 || v == 0x2029 || v == 0x202f || v == 0x205f || v == 0x3000
}

/// The lowercase hexadecimal digits of a number, without leading zeros
pub open spec fn hex_digits(n: nat) -> Seq<char>
    decreases n,
{
    if n < 16 {
        seq![hex_digit(n)]
    } else {
        hex_digits(n / 16).push(hex_digit(n % 16))
    }
}

/// A lowercase hexadecimal digit
pub open spec fn hex_digit(d: nat) -> char {
    if d < 10 {
        crate::util::text::digit_char(d)
    } else if d == 10 { 'a' }
    else if d == 11 { 'b' }
    else if d == 12 { 'c' }
    else if d == 13 { 'd' }
    else if d == 14 { 'e' }
    else { 'f' }
}

/// The escaped representation of a character (`char::escape_default`): a
/// backslash before tab, carriage return, line feed, quotes and the
/// backslash, printable ASCII as it is, anything else as `\u{NNNN}` with
/// the code point in lowercase hexadecimal
pub open spec fn escape_default(c: char) -> Seq<char> {
    if c == '\t' {
        seq!['\\', 't']
    } else if c == '\r' {
        seq!['\\', 'r']
    } else if c == '\n' {
        seq!['\\', 'n']
    } else if c == '\'' || c == '"' || c == '\\' {
        seq!['\\', c]
    } else if 0x20 <= (c as u32) && (c as u32) <= 0x7e {
        seq![c]
    } else {
        seq!['\\', 'u', '{'] + hex_digits((c as u32) as nat) + seq!['}']
    }
}

/// Calls `char::is_alphabetic`: true for the ASCII letters and no other
/// ASCII character, and beyond ASCII the named property of `c`.
#[verifier::external_body]
pub fn char_is_alphabetic(c: char) -> (r: bool)
    ensures
        r == is_alphabetic(c),
        (c as u32) >= 0x80 ==> r == alphabetic_beyond_ascii(c),
{
    c.is_alphabetic()
}

/// Calls `char::is_numeric`: true for the ASCII digits and no other ASCII
/// character, and beyond ASCII the named property of `c`.
#[verifier::external_body]
pub fn char_is_numeric(c: char) -> (r: bool)
    ensures
        r == is_numeric(c),
        (c as u32) >= 0x80 ==> r == numeric_beyond_ascii(c),
{
    c.is_numeric()
}

/// Calls `char::is_whitespace`, which tells whether `c` has the Unicode
/// `White_Space` property; the contract lists that property's code points.
#[verifier::external_body]
pub fn char_is_whitespace(c: char) -> (r: bool)
    ensures
        r == is_whitespace(c),
{
    c.is_whitespace()
}

/// Calls `char::escape_default` and collects the escape sequence; the
/// contract states the escapes its documentation lists.
#[verifier::external_body]
pub fn char_escape_default(c: char) -> (r: String)
    ensures
        r@ == escape_default(c),
{
    c.escape_default().collect()
}

/// The number of bytes of a character in UTF-8 (`char::len_utf8`)
pub open spec fn utf8_len(c: char) -> nat {
    if (c as u32) < 0x80 {
        1
    } else if (c as u32) < 0x800 {
        2
    } else if (c as u32) < 0x10000 {
        3
    } else {
        4
    }
}

/// The number of bytes of a character in UTF-8
pub fn len_utf8(c: char) -> (r: u32)
    ensures
        r == utf8_len(c),
{
    let v = c as u32;
    if v < 0x80 {
        1
    } else if v < 0x800 {
        2
    } else if v < 0x10000 {
        3
    } else {
        4
    }
}

/// The number of bytes of a character sequence in UTF-8
pub open spec fn utf8_total(s: Seq<char>) -> nat
    decreases s.len(),
{
    if s.len() == 0 {
        0
    } else {
        utf8_total(s.drop_last()) + utf8_len(s.last())
    }
}

/// Whether a character is an ASCII decimal digit
pub open spec fn is_ascii_digit(c: char) -> bool {
    '0' <= c && c <= '9'
}

/// The value of a sequence of ASCII decimal digits
pub open spec fn digits_value(s: Seq<char>) -> nat
    decreases s.len(),
{
    if s.len() == 0 {
        0
    } else {
        digits_value(s.drop_last()) * 10 + ((s.last() as u32) - ('0' as u32)) as nat
    }
}

/// Whether a string parses as a `u32` (`str::parse::<u32>`): one or more
/// ASCII digits with a value that fits (a leading `+` is not produced by the
/// lexer and therefore not considered)
pub open spec fn parses_as_u32(s: Seq<char>) -> bool {
    &&& s.len() > 0
    &&& forall|i: int| 0 <= i < s.len() ==> is_ascii_digit(#[trigger] s[i])
    &&& digits_value(s) <= u32::MAX
}

/// Parse a sequence of decimal digits into a `u32`
pub fn parse_u32(s: &[char]) -> (r: Option<u32>)
    requires
        s@.len() == 0 || s@[0] != '+',
    ensures
        r is Some <==> parses_as_u32(s@),
        r matches Some(v) ==> v == digits_value(s@),
{
    if s.len() == 0 {
        return None;
    }
    let mut acc: u64 = 0;
    let mut i: usize = 0;
    while i < s.len()
        invariant
            i <= s@.len(),
            forall|j: int| 0 <= j < i ==> is_ascii_digit(#[trigger] s@[j]),
            acc == digits_value(s@.subrange(0, i as int)),
            acc <= u32::MAX,
        decreases s@.len() - i,
    {
        let c = s[i];
        if !('0' <= c && c <= '9') {
            return None;
        }
        let d = (c as u32 - '0' as u32) as u64;
        assert(s@.subrange(0, i + 1).drop_last() =~= s@.subrange(0, i as int));
        let next = acc * 10 + d;
        if next > u32::MAX as u64 {
            proof {
                if forall|j: int| 0 <= j < s@.len() ==> is_ascii_digit(#[trigger] s@[j]) {
                    lemma_digits_value_prefix_mono(s@, i + 1);
                }
            }
            return None;
        }
        acc = next;
        i = i + 1;
    }
    assert(s@.subrange(0, s@.len() as int) =~= s@);
    Some(acc as u32)
}

/// A longer prefix of digits never has a smaller value
proof fn lemma_digits_value_prefix_mono(s: Seq<char>, k: int)
    requires
        0 <= k <= s.len(),
        forall|j: int| 0 <= j < s.len() ==> is_ascii_digit(#[trigger] s[j]),
    ensures
        digits_value(s.subrange(0, k)) <= digits_value(s),
    decreases s.len() - k,
{
    if k < s.len() {
        lemma_digits_value_prefix_mono(s, k + 1);
        assert(s.subrange(0, k + 1).drop_last() =~= s.subrange(0, k));
    } else {
        assert(s.subrange(0, k) =~= s);
    }
}

} // verus!
