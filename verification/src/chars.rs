//! Character classes that the host-file rules are written in.
//!
//! The Unicode classes (`char::is_whitespace`, `char::is_numeric`,
//! `char::is_alphanumeric`) and Unicode lower-casing come from the standard
//! library. White space is stated in full; for the others only the ASCII
//! behaviour is stated, and the rest is named.
use vstd::prelude::*;

verus! {

/// ASCII letter or digit (`char::is_ascii_alphanumeric`).
pub open spec fn spec_ascii_alnum(c: char) -> bool {
    ('a' <= c && c <= 'z') || ('A' <= c && c <= 'Z') || ('0' <= c && c <= '9')
}

/// Lower-case ASCII letter or digit (`a-z`, `0-9`).
pub open spec fn spec_lower_alnum(c: char) -> bool {
    ('a' <= c && c <= 'z') || ('0' <= c && c <= '9')
}

/// ASCII decimal digit.
pub open spec fn spec_ascii_digit(c: char) -> bool {
    '0' <= c && c <= '9'
}

/// ASCII graphic character, `'!'..='~'` (`char::is_ascii_graphic`).
pub open spec fn spec_ascii_graphic(c: char) -> bool {
    '!' <= c && c <= '~'
}

/// The ASCII members of Unicode's White_Space property: tab, line feed,
/// vertical tab, form feed, carriage return and space.
pub open spec fn spec_ascii_whitespace(c: char) -> bool {
    ('\t' <= c && c <= '\r') || c == ' '
}

/// `c` is an ASCII character.
pub open spec fn is_ascii_char(c: char) -> bool {
    (c as u32) < 128
}

/// The characters outside ASCII with Unicode's White_Space property (as
/// listed in the Unicode Character Database, PropList.txt): U+0085, U+00A0,
/// U+1680, U+2000 to U+200A, U+2028, U+2029, U+202F, U+205F and U+3000.
pub open spec fn non_ascii_white_space(c: char) -> bool {
    let u = c as u32;
    u == 0x85 || u == 0xA0 || u == 0x1680 || (0x2000 <= u && u <= 0x200A) || u == 0x2028 || u
        == 0x2029 || u == 0x202F || u == 0x205F || u == 0x3000
}

/// What `char::is_numeric` returns for a character outside ASCII (Unicode
/// general categories Nd, Nl, No).
pub uninterp spec fn non_ascii_is_numeric(c: char) -> bool;

/// What `char::is_alphanumeric` returns for a character outside ASCII
/// (Unicode Alphabetic, or numeric).
pub uninterp spec fn non_ascii_is_alphanumeric(c: char) -> bool;

/// `char::is_whitespace`: the White_Space property; on ASCII, tab, line
/// feed, vertical tab, form feed, carriage return and space.
pub open spec fn char_is_whitespace(c: char) -> bool {
    if is_ascii_char(c) {
        spec_ascii_whitespace(c)
    } else {
        non_ascii_white_space(c)
    }
}

/// `char::is_numeric`: on ASCII, the digits.
pub open spec fn char_is_numeric(c: char) -> bool {
    if is_ascii_char(c) {
        spec_ascii_digit(c)
    } else {
        non_ascii_is_numeric(c)
    }
}

/// `char::is_alphanumeric`: on ASCII, the letters and digits.
pub open spec fn char_is_alphanumeric(c: char) -> bool {
    if is_ascii_char(c) {
        spec_ascii_alnum(c)
    } else {
        non_ascii_is_alphanumeric(c)
    }
}

/// What `str::to_lowercase` returns (Unicode lower-case mapping).
pub uninterp spec fn str_to_lowercase(s: Seq<char>) -> Seq<char>;

/// The ASCII lower case of `c`: `A-Z` become `a-z`, other characters stay.
pub open spec fn ascii_lower(c: char) -> char {
    if 'A' <= c && c <= 'Z' {
        ((c as u32) + 32) as char
    } else {
        c
    }
}

/// Every character of `s` is ASCII.
pub open spec fn all_ascii(s: Seq<char>) -> bool {
    forall|i: int| 0 <= i < s.len() ==> is_ascii_char(#[trigger] s[i])
}

/// Calls `char::is_whitespace`. Claims that the result is the White_Space
/// property that its documentation names: on ASCII, tab, line feed, vertical
/// tab, form feed, carriage return and space; elsewhere the code points that
/// PropList.txt lists.
#[verifier::external_body]
pub(crate) fn is_whitespace(c: char) -> (r: bool)
    ensures
        r == char_is_whitespace(c),
{
    c.is_whitespace()
}

/// Calls `char::is_numeric`. Claims that on ASCII the result holds exactly
/// of `'0'..='9'`, and elsewhere is the named `non_ascii_is_numeric(c)`;
/// which non-ASCII characters are numeric is left unstated.
#[verifier::external_body]
pub(crate) fn is_numeric(c: char) -> (r: bool)
    ensures
        is_ascii_char(c) ==> r == spec_ascii_digit(c),
        !is_ascii_char(c) ==> r == non_ascii_is_numeric(c),
{
    c.is_numeric()
}

/// Calls `char::is_alphanumeric` (Unicode Alphabetic or Numeric). Claims
/// that on ASCII the result holds exactly of letters and digits, and
/// elsewhere is the named `non_ascii_is_alphanumeric(c)`; and that no
/// White_Space character is alphanumeric (they are separators and controls,
/// general categories Zs, Zl, Zp and Cc, which are neither Alphabetic nor
/// Numeric). Which other non-ASCII characters qualify is left unstated.
#[verifier::external_body]
pub(crate) fn is_alphanumeric(c: char) -> (r: bool)
    ensures
        is_ascii_char(c) ==> r == spec_ascii_alnum(c),
        !is_ascii_char(c) ==> r == non_ascii_is_alphanumeric(c),
        r ==> !char_is_whitespace(c),
{
    c.is_alphanumeric()
}

/// Calls `str::to_lowercase`. Claims that the result is the named
/// `str_to_lowercase(s@)`, a function of the string alone, and that an ASCII
/// string is lower-cased character by character, `A-Z` to `a-z` (Unicode's
/// lower-case mapping on ASCII); the mapping outside ASCII is left unstated.
#[verifier::external_body]
pub(crate) fn to_lowercase(s: &str) -> (r: String)
    ensures
        r@ == str_to_lowercase(s@),
        all_ascii(s@) ==> r@ == s@.map_values(|c: char| ascii_lower(c)),
{
    s.to_lowercase()
}

/// Calls `String::push`: the string afterwards is the old one with `c`
/// appended.
#[verifier::external_body]
pub(crate) fn push_char(s: &mut String, c: char)
    ensures
        final(s)@ == old(s)@.push(c),
{
    s.push(c)
}

/// Whether `c` is an ASCII letter or digit.
pub fn is_ascii_alnum(c: char) -> (r: bool)
    ensures
        r == spec_ascii_alnum(c),
{
    ('a' <= c && c <= 'z') || ('A' <= c && c <= 'Z') || ('0' <= c && c <= '9')
}

/// Whether `c` is a lower-case ASCII letter or a digit.
pub fn is_lower_alnum(c: char) -> (r: bool)
    ensures
        r == spec_lower_alnum(c),
{
    ('a' <= c && c <= 'z') || ('0' <= c && c <= '9')
}

/// Whether `c` is an ASCII graphic character.
pub fn is_ascii_graphic(c: char) -> (r: bool)
    ensures
        r == spec_ascii_graphic(c),
{
    '!' <= c && c <= '~'
}

} // verus!
