//! Character classes used by the tokenizer, and the few Unicode queries that
//! are delegated to the standard library.

use vstd::prelude::*;

verus! {

/// True exactly of the ASCII decimal digits `0` to `9`.
pub open spec fn is_digit(c: char) -> bool {
    '0' <= c && c <= '9'
}

/// Decimal digit test.
pub fn digit(c: char) -> (r: bool)
    ensures
        r == is_digit(c),
{
    '0' <= c && c <= '9'
}

/// True exactly of the ASCII hexadecimal digits.
pub open spec fn is_hex_digit(c: char) -> bool {
    ('0' <= c && c <= '9') || ('a' <= c && c <= 'f') || ('A' <= c && c <= 'F')
}

/// Hexadecimal digit test.
pub fn hex_digit(c: char) -> (r: bool)
    ensures
        r == is_hex_digit(c),
{
    ('0' <= c && c <= '9') || ('a' <= c && c <= 'f') || ('A' <= c && c <= 'F')
}

/// Numeric value of one hexadecimal digit.
pub open spec fn hex_digit_value(c: char) -> u32
    recommends
        is_hex_digit(c),
{
    if '0' <= c && c <= '9' {
        (c as u32 - '0' as u32) as u32
    } else if 'a' <= c && c <= 'f' {
        (c as u32 - 'a' as u32 + 10) as u32
    } else {
        (c as u32 - 'A' as u32 + 10) as u32
    }
}

/// Numeric value of one hexadecimal digit.
pub fn hex_value(c: char) -> (v: u32)
    requires
        is_hex_digit(c),
    ensures
        v == hex_digit_value(c),
        v < 16,
{
    if '0' <= c && c <= '9' {
        c as u32 - '0' as u32
    } else if 'a' <= c && c <= 'f' {
        c as u32 - 'a' as u32 + 10
    } else {
        c as u32 - 'A' as u32 + 10
    }
}

/// True exactly of the ASCII letters.
pub open spec fn is_ascii_letter(c: char) -> bool {
    ('a' <= c && c <= 'z') || ('A' <= c && c <= 'Z')
}

/// ASCII whitespace other than the newline, which the tokenizer treats as a
/// token of its own: space, horizontal tab, carriage return and form feed.
pub open spec fn is_blank(c: char) -> bool {
    c == ' ' || c == '\t' || c == '\r' || c == '\u{c}'
}

/// Blank test (ASCII whitespace except the newline).
pub fn blank(c: char) -> (r: bool)
    ensures
        r == is_blank(c),
{
    c == ' ' || c == '\t' || c == '\r' || c == '\u{c}'
}

/// The letters outside the ASCII range that Unicode counts as alphabetic.
/// Only `letter` below speaks of this name.
pub uninterp spec fn unicode_alphabetic(c: char) -> bool;

/// Whether `c` counts as a letter: within ASCII exactly the letters `a` to
/// `z` and `A` to `Z`, beyond ASCII whatever Unicode counts as alphabetic.
pub open spec fn is_letter(c: char) -> bool {
    if (c as u32) < 128 {
        is_ascii_letter(c)
    } else {
        unicode_alphabetic(c)
    }
}

/// Relies on char::is_alphabetic: true exactly of the characters with the
/// Unicode `Alphabetic` property, which within ASCII are the letters.
#[verifier::external_body]
pub fn letter(c: char) -> (r: bool)
    ensures
        r == is_letter(c),
        (c as u32) >= 128 ==> r == unicode_alphabetic(c),
{
    c.is_alphabetic()
}

/// The characters outside the ASCII range that Unicode counts as whitespace.
/// Only `space` below speaks of this name.
pub uninterp spec fn unicode_whitespace(c: char) -> bool;

/// Whether `c` counts as whitespace for trimming: within ASCII exactly
/// horizontal tab, line feed, vertical tab, form feed, carriage return and
/// space, beyond ASCII whatever Unicode counts as whitespace.
pub open spec fn is_space(c: char) -> bool {
    if (c as u32) < 128 {
        c == ' ' || c == '\t' || c == '\n' || c == '\u{b}' || c == '\u{c}' || c == '\r'
    } else {
        unicode_whitespace(c)
    }
}

/// Relies on char::is_whitespace: true exactly of the characters with the
/// Unicode `White_Space` property, which within ASCII are space, horizontal
/// tab, line feed, vertical tab, form feed and carriage return.
#[verifier::external_body]
pub fn space(c: char) -> (r: bool)
    ensures
        r == is_space(c),
        (c as u32) >= 128 ==> r == unicode_whitespace(c),
{
    c.is_whitespace()
}

/// Copy of a character vector.
pub fn copy_chars(v: &Vec<char>) -> (out: Vec<char>)
    ensures
        out@ == v@,
{
    let mut out: Vec<char> = Vec::new();
    let mut i: usize = 0;
    while i < v.len()
        invariant
            i <= v.len(),
            out@ == v@.subrange(0, i as int),
        decreases v.len() - i,
    {
        out.push(v[i]);
        proof {
            assert(out@ =~= v@.subrange(0, i + 1 as int));
        }
        i = i + 1;
    }
    proof {
        assert(out@ =~= v@);
    }
    out
}

/// Whether two character vectors hold the same text.
pub fn same_text(a: &Vec<char>, b: &Vec<char>) -> (r: bool)
    ensures
        r == (a@ == b@),
{
    if a.len() != b.len() {
        return false;
    }
    let mut i: usize = 0;
    while i < a.len()
        invariant
            i <= a.len() == b.len(),
            forall|j: int| 0 <= j < i ==> a@[j] == b@[j],
        decreases a.len() - i,
    {
        if a[i] != b[i] {
            return false;
        }
        i = i + 1;
    }
    proof {
        assert(a@ =~= b@);
    }
    true
}

/// True exactly of the code points that are Unicode scalar values, the
/// values a `char` can hold.
pub open spec fn is_scalar_value(v: int) -> bool {
    0 <= v && (v < 0xD800 || (0xE000 <= v && v <= 0x10FFFF))
}

/// Relies on char::from_u32: `Some` exactly for Unicode scalar values, that
/// is for code points outside the surrogate range and at most 0x10FFFF, and
/// the returned character has exactly the given code point.
#[verifier::external_body]
pub fn scalar_to_char(v: u32) -> (r: Option<char>)
    ensures
        r is Some <==> is_scalar_value(v as int),
        r is Some ==> r->0 as u32 == v,
{
    char::from_u32(v)
}

} // verus!
