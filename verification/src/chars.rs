//! Character classes and the characters of a string.

use vstd::prelude::*;
use vstd::std_specs::iter::IteratorSpec;

verus! {

/// Whether a character outside ASCII has the Unicode property `White_Space`.
pub uninterp spec fn unicode_whitespace(c: char) -> bool;

/// Whether a character outside ASCII is in one of the Unicode general
/// categories for numbers.
pub uninterp spec fn unicode_numeric(c: char) -> bool;

/// Whether a character outside ASCII has the Unicode property `Alphabetic`.
pub uninterp spec fn unicode_alphabetic(c: char) -> bool;

/// Whether `c` is below 128.
pub open spec fn is_ascii(c: char) -> bool {
    (c as u32) < 0x80
}

/// Whether `c` is one of the ten ASCII decimal digits.
pub open spec fn is_ascii_digit(c: char) -> bool {
    '0' <= c <= '9'
}

/// Whether `c` is an ASCII letter.
pub open spec fn is_ascii_letter(c: char) -> bool {
    ('a' <= c <= 'z') || ('A' <= c <= 'Z')
}

/// Whether `c` is white space: in ASCII the space and the characters from
/// tab to carriage return, elsewhere what Unicode says.
pub open spec fn is_whitespace(c: char) -> bool {
    if is_ascii(c) {
        c == ' ' || ('\t' <= c <= '\r')
    } else {
        unicode_whitespace(c)
    }
}

/// Whether `c` is numeric: in ASCII a decimal digit, elsewhere what Unicode
/// says.
pub open spec fn is_numeric(c: char) -> bool {
    if is_ascii(c) {
        is_ascii_digit(c)
    } else {
        unicode_numeric(c)
    }
}

/// Whether `c` is alphabetic: in ASCII a letter, elsewhere what Unicode says.
pub open spec fn is_alphabetic(c: char) -> bool {
    if is_ascii(c) {
        is_ascii_letter(c)
    } else {
        unicode_alphabetic(c)
    }
}

/// Calls `char::is_whitespace`. Trusted: the result is `is_whitespace(c)`,
/// that is, among the ASCII characters exactly the space and U+0009 to U+000D
/// are white space; of the other characters nothing is claimed but that the
/// answer depends on the character alone.
#[verifier::external_body]
pub(crate) fn char_is_whitespace(c: char) -> (b: bool)
    ensures
        is_ascii(c) ==> b == (c == ' ' || ('\t' <= c <= '\r')),
        !is_ascii(c) ==> b == unicode_whitespace(c),
{
    c.is_whitespace()
}

/// Calls `char::is_numeric`. Trusted: the result is `is_numeric(c)`, that is,
/// among the ASCII characters exactly `0` to `9` are numeric; of the other
/// characters nothing is claimed but that the answer depends on the character
/// alone.
#[verifier::external_body]
pub(crate) fn char_is_numeric(c: char) -> (b: bool)
    ensures
        is_ascii(c) ==> b == is_ascii_digit(c),
        !is_ascii(c) ==> b == unicode_numeric(c),
{
    c.is_numeric()
}

/// Calls `char::is_alphabetic`. Trusted: the result is `is_alphabetic(c)`,
/// that is, among the ASCII characters exactly the letters are alphabetic; of
/// the other characters nothing is claimed but that the answer depends on the
/// character alone.
#[verifier::external_body]
pub(crate) fn char_is_alphabetic(c: char) -> (b: bool)
    ensures
        is_ascii(c) ==> b == is_ascii_letter(c),
        !is_ascii(c) ==> b == unicode_alphabetic(c),
{
    c.is_alphabetic()
}

/// Calls `String::push`. Trusted: the string afterwards is the string before
/// with `c` added at its end.
#[verifier::external_body]
pub(crate) fn string_push(s: &mut String, c: char)
    ensures
        final(s)@ == old(s)@.push(c),
{
    s.push(c);
}

/// The characters of `text`, in order.
pub fn chars_of(text: &str) -> (v: Vec<char>)
    ensures
        v@ == text@,
{
    broadcast use vstd::string::group_string_axioms;

    let mut v: Vec<char> = Vec::new();
    for c in it: text.chars()
        invariant
            it.seq() == text@,
            v@ == it.seq().subrange(0, it.index() as int),
    {
        v.push(c);
    }
    v
}

/// A string of the characters `chars`.
pub fn string_of(chars: &Vec<char>) -> (s: String)
    ensures
        s@ == chars@,
{
    let mut s = String::new();
    let mut i: usize = 0;
    while i < chars.len()
        invariant
            i <= chars.len(),
            s@ == chars@.take(i as int),
        decreases chars.len() - i,
    {
        string_push(&mut s, chars[i]);
        i += 1;
        assert(s@ =~= chars@.take(i as int));
    }
    assert(chars@.take(chars.len() as int) =~= chars@);
    s
}

} // verus!
