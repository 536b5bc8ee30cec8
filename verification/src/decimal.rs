//! Decimal notation for 16-bit numbers.

use vstd::prelude::*;
use crate::chars::{is_ascii_digit, string_push};

verus! {

/// The digit character for `d`, where `0 <= d <= 9`.
pub open spec fn digit_char(d: int) -> char {
    (d + 48) as char
}

/// The number that the digit character `c` stands for.
pub open spec fn digit_value(c: char) -> int {
    c as int - 48
}

/// Whether every character of `s` is an ASCII decimal digit.
pub open spec fn all_ascii_digits(s: Seq<char>) -> bool {
    forall|i: int| 0 <= i < s.len() ==> is_ascii_digit(#[trigger] s[i])
}

/// The number that a sequence of digits denotes in base ten, most significant
/// digit first. The empty sequence denotes zero.
pub open spec fn decimal_value(s: Seq<char>) -> int
    decreases s.len(),
{
    if s.len() == 0 {
        0
    } else {
        decimal_value(s.drop_last()) * 10 + digit_value(s.last())
    }
}

/// The shortest decimal notation of `n`.
pub open spec fn decimal_text(n: nat) -> Seq<char>
    decreases n,
{
    if n < 10 {
        seq![digit_char(n as int)]
    } else {
        decimal_text(n / 10).push(digit_char((n % 10) as int))
    }
}

/// The 16-bit number that `s` denotes: `s` must be a non-empty sequence of
/// ASCII digits whose value is at most 65535. Leading zeros are allowed.
pub open spec fn u16_of_digits(s: Seq<char>) -> Option<u16> {
    if s.len() > 0 && all_ascii_digits(s) && decimal_value(s) <= 0xffff {
        Some(decimal_value(s) as u16)
    } else {
        None
    }
}

/// The value of a prefix of a digit sequence is at most the value of the
/// whole, and no value is negative.
pub proof fn lemma_decimal_value_prefix(s: Seq<char>, k: int)
    requires
        all_ascii_digits(s),
        0 <= k <= s.len(),
    ensures
        0 <= decimal_value(s.take(k)) <= decimal_value(s),
    decreases s.len(),
{
    if s.len() == 0 {
        assert(s.take(k) =~= s);
    } else if k == s.len() {
        assert(s.take(k) =~= s);
        lemma_decimal_value_prefix(s.drop_last(), k - 1);
        assert(s.drop_last().take(k - 1) =~= s.drop_last());
    } else {
        lemma_decimal_value_prefix(s.drop_last(), k);
        assert(s.drop_last().take(k) =~= s.take(k));
    }
}

/// The decimal notation of a number is a non-empty sequence of ASCII digits
/// that denotes that number.
pub proof fn lemma_decimal_text_value(n: nat)
    ensures
        decimal_text(n).len() > 0,
        all_ascii_digits(decimal_text(n)),
        decimal_value(decimal_text(n)) == n,
    decreases n,
{
    if n < 10 {
        let s = decimal_text(n);
        assert(s.drop_last() =~= Seq::<char>::empty());
        assert(decimal_value(s.drop_last()) == 0);
    } else {
        lemma_decimal_text_value(n / 10);
        let s = decimal_text(n);
        assert(s.drop_last() =~= decimal_text(n / 10));
    }
}

/// The 16-bit number that the characters `digits` denote in base ten, if
/// they denote one.
pub fn parse_u16(digits: &Vec<char>) -> (r: Option<u16>)
    ensures
        r == u16_of_digits(digits@),
{
    let n: usize = digits.len();
    if n == 0 {
        return None;
    }
    let mut acc: u32 = 0;
    let mut i: usize = 0;
    while i < n
        invariant
            n == digits.len(),
            i <= n,
            all_ascii_digits(digits@.take(i as int)),
            acc == decimal_value(digits@.take(i as int)),
            acc <= 0xffff,
        decreases n - i,
    {
        let c: char = digits[i];
        if !(c >= '0' && c <= '9') {
            return None;
        }
        let d: u32 = (c as u32) - 48;
        proof {
            assert(digits@.take(i + 1).drop_last() =~= digits@.take(i as int));
        }
        acc = acc * 10 + d;
        if acc > 0xffff {
            proof {
                if all_ascii_digits(digits@) {
                    lemma_decimal_value_prefix(digits@, i + 1);
                }
            }
            return None;
        }
        i += 1;
    }
    proof {
        assert(digits@.take(n as int) =~= digits@);
    }
    Some(acc as u16)
}

/// The character for a digit below ten.
fn digit_to_char(d: u16) -> (c: char)
    requires
        d < 10,
    ensures
        c == digit_char(d as int),
{
    match d {
        0 => '0',
        1 => '1',
        2 => '2',
        3 => '3',
        4 => '4',
        5 => '5',
        6 => '6',
        7 => '7',
        8 => '8',
        _ => '9',
    }
}

/// The shortest decimal notation of `n`.
pub fn u16_to_text(n: u16) -> (s: String)
    ensures
        s@ == decimal_text(n as nat),
    decreases n,
{
    if n < 10 {
        let mut s = String::new();
        string_push(&mut s, digit_to_char(n));
        assert(s@ =~= decimal_text(n as nat));
        s
    } else {
        let mut s = u16_to_text(n / 10);
        string_push(&mut s, digit_to_char(n % 10));
        s
    }
}

} // verus!
