//! Binary notation for 16-bit numbers.

use vstd::prelude::*;
use crate::chars::string_push;

verus! {

/// The digit for bit `i` of `x`, bit 0 being the least significant one.
pub open spec fn bit_char(x: u16, i: u16) -> char {
    if (x >> i) & 1 == 1 {
        '1'
    } else {
        '0'
    }
}

/// The sixteen binary digits of `x`, the most significant one first.
pub open spec fn binary_text(x: u16) -> Seq<char> {
    Seq::new(16, |k: int| bit_char(x, (15 - k) as u16))
}

/// The string of sixteen 1s and 0s that represents `x` in binary.
pub fn as_binary_string(x: u16) -> (s: String)
    ensures
        s@ == binary_text(x),
{
    let mut s = String::new();
    let mut k: u16 = 0;
    while k < 16
        invariant
            k <= 16,
            s@.len() == k,
            forall|j: int| 0 <= j < k ==> s@[j] == bit_char(x, (15 - j) as u16),
        decreases 16 - k,
    {
        let i: u16 = 15 - k;
        let digit = if (x >> i) & 1 == 1 {
            '1'
        } else {
            '0'
        };
        string_push(&mut s, digit);
        k += 1;
    }
    assert(s@ =~= binary_text(x));
    s
}

} // verus!
