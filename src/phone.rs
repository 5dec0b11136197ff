//! Validation of phone numbers taken from untrusted requests.

use vstd::prelude::*;
use crate::text::{chars_of, is_digit};

verus! {

/// Number of digits in a candidate phone number: its length, less a leading `+`.
pub open spec fn phone_digit_count(s: Seq<char>) -> int {
    if s.len() > 0 && s[0] == '+' { s.len() - 1 } else { s.len() as int }
}

/// A phone number: a `+` or a digit first, digits only after that, and
/// between 7 and 15 digits in all.
pub open spec fn valid_phone(s: Seq<char>) -> bool {
    &&& s.len() > 0
    &&& (s[0] == '+' || is_digit(s[0]))
    &&& forall|i: int| 1 <= i < s.len() ==> is_digit(#[trigger] s[i])
    &&& 7 <= phone_digit_count(s) <= 15
}

/// Whether `number` is an acceptable phone number.
pub fn is_valid_phone_number(number: &str) -> (r: bool)
    ensures
        r == valid_phone(number@),
{
    let cs = chars_of(number);
    if cs.len() == 0 {
        return false;
    }
    let first = cs[0];
    if first != '+' && !('0' <= first && first <= '9') {
        return false;
    }
    let mut i: usize = 1;
    while i < cs.len()
        invariant
            1 <= i <= cs.len(),
            cs@ == number@,
            forall|k: int| 1 <= k < i ==> is_digit(#[trigger] cs@[k]),
        decreases cs.len() - i,
    {
        let c = cs[i];
        if !('0' <= c && c <= '9') {
            assert(!is_digit(cs@[i as int]));
            return false;
        }
        i = i + 1;
    }
    let count: usize = if first == '+' { cs.len() - 1 } else { cs.len() };
    7 <= count && count <= 15
}

} // verus!
