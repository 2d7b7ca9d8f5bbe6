//! The numeric tokens of a change line.
//!
//! A token counts when it is written as an optional `+` followed by one or
//! more decimal digits and its value fits in a `usize`. Any other token, such
//! as the `-` that stands for a binary file, counts as zero.

use vstd::prelude::*;
use vstd::slice::slice_subrange;

verus! {

/// Whether `c` is one of the digits `0` to `9`.
pub open spec fn is_digit(c: char) -> bool {
    '0' <= c <= '9'
}

/// The number that the decimal digits `s` write.
pub open spec fn digits_value(s: Seq<char>) -> nat
    decreases s.len(),
{
    if s.len() == 0 {
        0
    } else {
        digits_value(s.drop_last()) * 10 + (s.last() as u32 - '0' as u32) as nat
    }
}

/// Whether every character of `s` is a digit.
pub open spec fn all_digits(s: Seq<char>) -> bool {
    forall|i: int| 0 <= i < s.len() ==> is_digit(#[trigger] s[i])
}

/// The token without the `+` that may lead it.
pub open spec fn unsigned_part(token: Seq<char>) -> Seq<char> {
    if token.len() > 0 && token[0] == '+' {
        token.drop_first()
    } else {
        token
    }
}

/// Whether `token` writes a number: an optional `+`, then one or more
/// digits.
pub open spec fn is_number(token: Seq<char>) -> bool {
    unsigned_part(token).len() > 0 && all_digits(unsigned_part(token))
}

/// The number that `token` writes, where it writes one that fits in a
/// `usize`.
pub open spec fn number_of(token: Seq<char>) -> Option<nat> {
    if is_number(token) && digits_value(unsigned_part(token)) <= usize::MAX {
        Some(digits_value(unsigned_part(token)))
    } else {
        None
    }
}

/// What `token` contributes to a total: the number it writes, and zero where
/// it writes none.
pub open spec fn count_value(token: Seq<char>) -> nat {
    match number_of(token) {
        Some(n) => n,
        None => 0,
    }
}

/// `n`, or the largest `usize` where `n` is beyond it: what a count that
/// stops at the largest `usize` holds once `n` was counted.
pub open spec fn clip(n: nat) -> nat {
    if n > usize::MAX {
        usize::MAX as nat
    } else {
        n
    }
}

/// A number only grows as digits are appended to it.
pub proof fn lemma_digits_value_grows(s: Seq<char>, k: int)
    requires
        0 <= k <= s.len(),
    ensures
        digits_value(s.take(k)) <= digits_value(s),
    decreases s.len() - k,
{
    if k == s.len() {
        assert(s.take(k) =~= s);
    } else {
        lemma_digits_value_grows(s, k + 1);
        assert(s.take(k + 1).drop_last() =~= s.take(k));
    }
}

/// A token that does not write a number contributes nothing.
pub proof fn lemma_non_number_counts_zero(token: Seq<char>)
    requires
        !is_number(token),
    ensures
        count_value(token) == 0,
{
}

/// The number that `token` writes, or `None` where it writes none that fits
/// in a `usize`.
pub fn parse_number(token: &[char]) -> (number: Option<usize>)
    ensures
        number == match number_of(token@) {
            Some(n) => Some(n as usize),
            None => None,
        },
        number matches Some(n) ==> number_of(token@) == Some(n as nat),
{
    let start: usize = if token.len() > 0 && token[0] == '+' {
        1
    } else {
        0
    };
    let digits = slice_subrange(token, start, token.len());
    assert(digits@ =~= unsigned_part(token@));
    if digits.len() == 0 {
        return None;
    }
    let mut n: usize = 0;
    let mut i: usize = 0;
    while i < digits.len()
        invariant
            i <= digits.len(),
            digits@ == unsigned_part(token@),
            digits.len() > 0,
            all_digits(digits@.take(i as int)),
            n == digits_value(digits@.take(i as int)),
        decreases digits.len() - i,
    {
        let c = digits[i];
        if !('0' <= c && c <= '9') {
            assert(!is_digit(digits@[i as int]));
            return None;
        }
        let d: usize = (c as u32 - '0' as u32) as usize;
        proof {
            assert(digits@.take(i + 1).drop_last() =~= digits@.take(i as int));
            lemma_digits_value_grows(digits@, i + 1);
            assert(digits_value(digits@.take(i + 1)) == n * 10 + d);
            assert forall|j: int| 0 <= j < i + 1 implies is_digit(
                #[trigger] digits@.take(i + 1)[j],
            ) by {
                if j < i {
                    assert(digits@.take(i as int)[j] == digits@.take(i + 1)[j]);
                }
            }
        }
        if n > (usize::MAX - d) / 10 {
            return None;
        }
        n = n * 10 + d;
        i += 1;
    }
    assert(digits@.take(i as int) =~= digits@);
    Some(n)
}

/// What `token` contributes to a total: the number it writes, and zero where
/// it writes none.
pub fn parse_count(token: &[char]) -> (n: usize)
    ensures
        n == count_value(token@),
{
    match parse_number(token) {
        Some(n) => n,
        None => 0,
    }
}

} // verus!
