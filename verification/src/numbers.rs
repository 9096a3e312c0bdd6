//! Decimal numbers as text: what a digit string denotes, and the parser for
//! unsigned numbers that arguments carry.
use vstd::prelude::*;
use crate::wire::{DIGIT_NINE, DIGIT_ZERO, PLUS};

verus! {

/// Whether `b` is an ASCII decimal digit.
pub open spec fn is_digit(b: u8) -> bool {
    DIGIT_ZERO <= b <= DIGIT_NINE
}

/// Whether every byte of `s` is a decimal digit.
pub open spec fn all_digits(s: Seq<u8>) -> bool {
    forall|j: int| 0 <= j < s.len() ==> is_digit(#[trigger] s[j])
}

/// The number that the decimal digits `digits` denote.
pub open spec fn decimal_value(digits: Seq<u8>) -> nat
    decreases digits.len(),
{
    if digits.len() == 0 {
        0
    } else {
        (decimal_value(digits.drop_last()) * 10 + (digits.last() - DIGIT_ZERO)) as nat
    }
}

/// The digits of an unsigned number: `text` without the one `+` that may
/// stand before them.
pub open spec fn unsigned_digits(text: Seq<u8>) -> Seq<u8> {
    if text.len() > 0 && text[0] == PLUS {
        text.skip(1)
    } else {
        text
    }
}

/// The number that `text` denotes, if it is an unsigned decimal number of at
/// most `max`: an optional `+`, then one or more digits and nothing else.
/// Leading zeros are accepted.
pub open spec fn parse_unsigned_spec(text: Seq<u8>, max: nat) -> Option<nat> {
    let digits = unsigned_digits(text);
    if digits.len() > 0 && all_digits(digits) && decimal_value(digits) <= max {
        Some(decimal_value(digits))
    } else {
        None
    }
}

/// A longer prefix of a digit string denotes no smaller a number.
pub proof fn lemma_decimal_value_grows(digits: Seq<u8>, k: nat, m: nat)
    requires
        k <= m <= digits.len(),
        all_digits(digits),
    ensures
        decimal_value(digits.take(k as int)) <= decimal_value(digits.take(m as int)),
    decreases m - k,
{
    if k < m {
        lemma_decimal_value_grows(digits, k, (m - 1) as nat);
        let longer = digits.take(m as int);
        assert(longer.drop_last() =~= digits.take(m - 1));
        assert(is_digit(digits[m - 1]));
        assert(longer.last() == digits[m - 1]);
    }
}

/// Parses `text` as an unsigned decimal number of at most `max`.
pub fn parse_unsigned(text: &[u8], max: u64) -> (number: Option<u64>)
    ensures
        match number {
            Some(n) => parse_unsigned_spec(text@, max as nat) == Some(n as nat),
            None => parse_unsigned_spec(text@, max as nat) is None,
        },
{
    let len = text.len();
    let start: usize = if len > 0 && text[0] == PLUS {
        1
    } else {
        0
    };
    let ghost digits = unsigned_digits(text@);
    assert(digits =~= text@.skip(start as int));
    if start == len {
        return None;
    }
    let mut i: usize = start;
    let mut value: u64 = 0;
    assert(digits.take(0) =~= Seq::<u8>::empty());
    while i < len
        invariant
            start <= i <= len,
            start < len,
            len == text.len(),
            digits == text@.skip(start as int),
            digits == unsigned_digits(text@),
            all_digits(digits.take(i - start)),
            value == decimal_value(digits.take(i - start)),
            value <= max,
        decreases len - i,
    {
        let b = text[i];
        assert(digits[i - start] == b);
        if b < DIGIT_ZERO || b > DIGIT_NINE {
            assert(!is_digit(digits[i - start]));
            return None;
        }
        proof {
            let longer = digits.take(i - start + 1);
            assert(longer.drop_last() =~= digits.take(i - start));
            assert forall|j: int| 0 <= j < longer.len() implies is_digit(#[trigger] longer[j]) by {
                if j < i - start {
                    assert(longer[j] == digits.take(i - start)[j]);
                }
            }
            if all_digits(digits) {
                lemma_decimal_value_grows(digits, (i - start + 1) as nat, digits.len());
                assert(digits.take(digits.len() as int) =~= digits);
            }
        }
        let d: u64 = (b - DIGIT_ZERO) as u64;
        if d > max || value > (max - d) / 10 {
            return None;
        }
        value = value * 10 + d;
        i += 1;
    }
    assert(digits.take(len - start) =~= digits);
    Some(value)
}

} // verus!
