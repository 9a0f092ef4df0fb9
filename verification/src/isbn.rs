//! Check digits of International Standard Book Numbers.

use crate::text::{chars_of, string_of};
use vstd::prelude::*;

verus! {

/// The characters that stand for the digits 0 to 10.
pub const DIGIT_TO_CHAR: [char; 11] = ['0', '1', '2', '3', '4', '5', '6', '7', '8', '9', 'X'];

/// The character that stands for `d`, if `d` is a digit.
pub open spec fn spec_digit_to_char(d: u32) -> Option<char> {
    if d < 11 {
        Some(DIGIT_TO_CHAR[d as int])
    } else {
        None
    }
}

/// The digit that `c` stands for: a decimal digit is its own value, `X`
/// is ten, no other character is a digit.
pub open spec fn spec_char_to_digit(c: char) -> Option<u32> {
    if '0' <= c && c <= '9' {
        Some((c as u32 - '0' as u32) as u32)
    } else if c == 'X' {
        Some(10u32)
    } else {
        None
    }
}

/// The digits among the characters of `text`, in order.
pub open spec fn digits_of(text: Seq<char>) -> Seq<u32>
    decreases text.len(),
{
    if text.len() == 0 {
        Seq::empty()
    } else {
        match spec_char_to_digit(text.last()) {
            Some(d) => digits_of(text.drop_last()).push(d),
            None => digits_of(text.drop_last()),
        }
    }
}

/// The characters that stand for `digits`.
pub open spec fn chars_of_digits(digits: Seq<u32>) -> Seq<char> {
    Seq::new(digits.len(), |i: int| DIGIT_TO_CHAR[digits[i] as int])
}

/// The sum of the digits, the first weighted by ten, each next one by one
/// less.
pub open spec fn weighted_sum_10(digits: Seq<u32>) -> int
    decreases digits.len(),
{
    if digits.len() == 0 {
        0
    } else {
        weighted_sum_10(digits.drop_last()) + (10 - (digits.len() - 1)) * digits.last()
    }
}

/// The sum of the digits, weighted by one and three in turn.
pub open spec fn weighted_sum_13(digits: Seq<u32>) -> int
    decreases digits.len(),
{
    if digits.len() == 0 {
        0
    } else {
        weighted_sum_13(digits.drop_last()) + (((digits.len() - 1) % 2) * 2 + 1) * digits.last()
    }
}

/// The digit that brings the weighted sum of an ISBN-10 to a multiple of
/// eleven.
pub open spec fn spec_check_digit_10(digits: Seq<u32>) -> int {
    (11 - weighted_sum_10(digits) % 11) % 11
}

/// The digit that brings the weighted sum of an ISBN-13 to a multiple of
/// ten.
pub open spec fn spec_check_digit_13(digits: Seq<u32>) -> int {
    (10 - weighted_sum_13(digits) % 10) % 10
}

/// Why no check digit could be given.
#[derive(Clone, Copy, Debug, PartialEq, Eq, Structural)]
pub enum IsbnError {
    /// The text holds neither 9 nor 12 digits.
    InvalidLength { digits: usize },
}

/// What `complete` yields for the digits found in a text.
pub open spec fn completed(digits: Seq<u32>) -> Result<Seq<char>, IsbnError> {
    if digits.len() == 9 {
        Ok(chars_of_digits(digits.push(spec_check_digit_10(digits) as u32)))
    } else if digits.len() == 12 {
        Ok(chars_of_digits(digits.push(spec_check_digit_13(digits) as u32)))
    } else {
        Err(IsbnError::InvalidLength { digits: digits.len() as usize })
    }
}

/// A character and the digit it stands for determine each other.
pub proof fn lemma_digit_char_round_trip(d: u32, c: char)
    ensures
        spec_digit_to_char(d) == Some(c) <==> spec_char_to_digit(c) == Some(d),
{
    if d < 11 {
        assert(DIGIT_TO_CHAR[d as int] == c ==> spec_char_to_digit(c) == Some(d));
    }
}

/// The check digit of an ISBN-10 completes the weighted sum to a multiple
/// of eleven, and is a digit.
pub proof fn lemma_check_digit_10_completes(digits: Seq<u32>)
    ensures
        0 <= spec_check_digit_10(digits) <= 10,
        (weighted_sum_10(digits) + spec_check_digit_10(digits)) % 11 == 0,
{
}

/// The check digit of an ISBN-13 completes the weighted sum to a multiple
/// of ten, and is a decimal digit.
pub proof fn lemma_check_digit_13_completes(digits: Seq<u32>)
    ensures
        0 <= spec_check_digit_13(digits) <= 9,
        (weighted_sum_13(digits) + spec_check_digit_13(digits)) % 10 == 0,
{
}

/// The character that stands for the digit `d`.
pub fn digit_to_char(d: u32) -> (c: Option<char>)
    ensures
        c == spec_digit_to_char(d),
{
    if d < 11 {
        Some(DIGIT_TO_CHAR[d as usize])
    } else {
        None
    }
}

/// The digit that the character `c` stands for.
pub fn char_to_digit(c: char) -> (d: Option<u32>)
    ensures
        d == spec_char_to_digit(c),
{
    let mut i: usize = 0;
    while i < 11
        invariant
            i <= 11,
            forall|k: int| 0 <= k < i ==> DIGIT_TO_CHAR[k] != c,
        decreases 11 - i,
    {
        if DIGIT_TO_CHAR[i] == c {
            return Some(i as u32);
        }
        i = i + 1;
    }
    proof {
        if '0' <= c && c <= '9' {
            let k = c as u32 - '0' as u32;
            assert(DIGIT_TO_CHAR[k as int] == c);
        }
        if c == 'X' {
            assert(DIGIT_TO_CHAR[10] == c);
        }
    }
    None
}

/// The check digit of an ISBN-10 whose other digits are `digits`.
pub fn check_digit_10(digits: &[u32]) -> (check: u32)
    requires
        digits.len() <= 11,
    ensures
        check == spec_check_digit_10(digits@),
{
    let mut rest: u64 = 0;
    let mut i: usize = 0;
    while i < digits.len()
        invariant
            digits.len() <= 11,
            i <= digits.len(),
            rest == weighted_sum_10(digits@.take(i as int)) % 11,
        decreases digits.len() - i,
    {
        let weight: u64 = 10 - i as u64;
        let digit: u64 = digits[i] as u64;
        proof {
            assert(0 <= weight * digit <= 10 * 0xffff_ffff) by (nonlinear_arith)
                requires
                    0 <= weight <= 10,
                    0 <= digit <= 0xffff_ffff,
            ;
            assert(digits@.take(i + 1).drop_last() =~= digits@.take(i as int));
        }
        rest = (rest + weight * digit) % 11;
        i = i + 1;
    }
    assert(digits@.take(digits.len() as int) =~= digits@);
    ((11 - rest) % 11) as u32
}

/// The check digit of an ISBN-13 whose other digits are `digits`.
pub fn check_digit_13(digits: &[u32]) -> (check: u32)
    ensures
        check == spec_check_digit_13(digits@),
{
    let mut rest: u64 = 0;
    let mut i: usize = 0;
    while i < digits.len()
        invariant
            i <= digits.len(),
            rest == weighted_sum_13(digits@.take(i as int)) % 10,
        decreases digits.len() - i,
    {
        let weight: u64 = ((i % 2) * 2 + 1) as u64;
        let digit: u64 = digits[i] as u64;
        proof {
            assert(0 <= weight * digit <= 3 * 0xffff_ffff) by (nonlinear_arith)
                requires
                    0 <= weight <= 3,
                    0 <= digit <= 0xffff_ffff,
            ;
            assert(digits@.take(i + 1).drop_last() =~= digits@.take(i as int));
        }
        rest = (rest + weight * digit) % 10;
        i = i + 1;
    }
    assert(digits@.take(digits.len() as int) =~= digits@);
    ((10 - rest) % 10) as u32
}

/// Completes the digits found in `text` with their check digit: nine
/// digits to an ISBN-10, twelve to an ISBN-13. Characters that stand for
/// no digit are passed over.
pub fn complete(text: &str) -> (isbn: Result<String, IsbnError>)
    ensures
        match completed(digits_of(text@)) {
            Ok(chars) => isbn matches Ok(s) && s@ == chars,
            Err(error) => isbn == Err::<String, IsbnError>(error),
        },
{
    let chars = chars_of(text);
    let mut digits: Vec<u32> = Vec::new();
    let mut i: usize = 0;
    while i < chars.len()
        invariant
            i <= chars.len(),
            digits@ == digits_of(chars@.take(i as int)),
            digits.len() <= i,
            forall|k: int| 0 <= k < digits.len() ==> digits[k] < 11,
        decreases chars.len() - i,
    {
        let found = char_to_digit(chars[i]);
        proof {
            assert(chars@.take(i + 1).drop_last() =~= chars@.take(i as int));
        }
        match found {
            Some(d) => {
                digits.push(d);
            },
            None => {},
        }
        i = i + 1;
    }
    assert(chars@.take(chars.len() as int) =~= chars@);
    let check: u32 = if digits.len() == 9 {
        check_digit_10(digits.as_slice())
    } else if digits.len() == 12 {
        check_digit_13(digits.as_slice())
    } else {
        return Err(IsbnError::InvalidLength { digits: digits.len() });
    };
    let ghost found = digits@;
    digits.push(check);
    let mut out: Vec<char> = Vec::new();
    let mut k: usize = 0;
    while k < digits.len()
        invariant
            k <= digits.len(),
            forall|j: int| 0 <= j < digits.len() ==> digits[j] < 11,
            out@ == chars_of_digits(digits@).take(k as int),
        decreases digits.len() - k,
    {
        out.push(DIGIT_TO_CHAR[digits[k] as usize]);
        k = k + 1;
        assert(out@ =~= chars_of_digits(digits@).take(k as int));
    }
    assert(chars_of_digits(digits@).take(digits.len() as int) =~= chars_of_digits(digits@));
    Ok(string_of(&out))
}

} // verus!
