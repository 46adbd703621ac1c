//! Small operations on text, by characters.

use vstd::prelude::*;
use vstd::string::*;

verus! {

/// The characters of a text.
pub fn chars_of(text: &str) -> (chars: Vec<char>)
    ensures
        chars@ == text@,
{
    let len: usize = text.unicode_len();
    let mut chars: Vec<char> = Vec::new();
    let mut i: usize = 0;
    while i < len
        invariant
            i <= len,
            len == text@.len(),
            chars@ == text@.subrange(0, i as int),
        decreases len - i,
    {
        chars.push(text.get_char(i));
        assert(chars@ =~= text@.subrange(0, i + 1));
        i += 1;
    }
    assert(text@.subrange(0, i as int) =~= text@);
    chars
}

/// Whether two runs of characters are the same.
pub fn chars_equal(left: &[char], right: &[char]) -> (same: bool)
    ensures
        same == (left@ == right@),
{
    if left.len() != right.len() {
        return false;
    }
    let mut i: usize = 0;
    while i < left.len()
        invariant
            i <= left@.len(),
            left@.len() == right@.len(),
            forall|j: int| 0 <= j < i ==> left@[j] == right@[j],
        decreases left@.len() - i,
    {
        if left[i] != right[i] {
            return false;
        }
        i += 1;
    }
    assert(left@ =~= right@);
    true
}

/// Whether `needle` occurs in `haystack` at `at`.
pub open spec fn occurs_at(haystack: Seq<char>, needle: Seq<char>, at: int) -> bool {
    0 <= at && at + needle.len() <= haystack.len() && haystack.subrange(
        at,
        at + needle.len(),
    ) == needle
}

/// Whether `needle` occurs somewhere in `haystack`.
pub open spec fn contains_text(haystack: Seq<char>, needle: Seq<char>) -> bool {
    exists|at: int| occurs_at(haystack, needle, at)
}

fn matches_at(haystack: &[char], needle: &[char], at: usize) -> (found: bool)
    requires
        at + needle@.len() <= haystack@.len(),
    ensures
        found == occurs_at(haystack@, needle@, at as int),
{
    let total: usize = haystack.len();
    let mut i: usize = 0;
    while i < needle.len()
        invariant
            i <= needle@.len(),
            at + needle@.len() <= haystack@.len() == total,
            forall|j: int| 0 <= j < i ==> haystack@[at + j] == needle@[j],
        decreases needle@.len() - i,
    {
        if haystack[at + i] != needle[i] {
            assert(haystack@.subrange(at as int, at + needle@.len())[i as int] != needle@[i as int]);
            return false;
        }
        i += 1;
    }
    assert(haystack@.subrange(at as int, at + needle@.len()) =~= needle@);
    true
}

/// Whether `needle` occurs somewhere in `haystack`.
pub fn find_text(haystack: &[char], needle: &[char]) -> (found: bool)
    ensures
        found == contains_text(haystack@, needle@),
{
    if needle.len() > haystack.len() {
        return false;
    }
    let last: usize = haystack.len() - needle.len();
    let mut at: usize = 0;
    loop
        invariant
            at <= last,
            last == haystack@.len() - needle@.len(),
            forall|j: int| 0 <= j < at ==> !occurs_at(haystack@, needle@, j),
        decreases last - at,
    {
        if matches_at(haystack, needle, at) {
            return true;
        }
        if at == last {
            return false;
        }
        at += 1;
    }
}

/// Whether the text contains the pattern.
pub fn text_contains(text: &[char], pattern: &str) -> (found: bool)
    ensures
        found == contains_text(text@, pattern@),
{
    let needle = chars_of(pattern);
    find_text(text, needle.as_slice())
}

/// The bytes of a text of ASCII characters.
pub open spec fn ascii_bytes(text: Seq<char>) -> Seq<u8> {
    Seq::new(text.len(), |i: int| text[i] as u32 as u8)
}

/// The value of one digit in the given radix (10 or 16), if it is one.
pub open spec fn digit_value(c: char, radix: u32) -> Option<nat> {
    if 0x30 <= c as u32 <= 0x39 {
        Some((c as u32 - 0x30) as nat)
    } else if radix == 16 && 0x61 <= c as u32 <= 0x66 {
        Some((c as u32 - 0x61 + 10) as nat)
    } else if radix == 16 && 0x41 <= c as u32 <= 0x46 {
        Some((c as u32 - 0x41 + 10) as nat)
    } else {
        None
    }
}

/// Whether every character is a digit of the radix.
pub open spec fn all_digits(text: Seq<char>, radix: u32) -> bool {
    forall|i: int| 0 <= i < text.len() ==> (#[trigger] digit_value(text[i], radix)) is Some
}

/// The number that a run of digits denotes, most significant digit first.
pub open spec fn digits_value(text: Seq<char>, radix: u32) -> nat
    decreases text.len(),
{
    if text.len() == 0 {
        0
    } else {
        let last = match digit_value(text.last(), radix) {
            Some(d) => d,
            None => 0,
        };
        digits_value(text.drop_last(), radix) * (radix as nat) + last
    }
}

/// An unsigned literal: one optional `+`, then at least one digit of the
/// radix, denoting at most `max`. Anything else is no literal.
pub open spec fn parse_number(text: Seq<char>, radix: u32, max: u64) -> Option<u64> {
    let digits = if text.len() >= 2 && text[0] == '+' {
        text.skip(1)
    } else {
        text
    };
    if digits.len() > 0 && all_digits(digits, radix) && digits_value(digits, radix) <= max {
        Some(digits_value(digits, radix) as u64)
    } else {
        None
    }
}

/// A longer run of digits denotes no less than its front part.
pub proof fn lemma_digits_value_prefix(text: Seq<char>, radix: u32, k: int)
    requires
        0 <= k <= text.len(),
        radix >= 1,
    ensures
        digits_value(text.subrange(0, k), radix) <= digits_value(text, radix),
    decreases text.len() - k,
{
    if k == text.len() {
        assert(text.subrange(0, k) =~= text);
    } else {
        lemma_digits_value_prefix(text.drop_last(), radix, k);
        assert(text.drop_last().subrange(0, k) =~= text.subrange(0, k));
        let shorter = digits_value(text.drop_last(), radix);
        assert(shorter * (radix as nat) >= shorter) by (nonlinear_arith)
            requires
                radix >= 1,
        ;
    }
}

/// Reads an unsigned literal of at most `max` in radix 16 (`hex`) or 10.
pub fn parse_number_text(text: &[char], hex: bool, max: u64) -> (value: Option<u64>)
    ensures
        value == parse_number(
            text@,
            if hex {
                16
            } else {
                10
            },
            max,
        ),
{
    let radix: u32 = if hex {
        16
    } else {
        10
    };
    let start: usize = if text.len() >= 2 && text[0] == '+' {
        1
    } else {
        0
    };
    let ghost digits = text@.skip(start as int);
    assert(text@.skip(0) =~= text@);
    if text.len() == start {
        return None;
    }
    let mut acc: u64 = 0;
    let mut i: usize = start;
    while i < text.len()
        invariant
            start <= i <= text@.len(),
            radix == if hex {
                16u32
            } else {
                10u32
            },
            start == if text@.len() >= 2 && text@[0] == '+' {
                1usize
            } else {
                0usize
            },
            digits == text@.skip(start as int),
            text@.skip(0) == text@,
            acc <= max,
            acc == digits_value(digits.subrange(0, i - start), radix),
            all_digits(digits.subrange(0, i - start), radix),
        decreases text@.len() - i,
    {
        let c: char = text[i];
        let code: u32 = c as u32;
        let ghost upto = digits.subrange(0, i - start + 1);
        assert(upto.drop_last() =~= digits.subrange(0, i - start));
        assert(upto.last() == c);
        let digit: u32 = if 0x30 <= code && code <= 0x39 {
            code - 0x30
        } else if hex && 0x61 <= code && code <= 0x66 {
            code - 0x61 + 10
        } else if hex && 0x41 <= code && code <= 0x46 {
            code - 0x41 + 10
        } else {
            assert(digit_value(digits[i - start], radix) is None);
            assert(!all_digits(digits, radix));
            return None;
        };
        assert(digit_value(c, radix) == Some(digit as nat));
        let next: u128 = (acc as u128) * (radix as u128) + (digit as u128);
        assert(next == digits_value(upto, radix));
        if next > max as u128 {
            proof {
                lemma_digits_value_prefix(digits, radix, i - start + 1);
            }
            return None;
        }
        assert forall|j: int| 0 <= j < upto.len() implies (#[trigger] digit_value(
            upto[j],
            radix,
        )) is Some by {
            if j < upto.len() - 1 {
                assert(upto[j] == digits.subrange(0, i - start)[j]);
            }
        }
        acc = next as u64;
        i += 1;
    }
    assert(digits.subrange(0, i - start) =~= digits);
    Some(acc)
}

} // verus!
