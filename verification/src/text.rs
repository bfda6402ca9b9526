//! Text helpers: prefixes, and decimal numbers as settings hold them.

use vstd::prelude::*;
use vstd::string::StrSliceExecFns;

verus! {

/// Whether a text starts with another.
pub open spec fn starts(text: Seq<char>, prefix: Seq<char>) -> bool {
    prefix.len() <= text.len() && text.take(prefix.len() as int) == prefix
}

/// What follows a prefix, where the text starts with it.
pub fn strip<'a>(text: &'a str, prefix: &str) -> (r: Option<&'a str>)
    ensures
        match r {
            Some(rest) => starts(text@, prefix@) && rest@ == text@.skip(prefix@.len() as int),
            None => !starts(text@, prefix@),
        },
{
    let n: usize = prefix.unicode_len();
    let m: usize = text.unicode_len();
    if m < n {
        return None;
    }
    let head: &str = text.substring_char(0, n);
    let mut i: usize = 0;
    while i < n
        invariant
            i <= n <= text@.len(),
            n == prefix@.len(),
            head@ == text@.take(n as int),
            forall|j: int| 0 <= j < i ==> head@[j] == prefix@[j],
        decreases n - i,
    {
        if head.get_char(i) != prefix.get_char(i) {
            return None;
        }
        i += 1;
    }
    assert(head@ =~= prefix@);
    let rest: &str = text.substring_char(n, m);
    assert(rest@ =~= text@.skip(n as int));
    Some(rest)
}

/// Whether a text is a given one.
pub fn same_text(a: &str, b: &str) -> (r: bool)
    ensures
        r == (a@ == b@),
{
    match strip(a, b) {
        Some(rest) => {
            assert(rest@.len() == 0 ==> a@ =~= b@);
            rest.is_empty()
        },
        None => {
            assert(a@ == b@ ==> a@.take(b@.len() as int) =~= b@);
            false
        },
    }
}

/// Whether two optional texts are the same.
pub fn same_option(a: &Option<String>, b: &str) -> (r: bool)
    ensures
        r == (a matches Some(text) && text@ == b@),
{
    match a {
        Some(text) => same_text(text.as_str(), b),
        None => false,
    }
}

/// The views of an optional text.
pub open spec fn text_of(t: Option<String>) -> Option<Seq<char>> {
    match t {
        Some(text) => Some(text@),
        None => None,
    }
}

/// Copies an optional text.
pub fn copy_option(t: &Option<String>) -> (r: Option<String>)
    ensures
        r == *t,
{
    match t {
        Some(text) => Some(text.clone()),
        None => None,
    }
}

/// The number that a sequence of decimal digits spells.
pub open spec fn decimal(digits: Seq<u8>) -> nat
    decreases digits.len(),
{
    if digits.len() == 0 {
        0
    } else {
        decimal(digits.drop_last()) * 10 + (digits.last() - 0x30) as nat
    }
}

/// A byte is a decimal digit.
pub open spec fn digit(b: u8) -> bool {
    0x30 <= b <= 0x39
}

/// A non-empty sequence of decimal digits.
pub open spec fn all_digits(text: Seq<u8>) -> bool {
    text.len() > 0 && forall|i: int| 0 <= i < text.len() ==> digit(#[trigger] text[i])
}

/// A text without its plus sign, if it has one.
pub open spec fn unsigned(text: Seq<u8>) -> Seq<u8> {
    if text.len() > 0 && text[0] == 0x2b {
        text.skip(1)
    } else {
        text
    }
}

/// The unsigned number that a text spells: decimal digits behind an optional plus
/// sign, where it fits 64 bits.
pub open spec fn number(text: Seq<u8>) -> Option<u64> {
    if all_digits(unsigned(text)) && decimal(unsigned(text)) <= u64::MAX {
        Some(decimal(unsigned(text)) as u64)
    } else {
        None
    }
}

/// Digits only add to what precedes them.
proof fn lemma_decimal_prefix(digits: Seq<u8>, n: int)
    requires
        0 <= n <= digits.len(),
        forall|i: int| 0 <= i < digits.len() ==> digit(#[trigger] digits[i]),
    ensures
        decimal(digits.take(n)) <= decimal(digits),
    decreases digits.len(),
{
    if n == digits.len() {
        assert(digits.take(n) =~= digits);
    } else {
        lemma_decimal_prefix(digits.drop_last(), n);
        assert(digits.drop_last().take(n) =~= digits.take(n));
        assert(digit(digits[digits.len() - 1]));
    }
}

/// Reads an unsigned number.
pub fn parse_number(text: &str) -> (r: Option<u64>)
    ensures
        r == number(vstd::utf8::encode_utf8(text@)),
{
    let bytes: &[u8] = text.as_bytes();
    let start: usize = if bytes.len() > 0 && bytes[0] == 0x2b {
        1
    } else {
        0
    };
    let ghost digits = bytes@.skip(start as int);
    assert(start == 0 ==> digits =~= bytes@);
    if start == bytes.len() {
        return None;
    }
    let mut n: u64 = 0;
    let mut i: usize = start;
    while i < bytes.len()
        invariant
            start <= i <= bytes@.len(),
            start < bytes@.len(),
            digits == bytes@.skip(start as int),
            bytes@ == vstd::utf8::encode_utf8(text@),
            digits == unsigned(bytes@),
            n == decimal(digits.take(i - start)),
            forall|j: int| 0 <= j < i - start ==> digit(#[trigger] digits[j]),
        decreases bytes@.len() - i,
    {
        let b: u8 = bytes[i];
        assert(digits[i - start] == b);
        if b < 0x30 || b > 0x39 {
            return None;
        }
        let ghost next = digits.take(i - start + 1);
        assert(next.drop_last() =~= digits.take(i - start));
        let d: u64 = (b - 0x30) as u64;
        let tens: Option<u64> = n.checked_mul(10);
        let sum: Option<u64> = match tens {
            Some(t) => t.checked_add(d),
            None => None,
        };
        match sum {
            Some(s) => {
                n = s;
            },
            None => {
                proof {
                    if all_digits(digits) {
                        lemma_decimal_prefix(digits, i - start + 1);
                    }
                }
                return None;
            },
        }
        i += 1;
    }
    assert(digits.take(i - start) =~= digits);
    Some(n)
}

} // verus!
