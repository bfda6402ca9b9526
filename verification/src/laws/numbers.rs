//! Numbers: times as the values that their bit patterns stand for, and settings
//! as they are spelled.

use vstd::prelude::*;
use crate::seconds::Seconds;

verus! {

/// The absolute value of a finite double in units of its smallest step, from its
/// exponent and fraction fields.
pub open spec fn magnitude(exponent: int, fraction: int) -> int {
    if exponent == 0 {
        fraction
    } else {
        (4503599627370496 + fraction) * vstd::arithmetic::power2::pow2((exponent - 1) as nat)
    }
}

/// The value of a finite double in units of its smallest step.
pub open spec fn value(negative: bool, exponent: int, fraction: int) -> int {
    if negative {
        -magnitude(exponent, fraction)
    } else {
        magnitude(exponent, fraction)
    }
}

/// Whether a time has a sign, an exponent and a fraction field.
pub open spec fn has_fields(t: Seconds, negative: bool, exponent: int, fraction: int) -> bool {
    &&& 0 <= exponent < 2048
    &&& 0 <= fraction < 4503599627370496
    &&& t.bits == (if negative {
        9223372036854775808int
    } else {
        0
    }) + exponent * 4503599627370496 + fraction
}

/// Larger exponents, and larger fractions of one exponent, stand for larger
/// magnitudes.
proof fn lemma_magnitudes_increase(e1: int, f1: int, e2: int, f2: int)
    requires
        0 <= e1 < 2048,
        0 <= e2 < 2048,
        0 <= f1 < 4503599627370496,
        0 <= f2 < 4503599627370496,
        e1 < e2 || (e1 == e2 && f1 < f2),
    ensures
        0 <= magnitude(e1, f1) < magnitude(e2, f2),
{
    let one: int = 4503599627370496;
    if e2 > 0 {
        let p2 = vstd::arithmetic::power2::pow2((e2 - 1) as nat) as int;
        vstd::arithmetic::power2::lemma_pow2_pos((e2 - 1) as nat);
        assert((one + f2) * p2 >= one * p2 && one * p2 >= one) by (nonlinear_arith)
            requires
                p2 >= 1,
                f2 >= 0,
                one > 0,
        ;
        if e1 > 0 {
            let p1 = vstd::arithmetic::power2::pow2((e1 - 1) as nat) as int;
            vstd::arithmetic::power2::lemma_pow2_pos((e1 - 1) as nat);
            if e1 == e2 {
                assert(0 <= (one + f1) * p1 < (one + f2) * p1) by (nonlinear_arith)
                    requires
                        p1 >= 1,
                        0 <= f1 < f2,
                        one > 0,
                ;
            } else {
                vstd::arithmetic::power2::lemma_pow2_unfold(e1 as nat);
                if e1 < e2 - 1 {
                    vstd::arithmetic::power2::lemma_pow2_strictly_increases(
                        e1 as nat,
                        (e2 - 1) as nat,
                    );
                }
                assert(0 <= (one + f1) * p1 < one * (2 * p1)) by (nonlinear_arith)
                    requires
                        p1 >= 1,
                        0 <= f1 < one,
                ;
                assert(one * (2 * p1) <= one * p2) by (nonlinear_arith)
                    requires
                        2 * p1 <= p2,
                        one > 0,
                ;
            }
        }
    }
}

/// Times compare as the numbers that they stand for. Their total order is that of
/// the numbers, too, with the negative zero before the positive one.
pub proof fn law_times_compare_as_values(
    a: Seconds,
    a_negative: bool,
    a_exponent: int,
    a_fraction: int,
    b: Seconds,
    b_negative: bool,
    b_exponent: int,
    b_fraction: int,
)
    requires
        has_fields(a, a_negative, a_exponent, a_fraction),
        has_fields(b, b_negative, b_exponent, b_fraction),
        a_exponent < 2047,
        b_exponent < 2047,
    ensures
        a.at_most(b) <==> value(a_negative, a_exponent, a_fraction) <= value(
            b_negative,
            b_exponent,
            b_fraction,
        ),
        value(a_negative, a_exponent, a_fraction) < value(b_negative, b_exponent, b_fraction)
            ==> a.rank() < b.rank(),
        a.rank() < b.rank() ==> value(a_negative, a_exponent, a_fraction) <= value(
            b_negative,
            b_exponent,
            b_fraction,
        ),
        a.rank() == b.rank() <==> a == b,
        value(a_negative, a_exponent, a_fraction) == 0 && value(b_negative, b_exponent, b_fraction)
            == 0 && a_negative && !b_negative ==> a.rank() < b.rank(),
{
    let am = magnitude(a_exponent, a_fraction);
    let bm = magnitude(b_exponent, b_fraction);
    if a_exponent > 0 || a_fraction > 0 {
        lemma_magnitudes_increase(0, 0, a_exponent, a_fraction);
    }
    if b_exponent > 0 || b_fraction > 0 {
        lemma_magnitudes_increase(0, 0, b_exponent, b_fraction);
    }
    if a_exponent < b_exponent || (a_exponent == b_exponent && a_fraction < b_fraction) {
        lemma_magnitudes_increase(a_exponent, a_fraction, b_exponent, b_fraction);
    } else if b_exponent < a_exponent || b_fraction < a_fraction {
        lemma_magnitudes_increase(b_exponent, b_fraction, a_exponent, a_fraction);
    }
}

/// Exponents below the highest make numbers; the highest makes infinity with a
/// zero fraction, and no number at all with any other.
pub proof fn law_times_by_their_fields(t: Seconds, negative: bool, exponent: int, fraction: int)
    requires
        has_fields(t, negative, exponent, fraction),
    ensures
        t.finite() <==> exponent < 2047,
        t.nan() <==> exponent == 2047 && fraction > 0,
        t.zero() <==> exponent == 0 && fraction == 0,
{
}

/// Infinity lies at or behind every time that is a number, and no comparison
/// holds with what is no number.
pub proof fn law_infinity_lies_behind(t: Seconds, other: Seconds)
    requires
        other.bits == 0x7ff0_0000_0000_0000,
    ensures
        t.finite() ==> t.at_most(other) && !other.at_most(t),
        t.bits % 0x8000_0000_0000_0000 > 0x7ff0_0000_0000_0000 ==> !t.at_most(other)
            && !other.at_most(t) && !t.at_most(t),
{
}

/// Clamping leaves positive times as they are, infinity included, and makes zero
/// of all others.
pub proof fn law_clamping_keeps_positive_times(t: Seconds)
    ensures
        0 < t.bits <= 0x7ff0_0000_0000_0000 ==> t.clamped() == t,
        t.bits == 0 || t.bits > 0x7ff0_0000_0000_0000 ==> t.clamped().bits == 0,
{
}

/// A single digit is the number that it stands for, and no other single byte is
/// a number.
pub proof fn law_digits_are_numbers(b: u8)
    ensures
        crate::text::number(seq![b]) == (if 48 <= b <= 57 {
            Some((b - 48) as u64)
        } else {
            None
        }),
        crate::text::number(seq![]) is None,
        crate::text::number(seq![43u8, b]) == (if 48 <= b <= 57 {
            Some((b - 48) as u64)
        } else {
            None
        }),
{
    reveal_with_fuel(crate::text::decimal, 3);
    assert(seq![b].drop_last() =~= seq![]);
    assert(seq![43u8, b].skip(1) =~= seq![b]);
    assert(seq![43u8].skip(1) =~= seq![]);
    assert(!(48 <= b <= 57) ==> !crate::text::digit(seq![b][0]));
    if b == 43 {
        assert(seq![b].skip(1) =~= seq![]);
    }
}

/// One more digit makes ten times the number and the digit, as far as 64 bits go.
/// Behind what is no number, or by what is no digit, no number is made.
pub proof fn law_digits_append(text: Seq<u8>, b: u8)
    requires
        text.len() > 0,
        text != seq![43u8],
    ensures
        crate::text::number(text.push(b)) == (match crate::text::number(text) {
            Some(n) => if 48 <= b <= 57 && n * 10 + (b - 48) <= 18446744073709551615 {
                Some((n * 10 + (b - 48)) as u64)
            } else {
                None
            },
            None => None,
        }),
{
    let d = crate::text::unsigned(text);
    let more = crate::text::unsigned(text.push(b));
    assert(text[0] == 43 ==> text.push(b).skip(1) =~= text.skip(1).push(b));
    assert(more == d.push(b));
    assert(more.drop_last() =~= d);
    assert(d.len() > 0) by {
        if text[0] == 43 && text.len() == 1 {
            assert(text =~= seq![43u8]);
        }
    }
    assert(crate::text::all_digits(more) ==> crate::text::all_digits(d) && crate::text::digit(b))
        by {
        if crate::text::all_digits(more) {
            assert forall|i: int| 0 <= i < d.len() implies crate::text::digit(#[trigger] d[i]) by {
                assert(crate::text::digit(more[i]));
            }
            assert(crate::text::digit(more[d.len() as int]));
        }
    }
    assert(crate::text::all_digits(d) && crate::text::digit(b) ==> crate::text::all_digits(more));
    assert(crate::text::decimal(more) == crate::text::decimal(d) * 10 + (b - 48) as nat || !(48 <= b
        <= 57));
}

/// The ceiling is the number of the setting where it is positive, and 720 else.
pub proof fn law_ceiling_by_setting(setting: Option<Seq<char>>, n: u64)
    ensures
        crate::select::ceiling(None) == 720,
        setting matches Some(text) && crate::text::number(vstd::utf8::encode_utf8(text)) == Some(n)
            && n > 0 ==> crate::select::ceiling(setting) == n,
        setting matches Some(text) && crate::text::number(vstd::utf8::encode_utf8(text)) == Some(
            0u64,
        ) ==> crate::select::ceiling(setting) == 720,
        setting matches Some(text) && crate::text::number(vstd::utf8::encode_utf8(text)) is None
            ==> crate::select::ceiling(setting) == 720,
{
}

} // verus!
