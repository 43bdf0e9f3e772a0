//! Decimal notation: reading and writing integers in base ten.
//!
//! The reader accepts an optional sign followed by one or more ASCII digits and
//! nothing else. The writer produces the shortest such text, with a sign only
//! for negative numbers. Reading what the writer wrote gives the number back.

use crate::text::{all_plain, chars_of, lemma_plain_concat};
use vstd::prelude::*;

verus! {

/// Whether `c` is one of the ten ASCII digits.
pub open spec fn is_digit(c: char) -> bool {
    '0' <= c && c <= '9'
}

/// The number that the digit `c` stands for.
pub open spec fn digit_value(c: char) -> int {
    c as int - '0' as int
}

/// The digit that stands for `d`, for `d` below ten.
pub open spec fn digit_char(d: int) -> char {
    (d + 48) as u8 as char
}

/// Whether every character of `s` is a digit.
pub open spec fn all_digits(s: Seq<char>) -> bool {
    forall|i: int| 0 <= i < s.len() ==> is_digit(#[trigger] s[i])
}

/// The number that a run of digits denotes, most significant digit first.
pub open spec fn digits_value(s: Seq<char>) -> nat
    decreases s.len(),
{
    if s.len() == 0 {
        0
    } else {
        (digits_value(s.drop_last()) * 10 + digit_value(s.last())) as nat
    }
}

/// The number that `s` denotes when it is a non-empty run of digits.
pub open spec fn unsigned_decimal(s: Seq<char>) -> Option<int> {
    if s.len() > 0 && all_digits(s) {
        Some(digits_value(s) as int)
    } else {
        None
    }
}

/// The integer that `s` denotes: an optional `+` or `-`, then a non-empty run
/// of digits. Anything else, white space included, denotes nothing.
pub open spec fn signed_decimal(s: Seq<char>) -> Option<int> {
    if s.len() > 0 && s[0] == '-' {
        match unsigned_decimal(s.skip(1)) {
            Some(v) => Some(-v),
            None => None,
        }
    } else if s.len() > 0 && s[0] == '+' {
        unsigned_decimal(s.skip(1))
    } else {
        unsigned_decimal(s)
    }
}

/// The 64-bit signed integer that `s` denotes, if it denotes one that fits.
pub open spec fn i64_of_text(s: Seq<char>) -> Option<i64> {
    match signed_decimal(s) {
        Some(v) => if i64::MIN <= v <= i64::MAX {
            Some(v as i64)
        } else {
            None
        },
        None => None,
    }
}

/// The digits of `n`, most significant first, without leading zeros.
pub open spec fn nat_text(n: nat) -> Seq<char>
    decreases n,
{
    if n < 10 {
        seq![digit_char(n as int)]
    } else {
        nat_text(n / 10).push(digit_char(n as int % 10))
    }
}

/// The decimal text of `n`: its digits, after a `-` if it is negative.
pub open spec fn decimal_text(n: int) -> Seq<char> {
    if n < 0 {
        seq!['-'] + nat_text((-n) as nat)
    } else {
        nat_text(n as nat)
    }
}

/// Tells whether `c` is an ASCII digit.
pub fn char_is_digit(c: char) -> (b: bool)
    ensures
        b == is_digit(c),
{
    '0' <= c && c <= '9'
}

/// The number that the digit `c` stands for.
pub fn digit_of(c: char) -> (d: u8)
    requires
        is_digit(c),
    ensures
        d == digit_value(c),
        d <= 9,
{
    (c as u32 - '0' as u32) as u8
}

/// Ten to the power of `n`.
pub open spec fn pow10(n: nat) -> nat
    decreases n,
{
    if n == 0 {
        1
    } else {
        10 * pow10((n - 1) as nat)
    }
}

/// A run of `n` digits denotes a number below ten to the power of `n`.
pub proof fn lemma_digits_value_below(s: Seq<char>)
    requires
        all_digits(s),
    ensures
        digits_value(s) < pow10(s.len()),
    decreases s.len(),
{
    if s.len() > 0 {
        lemma_digits_value_below(s.drop_last());
    }
}

/// Appending a digit to a run multiplies its value by ten and adds the digit.
pub proof fn lemma_digits_value_push(s: Seq<char>, c: char)
    requires
        is_digit(c),
    ensures
        digits_value(s.push(c)) == digits_value(s) * 10 + digit_value(c),
{
    assert(s.push(c).drop_last() =~= s);
}

/// Reads a 64-bit signed integer in decimal notation.
///
/// Returns the number when `text` is an optional sign followed by digits only
/// and the number fits, and `None` for every other text.
pub fn parse_i64(text: &str) -> (value: Option<i64>)
    ensures
        value == i64_of_text(text@),
{
    let chars = chars_of(text);
    let n = chars.len();
    if n == 0 {
        return None;
    }
    let negative = chars[0] == '-';
    let start: usize = if negative || chars[0] == '+' {
        1
    } else {
        0
    };
    let ghost body = chars@.skip(start as int);
    assert(chars@.skip(0) =~= chars@);
    assert(signed_decimal(text@) == match unsigned_decimal(body) {
        Some(v) => Some(if negative { -v } else { v }),
        None => None,
    });
    if start == n {
        return None;
    }
    let mut magnitude: u64 = 0;
    let mut too_large = false;
    let mut i: usize = start;
    while i < n
        invariant
            start <= i <= n,
            n == chars.len(),
            body == chars@.skip(start as int),
            signed_decimal(text@) == match unsigned_decimal(body) {
                Some(v) => Some(if negative { -v } else { v }),
                None => None,
            },
            all_digits(body.take(i - start)),
            too_large ==> digits_value(body.take(i - start)) > 0x8000_0000_0000_0000,
            !too_large ==> magnitude == digits_value(body.take(i - start)),
            magnitude <= 0x8000_0000_0000_0000,
        decreases n - i,
    {
        let c = chars[i];
        if !char_is_digit(c) {
            assert(body[i - start] == c);
            return None;
        }
        let d: u64 = digit_of(c) as u64;
        proof {
            lemma_digits_value_push(body.take(i - start), c);
            assert(body.take(i - start).push(c) =~= body.take(i + 1 - start));
        }
        if !too_large {
            if magnitude > 922_337_203_685_477_580 || (magnitude == 922_337_203_685_477_580 && d
                > 8) {
                too_large = true;
            } else {
                magnitude = magnitude * 10 + d;
            }
        }
        i += 1;
    }
    assert(body.take(n - start) =~= body);
    if too_large {
        None
    } else if negative {
        if magnitude == 0x8000_0000_0000_0000 {
            Some(i64::MIN)
        } else {
            Some(-(magnitude as i64))
        }
    } else if magnitude > 0x7fff_ffff_ffff_ffff {
        None
    } else {
        Some(magnitude as i64)
    }
}

/// The one-character text of the digit `d`.
fn digit_str(d: u64) -> (s: &'static str)
    requires
        d < 10,
    ensures
        s@ == seq![digit_char(d as int)],
{
    proof {
        reveal_strlit("0");
        reveal_strlit("1");
        reveal_strlit("2");
        reveal_strlit("3");
        reveal_strlit("4");
        reveal_strlit("5");
        reveal_strlit("6");
        reveal_strlit("7");
        reveal_strlit("8");
        reveal_strlit("9");
    }
    let s = match d {
        0 => "0",
        1 => "1",
        2 => "2",
        3 => "3",
        4 => "4",
        5 => "5",
        6 => "6",
        7 => "7",
        8 => "8",
        _ => "9",
    };
    assert(s@ =~= seq![digit_char(d as int)]);
    s
}

/// Appends the digits of `n` to `out`.
pub fn append_nat(out: &mut String, n: u64)
    ensures
        final(out)@ == old(out)@ + nat_text(n as nat),
    decreases n,
{
    if n >= 10 {
        append_nat(out, n / 10);
    }
    out.append(digit_str(n % 10));
}

/// Writes `n` in decimal notation.
pub fn i64_to_text(n: i64) -> (text: String)
    ensures
        text@ == decimal_text(n as int),
{
    let mut text = String::new();
    if n < 0 {
        proof {
            reveal_strlit("-");
        }
        text.append("-");
        let magnitude: u64 = if n == i64::MIN {
            0x8000_0000_0000_0000
        } else {
            (-n) as u64
        };
        append_nat(&mut text, magnitude);
        assert(text@ =~= decimal_text(n as int));
    } else {
        append_nat(&mut text, n as u64);
        assert(text@ =~= decimal_text(n as int));
    }
    text
}

/// The digits of a number are a non-empty run of digits that denotes it.
pub proof fn lemma_nat_text_denotes(n: nat)
    ensures
        nat_text(n).len() > 0,
        all_digits(nat_text(n)),
        digits_value(nat_text(n)) == n,
    decreases n,
{
    if n < 10 {
        let c = digit_char(n as int);
        lemma_digits_value_push(Seq::empty(), c);
        assert(Seq::<char>::empty().push(c) =~= nat_text(n));
    } else {
        let c = digit_char(n as int % 10);
        lemma_nat_text_denotes(n / 10);
        lemma_digits_value_push(nat_text(n / 10), c);
    }
}

/// Reading the decimal text of an integer gives that integer back.
pub proof fn lemma_decimal_round_trip(n: int)
    ensures
        signed_decimal(decimal_text(n)) == Some(n),
{
    if n < 0 {
        lemma_nat_text_denotes((-n) as nat);
        assert(decimal_text(n).skip(1) =~= nat_text((-n) as nat));
    } else {
        lemma_nat_text_denotes(n as nat);
    }
}

/// The decimal text of an integer is plain.
pub proof fn lemma_decimal_text_plain(n: int)
    ensures
        all_plain(decimal_text(n)),
{
    if n < 0 {
        lemma_nat_text_denotes((-n) as nat);
        lemma_plain_concat(seq!['-'], nat_text((-n) as nat));
    } else {
        lemma_nat_text_denotes(n as nat);
    }
}

} // verus!
