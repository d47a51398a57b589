//! Decimal numerals: how an unsigned integer is written, and which texts are read as one.

use vstd::prelude::*;
use crate::text::chars_of;

verus! {

/// The character for a digit below ten.
pub open spec fn digit_char(digit: nat) -> char {
    (48 + digit) as char
}

/// Whether `c` is one of the ASCII digits.
pub open spec fn is_digit(c: char) -> bool {
    48 <= c as int <= 57
}

/// The value of an ASCII digit.
pub open spec fn digit_value(c: char) -> nat {
    (c as int - 48) as nat
}

/// Whether every character of `s` is an ASCII digit.
pub open spec fn all_digits(s: Seq<char>) -> bool {
    forall|i: int| 0 <= i < s.len() ==> is_digit(#[trigger] s[i])
}

/// The number that a sequence of digits stands for, the most significant first.
pub open spec fn digits_value(s: Seq<char>) -> nat
    decreases s.len(),
{
    if s.len() == 0 {
        0
    } else {
        digits_value(s.drop_last()) * 10 + digit_value(s.last())
    }
}

/// The decimal numeral of `n`, without leading zeros.
pub open spec fn decimal(n: nat) -> Seq<char>
    decreases n,
{
    if n < 10 {
        seq![digit_char(n)]
    } else {
        decimal(n / 10).push(digit_char(n % 10))
    }
}

/// The digits of a numeral, without the plus sign that it may start with.
pub open spec fn unsigned_part(s: Seq<char>) -> Seq<char> {
    if s.len() > 0 && s[0] == '+' {
        s.skip(1)
    } else {
        s
    }
}

/// Reads an unsigned 64-bit integer: an optional plus sign, then one or more ASCII digits, with a
/// value that fits.
pub open spec fn read_u64(s: Seq<char>) -> Option<u64> {
    let digits = unsigned_part(s);
    if digits.len() > 0 && all_digits(digits) && digits_value(digits) <= u64::MAX {
        Some(digits_value(digits) as u64)
    } else {
        None
    }
}

/// A numeral consists of digits, and stands for the number it was written for.
pub proof fn lemma_decimal_value(n: nat)
    ensures
        decimal(n).len() > 0,
        all_digits(decimal(n)),
        digits_value(decimal(n)) == n,
    decreases n,
{
    if n < 10 {
        assert(decimal(n).drop_last() =~= Seq::<char>::empty());
        assert(digits_value(Seq::<char>::empty()) == 0);
    } else {
        lemma_decimal_value(n / 10);
        assert(decimal(n).drop_last() =~= decimal(n / 10));
    }
}

/// Reading the numeral of a 64-bit integer gives that integer back.
pub proof fn lemma_decimal_round_trip(n: u64)
    ensures
        read_u64(decimal(n as nat)) == Some(n),
{
    lemma_decimal_value(n as nat);
    assert(is_digit(decimal(n as nat)[0]));
}

/// Further digits make a number no smaller.
proof fn lemma_prefix_value(s: Seq<char>, n: int)
    requires
        0 <= n <= s.len(),
    ensures
        digits_value(s.take(n)) <= digits_value(s),
    decreases s.len(),
{
    if n < s.len() {
        lemma_prefix_value(s.drop_last(), n);
        assert(s.drop_last().take(n) =~= s.take(n));
    } else {
        assert(s.take(n) =~= s);
    }
}

/// Appends the decimal numeral of `n`.
pub fn push_decimal(text: &mut String, n: u64)
    ensures
        final(text)@ == old(text)@ + decimal(n as nat),
    decreases n,
{
    if n >= 10 {
        push_decimal(text, n / 10);
    }
    let digit: u8 = (n % 10) as u8;
    text.push((48 + digit) as char);
    proof {
        if n >= 10 {
            assert(decimal(n as nat) == decimal((n / 10) as nat).push(digit_char((n % 10) as nat)));
        }
        assert(text@ =~= old(text)@ + decimal(n as nat));
    }
}

/// Reads an unsigned 64-bit integer as `str::parse` does.
pub fn parse_u64(text: &str) -> (result: Option<u64>)
    ensures
        result == read_u64(text@),
{
    let chars = chars_of(text);
    let start: usize = if chars.len() > 0 && chars[0] == '+' {
        1
    } else {
        0
    };
    let ghost digits = unsigned_part(text@);
    assert(digits =~= text@.skip(start as int));
    if start == chars.len() {
        return None;
    }
    let mut value: u64 = 0;
    let mut i: usize = start;
    assert(digits.take(0) =~= Seq::<char>::empty());
    while i < chars.len()
        invariant
            chars@ == text@,
            digits == unsigned_part(text@),
            digits == text@.skip(start as int),
            start <= i <= chars@.len(),
            all_digits(digits.take(i - start)),
            value == digits_value(digits.take(i - start)),
        decreases chars@.len() - i,
    {
        let c: char = chars[i];
        let ghost done = digits.take(i - start);
        let ghost more = digits.take(i - start + 1);
        assert(digits[i - start] == c);
        if c < '0' || c > '9' {
            assert(!is_digit(digits[i - start]));
            return None;
        }
        let digit: u64 = (c as u32 - '0' as u32) as u64;
        proof {
            assert(more.drop_last() =~= done);
            lemma_prefix_value(digits, i - start + 1);
        }
        if value > (u64::MAX - digit) / 10 {
            assert(value * 10 + digit > u64::MAX);
            return None;
        }
        value = value * 10 + digit;
        assert forall|j: int| 0 <= j < more.len() implies is_digit(#[trigger] more[j]) by {
            if j < done.len() {
                assert(is_digit(done[j]));
            }
        }
        i = i + 1;
    }
    assert(digits.take(digits.len() as int) =~= digits);
    Some(value)
}

/// The character for a hexadecimal digit, in lower case.
pub open spec fn hex_digit_char(digit: nat) -> char {
    if digit < 10 {
        digit_char(digit)
    } else {
        (87 + digit) as char
    }
}

/// The hexadecimal numeral of `n`, without leading zeros.
pub open spec fn hexadecimal(n: nat) -> Seq<char>
    decreases n,
{
    if n < 16 {
        seq![hex_digit_char(n)]
    } else {
        hexadecimal(n / 16).push(hex_digit_char(n % 16))
    }
}

/// Appends the hexadecimal numeral of `n`.
pub fn push_hexadecimal(text: &mut String, n: u32)
    ensures
        final(text)@ == old(text)@ + hexadecimal(n as nat),
    decreases n,
{
    if n >= 16 {
        push_hexadecimal(text, n / 16);
    }
    let digit: u8 = (n % 16) as u8;
    if digit < 10 {
        text.push((48 + digit) as char);
    } else {
        text.push((87 + digit) as char);
    }
    proof {
        if n >= 16 {
            assert(hexadecimal(n as nat) == hexadecimal((n / 16) as nat).push(
                hex_digit_char((n % 16) as nat),
            ));
        }
        assert(text@ =~= old(text)@ + hexadecimal(n as nat));
    }
}

/// The value of digits: each further digit makes ten times the value before, and its own on top.
pub proof fn law_digits_value(s: Seq<char>, digit: char)
    requires
        48 <= digit as int <= 57,
    ensures
        digits_value(Seq::empty()) == 0,
        digits_value(s.push(digit)) == digits_value(s) * 10 + (digit as int - 48),
{
    assert(s.push(digit).drop_last() =~= s);
}

/// A numeral consists of digits, has the value of the number it was written for, and starts with a
/// zero only if the number is zero.
pub proof fn law_decimal(n: nat)
    ensures
        decimal(n).len() > 0,
        forall|i: int| 0 <= i < decimal(n).len() ==> 48 <= (#[trigger] decimal(n)[i]) as int <= 57,
        digits_value(decimal(n)) == n,
        decimal(n)[0] == '0' ==> n == 0,
        n < 10 ==> decimal(n).len() == 1,
    decreases n,
{
    lemma_decimal_value(n);
    assert forall|i: int| 0 <= i < decimal(n).len() implies 48 <= (#[trigger] decimal(n)[i]) as int
        <= 57 by {
        assert(is_digit(decimal(n)[i]));
    }
    if n >= 10 {
        law_decimal(n / 10);
        assert(decimal(n)[0] == decimal(n / 10)[0]);
    }
}

/// An unsigned integer is read just from a text that is an optional plus sign and then digits, at least
/// one, and has their value.
pub proof fn law_read_u64(text: Seq<char>, n: u64)
    ensures
        text.len() > 0 && text[0] == '+' ==> (read_u64(text) == Some(n) <==> {
            &&& text.len() > 1
            &&& forall|i: int| 1 <= i < text.len() ==> 48 <= (#[trigger] text[i]) as int <= 57
            &&& digits_value(text.skip(1)) == n
        }),
        text.len() == 0 || text[0] != '+' ==> (read_u64(text) == Some(n) <==> {
            &&& text.len() > 0
            &&& forall|i: int| 0 <= i < text.len() ==> 48 <= (#[trigger] text[i]) as int <= 57
            &&& digits_value(text) == n
        }),
{
    let digits = unsigned_part(text);
    if digits_value(digits) <= u64::MAX {
        assert((digits_value(digits) as u64) as nat == digits_value(digits));
    }
    if text.len() > 0 && text[0] == '+' {
        if all_digits(digits) {
            assert forall|i: int| 1 <= i < text.len() implies 48 <= (#[trigger] text[i]) as int
                <= 57 by {
                assert(is_digit(digits[i - 1]));
            }
        }
        if forall|i: int| 1 <= i < text.len() ==> 48 <= (#[trigger] text[i]) as int <= 57 {
            assert forall|i: int| 0 <= i < digits.len() implies is_digit(#[trigger] digits[i]) by {
                assert(digits[i] == text[i + 1]);
            }
        }
    }
}

} // verus!
