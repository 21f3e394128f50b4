//! Numbers written in digits.
use crate::text::chars_of;
use vstd::arithmetic::div_mod::{lemma_breakdown, lemma_small_mod};
use vstd::arithmetic::power::{lemma_pow0, lemma_pow1, lemma_pow_adds, lemma_pow_positive, pow};
use vstd::prelude::*;
use vstd::string::*;

verus! {

/// The value of a digit in the given radix.
pub open spec fn digit_value(c: char, radix: nat) -> Option<nat> {
    let value = if '0' <= c <= '9' {
        c as nat - '0' as nat
    } else if 'a' <= c <= 'z' {
        10 + (c as nat - 'a' as nat)
    } else if 'A' <= c <= 'Z' {
        10 + (c as nat - 'A' as nat)
    } else {
        radix as int
    };
    if value < radix {
        Some(value as nat)
    } else {
        None
    }
}

/// The number that `acc`, read already, and the digits in `text` make; `None` where a character
/// is no digit.
pub open spec fn digits_from(acc: nat, text: Seq<char>, radix: nat) -> Option<nat>
    decreases text.len(),
{
    if text.len() == 0 {
        Some(acc)
    } else {
        match digit_value(text[0], radix) {
            Some(digit) => digits_from(acc * radix + digit, text.skip(1), radix),
            None => None,
        }
    }
}

/// The number that a text spells: an optional `+`, then at least one digit, with a value of at
/// most `max`.
pub open spec fn number_spelled(text: Seq<char>, radix: nat, max: nat) -> Option<nat> {
    let digits = if text.len() > 0 && text[0] == '+' {
        text.skip(1)
    } else {
        text
    };
    if digits.len() == 0 {
        None
    } else {
        match digits_from(0, digits, radix) {
            Some(value) => if value <= max {
                Some(value)
            } else {
                None
            },
            None => None,
        }
    }
}

proof fn lemma_digits_grow(acc: nat, text: Seq<char>, radix: nat)
    requires
        radix >= 1,
    ensures
        digits_from(acc, text, radix) matches Some(value) ==> value >= acc,
    decreases text.len(),
{
    if text.len() > 0 {
        match digit_value(text[0], radix) {
            Some(digit) => {
                lemma_digits_grow(acc * radix + digit, text.skip(1), radix);
                assert(acc * radix >= acc) by (nonlinear_arith)
                    requires
                        radix >= 1,
                ;
            },
            None => {},
        }
    }
}

fn read_digit(c: char, radix: u64) -> (digit: Option<u64>)
    requires
        2 <= radix <= 36,
    ensures
        match digit {
            Some(digit) => digit_value(c, radix as nat) == Some(digit as nat),
            None => digit_value(c, radix as nat) is None,
        },
{
    let value: u64 = if '0' <= c && c <= '9' {
        (c as u32 - '0' as u32) as u64
    } else if 'a' <= c && c <= 'z' {
        10 + (c as u32 - 'a' as u32) as u64
    } else if 'A' <= c && c <= 'Z' {
        10 + (c as u32 - 'A' as u32) as u64
    } else {
        radix
    };
    if value < radix {
        Some(value)
    } else {
        None
    }
}

/// The number that a text spells in the given radix, where it is at most `max`.
pub fn read_number(text: &str, radix: u64, max: u64) -> (number: Option<u64>)
    requires
        2 <= radix <= 36,
    ensures
        match number {
            Some(number) => number_spelled(text@, radix as nat, max as nat) == Some(number as nat),
            None => number_spelled(text@, radix as nat, max as nat) is None,
        },
{
    let chars = chars_of(text);
    let mut i: usize = 0;
    if chars.len() > 0 && chars[0] == '+' {
        i = 1;
    }
    if i == chars.len() {
        return None;
    }
    let mut value: u64 = 0;
    let ghost digits = chars@.skip(i as int);
    proof {
        assert(chars@.skip(0) =~= chars@);
    }
    while i < chars.len()
        invariant
            2 <= radix <= 36,
            i <= chars@.len(),
            value <= max,
            digits_from(0, digits, radix as nat) == digits_from(
                value as nat,
                chars@.skip(i as int),
                radix as nat,
            ),
            digits.len() > 0,
            digits == (if text@.len() > 0 && text@[0] == '+' {
                text@.skip(1)
            } else {
                text@
            }),
        decreases chars@.len() - i,
    {
        proof {
            assert(chars@.skip(i as int).skip(1) =~= chars@.skip(i + 1));
        }
        match read_digit(chars[i], radix) {
            Some(digit) => {
                proof {
                    assert(value * radix <= 0xffff_ffff_ffff_ffff * 36) by (nonlinear_arith)
                        requires
                            value <= 0xffff_ffff_ffff_ffff,
                            radix <= 36,
                    ;
                }
                let wide: u128 = value as u128 * radix as u128 + digit as u128;
                if wide > max as u128 {
                    proof {
                        lemma_digits_grow(wide as nat, chars@.skip(i + 1), radix as nat);
                    }
                    return None;
                }
                value = wide as u64;
            },
            None => {
                return None;
            },
        }
        i = i + 1;
    }
    Some(value)
}

/// The digit with the given value below sixteen.
pub open spec fn digit_char(digit: nat) -> char {
    if digit < 10 {
        ('0' as nat + digit) as char
    } else {
        ('a' as nat + (digit - 10)) as char
    }
}

/// The last `width` hexadecimal digits of a number.
pub open spec fn hex_text(value: nat, width: nat) -> Seq<char>
    decreases width,
{
    if width == 0 {
        seq![]
    } else {
        hex_text(value / 16, (width - 1) as nat).push(digit_char(value % 16))
    }
}

/// A number in decimal.
pub open spec fn decimal_text(value: nat) -> Seq<char>
    decreases value,
{
    if value < 10 {
        seq![digit_char(value)]
    } else {
        decimal_text(value / 10).push(digit_char(value % 10))
    }
}

proof fn lemma_digit_injective(digit: nat, other: nat)
    requires
        digit < 16,
        other < 16,
        digit_char(digit) == digit_char(other),
    ensures
        digit == other,
{
}

/// Different numbers are written differently.
pub proof fn lemma_decimal_injective(value: nat, other: nat)
    requires
        decimal_text(value) == decimal_text(other),
    ensures
        value == other,
    decreases value,
{
    let left = decimal_text(value);
    let right = decimal_text(other);
    assert(left.last() == digit_char(value % 10));
    assert(right.last() == digit_char(other % 10));
    lemma_digit_injective(value % 10, other % 10);
    if value >= 10 && other >= 10 {
        assert(left.drop_last() =~= decimal_text(value / 10));
        assert(right.drop_last() =~= decimal_text(other / 10));
        lemma_decimal_injective(value / 10, other / 10);
    } else if value >= 10 {
        lemma_decimal_nonempty(value / 10);
    } else if other >= 10 {
        lemma_decimal_nonempty(other / 10);
    }
}

proof fn lemma_decimal_nonempty(value: nat)
    ensures
        decimal_text(value).len() > 0,
{
}

/// Reading the hexadecimal digits of a number gives the number back.
pub proof fn lemma_hex_spelled(value: u64)
    ensures
        number_spelled(hex_text(value as nat, 16), 16, u64::MAX as nat) == Some(value as nat),
{
    let text = hex_text(value as nat, 16);
    lemma_hex_digits(0, value as nat, 16, seq![]);
    assert(text + seq![] =~= text);
    lemma_hex_len(value as nat, 16);
    lemma_hex_first(value as nat, 16);
    let scale = pow(16, 16);
    assert(scale == 0x1_0000_0000_0000_0000) by {
        reveal_with_fuel(pow, 17);
    }
    lemma_small_mod(value as nat, scale as nat);
    assert(0 * scale == 0) by (nonlinear_arith);
}

proof fn lemma_hex_len(value: nat, width: nat)
    ensures
        hex_text(value, width).len() == width,
    decreases width,
{
    if width > 0 {
        lemma_hex_len(value / 16, (width - 1) as nat);
    }
}

proof fn lemma_hex_first(value: nat, width: nat)
    requires
        width > 0,
    ensures
        hex_text(value, width)[0] != '+',
    decreases width,
{
    lemma_hex_len(value / 16, (width - 1) as nat);
    if width > 1 {
        lemma_hex_first(value / 16, (width - 1) as nat);
    }
}

/// After `width` hexadecimal digits of `value`, the number read is that many places up, with
/// the last `width` digits of `value` behind it.
proof fn lemma_hex_digits(acc: nat, value: nat, width: nat, rest: Seq<char>)
    ensures
        digits_from(acc, hex_text(value, width) + rest, 16) == digits_from(
            (acc * pow(16, width) + value % (pow(
                16,
                width,
            ) as nat)) as nat,
            rest,
            16,
        ),
    decreases width,
{
    broadcast use lemma_pow_positive;

    let scale = pow(16, width) as nat;
    if width == 0 {
        lemma_pow0(16);
        assert(hex_text(value, width) + rest =~= rest);
        assert(acc * 1 + value % 1 == acc) by (nonlinear_arith);
    } else {
        let less = (width - 1) as nat;
        let part = pow(16, less) as nat;
        lemma_pow1(16);
        lemma_pow_adds(16, 1, less);
        assert(scale == 16 * part);
        let digit = digit_char(value % 16);
        let high = hex_text(value / 16, less);
        assert(hex_text(value, width) + rest =~= high + (seq![digit] + rest));
        lemma_hex_digits(acc, value / 16, less, seq![digit] + rest);
        let read = (acc * part + (value / 16) % part) as nat;
        assert((seq![digit] + rest).skip(1) =~= rest);
        assert(digit_value(digit, 16) == Some(value % 16));
        assert(value % (16 * part) == 16 * ((value / 16) % part) + value % 16) by {
            lemma_breakdown(value as int, 16, part as int);
        }
        assert(acc * scale == 16 * (acc * part)) by (nonlinear_arith)
            requires
                scale == 16 * part,
        ;
        assert(read * 16 + value % 16 == acc * scale + value % scale);
    }
}

fn push_digit(text: &mut String, digit: u64)
    requires
        digit < 16,
    ensures
        final(text)@ == old(text)@.push(digit_char(digit as nat)),
{
    proof {
        reveal_strlit("0");
        reveal_strlit("1");
        reveal_strlit("2");
        reveal_strlit("3");
        reveal_strlit("4");
        reveal_strlit("5");
        reveal_strlit("6");
        reveal_strlit("7");
        reveal_strlit("8");
        reveal_strlit("9");
        reveal_strlit("a");
        reveal_strlit("b");
        reveal_strlit("c");
        reveal_strlit("d");
        reveal_strlit("e");
        reveal_strlit("f");
    }
    let written: &str = match digit {
        0 => "0",
        1 => "1",
        2 => "2",
        3 => "3",
        4 => "4",
        5 => "5",
        6 => "6",
        7 => "7",
        8 => "8",
        9 => "9",
        10 => "a",
        11 => "b",
        12 => "c",
        13 => "d",
        14 => "e",
        _ => "f",
    };
    proof {
        assert(written@ =~= seq![digit_char(digit as nat)]);
    }
    text.append(written);
}

/// Appends the last `width` hexadecimal digits of a number.
pub fn push_hex(text: &mut String, value: u64, width: u32)
    ensures
        final(text)@ == old(text)@ + hex_text(value as nat, width as nat),
    decreases width,
{
    if width > 0 {
        push_hex(text, value / 16, width - 1);
        push_digit(text, value % 16);
    }
}

/// Appends a number in decimal.
pub fn push_decimal(text: &mut String, value: u64)
    ensures
        final(text)@ == old(text)@ + decimal_text(value as nat),
    decreases value,
{
    if value >= 10 {
        push_decimal(text, value / 10);
    }
    push_digit(text, value % 10);
}

} // verus!
