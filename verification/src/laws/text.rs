//! Laws on text and on numbers written in digits.
use crate::text::numbers::{decimal_text, digit_char, digit_value, digits_from, number_spelled};
use crate::text::{
    ascii_lower, ascii_lowered, bytes_before, is_white_space, lossy_text, lower_text, lowercased,
    text_before, text_of_bytes, trimmed, trimmed_end, trimmed_start,
};
use vstd::prelude::*;
use vstd::utf8::{decode_utf8, encode_utf8, is_ascii_chars, valid_utf8};

verus! {

/// The first byte in which two byte strings differ decides their order, and a byte string stands
/// before the longer ones that it starts.
pub proof fn law_first_difference_decides(
    same: Seq<u8>,
    left: Seq<u8>,
    right: Seq<u8>,
)
    requires
        left.len() == 0 || right.len() == 0 || left[0] != right[0],
    ensures
        bytes_before(same + left, same + right) == (right.len() > 0 && (left.len() == 0 || left[0]
            < right[0])),
    decreases same.len(),
{
    if same.len() == 0 {
        assert(same + left =~= left);
        assert(same + right =~= right);
    } else {
        assert((same + left).skip(1) =~= same.skip(1) + left);
        assert((same + right).skip(1) =~= same.skip(1) + right);
        law_first_difference_decides(same.skip(1), left, right);
    }
}

/// In lowercase, ASCII text has small letters in place of capitals and is else the same.
pub proof fn law_lower_text(text: Seq<char>)
    ensures
        is_ascii_chars(text) ==> lower_text(text).len() == text.len() && forall|i: int|
            0 <= i < text.len() ==> lower_text(text)[i] == ascii_lower(#[trigger] text[i]),
        !is_ascii_chars(text) ==> lower_text(text) == lowercased(text),
{
}

/// Well-formed bytes stand for the text that they encode.
pub proof fn law_text_of_bytes(bytes: Seq<u8>)
    ensures
        valid_utf8(bytes) ==> text_of_bytes(bytes) == decode_utf8(bytes),
        !valid_utf8(bytes) ==> text_of_bytes(bytes) == lossy_text(bytes),
{
}

/// The digits are those of ASCII, the letters counting on from ten in either case.
pub proof fn law_digits(c: char, radix: nat)
    requires
        2 <= radix <= 36,
    ensures
        '0' <= c <= '9' ==> digit_value(c, radix) == (if c as int - '0' as int >= radix {
            None
        } else {
            Some((c as int - '0' as int) as nat)
        }),
        'a' <= c <= 'z' ==> digit_value(c, radix) == (if 10 + c as int - 'a' as int >= radix {
            None
        } else {
            Some((10 + c as int - 'a' as int) as nat)
        }),
        'A' <= c <= 'Z' ==> digit_value(c, radix) == (if 10 + c as int - 'A' as int >= radix {
            None
        } else {
            Some((10 + c as int - 'A' as int) as nat)
        }),
        !('0' <= c <= '9') && !('a' <= c <= 'z') && !('A' <= c <= 'Z') ==> digit_value(
            c,
            radix,
        ) is None,
{
}

proof fn lemma_digits_pushed(acc: nat, text: Seq<char>, c: char, radix: nat)
    ensures
        digits_from(acc, text.push(c), radix) == (match (
            digits_from(acc, text, radix),
            digit_value(c, radix),
        ) {
            (Some(value), Some(digit)) => Some(value * radix + digit),
            _ => None,
        }),
    decreases text.len(),
{
    let all = text.push(c);
    if text.len() == 0 {
        assert(all.skip(1) =~= seq![]);
        match digit_value(c, radix) {
            Some(digit) => {
                assert(digits_from(acc * radix + digit, all.skip(1), radix) == Some(
                    acc * radix + digit,
                ));
            },
            None => {},
        }
    } else {
        assert(all.skip(1) =~= text.skip(1).push(c));
        match digit_value(text[0], radix) {
            Some(digit) => lemma_digits_pushed(acc * radix + digit, text.skip(1), c, radix),
            None => {},
        }
    }
}

/// A text spells a number digit by digit: one more digit multiplies by the radix and adds the
/// digit, as long as the bound is kept. A `+` may stand in front.
pub proof fn law_number_is_spelled(text: Seq<char>, c: char, radix: nat, max: nat)
    requires
        2 <= radix <= 36,
        radix <= max,
    ensures
        number_spelled(seq![], radix, max) is None,
        number_spelled(seq![c], radix, max) == digit_value(c, radix),
        text.len() > 0 && text[0] != '+' ==> number_spelled(text.push(c), radix, max) == (match (
            number_spelled(text, radix, max),
            digit_value(c, radix),
        ) {
            (Some(value), Some(digit)) => if value * radix + digit <= max {
                Some((value * radix + digit) as nat)
            } else {
                None
            },
            _ => None,
        }),
        text.len() > 0 && text[0] != '+' ==> number_spelled(seq!['+'] + text, radix, max)
            == number_spelled(text, radix, max),
{
    let one = seq![c];
    assert(one.skip(1) =~= seq![]);
    reveal_with_fuel(digits_from, 2);
    assert(0 * radix == 0) by (nonlinear_arith);
    if text.len() > 0 && text[0] != '+' {
        lemma_digits_pushed(0, text, c, radix);
        assert(text.push(c)[0] == text[0]);
        match digits_from(0, text, radix) {
            Some(value) => {
                assert(value * radix >= value) by (nonlinear_arith)
                    requires
                        radix >= 2,
                ;
            },
            None => {},
        }
        assert((seq!['+'] + text).skip(1) =~= text);
    }
}

/// A number that is written in decimal is read back, where the bound allows it.
pub proof fn law_decimal_round_trip(value: nat, max: nat)
    requires
        10 <= max,
    ensures
        number_spelled(decimal_text(value), 10, max) == (if value <= max {
            Some(value)
        } else {
            None
        }),
{
    lemma_decimal_digits(value);
}

proof fn lemma_decimal_digits(value: nat)
    ensures
        decimal_text(value).len() > 0,
        decimal_text(value)[0] != '+',
        digits_from(0, decimal_text(value), 10) == Some(value),
    decreases value,
{
    reveal_with_fuel(digits_from, 2);
    if value < 10 {
        assert(decimal_text(value).skip(1) =~= seq![]);
    } else {
        lemma_decimal_digits(value / 10);
        lemma_digits_pushed(
            0,
            decimal_text(value / 10),
            digit_char(value % 10),
            10,
        );
    }
}

/// Small letters stand in place of the ASCII capitals, and every other character stays.
pub proof fn law_ascii_lowered(text: Seq<char>, i: int)
    requires
        0 <= i < text.len(),
    ensures
        ascii_lowered(text).len() == text.len(),
        'A' <= text[i] <= 'Z' ==> ascii_lowered(text)[i] as int - 'a' as int == text[i] as int
            - 'A' as int,
        text[i] < 'A' || text[i] > 'Z' ==> ascii_lowered(text)[i] == text[i],
{
}

/// Texts are in the order of their UTF-8 encodings.
pub proof fn law_text_order(left: Seq<char>, right: Seq<char>)
    ensures
        text_before(left, right) <==> bytes_before(encode_utf8(left), encode_utf8(right)),
{
}

/// Whether a text is all white space.
pub open spec fn is_space(text: Seq<char>) -> bool {
    forall|i: int| 0 <= i < text.len() ==> is_white_space(#[trigger] text[i])
}

proof fn lemma_trimmed_start(space: Seq<char>, inner: Seq<char>)
    requires
        is_space(space),
        inner.len() == 0 || !is_white_space(inner[0]),
    ensures
        trimmed_start(space + inner) == inner,
    decreases space.len(),
{
    let text = space + inner;
    if space.len() == 0 {
        assert(text =~= inner);
    } else {
        assert(text[0] == space[0]);
        assert(text.skip(1) =~= space.skip(1) + inner);
        assert forall|i: int| 0 <= i < space.skip(1).len() implies is_white_space(
            #[trigger] space.skip(1)[i],
        ) by {
            assert(is_white_space(space[i + 1]));
        }
        lemma_trimmed_start(space.skip(1), inner);
    }
}

proof fn lemma_trimmed_end(inner: Seq<char>, space: Seq<char>)
    requires
        is_space(space),
        inner.len() == 0 || !is_white_space(inner.last()),
    ensures
        trimmed_end(inner + space) == inner,
    decreases space.len(),
{
    let text = inner + space;
    if space.len() == 0 {
        assert(text =~= inner);
    } else {
        assert(text.last() == space[space.len() - 1]);
        assert(text.drop_last() =~= inner + space.drop_last());
        assert(is_space(space.drop_last())) by {
            assert forall|i: int| 0 <= i < space.drop_last().len() implies is_white_space(
                #[trigger] space.drop_last()[i],
            ) by {
                assert(is_white_space(space[i]));
            }
        }
        lemma_trimmed_end(inner, space.drop_last());
    }
}

/// White space is taken off both ends of a text, all of it, and nothing else is.
pub proof fn law_trimmed(before: Seq<char>, inner: Seq<char>, behind: Seq<char>)
    requires
        is_space(before),
        is_space(behind),
        inner.len() > 0 ==> !is_white_space(inner[0]) && !is_white_space(inner.last()),
    ensures
        trimmed(before + inner + behind) == inner,
{
    let text = before + inner + behind;
    if inner.len() == 0 {
        let none = Seq::<char>::empty();
        let all = before + behind;
        assert(text =~= all + none);
        assert forall|i: int| 0 <= i < all.len() implies is_white_space(#[trigger] all[i]) by {
            if i < before.len() {
                assert(is_white_space(before[i]));
            } else {
                assert(is_white_space(behind[i - before.len()]));
            }
        }
        lemma_trimmed_start(all, none);
        assert(inner =~= none);
    } else {
        assert(text =~= before + (inner + behind));
        lemma_trimmed_start(before, inner + behind);
        lemma_trimmed_end(inner, behind);
    }
}

} // verus!
