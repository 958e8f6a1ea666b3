//! What is read back of numerals, bits and parts of a text.

use vstd::prelude::*;

use crate::crypto::base64url::unpadded;
use crate::text::after_hyphen;
use crate::text::all_digits;
use crate::text::before_hyphen;
use crate::text::decimal;
use crate::text::digit_char;
use crate::text::digits_value;
use crate::text::end_trimmed;
use crate::text::first_index;
use crate::text::is_digit;
use crate::text::is_white;
use crate::text::leading_white;
use crate::text::trimmed;
use crate::text::unsigned_value;
use crate::utils::bit_text;

verus! {

/// The digit of a decimal place stands for its value.
proof fn a_digit_is_its_value(digit: nat)
    requires
        digit < 10,
    ensures
        digit_char(digit) as nat == '0' as nat + digit,
        '0' <= digit_char(digit) <= '9',
{
}

/// A decimal numeral stands for its number and has no leading zero.
proof fn digits_of_a_numeral(number: nat)
    ensures
        decimal(number).len() > 0,
        all_digits(decimal(number)),
        digits_value(decimal(number)) == number,
        decimal(number)[0] == '0' <==> number == 0,
    decreases number,
{
    if number < 10 {
        a_digit_is_its_value(number);
        assert(decimal(number).drop_last() =~= Seq::empty());
        assert(digits_value(Seq::empty()) == 0);
        assert(decimal(number).last() == digit_char(number));
    } else {
        let front = decimal(number / 10);
        digits_of_a_numeral(number / 10);
        a_digit_is_its_value(number % 10);
        let numeral = decimal(number);
        assert(numeral.drop_last() =~= front);
        assert(numeral.last() == digit_char(number % 10));
        assert forall|i: int| 0 <= i < numeral.len() implies is_digit(#[trigger] numeral[i]) by {
            if i < front.len() {
                assert(numeral[i] == front[i]);
            }
        }
        assert(numeral[0] == front[0]);
    }
}

/// A numeral that was written is read as its number, with or without a plus sign,
/// if the number is not beyond the bound; and it starts with a zero only for zero.
pub proof fn a_numeral_is_read_back(number: nat, max: nat)
    ensures
        unsigned_value(decimal(number), max) == if number <= max {
            Some(number)
        } else {
            None
        },
        unsigned_value(seq!['+'] + decimal(number), max) == if number <= max {
            Some(number)
        } else {
            None
        },
        decimal(number).len() > 0,
        decimal(number)[0] == '0' <==> number == 0,
        forall|i: int| 0 <= i < decimal(number).len() ==> '0' <= #[trigger] decimal(number)[i] <= '9',
{
    digits_of_a_numeral(number);
    let numeral = decimal(number);
    assert(is_digit(numeral[0]));
    let signed = seq!['+'] + numeral;
    assert(signed[0] == '+');
    assert(signed.drop_first() =~= numeral);
    assert forall|i: int| 0 <= i < numeral.len() implies '0' <= #[trigger] numeral[i] <= '9' by {
        assert(is_digit(numeral[i]));
    }
}

/// What is read as a number consists of digits only, but for one plus sign before
/// them, and is not empty.
pub proof fn only_numerals_are_numbers(text: Seq<char>, max: nat, at: int)
    requires
        unsigned_value(text, max) is Some,
        0 <= at < text.len(),
    ensures
        '0' <= text[at] <= '9' || (at == 0 && text[0] == '+' && text.len() > 1),
        unsigned_value(text, max)->0 <= max,
{
    if text[0] == '+' {
        if at > 0 {
            assert(is_digit(text.drop_first()[at - 1]));
        }
    } else {
        assert(is_digit(text[at]));
    }
}

proof fn leading_is_white(text: Seq<char>)
    ensures
        leading_white(text) <= text.len(),
        forall|i: int| 0 <= i < leading_white(text) ==> is_white(#[trigger] text[i]),
        leading_white(text) < text.len() ==> !is_white(text[leading_white(text) as int]),
    decreases text.len(),
{
    if text.len() > 0 && is_white(text[0]) {
        let rest = text.drop_first();
        leading_is_white(rest);
        assert forall|i: int| 0 <= i < leading_white(text) implies is_white(#[trigger] text[i]) by {
            if i > 0 {
                assert(text[i] == rest[i - 1]);
            }
        }
    }
}

proof fn ending_is_white(text: Seq<char>)
    ensures
        end_trimmed(text).len() <= text.len(),
        end_trimmed(text) == text.take(end_trimmed(text).len() as int),
        forall|i: int| end_trimmed(text).len() <= i < text.len() ==> is_white(#[trigger] text[i]),
        end_trimmed(text).len() > 0 ==> !is_white(end_trimmed(text).last()),
    decreases text.len(),
{
    if text.len() > 0 && is_white(text.last()) {
        let rest = text.drop_last();
        ending_is_white(rest);
        assert(rest.take(end_trimmed(rest).len() as int) =~= text.take(
            end_trimmed(rest).len() as int,
        ));
        assert forall|i: int| end_trimmed(text).len() <= i < text.len() implies is_white(
            #[trigger] text[i],
        ) by {
            if i < rest.len() {
                assert(text[i] == rest[i]);
            }
        }
    } else {
        assert(text.take(text.len() as int) =~= text);
    }
}

/// A trimmed text is what is left of a text when white space at its two ends is
/// taken away: blanks, tabs and line ends, and the wider kinds of blank.  What is
/// left neither starts nor ends with any.
pub proof fn trimming_takes_white_space_off_the_ends(text: Seq<char>) -> (from: int)
    ensures
        0 <= from,
        from + trimmed(text).len() <= text.len(),
        trimmed(text) == text.subrange(from, from + trimmed(text).len()),
        forall|i: int|
            0 <= i < from || from + trimmed(text).len() <= i < text.len() ==> {
                let code = #[trigger] text[i] as u32;
                ||| 9 <= code <= 13
                ||| code == 32 || code == 133 || code == 160 || code == 5760
                ||| 8192 <= code <= 8202
                ||| code == 8232 || code == 8233 || code == 8239 || code == 8287 || code == 12288
            },
        trimmed(text).len() > 0 ==> {
            let first = trimmed(text)[0] as u32;
            let last = trimmed(text).last() as u32;
            &&& first > 32 || first < 9 || 13 < first < 32
            &&& last > 32 || last < 9 || 13 < last < 32
            &&& first != 133 && first != 160 && first != 12288
            &&& last != 133 && last != 160 && last != 12288
        },
{
    let start = leading_white(text) as int;
    let rest = text.skip(start);
    leading_is_white(text);
    ending_is_white(rest);
    let inner = trimmed(text);
    assert(inner =~= text.subrange(start, start + inner.len()));
    assert forall|i: int| start + inner.len() <= i < text.len() implies is_white(
        #[trigger] text[i],
    ) by {
        assert(rest[i - start] == text[i]);
    }
    if inner.len() > 0 {
        assert(inner[0] == text[start]);
    }
    start
}

proof fn first_index_splits(text: Seq<char>, c: char)
    ensures
        first_index(text, c) <= text.len(),
        forall|i: int| 0 <= i < first_index(text, c) ==> #[trigger] text[i] != c,
        first_index(text, c) < text.len() ==> text[first_index(text, c) as int] == c,
    decreases text.len(),
{
    if text.len() > 0 && text[0] != c {
        let rest = text.drop_first();
        first_index_splits(rest, c);
        assert forall|i: int| 0 <= i < first_index(text, c) implies #[trigger] text[i] != c by {
            if i > 0 {
                assert(text[i] == rest[i - 1]);
            }
        }
    }
}

/// The parts of a text before and behind its first hyphen make up the text with a
/// hyphen between them, and the first has none.  A text without a hyphen is all
/// first part.
pub proof fn a_text_is_split_at_its_first_hyphen(text: Seq<char>)
    ensures
        !before_hyphen(text).contains('-'),
        !text.contains('-') ==> before_hyphen(text) == text && after_hyphen(text) is None,
        text.contains('-') ==> after_hyphen(text) is Some && text == before_hyphen(text).push('-')
            + after_hyphen(text)->0,
{
    first_index_splits(text, '-');
    let at = first_index(text, '-') as int;
    let front = before_hyphen(text);
    assert forall|i: int| 0 <= i < front.len() implies #[trigger] front[i] != '-' by {
        assert(front[i] == text[i]);
    }
    if at < text.len() {
        assert(text =~= front.push('-') + text.skip(at + 1));
    } else {
        assert(front =~= text);
    }
}

/// A text without its padding is the text without the equals signs at its end.
pub proof fn padding_is_what_stands_at_the_end(text: Seq<char>)
    ensures
        unpadded(text).len() <= text.len(),
        unpadded(text) == text.take(unpadded(text).len() as int),
        forall|i: int| unpadded(text).len() <= i < text.len() ==> #[trigger] text[i] == '=',
        unpadded(text).len() > 0 ==> unpadded(text).last() != '=',
    decreases text.len(),
{
    if text.len() > 0 && text.last() == '=' {
        let rest = text.drop_last();
        padding_is_what_stands_at_the_end(rest);
        assert(rest.take(unpadded(rest).len() as int) =~= text.take(unpadded(rest).len() as int));
        assert forall|i: int| unpadded(text).len() <= i < text.len() implies #[trigger] text[i]
            == '=' by {
            if i < rest.len() {
                assert(text[i] == rest[i]);
            }
        }
    } else {
        assert(text.take(text.len() as int) =~= text);
    }
}

/// What a character of a binary numeral counts for.
pub open spec fn bit_of(c: char) -> int {
    if c == '1' {
        1
    } else {
        0
    }
}

/// Eight characters show each byte: read as a binary numeral they give it back.
pub proof fn eight_characters_show_a_byte(bytes: Seq<u8>, at: int)
    requires
        0 <= at < bytes.len(),
    ensures
        bit_text(bytes).len() == 8 * bytes.len(),
        forall|i: int|
            0 <= i < bit_text(bytes).len() ==> #[trigger] bit_text(bytes)[i] == '0' || bit_text(
                bytes,
            )[i] == '1',
        bytes[at] == 128 * bit_of(bit_text(bytes)[8 * at]) + 64 * bit_of(
            bit_text(bytes)[8 * at + 1],
        ) + 32 * bit_of(bit_text(bytes)[8 * at + 2]) + 16 * bit_of(bit_text(bytes)[8 * at + 3]) + 8
            * bit_of(bit_text(bytes)[8 * at + 4]) + 4 * bit_of(bit_text(bytes)[8 * at + 5]) + 2
            * bit_of(bit_text(bytes)[8 * at + 6]) + bit_of(bit_text(bytes)[8 * at + 7]),
{
    let b = bytes[at];
    let one = |s: u8| (b >> s) & 1u8;
    assert(b as int == 128 * ((b >> 7u8) & 1u8) + 64 * ((b >> 6u8) & 1u8) + 32 * ((b >> 5u8) & 1u8)
        + 16 * ((b >> 4u8) & 1u8) + 8 * ((b >> 3u8) & 1u8) + 4 * ((b >> 2u8) & 1u8) + 2 * ((b
        >> 1u8) & 1u8) + ((b >> 0u8) & 1u8)) by (bit_vector);
    assert forall|s: u8| #[trigger] one(s) == 0 || one(s) == 1 by {
        assert((b >> s) & 1u8 == 0 || (b >> s) & 1u8 == 1) by (bit_vector);
    }
    assert(one(7) == (b >> 7u8) & 1u8 && one(6) == (b >> 6u8) & 1u8 && one(5) == (b >> 5u8) & 1u8
        && one(4) == (b >> 4u8) & 1u8 && one(3) == (b >> 3u8) & 1u8 && one(2) == (b >> 2u8) & 1u8
        && one(1) == (b >> 1u8) & 1u8 && one(0) == (b >> 0u8) & 1u8);
    let text = bit_text(bytes);
    assert(bit_of(text[8 * at]) == (b >> 7u8) & 1u8);
    assert(bit_of(text[8 * at + 1]) == (b >> 6u8) & 1u8);
    assert(bit_of(text[8 * at + 2]) == (b >> 5u8) & 1u8);
    assert(bit_of(text[8 * at + 3]) == (b >> 4u8) & 1u8);
    assert(bit_of(text[8 * at + 4]) == (b >> 3u8) & 1u8);
    assert(bit_of(text[8 * at + 5]) == (b >> 2u8) & 1u8);
    assert(bit_of(text[8 * at + 6]) == (b >> 1u8) & 1u8);
    assert(bit_of(text[8 * at + 7]) == (b >> 0u8) & 1u8);
}

} // verus!
