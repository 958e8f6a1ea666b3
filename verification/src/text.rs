//! Plain text: numerals, white space, and UTF-8.

use vstd::prelude::*;
use vstd::string::StrSliceExecFns;
use vstd::utf8::encode_utf8;
use vstd::utf8::valid_utf8;

verus! {

/// The character of a decimal digit.
pub open spec fn digit_char(digit: nat) -> char {
    (('0' as nat + digit % 10) as u8) as char
}

/// The decimal numeral of `number`, without leading zeros.
pub open spec fn decimal(number: nat) -> Seq<char>
    decreases number,
{
    if number < 10 {
        seq![digit_char(number)]
    } else {
        decimal(number / 10).push(digit_char(number % 10))
    }
}

fn append_digit(text: &mut String, digit: u64)
    requires
        digit < 10,
    ensures
        final(text)@ == old(text)@.push(digit_char(digit as nat)),
{
    let numeral: &str = match digit {
        0 => "0",
        1 => "1",
        2 => "2",
        3 => "3",
        4 => "4",
        5 => "5",
        6 => "6",
        7 => "7",
        8 => "8",
        _ => "9",
    };
    proof {
        reveal_strlit("0");
        reveal_strlit("1");
        reveal_strlit("2");
        reveal_strlit("3");
        reveal_strlit("4");
        reveal_strlit("5");
        reveal_strlit("6");
        reveal_strlit("7");
        reveal_strlit("8");
        reveal_strlit("9");
    }
    text.append(numeral);
    assert(text@ =~= old(text)@.push(digit_char(digit as nat)));
}

/// Appends the decimal numeral of `number` to `text`.
pub fn append_decimal(text: &mut String, number: u64)
    ensures
        final(text)@ == old(text)@ + decimal(number as nat),
    decreases number,
{
    if number >= 10 {
        append_decimal(text, number / 10);
    }
    append_digit(text, number % 10);
    assert(text@ =~= old(text)@ + decimal(number as nat));
}

/// The character has the Unicode property `White_Space`.
pub open spec fn is_white(c: char) -> bool {
    let code = c as u32;
    ||| 0x9 <= code <= 0xd
    ||| code == 0x20
    ||| code == 0x85
    ||| code == 0xa0
    ||| code == 0x1680
    ||| 0x2000 <= code <= 0x200a
    ||| code == 0x2028
    ||| code == 0x2029
    ||| code == 0x202f
    ||| code == 0x205f
    ||| code == 0x3000
}

fn white(c: char) -> (found: bool)
    ensures
        found == is_white(c),
{
    let code: u32 = c as u32;
    (code >= 0x9 && code <= 0xd) || code == 0x20 || code == 0x85 || code == 0xa0 || code == 0x1680
        || (code >= 0x2000 && code <= 0x200a) || code == 0x2028 || code == 0x2029 || code == 0x202f
        || code == 0x205f || code == 0x3000
}

/// How many characters at the start are white space.
pub open spec fn leading_white(text: Seq<char>) -> nat
    decreases text.len(),
{
    if text.len() > 0 && is_white(text[0]) {
        1 + leading_white(text.drop_first())
    } else {
        0
    }
}

/// The text without white space at its end.
pub open spec fn end_trimmed(text: Seq<char>) -> Seq<char>
    decreases text.len(),
{
    if text.len() > 0 && is_white(text.last()) {
        end_trimmed(text.drop_last())
    } else {
        text
    }
}

/// The text without white space at its start and at its end.
pub open spec fn trimmed(text: Seq<char>) -> Seq<char> {
    end_trimmed(text.skip(leading_white(text) as int))
}

proof fn leading_white_bound(text: Seq<char>)
    ensures
        leading_white(text) <= text.len(),
    decreases text.len(),
{
    if text.len() > 0 && is_white(text[0]) {
        leading_white_bound(text.drop_first());
    }
}

/// The text without white space at its start and at its end.
pub fn trim(text: &str) -> (inner: &str)
    ensures
        inner@ == trimmed(text@),
{
    let len: usize = text.unicode_len();
    let mut from: usize = 0;
    assert(text@.skip(0) =~= text@);
    proof {
        leading_white_bound(text@);
    }
    while from < len && white(text.get_char(from))
        invariant
            len == text@.len(),
            from <= len,
            leading_white(text@) == from + leading_white(text@.skip(from as int)),
        decreases len - from,
    {
        assert(text@.skip(from as int).drop_first() =~= text@.skip(from + 1));
        from = from + 1;
    }
    let ghost rest = text@.skip(from as int);
    assert(rest.len() > 0 ==> rest[0] == text@[from as int]);
    assert(leading_white(rest) == 0);
    let mut to: usize = len;
    assert(text@.subrange(from as int, to as int) =~= rest);
    while to > from && white(text.get_char(to - 1))
        invariant
            len == text@.len(),
            from <= to <= len,
            end_trimmed(rest) == end_trimmed(text@.subrange(from as int, to as int)),
        decreases to,
    {
        assert(text@.subrange(from as int, to as int).drop_last() =~= text@.subrange(
            from as int,
            to - 1,
        ));
        to = to - 1;
    }
    assert(to > from ==> text@.subrange(from as int, to as int).last() == text@[to - 1]);
    text.substring_char(from, to)
}

/// Where the character first stands in the text, or the length of the text.
pub open spec fn first_index(text: Seq<char>, c: char) -> nat
    decreases text.len(),
{
    if text.len() > 0 && text[0] != c {
        1 + first_index(text.drop_first(), c)
    } else {
        0
    }
}

/// The first place of a character is where it stands and does not stand before.
pub proof fn first_index_is(text: Seq<char>, c: char, at: int)
    requires
        0 <= at < text.len(),
        text[at] == c,
        forall|i: int| 0 <= i < at ==> text[i] != c,
    ensures
        first_index(text, c) == at,
    decreases text.len(),
{
    if at > 0 {
        first_index_is(text.drop_first(), c, at - 1);
    }
}

/// Where the character first stands in the text, or the length of the text.
pub fn find_char(text: &str, c: char) -> (at: usize)
    ensures
        at == first_index(text@, c),
        at <= text@.len(),
        at < text@.len() ==> text@[at as int] == c,
        forall|i: int| 0 <= i < at ==> text@[i] != c,
{
    let len: usize = text.unicode_len();
    let mut at: usize = 0;
    assert(text@.skip(0) =~= text@);
    while at < len && text.get_char(at) != c
        invariant
            len == text@.len(),
            at <= len,
            first_index(text@, c) == at + first_index(text@.skip(at as int), c),
            forall|i: int| 0 <= i < at ==> text@[i] != c,
        decreases len - at,
    {
        assert(text@.skip(at as int).drop_first() =~= text@.skip(at + 1));
        at = at + 1;
    }
    assert(at < len ==> text@.skip(at as int)[0] == text@[at as int]);
    at
}

/// The text before the first hyphen; all of it where there is none.
pub open spec fn before_hyphen(text: Seq<char>) -> Seq<char> {
    text.take(first_index(text, '-') as int)
}

/// The text behind the first hyphen, where there is one.
pub open spec fn after_hyphen(text: Seq<char>) -> Option<Seq<char>> {
    if first_index(text, '-') < text.len() {
        Some(text.skip(first_index(text, '-') as int + 1))
    } else {
        None
    }
}

/// The text before and behind the first hyphen.
pub fn split_at_hyphen(text: &str) -> (parts: (&str, Option<&str>))
    ensures
        parts.0@ == before_hyphen(text@),
        match parts.1 {
            Some(rest) => after_hyphen(text@) == Some(rest@),
            None => after_hyphen(text@) is None,
        },
{
    let at: usize = find_char(text, '-');
    let len: usize = text.unicode_len();
    let front: &str = text.substring_char(0, at);
    assert(front@ =~= text@.take(at as int));
    if at < len {
        let rest: &str = text.substring_char(at + 1, len);
        assert(rest@ =~= text@.skip(at + 1));
        (front, Some(rest))
    } else {
        (front, None)
    }
}

/// The character is a decimal digit.
pub open spec fn is_digit(c: char) -> bool {
    '0' <= c <= '9'
}

/// All characters are decimal digits.
pub open spec fn all_digits(text: Seq<char>) -> bool {
    forall|i: int| 0 <= i < text.len() ==> is_digit(#[trigger] text[i])
}

/// The number that decimal digits write.
pub open spec fn digits_value(digits: Seq<char>) -> nat
    decreases digits.len(),
{
    if digits.len() == 0 {
        0
    } else {
        digits_value(digits.drop_last()) * 10 + (digits.last() as nat - '0' as nat) as nat
    }
}

/// The digits of an unsigned numeral: what follows an optional plus sign.
pub open spec fn unsigned_digits(text: Seq<char>) -> Seq<char> {
    if text.len() > 0 && text[0] == '+' {
        text.drop_first()
    } else {
        text
    }
}

/// The number up to `max` that the numeral stands for: one or more decimal
/// digits behind an optional plus sign.
pub open spec fn unsigned_value(text: Seq<char>, max: nat) -> Option<nat> {
    let digits = unsigned_digits(text);
    if digits.len() == 0 || !all_digits(digits) || digits_value(digits) > max {
        None
    } else {
        Some(digits_value(digits))
    }
}

proof fn digits_grow(digits: Seq<char>, upto: int)
    requires
        0 <= upto <= digits.len(),
        all_digits(digits),
    ensures
        digits_value(digits.take(upto)) <= digits_value(digits),
    decreases digits.len(),
{
    if upto < digits.len() {
        let front = digits.drop_last();
        assert forall|i: int| 0 <= i < front.len() implies is_digit(#[trigger] front[i]) by {
            assert(front[i] == digits[i]);
        }
        assert(front.take(upto) =~= digits.take(upto));
        assert(digits[digits.len() - 1] == digits.last());
        digits_grow(front, upto);
    } else {
        assert(digits.take(upto) =~= digits);
    }
}

/// The number up to `max` that the numeral stands for.
pub fn parse_unsigned(text: &str, max: u32) -> (number: Option<u32>)
    ensures
        match number {
            Some(value) => unsigned_value(text@, max as nat) == Some(value as nat),
            None => unsigned_value(text@, max as nat) is None,
        },
{
    let len: usize = text.unicode_len();
    let from: usize = if len > 0 && text.get_char(0) == '+' {
        1
    } else {
        0
    };
    let ghost digits = unsigned_digits(text@);
    assert(digits =~= text@.skip(from as int));
    if from == len {
        return None;
    }
    let mut value: u64 = 0;
    let mut at: usize = from;
    while at < len
        invariant
            len == text@.len(),
            from <= at <= len,
            digits == text@.skip(from as int),
            digits == unsigned_digits(text@),
            value <= max,
            all_digits(digits.take(at - from)),
            value == digits_value(digits.take(at - from)),
        decreases len - at,
    {
        let c: char = text.get_char(at);
        assert(c == digits[at - from]);
        if !(c >= '0' && c <= '9') {
            return None;
        }
        let ghost next = digits.take(at - from + 1);
        assert(next.drop_last() =~= digits.take(at - from));
        assert(next.last() == c);
        assert forall|i: int| 0 <= i < next.len() implies is_digit(#[trigger] next[i]) by {
            if i < at - from {
                assert(next[i] == digits.take(at - from)[i]);
            }
        }
        value = value * 10 + (c as u64 - '0' as u64);
        if value > max as u64 {
            proof {
                if all_digits(digits) {
                    digits_grow(digits, at - from + 1);
                }
            }
            return None;
        }
        at = at + 1;
    }
    assert(digits.take(at - from) =~= digits);
    Some(value as u32)
}

/// The error that `std::str::from_utf8` reports for bytes that are not UTF-8, as
/// text.
pub uninterp spec fn utf8_error(bytes: Seq<u8>) -> Seq<char>;

/// `std::str::from_utf8`: the text that the bytes encode, or the error as text
/// where they are not UTF-8.
#[verifier::external_body]
pub(crate) fn utf8_text(bytes: &[u8]) -> (text: Result<String, String>)
    ensures
        match text {
            Ok(text) => valid_utf8(bytes@) && encode_utf8(text@) == bytes@,
            Err(error) => !valid_utf8(bytes@) && error@ == utf8_error(bytes@),
        },
{
    match std::str::from_utf8(bytes) {
        Ok(text) => Ok(text.to_string()),
        Err(error) => Err(error.to_string()),
    }
}

/// Whether the two texts are the same.
pub fn same_text(a: &str, b: &str) -> (same: bool)
    ensures
        same == (a@ == b@),
{
    a.to_owned() == b.to_owned()
}

} // verus!
