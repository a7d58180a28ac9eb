//! Reading what a person typed: decimal numbers, day counts, menu choices and
//! answers to a yes-or-no question.
//!
//! A line is taken as it was read, line ending and all: the functions that
//! answer for a whole line ([`return_menu`], [`menu_choice`], and the
//! functions of the other modules that take what was entered) first remove
//! the white space around it. The two parsers, [`parse_decimal`] and
//! [`parse_day_count`], take the text without that white space and say exactly
//! which texts they accept and what each of them means.

use vstd::prelude::*;
use vstd::string::*;
use vstd::utf8::is_ascii_chars;
use crate::decimal::{magnitude, representable, Decimal, LIMIT};

verus! {

/// Whether `c` is white space: one of the characters that Unicode gives the
/// property `White_Space`.
pub open spec fn is_white_space(c: char) -> bool {
    ||| '\u{9}' <= c && c <= '\u{d}'
    ||| c == ' '
    ||| c == '\u{85}'
    ||| c == '\u{a0}'
    ||| c == '\u{1680}'
    ||| '\u{2000}' <= c && c <= '\u{200a}'
    ||| c == '\u{2028}'
    ||| c == '\u{2029}'
    ||| c == '\u{202f}'
    ||| c == '\u{205f}'
    ||| c == '\u{3000}'
}

/// The number of white-space characters that `text` starts with.
pub open spec fn leading_space(text: Seq<char>) -> int
    decreases text.len(),
{
    if text.len() > 0 && is_white_space(text[0]) {
        1 + leading_space(text.drop_first())
    } else {
        0
    }
}

/// The number of white-space characters that `text` ends with.
pub open spec fn trailing_space(text: Seq<char>) -> int
    decreases text.len(),
{
    if text.len() > 0 && is_white_space(text.last()) {
        1 + trailing_space(text.drop_last())
    } else {
        0
    }
}

/// `text` without the white space at its start and at its end.
pub open spec fn trimmed(text: Seq<char>) -> Seq<char> {
    let rest = text.skip(leading_space(text));
    rest.take(rest.len() - trailing_space(rest))
}

/// `str::trim`: the part of `text` that is left when the white space at its
/// start and at its end is removed, white space being the characters with the
/// Unicode property `White_Space`.
#[verifier::external_body]
pub(crate) fn trim(text: &str) -> (inner: &str)
    ensures
        inner@ == trimmed(text@),
{
    text.trim()
}

/// Whether `c` is one of the digits `0` to `9`.
pub open spec fn is_digit(c: char) -> bool {
    '0' <= c && c <= '9'
}

/// The number that the digit `c` stands for.
pub open spec fn digit_value(c: char) -> int {
    c as int - '0' as int
}

/// Whether `text` consists of digits only.
pub open spec fn all_digits(text: Seq<char>) -> bool {
    forall|i: int| 0 <= i < text.len() ==> is_digit(#[trigger] text[i])
}

/// The number that the digits `text` spell in base ten; zero for no digits.
pub open spec fn digits_value(text: Seq<char>) -> int
    decreases text.len(),
{
    if text.len() == 0 {
        0
    } else {
        10 * digits_value(text.drop_last()) + digit_value(text.last())
    }
}

/// Where the run of digits that starts at `from` ends: the place of the first
/// character at or after `from` that is no digit, or the length of `text`.
pub open spec fn digits_end(text: Seq<char>, from: int) -> int
    decreases text.len() - from,
{
    if 0 <= from < text.len() && is_digit(text[from]) {
        digits_end(text, from + 1)
    } else {
        from
    }
}

/// The length of the sign that `text` starts with: one for `+` or `-`, else
/// zero.
pub open spec fn sign_length(text: Seq<char>) -> int {
    if text.len() > 0 && (text[0] == '+' || text[0] == '-') {
        1
    } else {
        0
    }
}

/// Whether `text` starts with a minus sign.
pub open spec fn has_minus(text: Seq<char>) -> bool {
    text.len() > 0 && text[0] == '-'
}

/// The first `count` digits of `digits`, with zeros in place of those that
/// are missing.
pub open spec fn padded(digits: Seq<char>, count: nat) -> Seq<char> {
    Seq::new(
        count,
        |i: int|
            if i < digits.len() {
                digits[i]
            } else {
                '0'
            },
    )
}

/// The number that `digits` spell when they are cut after the first `cut` of
/// them, zeros standing in where `cut` lies beyond their end: the digits that
/// are kept, read as a number, and one more where the first digit that is
/// cut off is five or above. Zero where `cut` is negative.
pub open spec fn cut_value(digits: Seq<char>, cut: int) -> int {
    if cut < 0 {
        0
    } else {
        digits_value(padded(digits, cut as nat)) + if cut < digits.len() && '5' <= digits[cut] {
            1int
        } else {
            0int
        }
    }
}

/// The power of ten that the end `tail` of a decimal number asks for: zero
/// where there is no such end, else the whole number that follows the letter
/// `e` or `E`. `None` where `tail` is neither.
pub open spec fn exponent_value(tail: Seq<char>) -> Option<int> {
    if tail.len() == 0 {
        Some(0int)
    } else if tail[0] == 'e' || tail[0] == 'E' {
        integer_value(tail.skip(1))
    } else {
        None
    }
}

/// What `text` means as a decimal number, in millionths.
///
/// A decimal number is an optional sign, digits, optionally a point followed
/// by digits, with at least one digit before or after the point, and
/// optionally the letter `e` or `E` followed by a whole number, the power of
/// ten by which to multiply. The number is rounded to the nearest millionth,
/// a tie going away from zero, and must then lie in the representable range.
/// `None` for any other text.
pub open spec fn decimal_micros(text: Seq<char>) -> Option<int> {
    let start = sign_length(text);
    let whole_end = digits_end(text, start);
    let fraction_start = if whole_end < text.len() && text[whole_end] == '.' {
        whole_end + 1
    } else {
        whole_end
    };
    let fraction_end = digits_end(text, fraction_start);
    let digits = text.subrange(start, whole_end) + text.subrange(fraction_start, fraction_end);
    match exponent_value(text.subrange(fraction_end, text.len() as int)) {
        Some(exponent) => {
            let size = cut_value(digits, whole_end - start + exponent + 6);
            let value = if has_minus(text) {
                -size
            } else {
                size
            };
            if digits.len() > 0 && representable(value) {
                Some(value)
            } else {
                None
            }
        },
        None => None,
    }
}

/// What `text` means as a whole number: an optional sign followed by at least
/// one digit and nothing else. `None` for any other text.
pub open spec fn integer_value(text: Seq<char>) -> Option<int> {
    let digits = text.subrange(sign_length(text), text.len() as int);
    if digits.len() > 0 && all_digits(digits) {
        if has_minus(text) {
            Some(-digits_value(digits))
        } else {
            Some(digits_value(digits))
        }
    } else {
        None
    }
}

/// The characters that the bytes `bytes` stand for when each byte is one
/// character.
spec fn byte_chars(bytes: Seq<u8>) -> Seq<char> {
    Seq::new(bytes.len(), |i: int| bytes[i] as char)
}

/// Every character between `from` and the end of its run is a digit, and the
/// run ends within the text.
proof fn lemma_digits_end(text: Seq<char>, from: int)
    requires
        0 <= from <= text.len(),
    ensures
        from <= digits_end(text, from) <= text.len(),
        forall|i: int| from <= i < digits_end(text, from) ==> is_digit(#[trigger] text[i]),
        digits_end(text, from) < text.len() ==> !is_digit(text[digits_end(text, from)]),
    decreases text.len() - from,
{
    if from < text.len() && is_digit(text[from]) {
        lemma_digits_end(text, from + 1);
    }
}

/// A run of digits that starts within another one ends where that one ends.
proof fn lemma_digits_end_within(text: Seq<char>, from: int, at: int)
    requires
        0 <= from <= at <= text.len(),
        forall|i: int| from <= i < at ==> is_digit(#[trigger] text[i]),
    ensures
        digits_end(text, from) == digits_end(text, at),
    decreases at - from,
{
    if from < at {
        lemma_digits_end_within(text, from + 1, at);
    }
}

/// One more digit at the end multiplies the number by ten and adds the digit.
proof fn lemma_digits_value_step(text: Seq<char>, from: int, to: int)
    requires
        0 <= from <= to < text.len(),
    ensures
        digits_value(text.subrange(from, to + 1)) == 10 * digits_value(text.subrange(from, to))
            + digit_value(text[to]),
{
    assert(text.subrange(from, to + 1).drop_last() =~= text.subrange(from, to));
}

/// The number that digits spell is not negative.
proof fn lemma_digits_value_not_negative(text: Seq<char>)
    requires
        all_digits(text),
    ensures
        digits_value(text) >= 0,
    decreases text.len(),
{
    if text.len() > 0 {
        lemma_digits_value_not_negative(text.drop_last());
    }
}

/// A number spelled with digits only grows when more digits follow.
proof fn lemma_digits_value_grows(text: Seq<char>, from: int, to: int, end: int)
    requires
        0 <= from <= to <= end <= text.len(),
        forall|i: int| from <= i < end ==> is_digit(#[trigger] text[i]),
    ensures
        0 <= digits_value(text.subrange(from, to)) <= digits_value(text.subrange(from, end)),
    decreases end - to,
{
    lemma_digits_value_not_negative(text.subrange(from, to));
    if to < end {
        lemma_digits_value_grows(text, from, to, end - 1);
        lemma_digits_value_step(text, from, end - 1);
    }
}

/// A text that means a decimal number has none but ASCII characters.
proof fn lemma_decimal_is_ascii(text: Seq<char>)
    requires
        decimal_micros(text) is Some,
    ensures
        is_ascii_chars(text),
{
    let start = sign_length(text);
    let whole_end = digits_end(text, start);
    let fraction_start = if whole_end < text.len() && text[whole_end] == '.' {
        whole_end + 1
    } else {
        whole_end
    };
    lemma_digits_end(text, start);
    let fraction_end = digits_end(text, fraction_start);
    lemma_digits_end(text, fraction_start);
    let tail = text.subrange(fraction_end, text.len() as int);
    if tail.len() > 0 {
        lemma_integer_is_ascii(tail.skip(1));
    }
    assert forall|i: int| 0 <= i < text.len() implies '\0' <= #[trigger] text[i] <= '\u{7f}' by {
        if i < start {
        } else if i < whole_end {
            assert(is_digit(text[i]));
        } else if i < fraction_start {
        } else if i < fraction_end {
            assert(is_digit(text[i]));
        } else if i == fraction_end {
            assert(tail[0] == text[i]);
        } else {
            assert(tail.skip(1)[i - fraction_end - 1] == text[i]);
        }
    }
}

/// A text that means a whole number has none but ASCII characters.
proof fn lemma_integer_is_ascii(text: Seq<char>)
    requires
        integer_value(text) is Some,
    ensures
        is_ascii_chars(text),
{
    let start = sign_length(text);
    let digits = text.subrange(start, text.len() as int);
    assert forall|i: int| 0 <= i < text.len() implies '\0' <= #[trigger] text[i] <= '\u{7f}' by {
        if i >= start {
            assert(is_digit(digits[i - start]));
        }
    }
}

/// The byte of the plus sign.
const PLUS: u8 = 0x2b;

/// The byte of the minus sign.
const MINUS: u8 = 0x2d;

/// The byte of the decimal point.
const POINT: u8 = 0x2e;

/// The byte of the digit zero.
const ZERO: u8 = 0x30;

/// The byte of the digit five.
const FIVE: u8 = 0x35;

/// The byte of the digit nine.
const NINE: u8 = 0x39;

/// The byte of the letter `E`.
const UPPER_E: u8 = 0x45;

/// The byte of the letter `e`.
const LOWER_E: u8 = 0x65;

/// Whether the byte is an ASCII digit.
fn is_digit_byte(b: u8) -> (yes: bool)
    ensures
        yes == is_digit(b as char),
{
    b >= ZERO && b <= NINE
}

/// The place where the run of digits that starts at `from` ends.
fn digit_run_end(bytes: &[u8], from: usize) -> (end: usize)
    requires
        from <= bytes@.len(),
    ensures
        end == digits_end(byte_chars(bytes@), from as int),
        from <= end <= bytes@.len(),
{
    let ghost text = byte_chars(bytes@);
    let mut at: usize = from;
    while at < bytes.len() && is_digit_byte(bytes[at])
        invariant
            from <= at <= bytes@.len(),
            text == byte_chars(bytes@),
            forall|i: int| from <= i < at ==> is_digit(#[trigger] text[i]),
        decreases bytes@.len() - at,
    {
        at = at + 1;
    }
    proof {
        lemma_digits_end_within(text, from as int, at as int);
    }
    at
}

/// The largest cap that [`capped_number`] takes.
const CAP_LIMIT: u128 = 1_000_000_000_000_000_000_000_000_000_000;

/// The cap on the magnitude of an exponent: above any length of text.
const EXPONENT_CAP: u128 = 100_000_000_000_000_000_000;

/// `value`, or `cap + 1` where it is above `cap`.
spec fn capped(value: int, cap: int) -> int {
    if value <= cap {
        value
    } else {
        cap + 1
    }
}

/// The number that the digits from `from` up to `to` spell, or `cap + 1`
/// where that number is above `cap`.
fn capped_number(bytes: &[u8], from: usize, to: usize, cap: u128) -> (number: u128)
    requires
        from <= to <= bytes@.len(),
        cap <= CAP_LIMIT,
        forall|i: int| from <= i < to ==> is_digit(#[trigger] byte_chars(bytes@)[i]),
    ensures
        number == capped(
            digits_value(byte_chars(bytes@).subrange(from as int, to as int)),
            cap as int,
        ),
{
    let ghost text = byte_chars(bytes@);
    let mut number: u128 = 0;
    let mut at: usize = from;
    proof {
        assert(text.subrange(from as int, from as int) =~= Seq::<char>::empty());
    }
    while at < to
        invariant
            from <= at <= to <= bytes@.len(),
            cap <= CAP_LIMIT,
            text == byte_chars(bytes@),
            forall|i: int| from <= i < to ==> is_digit(#[trigger] text[i]),
            number == capped(digits_value(text.subrange(from as int, at as int)), cap as int),
        decreases to - at,
    {
        proof {
            lemma_digits_value_step(text, from as int, at as int);
            lemma_digits_value_grows(text, from as int, at as int, at as int);
            assert(is_digit(text[at as int]));
        }
        if number <= cap {
            number = number * 10 + (bytes[at] - ZERO) as u128;
            if number > cap {
                number = cap + 1;
            }
        }
        at = at + 1;
    }
    number
}

/// The magnitude of the whole number that `text` spells; meant for a text
/// that spells one.
spec fn integer_size(text: Seq<char>) -> int {
    digits_value(text.subrange(sign_length(text), text.len() as int))
}

/// What the bytes from `from` on mean as a whole number: whether it has a
/// minus sign, and its magnitude, capped at [`EXPONENT_CAP`].
fn signed_number(bytes: &[u8], from: usize) -> (parsed: Option<(bool, u128)>)
    requires
        from <= bytes@.len(),
    ensures
        parsed is Some <==> integer_value(
            byte_chars(bytes@).subrange(from as int, bytes@.len() as int),
        ) is Some,
        parsed matches Some((negative, size)) ==> {
            let text = byte_chars(bytes@).subrange(from as int, bytes@.len() as int);
            &&& negative == has_minus(text)
            &&& size == capped(integer_size(text), EXPONENT_CAP as int)
            &&& integer_size(text) >= 0
        },
{
    let ghost all = byte_chars(bytes@);
    let ghost text = all.subrange(from as int, bytes@.len() as int);
    let length = bytes.len();
    let start: usize = if from < length && (bytes[from] == PLUS || bytes[from] == MINUS) {
        from + 1
    } else {
        from
    };
    let negative = from < length && bytes[from] == MINUS;
    let ghost digits = text.subrange(sign_length(text), text.len() as int);
    proof {
        if from < length {
            assert(text[0] == all[from as int]);
        }
        assert(start - from == sign_length(text));
        assert(digits =~= all.subrange(start as int, length as int));
        lemma_digits_end(all, start as int);
    }
    if start == length || digit_run_end(bytes, start) != length {
        proof {
            if start < length {
                let stop = digits_end(all, start as int);
                assert(!is_digit(digits[stop - start]));
            }
        }
        return None;
    }
    proof {
        assert forall|i: int| 0 <= i < digits.len() implies is_digit(#[trigger] digits[i]) by {
            assert(is_digit(all[start + i]));
        }
        lemma_digits_value_not_negative(digits);
    }
    let size = capped_number(bytes, start, length, EXPONENT_CAP);
    Some((negative, size))
}

/// The digits of a decimal number: those before the point, then those after
/// it.
spec fn mantissa(
    text: Seq<char>,
    start: int,
    whole_end: int,
    fraction_start: int,
    fraction_end: int,
) -> Seq<char> {
    text.subrange(start, whole_end) + text.subrange(fraction_start, fraction_end)
}

/// Where the digits of a decimal number lie among the bytes: before the
/// point from `start` up to `whole_end`, after it from `fraction_start` up to
/// `fraction_end`.
spec fn digits_lie_at(
    bytes: Seq<u8>,
    start: int,
    whole_end: int,
    fraction_start: int,
    fraction_end: int,
) -> bool {
    &&& 0 <= start <= whole_end <= fraction_start <= fraction_end <= bytes.len()
    &&& forall|i: int| start <= i < whole_end ==> is_digit(#[trigger] byte_chars(bytes)[i])
    &&& forall|i: int|
        fraction_start <= i < fraction_end ==> is_digit(#[trigger] byte_chars(bytes)[i])
}

/// The digits of a decimal number are digits.
proof fn lemma_mantissa_is_digits(
    bytes: Seq<u8>,
    start: int,
    whole_end: int,
    fraction_start: int,
    fraction_end: int,
)
    requires
        digits_lie_at(bytes, start, whole_end, fraction_start, fraction_end),
    ensures
        all_digits(mantissa(byte_chars(bytes), start, whole_end, fraction_start, fraction_end)),
        mantissa(byte_chars(bytes), start, whole_end, fraction_start, fraction_end).len()
            == whole_end - start + fraction_end - fraction_start,
{
    let text = byte_chars(bytes);
    let digits = mantissa(text, start, whole_end, fraction_start, fraction_end);
    assert forall|i: int| 0 <= i < digits.len() implies is_digit(#[trigger] digits[i]) by {
        if i < whole_end - start {
            assert(digits[i] == text[start + i]);
        } else {
            assert(digits[i] == text[fraction_start + (i - (whole_end - start))]);
        }
    }
}

/// Digits padded with zeros are digits, and one more of them multiplies the
/// number by ten and adds the new digit.
proof fn lemma_padded_step(digits: Seq<char>, count: nat)
    requires
        all_digits(digits),
    ensures
        all_digits(padded(digits, count)),
        digits_value(padded(digits, count + 1)) == 10 * digits_value(padded(digits, count))
            + digit_value(padded(digits, count + 1)[count as int]),
        0 <= digits_value(padded(digits, count)) <= digits_value(padded(digits, count + 1)),
{
    assert(padded(digits, count + 1).drop_last() =~= padded(digits, count));
    assert forall|i: int| 0 <= i < count implies is_digit(#[trigger] padded(digits, count)[i]) by {
        if i < digits.len() {
            assert(is_digit(digits[i]));
        }
    }
    lemma_digits_value_not_negative(padded(digits, count));
    if count < digits.len() {
        assert(is_digit(digits[count as int]));
    }
}

/// More digits never make the number smaller.
proof fn lemma_padded_grows(digits: Seq<char>, fewer: nat, more: nat)
    requires
        all_digits(digits),
        fewer <= more,
    ensures
        0 <= digits_value(padded(digits, fewer)) <= digits_value(padded(digits, more)),
    decreases more - fewer,
{
    lemma_padded_step(digits, fewer);
    if fewer < more {
        lemma_padded_grows(digits, fewer + 1, more);
    }
}

/// Zeros beyond the end of the digits multiply the number by a power of ten.
proof fn lemma_padded_zeros(digits: Seq<char>, count: nat, zeros: nat)
    requires
        all_digits(digits),
        digits.len() <= count,
    ensures
        digits_value(padded(digits, count + zeros)) == digits_value(padded(digits, count)) * ten_to(
            zeros,
        ),
    decreases zeros,
{
    if zeros > 0 {
        lemma_padded_zeros(digits, count, (zeros - 1) as nat);
        lemma_padded_step(digits, (count + zeros - 1) as nat);
        let shorter = digits_value(padded(digits, count));
        assert(10 * (shorter * ten_to((zeros - 1) as nat)) == shorter * (10 * ten_to(
            (zeros - 1) as nat,
        ))) by (nonlinear_arith);
    } else {
        assert(digits_value(padded(digits, count)) * 1 == digits_value(padded(digits, count)));
    }
}

/// Ten to the power `n`.
spec fn ten_to(n: nat) -> int
    decreases n,
{
    if n == 0 {
        1
    } else {
        10 * ten_to((n - 1) as nat)
    }
}

/// From the nineteenth on, every power of ten is above the limit.
proof fn lemma_ten_to_is_large(n: nat)
    requires
        n >= 19,
    ensures
        ten_to(n) > LIMIT,
    decreases n,
{
    if n == 19 {
        reveal_with_fuel(ten_to, 20);
    } else {
        lemma_ten_to_is_large((n - 1) as nat);
    }
}

/// The digit at place `at` among the digits of a decimal number.
fn mantissa_digit(
    bytes: &[u8],
    start: usize,
    whole_end: usize,
    fraction_start: usize,
    fraction_end: usize,
    at: usize,
) -> (digit: u8)
    requires
        digits_lie_at(
            bytes@,
            start as int,
            whole_end as int,
            fraction_start as int,
            fraction_end as int,
        ),
        at < whole_end - start + fraction_end - fraction_start,
    ensures
        digit as char == mantissa(
            byte_chars(bytes@),
            start as int,
            whole_end as int,
            fraction_start as int,
            fraction_end as int,
        )[at as int],
        ZERO <= digit <= NINE,
{
    let ghost text = byte_chars(bytes@);
    if at < whole_end - start {
        proof {
            assert(is_digit(text[start + at]));
        }
        bytes[start + at]
    } else {
        proof {
            assert(is_digit(text[fraction_start + (at - (whole_end - start))]));
        }
        bytes[fraction_start + (at - (whole_end - start))]
    }
}

/// The number that the first `count` digits of a decimal number spell, or
/// one more than the limit where that number is above the limit.
fn mantissa_number(
    bytes: &[u8],
    start: usize,
    whole_end: usize,
    fraction_start: usize,
    fraction_end: usize,
    count: usize,
) -> (number: u128)
    requires
        digits_lie_at(
            bytes@,
            start as int,
            whole_end as int,
            fraction_start as int,
            fraction_end as int,
        ),
        count <= whole_end - start + fraction_end - fraction_start,
    ensures
        number == capped(
            digits_value(
                padded(
                    mantissa(
                        byte_chars(bytes@),
                        start as int,
                        whole_end as int,
                        fraction_start as int,
                        fraction_end as int,
                    ),
                    count as nat,
                ),
            ),
            LIMIT as int,
        ),
{
    let ghost digits = mantissa(
        byte_chars(bytes@),
        start as int,
        whole_end as int,
        fraction_start as int,
        fraction_end as int,
    );
    proof {
        lemma_mantissa_is_digits(
            bytes@,
            start as int,
            whole_end as int,
            fraction_start as int,
            fraction_end as int,
        );
        assert(padded(digits, 0) =~= Seq::<char>::empty());
    }
    let mut number: u128 = 0;
    let mut at: usize = 0;
    while at < count
        invariant
            at <= count <= whole_end - start + fraction_end - fraction_start,
            digits_lie_at(
                bytes@,
                start as int,
                whole_end as int,
                fraction_start as int,
                fraction_end as int,
            ),
            digits == mantissa(
                byte_chars(bytes@),
                start as int,
                whole_end as int,
                fraction_start as int,
                fraction_end as int,
            ),
            all_digits(digits),
            digits.len() == whole_end - start + fraction_end - fraction_start,
            number == capped(digits_value(padded(digits, at as nat)), LIMIT as int),
        decreases count - at,
    {
        let digit = mantissa_digit(bytes, start, whole_end, fraction_start, fraction_end, at);
        proof {
            lemma_padded_step(digits, at as nat);
        }
        if number <= LIMIT as u128 {
            number = number * 10 + (digit - ZERO) as u128;
            if number > LIMIT as u128 {
                number = LIMIT as u128 + 1;
            }
        }
        at = at + 1;
    }
    number
}

/// The number that the digits of a decimal number spell when they are cut
/// after the first `kept` of them, or `None` where that number is above the
/// limit. Where the power of ten was too large to be held, `kept` is only a
/// lower bound of the true place of the cut, `cut`, and lies well beyond the
/// digits.
fn cut_number(
    bytes: &[u8],
    start: usize,
    whole_end: usize,
    fraction_start: usize,
    fraction_end: usize,
    kept: u128,
    Ghost(cut): Ghost<int>,
) -> (number: Option<u128>)
    requires
        digits_lie_at(
            bytes@,
            start as int,
            whole_end as int,
            fraction_start as int,
            fraction_end as int,
        ),
        kept == cut || (cut >= kept && kept >= whole_end - start + fraction_end - fraction_start
            + 19),
    ensures
        ({
            let value = cut_value(
                mantissa(
                    byte_chars(bytes@),
                    start as int,
                    whole_end as int,
                    fraction_start as int,
                    fraction_end as int,
                ),
                cut,
            );
            match number {
                Some(size) => size == value && size <= LIMIT,
                None => value > LIMIT,
            }
        }),
{
    let ghost digits = mantissa(
        byte_chars(bytes@),
        start as int,
        whole_end as int,
        fraction_start as int,
        fraction_end as int,
    );
    proof {
        lemma_mantissa_is_digits(
            bytes@,
            start as int,
            whole_end as int,
            fraction_start as int,
            fraction_end as int,
        );
    }
    let count = whole_end - start + (fraction_end - fraction_start);
    if kept < count as u128 {
        let taken = kept as usize;
        let number = mantissa_number(
            bytes,
            start,
            whole_end,
            fraction_start,
            fraction_end,
            taken,
        );
        let next = mantissa_digit(bytes, start, whole_end, fraction_start, fraction_end, taken);
        let carry: u128 = if next >= FIVE {
            1
        } else {
            0
        };
        proof {
            lemma_padded_step(digits, taken as nat);
        }
        if number + carry > LIMIT as u128 {
            None
        } else {
            Some(number + carry)
        }
    } else {
        let number = mantissa_number(
            bytes,
            start,
            whole_end,
            fraction_start,
            fraction_end,
            count,
        );
        proof {
            lemma_padded_zeros(digits, count as nat, (cut - count) as nat);
            lemma_padded_grows(digits, count as nat, cut as nat);
        }
        if number == 0 {
            proof {
                assert(0 * ten_to((cut - count) as nat) == 0);
            }
            Some(0)
        } else if number > LIMIT as u128 {
            None
        } else if kept - count as u128 >= 19 {
            proof {
                lemma_ten_to_is_large((cut - count) as nat);
                assert(digits_value(padded(digits, count as nat)) * ten_to((cut - count) as nat)
                    > LIMIT) by (nonlinear_arith)
                    requires
                        digits_value(padded(digits, count as nat)) >= 1,
                        ten_to((cut - count) as nat) > LIMIT,
                ;
            }
            None
        } else {
            append_zeros(number, kept - count as u128, Ghost(digits), Ghost(count as nat))
        }
    }
}

/// `number`, which `digits` spell, times ten to the power `zeros`, or `None`
/// where that is above the limit.
fn append_zeros(
    number: u128,
    zeros: u128,
    Ghost(digits): Ghost<Seq<char>>,
    Ghost(count): Ghost<nat>,
) -> (product: Option<u128>)
    requires
        all_digits(digits),
        digits.len() <= count,
        zeros < 19,
        0 < number <= LIMIT,
        number == digits_value(padded(digits, count)),
    ensures
        match product {
            Some(size) => size == digits_value(padded(digits, count + zeros as nat)) && size
                <= LIMIT,
            None => digits_value(padded(digits, count + zeros as nat)) > LIMIT,
        },
{
    let mut product = number;
    let mut added: u128 = 0;
    while added < zeros
        invariant
            added <= zeros < 19,
            all_digits(digits),
            digits.len() <= count,
            0 < product <= LIMIT,
            product == digits_value(padded(digits, count + added as nat)),
        decreases zeros - added,
    {
        proof {
            lemma_padded_step(digits, count + added as nat);
            lemma_padded_grows(digits, count + added as nat + 1, count + zeros as nat);
        }
        product = product * 10;
        added = added + 1;
        if product > LIMIT as u128 {
            return None;
        }
    }
    Some(product)
}

/// The power of ten that the bytes from `from` on ask for: whether it is
/// negative, and its magnitude, capped at [`EXPONENT_CAP`]. `None` where the
/// bytes are no end of a decimal number.
fn power_of_ten(bytes: &[u8], from: usize) -> (power: Option<(bool, u128)>)
    requires
        from <= bytes@.len(),
    ensures
        power is Some <==> exponent_value(
            byte_chars(bytes@).subrange(from as int, bytes@.len() as int),
        ) is Some,
        power matches Some((negative, size)) ==> {
            let exponent = exponent_value(
                byte_chars(bytes@).subrange(from as int, bytes@.len() as int),
            )->0;
            &&& negative ==> exponent <= 0
            &&& !negative ==> exponent >= 0
            &&& size == capped(magnitude(exponent), EXPONENT_CAP as int)
        },
{
    let ghost text = byte_chars(bytes@);
    let ghost tail = text.subrange(from as int, bytes@.len() as int);
    if from == bytes.len() {
        return Some((false, 0));
    }
    proof {
        assert(tail[0] == text[from as int]);
        assert(tail.skip(1) =~= text.subrange(from + 1, bytes@.len() as int));
    }
    if bytes[from] != LOWER_E && bytes[from] != UPPER_E {
        return None;
    }
    signed_number(bytes, from + 1)
}

/// What the bytes mean as a decimal number, each byte taken as one character.
fn decimal_from_bytes(bytes: &[u8]) -> (parsed: Option<Decimal>)
    ensures
        match decimal_micros(byte_chars(bytes@)) {
            Some(value) => parsed is Some && parsed->0@ == value,
            None => parsed is None,
        },
{
    let ghost text = byte_chars(bytes@);
    let length = bytes.len();
    let start: usize = if length > 0 && (bytes[0] == PLUS || bytes[0] == MINUS) {
        1
    } else {
        0
    };
    let negative = length > 0 && bytes[0] == MINUS;
    let whole_end = digit_run_end(bytes, start);
    let fraction_start: usize = if whole_end < length && bytes[whole_end] == POINT {
        whole_end + 1
    } else {
        whole_end
    };
    let fraction_end = digit_run_end(bytes, fraction_start);
    proof {
        lemma_digits_end(text, start as int);
        lemma_digits_end(text, fraction_start as int);
        lemma_mantissa_is_digits(
            bytes@,
            start as int,
            whole_end as int,
            fraction_start as int,
            fraction_end as int,
        );
    }
    let (power_is_negative, power) = match power_of_ten(bytes, fraction_end) {
        Some(power) => power,
        None => {
            return None;
        },
    };
    let ghost exponent = exponent_value(text.subrange(fraction_end as int, length as int))->0;
    let whole_count = whole_end - start;
    if whole_count + (fraction_end - fraction_start) == 0 {
        return None;
    }
    if power_is_negative && power > whole_count as u128 + 6 {
        return Some(Decimal::zero());
    }
    let kept: u128 = if power_is_negative {
        whole_count as u128 + 6 - power
    } else {
        whole_count as u128 + 6 + power
    };
    let size = match cut_number(
        bytes,
        start,
        whole_end,
        fraction_start,
        fraction_end,
        kept,
        Ghost(whole_count + exponent + 6),
    ) {
        Some(size) => size,
        None => {
            return None;
        },
    };
    if negative {
        Some(Decimal::exactly(-(size as i64)))
    } else {
        Some(Decimal::exactly(size as i64))
    }
}

/// Reads `text` as a decimal number: an optional sign, digits, optionally a
/// point followed by digits, with at least one digit in all, and optionally
/// `e` or `E` followed by a power of ten. The number is rounded to the
/// nearest millionth, a tie going away from zero. `None` where `text` is no
/// such number or the rounded number lies outside the representable range.
pub fn parse_decimal(text: &str) -> (parsed: Option<Decimal>)
    ensures
        match decimal_micros(text@) {
            Some(value) => parsed is Some && parsed->0@ == value,
            None => parsed is None,
        },
{
    if !text.is_ascii() {
        proof {
            if decimal_micros(text@) is Some {
                lemma_decimal_is_ascii(text@);
            }
        }
        return None;
    }
    let bytes = text.as_bytes();
    proof {
        is_ascii_spec_bytes(text);
        assert(text@ =~= byte_chars(bytes@));
    }
    decimal_from_bytes(bytes)
}

/// The whole number that `text` means, where it is one that a count of days
/// can hold.
pub open spec fn day_count_value(text: Seq<char>) -> Option<int> {
    match integer_value(text) {
        Some(value) => if i32::MIN <= value <= i32::MAX {
            Some(value)
        } else {
            None
        },
        None => None,
    }
}

/// What the bytes mean as a count of days, each byte taken as one character.
fn day_count_from_bytes(bytes: &[u8]) -> (parsed: Option<i32>)
    ensures
        match day_count_value(byte_chars(bytes@)) {
            Some(value) => parsed == Some(value as i32),
            None => parsed is None,
        },
{
    proof {
        assert(byte_chars(bytes@).subrange(0, bytes@.len() as int) =~= byte_chars(bytes@));
    }
    match signed_number(bytes, 0) {
        Some((negative, size)) => {
            if negative {
                if size > 2_147_483_648 {
                    None
                } else {
                    Some((-(size as i64)) as i32)
                }
            } else {
                if size > 2_147_483_647 {
                    None
                } else {
                    Some(size as i32)
                }
            }
        },
        None => None,
    }
}

/// Reads `text` as a count of days: an optional sign followed by digits and
/// nothing else. `None` where `text` is no such number or the number does not
/// fit in an `i32`.
pub fn parse_day_count(text: &str) -> (parsed: Option<i32>)
    ensures
        match day_count_value(text@) {
            Some(value) => parsed == Some(value as i32),
            None => parsed is None,
        },
{
    if !text.is_ascii() {
        proof {
            if integer_value(text@) is Some {
                lemma_integer_is_ascii(text@);
            }
        }
        return None;
    }
    let bytes = text.as_bytes();
    proof {
        is_ascii_spec_bytes(text);
        assert(text@ =~= byte_chars(bytes@));
    }
    day_count_from_bytes(bytes)
}

/// Whether `answer` says yes to going back to the menu: the one letter `Y`,
/// in either case.
pub open spec fn says_yes(answer: Seq<char>) -> bool {
    answer.len() == 1 && (answer[0] == 'Y' || answer[0] == 'y')
}

/// Whether the line that answers "Back to the Main Menu (Y/N)" is a yes: the
/// single letter `Y` or `y`, with or without white space around it. Any other
/// line counts as a no.
pub fn return_menu(line: &str) -> (yes: bool)
    ensures
        yes == says_yes(trimmed(line@)),
{
    let answer = trim(line);
    if answer.unicode_len() != 1 {
        return false;
    }
    let letter = answer.get_char(0);
    letter == 'Y' || letter == 'y'
}

/// A transaction of the main menu.
#[derive(Clone, Copy, Debug, PartialEq, Eq, Structural)]
pub enum MenuChoice {
    /// Register the account name.
    Register,
    /// Deposit an amount.
    Deposit,
    /// Withdraw an amount.
    Withdraw,
    /// Exchange one currency for another.
    Exchange,
    /// Record an exchange rate.
    RecordRate,
    /// Show the interest computation.
    ShowInterest,
    /// Leave the program.
    Exit,
}

/// The transaction that the entry `choice` of the menu selects: the digits
/// `1` to `7` select the seven transactions in order, and nothing else
/// selects anything.
pub open spec fn chosen(choice: Seq<char>) -> Option<MenuChoice> {
    if choice.len() != 1 {
        None
    } else if choice[0] == '1' {
        Some(MenuChoice::Register)
    } else if choice[0] == '2' {
        Some(MenuChoice::Deposit)
    } else if choice[0] == '3' {
        Some(MenuChoice::Withdraw)
    } else if choice[0] == '4' {
        Some(MenuChoice::Exchange)
    } else if choice[0] == '5' {
        Some(MenuChoice::RecordRate)
    } else if choice[0] == '6' {
        Some(MenuChoice::ShowInterest)
    } else if choice[0] == '7' {
        Some(MenuChoice::Exit)
    } else {
        None
    }
}

/// The transaction that the line `line` selects from the main menu, white
/// space around it set aside, or `None` for a choice that the menu does not
/// offer.
pub fn menu_choice(line: &str) -> (selected: Option<MenuChoice>)
    ensures
        selected == chosen(trimmed(line@)),
{
    let choice = trim(line);
    if choice.unicode_len() != 1 {
        return None;
    }
    let entry = choice.get_char(0);
    if entry == '1' {
        Some(MenuChoice::Register)
    } else if entry == '2' {
        Some(MenuChoice::Deposit)
    } else if entry == '3' {
        Some(MenuChoice::Withdraw)
    } else if entry == '4' {
        Some(MenuChoice::Exchange)
    } else if entry == '5' {
        Some(MenuChoice::RecordRate)
    } else if entry == '6' {
        Some(MenuChoice::ShowInterest)
    } else if entry == '7' {
        Some(MenuChoice::Exit)
    } else {
        None
    }
}

} // verus!
