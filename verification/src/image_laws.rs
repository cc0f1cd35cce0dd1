//! What holds of the reading of sixel images.

#![allow(unused_imports)]

use crate::action::{RgbColor, SixelData, SixelView};
use crate::sixel::{
    all_digits, blank_image, color_item, decimal, digit_length, digits_end, is_digit, item_at,
    lemma_digits_end, lemma_item_end, lemma_spans_fewer, lemma_spans_ordered, number_at,
    number_spans, or_default, raster_count, raster_item, scale_percent, SixelItem, COLOR, RASTER,
    REPEAT, SEPARATOR,
};
use crate::tcap::{joined, lemma_joined};
use crate::text::{char_length, lemma_char_length, unicode_digit};
use vstd::prelude::*;

verus! {

/// A digit is an ASCII digit, which takes one byte, or a character beyond ASCII
/// that is a decimal digit of its script, which takes all of its bytes.
pub proof fn lemma_digit_length(text: Seq<u8>, at: int)
    ensures
        !(0 <= at < text.len()) ==> digit_length(text, at) == 0,
        0 <= at < text.len() && 0x30 <= text[at] <= 0x39 ==> digit_length(text, at) == 1,
        0 <= at < text.len() && text[at] < 0x30 ==> digit_length(text, at) == 0,
        0 <= at < text.len() && 0x39 < text[at] < 0x80 ==> digit_length(text, at) == 0,
        0 <= at < text.len() && 0x80 <= text[at] && char_length(text, at) > 0 && unicode_digit(
            text.subrange(at, at + char_length(text, at)),
        ) ==> digit_length(text, at) == char_length(text, at),
        0 <= at < text.len() && 0x80 <= text[at] && !(char_length(text, at) > 0
            && unicode_digit(text.subrange(at, at + char_length(text, at)))) ==> digit_length(
            text,
            at,
        ) == 0,
        0 <= digit_length(text, at),
        digit_length(text, at) > 0 ==> 0 <= at && at + digit_length(text, at) <= text.len(),
{
    lemma_char_length(text, at);
}

/// Digits end where the next character is no digit, and not before.
pub proof fn lemma_digits_run(text: Seq<u8>, start: int)
    ensures
        digit_length(text, start) == 0 ==> digits_end(text, start) == start,
        digit_length(text, start) > 0 ==> digits_end(text, start) == digits_end(
            text,
            start + digit_length(text, start),
        ),
        digit_length(text, digits_end(text, start)) == 0,
    decreases text.len() - start,
{
    lemma_digit_length(text, start);
    if digit_length(text, start) > 0 {
        lemma_digits_run(text, start + digit_length(text, start));
    }
}

/// One digit more counts ten times what is before it.
pub proof fn lemma_decimal(digits: Seq<u8>, digit: u8)
    requires
        0x30 <= digit <= 0x39,
    ensures
        decimal(Seq::empty()) == 0,
        decimal(digits.push(digit)) == 10 * decimal(digits) + (digit - 0x30),
{
    assert(digits.push(digit).drop_last() == digits);
}

/// A percentage below one hundred is scaled by 255, and rounded down to a
/// hundredth part; from one hundred on it is all of the scale.
pub proof fn lemma_scale_percent(percent: nat)
    ensures
        percent >= 100 ==> scale_percent(percent) == 255,
        percent < 100 ==> 100 * scale_percent(percent) <= 255 * percent < 100 * (scale_percent(
            percent,
        ) + 1),
{
}

/// The digits of a number.
pub open spec fn written(number: nat) -> Seq<u8>
    decreases number,
{
    if number < 10 {
        seq![(0x30 + number) as u8]
    } else {
        written(number / 10).push((0x30 + number % 10) as u8)
    }
}

/// Whether `digits` is a number: digits, and one at least.
pub open spec fn is_number(digits: Seq<u8>) -> bool {
    digits.len() > 0 && digits_end(digits, 0) == digits.len()
}

/// What a number counts for: its value where it is written in ASCII digits and
/// at most `max`, and `default` otherwise.
pub open spec fn value_or(digits: Seq<u8>, max: nat, default: nat) -> nat {
    if (forall|i: int| 0 <= i < digits.len() ==> 0x30 <= #[trigger] digits[i] <= 0x39) && decimal(
        digits,
    ) <= max {
        decimal(digits)
    } else {
        default
    }
}

proof fn lemma_ascii_run(text: Seq<u8>, start: int)
    requires
        0 <= start <= text.len(),
        forall|i: int| start <= i < text.len() ==> 0x30 <= #[trigger] text[i] <= 0x39,
    ensures
        digits_end(text, start) == text.len(),
    decreases text.len() - start,
{
    if start < text.len() {
        assert(0x30 <= text[start] <= 0x39);
        lemma_ascii_run(text, start + 1);
    }
}

/// The digits of a number are ASCII digits, and are read as that number; as
/// `default` where it is more than `max`.
pub proof fn lemma_written(number: nat, max: nat, default: nat)
    ensures
        is_number(written(number)),
        forall|i: int|
            0 <= i < written(number).len() ==> 0x30 <= #[trigger] written(number)[i] <= 0x39,
        decimal(written(number)) == number,
        number <= max ==> value_or(written(number), max, default) == number,
        number > max ==> value_or(written(number), max, default) == default,
    decreases number,
{
    let digits = written(number);
    if number < 10 {
        assert(digits.drop_last() == Seq::<u8>::empty());
        reveal_with_fuel(decimal, 2);
        assert forall|i: int| 0 <= i < digits.len() implies 0x30 <= #[trigger] digits[i]
            <= 0x39 by {
            assert(i == 0);
        }
    } else {
        lemma_written(number / 10, max, default);
        lemma_decimal(written(number / 10), (0x30 + number % 10) as u8);
        assert forall|i: int| 0 <= i < digits.len() implies 0x30 <= #[trigger] digits[i]
            <= 0x39 by {
            if i < written(number / 10).len() {
                assert(digits[i] == written(number / 10)[i]);
            }
        }
    }
    lemma_ascii_run(digits, 0);
}

/// A number is digits to its end, and one at least; any ASCII digits are one.
pub proof fn lemma_is_number(digits: Seq<u8>)
    ensures
        is_number(digits) <==> digits.len() > 0 && digits_end(digits, 0) == digits.len(),
        digits.len() > 0 && (forall|i: int|
            0 <= i < digits.len() ==> 0x30 <= #[trigger] digits[i] <= 0x39) ==> is_number(digits),
        is_number(digits) ==> digit_length(digits, 0) > 0,
{
    if digits.len() > 0 && (forall|i: int|
        0 <= i < digits.len() ==> 0x30 <= #[trigger] digits[i] <= 0x39) {
        lemma_ascii_run(digits, 0);
    }
    lemma_digits_run(digits, 0);
}

/// A number counts for its value where it is written in ASCII digits, with or
/// without zeros in front, and is at most `max`; otherwise for `default`.
pub proof fn lemma_value_or(digits: Seq<u8>, i: int, max: nat, default: nat)
    ensures
        (forall|k: int| 0 <= k < digits.len() ==> 0x30 <= #[trigger] digits[k] <= 0x39) && decimal(
            digits,
        ) <= max ==> value_or(digits, max, default) == decimal(digits),
        decimal(digits) > max ==> value_or(digits, max, default) == default,
        0 <= i < digits.len() && !(0x30 <= digits[i] <= 0x39) ==> value_or(digits, max, default)
            == default,
{
}

proof fn lemma_number_value(text: Seq<u8>, span: (int, int), digits: Seq<u8>, max: nat)
    requires
        text.subrange(span.0, span.1) == digits,
    ensures
        or_default(number_at(text, span, max), 0) == value_or(digits, max, 0),
        or_default(number_at(text, span, max), 1) == value_or(digits, max, 1),
        or_default(number_at(text, span, max), 2) == value_or(digits, max, 2),
        number_at(text, span, max) is Some <==> all_digits(digits) && decimal(digits) <= max,
        number_at(text, span, max) matches Some(value) ==> value == decimal(digits),
        all_digits(digits) <==> (forall|i: int|
            0 <= i < digits.len() ==> 0x30 <= #[trigger] digits[i] <= 0x39),
{
    if all_digits(digits) {
        assert forall|i: int| 0 <= i < digits.len() implies 0x30 <= #[trigger] digits[i]
            <= 0x39 by {
            assert(is_digit(digits[i]));
        }
    }
}

proof fn lemma_char_shift(text: Seq<u8>, start: int, at: int)
    requires
        0 <= start <= text.len(),
        0 <= at,
    ensures
        char_length(text, start + at) == char_length(text.skip(start), at),
        digit_length(text, start + at) == digit_length(text.skip(start), at),
{
    let rest = text.skip(start);
    if at < rest.len() {
        assert(rest.skip(at) == text.skip(start + at));
        let length = char_length(rest, at);
        lemma_char_length(rest, at);
        if length > 0 {
            assert(rest.subrange(at, at + length) == text.subrange(
                start + at,
                start + at + length,
            ));
        }
    }
}

proof fn lemma_digits_shift(text: Seq<u8>, start: int, at: int)
    requires
        0 <= start <= text.len(),
        0 <= at,
    ensures
        digits_end(text, start + at) == start + digits_end(text.skip(start), at),
    decreases text.len() - start - at,
{
    let rest = text.skip(start);
    lemma_char_shift(text, start, at);
    lemma_digit_length(rest, at);
    let length = digit_length(rest, at);
    if length > 0 {
        lemma_digits_shift(text, start, at + length);
    }
}

spec fn shifted(spans: Seq<(int, int)>, by: int) -> Seq<(int, int)> {
    Seq::new(spans.len(), |i: int| (spans[i].0 + by, spans[i].1 + by))
}

proof fn lemma_spans_shift(text: Seq<u8>, start: int, at: int, count: nat)
    requires
        0 <= start <= text.len(),
        0 <= at <= text.len() - start,
    ensures
        match number_spans(text.skip(start), at, count) {
            None => number_spans(text, start + at, count) is None,
            Some(spans) => {
                &&& spans.len() == count
                &&& number_spans(text, start + at, count) == Some(shifted(spans, start))
                &&& forall|i: int|
                    0 <= i < count ==> at <= (#[trigger] spans[i]).0 < spans[i].1 <= text.len()
                        - start
            },
        },
    decreases count,
{
    let rest = text.skip(start);
    if count > 0 {
        let fewer = (count - 1) as nat;
        lemma_spans_shift(text, start, at, fewer);
        if let Some(before) = number_spans(rest, at, fewer) {
            let next = if count == 1 {
                at
            } else {
                before.last().1 + 1
            };
            if count > 1 {
                assert(before.last() == before[fewer - 1]);
                assert(shifted(before, start).last() == (
                    before.last().0 + start,
                    before.last().1 + start,
                ));
            }
            if next <= rest.len() {
                lemma_digits_shift(text, start, next);
                lemma_digits_end(rest, next);
            }
            if let Some(spans) = number_spans(rest, at, count) {
                assert(spans == before.push((next, digits_end(rest, next))));
                assert(shifted(spans, start) == shifted(before, start).push(
                    (start + next, start + digits_end(rest, next)),
                ));
            }
        }
    } else {
        assert(shifted(Seq::empty(), start) == Seq::<(int, int)>::empty());
    }
}

proof fn lemma_number_shift(text: Seq<u8>, start: int, span: (int, int), max: nat)
    requires
        0 <= start <= text.len(),
        0 <= span.0 <= span.1 <= text.len() - start,
    ensures
        number_at(text, (span.0 + start, span.1 + start), max) == number_at(
            text.skip(start),
            span,
            max,
        ),
{
    assert(text.subrange(span.0 + start, span.1 + start) == text.skip(start).subrange(
        span.0,
        span.1,
    ));
}

proof fn lemma_numbers_shift(text: Seq<u8>, start: int, spans: Seq<(int, int)>)
    requires
        0 <= start <= text.len(),
        forall|i: int|
            0 <= i < spans.len() ==> 0 <= (#[trigger] spans[i]).0 <= spans[i].1 <= text.len()
                - start,
    ensures
        forall|i: int, max: nat|
            0 <= i < spans.len() ==> #[trigger] number_at(text, shifted(spans, start)[i], max)
                == number_at(text.skip(start), spans[i], max),
{
    assert forall|i: int, max: nat| 0 <= i < spans.len() implies #[trigger] number_at(
        text,
        shifted(spans, start)[i],
        max,
    ) == number_at(text.skip(start), spans[i], max) by {
        lemma_number_shift(text, start, spans[i], max);
    }
}

spec fn is_shifted(text: Seq<u8>, start: int) -> bool {
    match item_at(text.skip(start), 0) {
        None => item_at(text, start) is None,
        Some((item, end)) => item_at(text, start) == Some((item, start + end)),
    }
}

proof fn lemma_raster_shift(text: Seq<u8>, start: int)
    requires
        0 <= start < text.len(),
        text[start] == RASTER,
    ensures
        is_shifted(text, start),
{
    let rest = text.skip(start);
    assert(rest[0] == text[start]);
    lemma_spans_shift(text, start, 1, 2);
    lemma_spans_shift(text, start, 1, 3);
    lemma_spans_shift(text, start, 1, 4);
    let count = raster_count(rest, 1);
    assert(raster_count(text, start + 1) == count);
    if let Some(spans) = number_spans(rest, 1, count) {
        assert(spans.last() == spans[count - 1]);
        assert(shifted(spans, start).last().1 == spans.last().1 + start);
        lemma_numbers_shift(text, start, spans);
        assert(raster_item(text, shifted(spans, start)) == raster_item(rest, spans));
    }
}

proof fn lemma_color_shift(text: Seq<u8>, start: int)
    requires
        0 <= start < text.len(),
        text[start] == COLOR,
    ensures
        is_shifted(text, start),
{
    let rest = text.skip(start);
    assert(rest[0] == text[start]);
    lemma_spans_shift(text, start, 1, 1);
    lemma_spans_shift(text, start, 1, 5);
    if let Some(spans) = number_spans(rest, 1, 1) {
        lemma_numbers_shift(text, start, spans);
        let end = spans[0].1;
        lemma_char_shift(text, start, end);
        assert(end < rest.len() ==> rest[end] == text[start + end]);
        assert(shifted(spans, start)[0].1 == end + start);
        assert(number_at(text, shifted(spans, start)[0], u16::MAX as nat) == number_at(
            rest,
            spans[0],
            u16::MAX as nat,
        ));
    }
    if let Some(five) = number_spans(rest, 1, 5) {
        assert(five.last() == five[4]);
        assert(shifted(five, start).last().1 == five.last().1 + start);
        lemma_numbers_shift(text, start, five);
        assert(color_item(text, shifted(five, start)) == color_item(rest, five));
    }
}

proof fn lemma_repeat_shift(text: Seq<u8>, start: int)
    requires
        0 <= start < text.len(),
        text[start] == REPEAT,
    ensures
        is_shifted(text, start),
{
    let rest = text.skip(start);
    assert(rest[0] == text[start]);
    lemma_spans_shift(text, start, 1, 1);
    if let Some(spans) = number_spans(rest, 1, 1) {
        lemma_numbers_shift(text, start, spans);
        let end = spans[0].1;
        assert(end < rest.len() ==> rest[end] == text[start + end]);
        assert(shifted(spans, start)[0].1 == end + start);
        assert(number_at(text, shifted(spans, start)[0], u32::MAX as nat) == number_at(
            rest,
            spans[0],
            u32::MAX as nat,
        ));
    }
}

proof fn lemma_item_shift(text: Seq<u8>, start: int)
    requires
        0 <= start <= text.len(),
    ensures
        is_shifted(text, start),
{
    let rest = text.skip(start);
    if start < text.len() {
        assert(rest[0] == text[start]);
        if rest[0] == RASTER {
            lemma_raster_shift(text, start);
        } else if rest[0] == COLOR {
            lemma_color_shift(text, start);
        } else if rest[0] == REPEAT {
            lemma_repeat_shift(text, start);
        }
    }
}

spec fn after_item(image: SixelView, text: Seq<u8>, item: SixelItem, end: int) -> SixelView {
    match item {
        SixelItem::Instruction(data) => image.draw(data).read(text, end),
        SixelItem::Raster { pan, pad, pixel_width, pixel_height } => {
            let resized = image.resize(pan, pad, pixel_width, pixel_height);
            if resized.is_too_large() {
                resized.discard()
            } else {
                resized.read(text, end)
            }
        },
    }
}

proof fn lemma_read_item(image: SixelView, text: Seq<u8>, start: int, item: SixelItem, end: int)
    requires
        item_at(text, start) == Some((item, end)),
    ensures
        image.read(text, start) == after_item(image, text, item, end),
{
}

proof fn lemma_read_none(image: SixelView, text: Seq<u8>, start: int)
    requires
        item_at(text, start) is None,
    ensures
        image.read(text, start) == image,
{
}

proof fn lemma_after_item(
    image: SixelView,
    text: Seq<u8>,
    start: int,
    item: SixelItem,
    end: int,
)
    requires
        0 <= start <= text.len(),
        0 < end <= text.len() - start,
    ensures
        after_item(image, text, item, start + end) == after_item(
            image,
            text.skip(start),
            item,
            end,
        ),
    decreases text.len() - start, 0int,
{
    let rest = text.skip(start);
    let next = match item {
        SixelItem::Instruction(data) => image.draw(data),
        SixelItem::Raster { pan, pad, pixel_width, pixel_height } => image.resize(
            pan,
            pad,
            pixel_width,
            pixel_height,
        ),
    };
    lemma_read_suffix(next, text, start + end);
    lemma_read_suffix(next, rest, end);
    assert(rest.skip(end) == text.skip(start + end));
}

/// What is read of a text depends on what is still to be read, and on nothing
/// that was read before.
pub proof fn lemma_read_suffix(image: SixelView, text: Seq<u8>, start: int)
    requires
        0 <= start <= text.len(),
    ensures
        image.read(text, start) == image.read(text.skip(start), 0),
    decreases text.len() - start, 1int,
{
    let rest = text.skip(start);
    lemma_item_shift(text, start);
    match item_at(rest, 0) {
        Some((item, end)) => {
            lemma_item_end(rest, 0);
            lemma_read_item(image, text, start, item, start + end);
            lemma_read_item(image, rest, 0, item, end);
            lemma_after_item(image, text, start, item, end);
        },
        None => {
            lemma_read_none(image, text, start);
            lemma_read_none(image, rest, 0);
        },
    }
}

proof fn lemma_char_prefix(text: Seq<u8>, rest: Seq<u8>, at: int)
    requires
        0 <= at,
    ensures
        char_length(text, at) > 0 ==> char_length(text + rest, at) == char_length(text, at),
        digit_length(text, at) > 0 ==> digit_length(text + rest, at) == digit_length(text, at),
{
    let whole = text + rest;
    lemma_char_length(text, at);
    lemma_digit_length(text, at);
    let length = char_length(text, at);
    if length > 0 {
        let part = text.skip(at);
        let long = whole.skip(at);
        assert(forall|i: int| 0 <= i < part.len() ==> part[i] == long[i]);
        assert(vstd::utf8::valid_first_scalar(long));
        assert(whole.subrange(at, at + length) == text.subrange(at, at + length));
    }
}

proof fn lemma_digits_before(digits: Seq<u8>, rest: Seq<u8>, at: int)
    requires
        0 <= at <= digits.len(),
        digits_end(digits, at) == digits.len(),
        digit_length(rest, 0) == 0,
    ensures
        digits_end(digits + rest, at) == digits.len(),
    decreases digits.len() - at,
{
    let whole = digits + rest;
    if at < digits.len() {
        lemma_digits_run(digits, at);
        lemma_digit_length(digits, at);
        lemma_char_prefix(digits, rest, at);
        lemma_digits_before(digits, rest, at + digit_length(digits, at));
    } else {
        assert(whole.skip(at) == rest);
        lemma_char_shift(whole, at, 0);
    }
}

proof fn lemma_number_here(text: Seq<u8>, at: int, digits: Seq<u8>, rest: Seq<u8>)
    requires
        0 <= at <= text.len(),
        text.skip(at) == digits + rest,
        is_number(digits),
        digit_length(rest, 0) == 0,
    ensures
        digits_end(text, at) == at + digits.len(),
        text.subrange(at, at + digits.len()) == digits,
{
    lemma_digits_before(digits, rest, 0);
    lemma_digits_shift(text, at, 0);
    assert(text.subrange(at, at + digits.len()) == text.skip(at).subrange(
        0,
        digits.len() as int,
    ));
    assert((digits + rest).subrange(0, digits.len() as int) == digits);
}

/// Whether `rest` starts with a semicolon and a digit, and so with one number
/// more of a list.
pub open spec fn starts_number(rest: Seq<u8>) -> bool {
    rest.len() > 0 && rest[0] == 0x3b && digit_length(rest, 1) > 0
}

spec fn are_numbers(numbers: Seq<Seq<u8>>) -> bool {
    forall|i: int| 0 <= i < numbers.len() ==> is_number(#[trigger] numbers[i])
}

proof fn lemma_spans_joined(text: Seq<u8>, start: int, numbers: Seq<Seq<u8>>, rest: Seq<u8>)
    requires
        0 <= start <= text.len(),
        numbers.len() > 0,
        are_numbers(numbers),
        digit_length(rest, 0) == 0,
        text.skip(start) == joined(numbers) + rest,
    ensures
        ({
            let spans = number_spans(text, start, numbers.len())->0;
            &&& number_spans(text, start, numbers.len()) is Some
            &&& spans.len() == numbers.len()
            &&& spans.last().1 == start + joined(numbers).len()
            &&& forall|i: int|
                0 <= i < numbers.len() ==> text.subrange(
                    (#[trigger] spans[i]).0,
                    spans[i].1,
                ) == numbers[i]
        }),
    decreases numbers.len(),
{
    let last = numbers.last();
    assert(is_number(numbers[numbers.len() - 1]));
    reveal_with_fuel(number_spans, 2);
    if numbers.len() == 1 {
        assert(joined(numbers) == last);
        lemma_number_here(text, start, last, rest);
    } else {
        let before = numbers.drop_last();
        let tail = seq![0x3bu8] + last + rest;
        assert forall|i: int| 0 <= i < before.len() implies is_number(#[trigger] before[i]) by {
            assert(is_number(numbers[i]));
        }
        assert(joined(numbers) + rest == joined(before) + tail);
        lemma_digit_length(tail, 0);
        lemma_spans_joined(text, start, before, tail);
        let end = start + joined(before).len();
        assert(text.skip(start).skip(end - start) == text.skip(end));
        assert((joined(before) + tail).skip(joined(before).len() as int) == tail);
        assert(text.skip(end)[0] == text[end]);
        assert(text.skip(end).skip(1) == text.skip(end + 1));
        assert(tail.skip(1) == last + rest);
        lemma_number_here(text, end + 1, last, rest);
        let spans = number_spans(text, start, before.len())->0;
        assert(number_spans(text, start, numbers.len()) == Some(
            spans.push((end + 1, end + 1 + last.len())),
        ));
        let all = spans.push((end + 1, end + 1 + last.len()));
        assert forall|i: int| 0 <= i < numbers.len() implies text.subrange(
            (#[trigger] all[i]).0,
            all[i].1,
        ) == numbers[i] by {
            if i < before.len() {
                assert(all[i] == spans[i]);
            }
        }
    }
}

proof fn lemma_no_more_numbers(
    text: Seq<u8>,
    start: int,
    count: nat,
    spans: Seq<(int, int)>,
    rest: Seq<u8>,
    more: nat,
)
    requires
        0 <= start <= text.len(),
        count > 0,
        number_spans(text, start, count) == Some(spans),
        text.skip(spans.last().1) == rest,
        !starts_number(rest),
        more > count,
    ensures
        number_spans(text, start, more) is None,
{
    lemma_spans_ordered(text, start, count, spans);
    let end = spans.last().1;
    if end < text.len() {
        assert(rest[0] == text[end]);
        lemma_char_shift(text, end, 1);
        lemma_digits_run(text, end + 1);
    }
    assert(number_spans(text, start, count + 1) is None);
    lemma_spans_fewer(text, start, count + 1, more);
}

proof fn lemma_no_number(text: Seq<u8>, start: int, count: nat)
    requires
        count > 0,
        digit_length(text, start) == 0,
    ensures
        number_spans(text, start, count) is None,
{
    reveal_with_fuel(number_spans, 2);
    lemma_digits_run(text, start);
    assert(number_spans(text, start, 1) is None);
    lemma_spans_fewer(text, start, 1, count);
}

/// Nothing is read of an empty text, nor behind a byte that starts nothing.
pub proof fn lemma_read_stops(image: SixelView, rest: Seq<u8>, byte: u8)
    ensures
        image.read(Seq::empty(), 0) == image,
        byte != 0x21 && byte != 0x22 && byte != 0x23 && byte != 0x24 && byte != 0x2d && !(0x3f
            <= byte <= 0x7e) ==> image.read(seq![byte] + rest, 0) == image,
{
    let text = seq![byte] + rest;
    assert(text[0] == byte);
}

/// A dollar sign goes back to the left edge, a hyphen to the next line, and a
/// byte from `?` to `~` draws six pixels; then what follows is read.
pub proof fn lemma_read_byte(image: SixelView, rest: Seq<u8>, byte: u8)
    ensures
        image.read(seq![0x24u8] + rest, 0) == (SixelView {
            data: image.data.push(SixelData::CarriageReturn),
            ..image
        }).read(rest, 0),
        image.read(seq![0x2du8] + rest, 0) == (SixelView {
            data: image.data.push(SixelData::NewLine),
            ..image
        }).read(rest, 0),
        0x3f <= byte <= 0x7e ==> image.read(seq![byte] + rest, 0) == (SixelView {
            data: image.data.push(SixelData::Data((byte - 0x3f) as u8)),
            ..image
        }).read(rest, 0),
{
    lemma_read_one(image, rest, 0x24, SixelData::CarriageReturn);
    lemma_read_one(image, rest, 0x2d, SixelData::NewLine);
    if 0x3f <= byte <= 0x7e {
        lemma_read_one(image, rest, byte, SixelData::Data((byte - 0x3f) as u8));
    }
}

proof fn lemma_read_one(image: SixelView, rest: Seq<u8>, byte: u8, data: SixelData)
    requires
        item_at(seq![byte] + rest, 0) == Some((SixelItem::Instruction(data), 1int)),
    ensures
        image.read(seq![byte] + rest, 0) == (SixelView {
            data: image.data.push(data),
            ..image
        }).read(rest, 0),
{
    lemma_read_instruction(image, seq![byte], rest, data);
}

proof fn lemma_read_instruction(
    image: SixelView,
    instruction: Seq<u8>,
    rest: Seq<u8>,
    data: SixelData,
)
    requires
        item_at(instruction + rest, 0) == Some(
            (SixelItem::Instruction(data), instruction.len() as int),
        ),
    ensures
        image.read(instruction + rest, 0) == (SixelView {
            data: image.data.push(data),
            ..image
        }).read(rest, 0),
{
    let text = instruction + rest;
    let end = instruction.len() as int;
    lemma_read_item(image, text, 0, SixelItem::Instruction(data), end);
    lemma_read_suffix(image.draw(data), text, end);
    assert(text.skip(end) == rest);
}

/// A quotation mark, a number sign or an exclamation mark without a number
/// behind it starts nothing.
pub proof fn lemma_read_no_number(image: SixelView, rest: Seq<u8>, byte: u8)
    requires
        byte == 0x21 || byte == 0x22 || byte == 0x23,
        digit_length(rest, 0) == 0,
    ensures
        image.read(seq![byte] + rest, 0) == image,
{
    let text = seq![byte] + rest;
    assert(text[0] == byte);
    assert(text.skip(1) == rest);
    lemma_char_shift(text, 1, 0);
    lemma_no_number(text, 1, 1);
    lemma_no_number(text, 1, 2);
    lemma_no_number(text, 1, 3);
    lemma_no_number(text, 1, 4);
    lemma_read_none(image, text, 0);
}

/// The size, in pixels, that a number of the raster attributes gives, if there
/// is such a number and it is not too large for that.
pub open spec fn size_of(numbers: Seq<Seq<u8>>, i: int) -> Option<u32> {
    if i < numbers.len() && value_or(numbers[i], 0xffff_ffff, 0x1_0000_0000) <= 0xffff_ffff {
        Some(value_or(numbers[i], 0xffff_ffff, 0x1_0000_0000) as u32)
    } else {
        None
    }
}

/// A size is given by a number that fits 32 bits, and by no other.
pub proof fn lemma_size_of(numbers: Seq<Seq<u8>>, i: int, size: u32)
    requires
        0 <= i,
    ensures
        i >= numbers.len() ==> size_of(numbers, i) is None,
        i < numbers.len() && (exists|k: int|
            0 <= k < numbers[i].len() && !(0x30 <= #[trigger] numbers[i][k] <= 0x39)) ==> size_of(
            numbers,
            i,
        ) is None,
        i < numbers.len() && decimal(numbers[i]) > 0xffff_ffff ==> size_of(numbers, i) is None,
        i < numbers.len() && (forall|k: int|
            0 <= k < numbers[i].len() ==> 0x30 <= #[trigger] numbers[i][k] <= 0x39) && decimal(
            numbers[i],
        ) == size ==> size_of(numbers, i) == Some(size),
{
}

/// One number more starts with a semicolon and a digit, and with nothing else.
pub proof fn lemma_starts_number(rest: Seq<u8>)
    ensures
        starts_number(rest) <==> rest.len() > 1 && rest[0] == 0x3b && digit_length(rest, 1) > 0,
{
    lemma_digit_length(rest, 1);
}

/// Two to four numbers behind a quotation mark are the aspect ratio, the width
/// and the height. The image is dropped exactly where it has both of these and
/// their product is more than a hundred million; otherwise it gets them, keeps
/// what was drawn, and what follows is read.
pub proof fn lemma_read_raster(image: SixelView, numbers: Seq<Seq<u8>>, rest: Seq<u8>)
    requires
        2 <= numbers.len() <= 4,
        forall|i: int| 0 <= i < numbers.len() ==> is_number(#[trigger] numbers[i]),
        digit_length(rest, 0) == 0,
        numbers.len() < 4 ==> !starts_number(rest),
    ensures
        ({
            let drawn = image.read(seq![0x22u8] + joined(numbers) + rest, 0);
            let pan = value_or(numbers[0], 0x7fff_ffff_ffff_ffff, 2) as i64;
            let pad = value_or(numbers[1], 0x7fff_ffff_ffff_ffff, 1) as i64;
            let width = size_of(numbers, 2);
            let height = size_of(numbers, 3);
            if width is Some && height is Some && width->0 * height->0 > 100_000_000 {
                drawn == (SixelView {
                    pan,
                    pad,
                    pixel_width: None,
                    pixel_height: None,
                    data: Seq::empty(),
                    ..image
                })
            } else {
                drawn == (SixelView {
                    pan,
                    pad,
                    pixel_width: width,
                    pixel_height: height,
                    ..image
                }).read(rest, 0)
            }
        }),
{
    let text = seq![0x22u8] + joined(numbers) + rest;
    let count = numbers.len();
    assert(text[0] == RASTER);
    assert(text.skip(1) == joined(numbers) + rest);
    lemma_spans_joined(text, 1, numbers, rest);
    let spans = number_spans(text, 1, count)->0;
    let end = spans.last().1;
    assert(text.skip(end) == rest);
    if count < 4 {
        lemma_no_more_numbers(text, 1, count, spans, rest, 4);
    }
    if count < 3 {
        lemma_no_more_numbers(text, 1, count, spans, rest, 3);
    }
    assert(raster_count(text, 1) == count);
    let item = raster_item(text, spans);
    lemma_number_value(text, spans[0], numbers[0], i64::MAX as nat);
    lemma_number_value(text, spans[1], numbers[1], i64::MAX as nat);
    if count > 2 {
        lemma_number_value(text, spans[2], numbers[2], u32::MAX as nat);
    }
    if count > 3 {
        lemma_number_value(text, spans[3], numbers[3], u32::MAX as nat);
    }
    let pan = value_or(numbers[0], 0x7fff_ffff_ffff_ffff, 2) as i64;
    let pad = value_or(numbers[1], 0x7fff_ffff_ffff_ffff, 1) as i64;
    let width = size_of(numbers, 2);
    let height = size_of(numbers, 3);
    assert(item == (SixelItem::Raster { pan, pad, pixel_width: width, pixel_height: height }));
    assert(item_at(text, 0) == Some((item, end)));
    lemma_read_item(image, text, 0, item, end);
    lemma_read_suffix(image.resize(pan, pad, width, height), text, end);
}

/// One number alone behind a quotation mark starts nothing.
pub proof fn lemma_read_raster_short(image: SixelView, number: Seq<u8>, rest: Seq<u8>)
    requires
        is_number(number),
        digit_length(rest, 0) == 0,
        !starts_number(rest),
    ensures
        image.read(seq![0x22u8] + number + rest, 0) == image,
{
    let text = seq![0x22u8] + number + rest;
    let numbers = seq![number];
    assert(joined(numbers) == number);
    assert(text[0] == RASTER);
    assert(text.skip(1) == joined(numbers) + rest);
    lemma_spans_joined(text, 1, numbers, rest);
    let spans = number_spans(text, 1, 1)->0;
    assert(text.skip(spans.last().1) == rest);
    lemma_no_more_numbers(text, 1, 1, spans, rest, 2);
    lemma_no_more_numbers(text, 1, 1, spans, rest, 3);
    lemma_no_more_numbers(text, 1, 1, spans, rest, 4);
    lemma_read_none(image, text, 0);
}

/// An image of `width` by `height` pixels is taken where it has a hundred
/// million pixels at most, and what follows is read; a larger one is dropped.
pub proof fn lemma_read_dimensions(
    image: SixelView,
    pan: i64,
    pad: i64,
    width: u32,
    height: u32,
    rest: Seq<u8>,
)
    requires
        0 <= pan,
        0 <= pad,
        digit_length(rest, 0) == 0,
    ensures
        ({
            let drawn = image.read(
                seq![0x22u8] + written(pan as nat) + seq![0x3bu8] + written(pad as nat) + seq![
                    0x3bu8,
                ] + written(width as nat) + seq![0x3bu8] + written(height as nat) + rest,
                0,
            );
            &&& width * height <= 100_000_000 ==> drawn == (SixelView {
                pan,
                pad,
                pixel_width: Some(width),
                pixel_height: Some(height),
                ..image
            }).read(rest, 0)
            &&& width * height > 100_000_000 ==> drawn == (SixelView {
                pan,
                pad,
                pixel_width: None,
                pixel_height: None,
                data: Seq::empty(),
                ..image
            })
        }),
{
    let a = written(pan as nat);
    let b = written(pad as nat);
    let c = written(width as nat);
    let d = written(height as nat);
    let numbers = seq![a, b, c, d];
    lemma_written(pan as nat, 0x7fff_ffff_ffff_ffff, 2);
    lemma_written(pad as nat, 0x7fff_ffff_ffff_ffff, 1);
    lemma_written(width as nat, 0xffff_ffff, 0x1_0000_0000);
    lemma_written(height as nat, 0xffff_ffff, 0x1_0000_0000);
    lemma_joined(seq![a], b);
    lemma_joined(seq![a, b], c);
    lemma_joined(seq![a, b, c], d);
    lemma_joined(Seq::empty(), a);
    assert(seq![a].push(b) == seq![a, b]);
    assert(seq![a, b].push(c) == seq![a, b, c]);
    assert(seq![a, b, c].push(d) == numbers);
    assert(seq![0x22u8] + joined(numbers) + rest == seq![0x22u8] + a + seq![0x3bu8] + b + seq![
        0x3bu8,
    ] + c + seq![0x3bu8] + d + rest);
    lemma_read_raster(image, numbers, rest);
}

/// A number behind a number sign selects that entry of the color map, where the
/// text ends behind it or a character follows that is no semicolon. Where
/// neither a character nor the end of the text follows, nothing is read.
pub proof fn lemma_read_select(image: SixelView, number: Seq<u8>, rest: Seq<u8>)
    requires
        is_number(number),
        digit_length(rest, 0) == 0,
    ensures
        rest.len() == 0 || (rest[0] != 0x3b && char_length(rest, 0) > 0) ==> image.read(
            seq![0x23u8] + number + rest,
            0,
        ) == (SixelView {
            data: image.data.push(
                SixelData::SelectColorMapEntry(value_or(number, 0xffff, 0) as u16),
            ),
            ..image
        }).read(rest, 0),
        rest.len() > 0 && char_length(rest, 0) == 0 ==> image.read(
            seq![0x23u8] + number + rest,
            0,
        ) == image,
{
    let instruction = seq![0x23u8] + number;
    let text = instruction + rest;
    let numbers = seq![number];
    assert(joined(numbers) == number);
    assert(text[0] == COLOR);
    assert(text.skip(1) == joined(numbers) + rest);
    lemma_spans_joined(text, 1, numbers, rest);
    let spans = number_spans(text, 1, 1)->0;
    let end = spans.last().1;
    assert(spans[0] == spans.last());
    assert(text.skip(end) == rest);
    lemma_char_shift(text, end, 0);
    lemma_number_value(text, spans[0], number, u16::MAX as nat);
    if rest.len() > 0 {
        assert(text[end] == rest[0]);
    }
    if rest.len() == 0 || (rest[0] != 0x3b && char_length(rest, 0) > 0) {
        let data = SixelData::SelectColorMapEntry(value_or(number, 0xffff, 0) as u16);
        assert(item_at(text, 0) == Some((SixelItem::Instruction(data), end)));
        lemma_read_instruction(image, instruction, rest, data);
    } else if char_length(rest, 0) == 0 {
        assert(!starts_number(rest)) by {
            if rest[0] == 0x3b {
                lemma_ascii_char(rest, 0);
            }
        }
        lemma_no_more_numbers(text, 1, 1, spans, rest, 5);
        lemma_read_none(image, text, 0);
    }
}

proof fn lemma_ascii_char(text: Seq<u8>, at: int)
    requires
        0 <= at < text.len(),
        text[at] < 0x80,
    ensures
        char_length(text, at) == 1,
{
    assert(text.skip(at)[0] == text[at]);
}

/// Fewer than five numbers behind a number sign start nothing, but one that has
/// no semicolon behind it.
pub proof fn lemma_read_color_short(image: SixelView, numbers: Seq<Seq<u8>>, rest: Seq<u8>)
    requires
        1 <= numbers.len() < 5,
        forall|i: int| 0 <= i < numbers.len() ==> is_number(#[trigger] numbers[i]),
        digit_length(rest, 0) == 0,
        !starts_number(rest),
        numbers.len() == 1 ==> rest.len() > 0 && rest[0] == 0x3b,
    ensures
        image.read(seq![0x23u8] + joined(numbers) + rest, 0) == image,
{
    let text = seq![0x23u8] + joined(numbers) + rest;
    assert(text[0] == COLOR);
    assert(text.skip(1) == joined(numbers) + rest);
    lemma_spans_joined(text, 1, numbers, rest);
    let spans = number_spans(text, 1, numbers.len())->0;
    let end = spans.last().1;
    assert(text.skip(end) == rest);
    lemma_no_more_numbers(text, 1, numbers.len(), spans, rest, 5);
    lemma_first_span(text, 1, numbers.len(), spans);
    if numbers.len() == 1 {
        assert(text[end] == rest[0]);
    }
    lemma_read_none(image, text, 0);
}

proof fn lemma_first_span(text: Seq<u8>, start: int, count: nat, spans: Seq<(int, int)>)
    requires
        count > 0,
        number_spans(text, start, count) == Some(spans),
    ensures
        spans.len() == count,
        number_spans(text, start, 1) == Some(seq![spans[0]]),
        count > 1 ==> spans[0].1 < text.len() && text[spans[0].1] == SEPARATOR,
    decreases count,
{
    reveal_with_fuel(number_spans, 2);
    if count > 1 {
        let before = number_spans(text, start, (count - 1) as nat)->0;
        lemma_first_span(text, start, (count - 1) as nat, before);
    } else {
        assert(spans == seq![spans[0]]);
    }
}

/// Five numbers behind a number sign give an entry of the color map a color: by
/// hue, lightness and saturation where the second number counts for one, and
/// otherwise by three components in percent.
pub proof fn lemma_read_define(image: SixelView, numbers: Seq<Seq<u8>>, rest: Seq<u8>)
    requires
        numbers.len() == 5,
        forall|i: int| 0 <= i < numbers.len() ==> is_number(#[trigger] numbers[i]),
        digit_length(rest, 0) == 0,
    ensures
        image.read(seq![0x23u8] + joined(numbers) + rest, 0) == (SixelView {
            data: image.data.push(
                if value_or(numbers[1], 0x7fff_ffff, 1) == 1 {
                    SixelData::DefineColorMapHSL {
                        color_number: value_or(numbers[0], 0xffff, 0) as u16,
                        hue_angle: value_or(numbers[2], 0xffff, 0) as u16,
                        lightness: value_or(numbers[3], 0xff, 0) as u8,
                        saturation: value_or(numbers[4], 0xff, 0) as u8,
                    }
                } else {
                    SixelData::DefineColorMapRGB {
                        color_number: value_or(numbers[0], 0xffff, 0) as u16,
                        rgb: RgbColor {
                            red: scale_percent(value_or(numbers[2], 0xffff, 0)),
                            green: scale_percent(value_or(numbers[3], 0xff, 0)),
                            blue: scale_percent(value_or(numbers[4], 0xff, 0)),
                        },
                    }
                },
            ),
            ..image
        }).read(rest, 0),
{
    let instruction = seq![0x23u8] + joined(numbers);
    let text = instruction + rest;
    assert(text[0] == COLOR);
    assert(text.skip(1) == joined(numbers) + rest);
    lemma_spans_joined(text, 1, numbers, rest);
    let spans = number_spans(text, 1, 5)->0;
    let end = spans.last().1;
    lemma_first_span(text, 1, 5, spans);
    lemma_number_value(text, spans[0], numbers[0], u16::MAX as nat);
    lemma_number_value(text, spans[1], numbers[1], i32::MAX as nat);
    lemma_number_value(text, spans[2], numbers[2], u16::MAX as nat);
    lemma_number_value(text, spans[3], numbers[3], u8::MAX as nat);
    lemma_number_value(text, spans[4], numbers[4], u8::MAX as nat);
    let item = color_item(text, spans);
    assert(item_at(text, 0) == Some((item, end)));
    lemma_read_instruction(image, instruction, rest, item->Instruction_0);
}

/// A number behind an exclamation mark repeats the six pixels behind it; where
/// none are there, nothing is read.
pub proof fn lemma_read_repeat(image: SixelView, number: Seq<u8>, byte: u8, rest: Seq<u8>)
    requires
        is_number(number),
    ensures
        0x3f <= byte <= 0x7e ==> image.read(seq![0x21u8] + number + seq![byte] + rest, 0) == (
        SixelView {
            data: image.data.push(
                SixelData::Repeat {
                    repeat_count: value_or(number, 0xffff_ffff, 1) as u32,
                    data: (byte - 0x3f) as u8,
                },
            ),
            ..image
        }).read(rest, 0),
        digit_length(rest, 0) == 0 && (rest.len() == 0 || !(0x3f <= rest[0] <= 0x7e))
            ==> image.read(seq![0x21u8] + number + rest, 0) == image,
{
    if 0x3f <= byte <= 0x7e {
        let instruction = seq![0x21u8] + number + seq![byte];
        let text = instruction + rest;
        let tail = seq![byte] + rest;
        assert(text == seq![0x21u8] + number + tail);
        assert(tail[0] == byte);
        lemma_digit_length(tail, 0);
        lemma_repeat_number(text, number, tail);
        let data = SixelData::Repeat {
            repeat_count: value_or(number, 0xffff_ffff, 1) as u32,
            data: (byte - 0x3f) as u8,
        };
        assert(item_at(text, 0) == Some(
            (SixelItem::Instruction(data), instruction.len() as int),
        ));
        lemma_read_instruction(image, instruction, rest, data);
    }
    if digit_length(rest, 0) == 0 && (rest.len() == 0 || !(0x3f <= rest[0] <= 0x7e)) {
        let text = seq![0x21u8] + number + rest;
        lemma_repeat_number(text, number, rest);
        lemma_read_none(image, text, 0);
    }
}

proof fn lemma_repeat_number(text: Seq<u8>, number: Seq<u8>, rest: Seq<u8>)
    requires
        is_number(number),
        digit_length(rest, 0) == 0,
        text == seq![0x21u8] + number + rest,
    ensures
        text[0] == REPEAT,
        number_spans(text, 1, 1) is Some,
        ({
            let span = (number_spans(text, 1, 1)->0)[0];
            &&& span.1 == 1 + number.len()
            &&& rest.len() > 0 ==> span.1 < text.len() && text[span.1] == rest[0]
            &&& rest.len() == 0 ==> span.1 == text.len()
            &&& or_default(number_at(text, span, u32::MAX as nat), 1) == value_or(
                number,
                0xffff_ffff,
                1,
            )
        }),
{
    let numbers = seq![number];
    assert(joined(numbers) == number);
    assert(text.skip(1) == joined(numbers) + rest);
    lemma_spans_joined(text, 1, numbers, rest);
    let spans = number_spans(text, 1, 1)->0;
    assert(spans[0] == spans.last());
    lemma_number_value(text, spans[0], number, u32::MAX as nat);
}

/// What the parameters of an image say before anything is drawn: the aspect
/// ratio, whether the background is transparent, and the grid.
pub proof fn lemma_blank_image(params: Seq<i64>)
    ensures
        ({
            let image = blank_image(params);
            let ratio = if params.len() > 0 {
                params[0]
            } else {
                0
            };
            &&& ratio == 7 || ratio == 8 || ratio == 9 ==> image.pan == 1
            &&& ratio == 3 || ratio == 4 ==> image.pan == 3
            &&& ratio == 2 ==> image.pan == 5
            &&& ratio < 2 || ratio == 5 || ratio == 6 || ratio > 9 ==> image.pan == 2
            &&& image.pad == 1
            &&& image.pixel_width is None
            &&& image.pixel_height is None
            &&& image.background_is_transparent <==> params.len() > 1 && params[1] == 1
            &&& params.len() <= 2 ==> image.horizontal_grid_size is None
            &&& params.len() > 2 ==> image.horizontal_grid_size == Some(params[2])
            &&& image.data.len() == 0
        }),
{
}

} // verus!
