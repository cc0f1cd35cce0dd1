//! Sixel images.

use crate::action::{RgbColor, Sixel, SixelData};
#[allow(unused_imports)]
use crate::action::SixelView;
#[allow(unused_imports)]
use crate::text::{char_length, unicode_digit};
use crate::text::{find_char_length, is_unicode_digit};
use vstd::prelude::*;

verus! {

/// `!`, which introduces a repeated sixel.
pub const REPEAT: u8 = 0x21;

/// `"`, which introduces the raster attributes.
pub const RASTER: u8 = 0x22;

/// `#`, which introduces a color.
pub const COLOR: u8 = 0x23;

/// `$`, which goes back to the left edge.
pub const CARRIAGE_RETURN: u8 = 0x24;

/// `-`, which goes to the next line.
pub const NEW_LINE: u8 = 0x2d;

/// `;`, which separates numbers.
pub const SEPARATOR: u8 = 0x3b;

/// The first byte that stands for six pixels.
pub const FIRST_SIXEL: u8 = 0x3f;

/// The last byte that stands for six pixels.
pub const LAST_SIXEL: u8 = 0x7e;

/// The number of pixels beyond which an image is not taken.
pub const MAX_SIXEL_SIZE: u64 = 100_000_000;

/// Whether `byte` is an ASCII digit.
pub open spec fn is_digit(byte: u8) -> bool {
    0x30 <= byte <= 0x39
}

/// How many bytes the digit of `text` takes that starts at `at`: none where no
/// digit does. The decimal digits of all scripts count.
pub open spec fn digit_length(text: Seq<u8>, at: int) -> int {
    if 0 <= at < text.len() && text[at] < 0x80 {
        if is_digit(text[at]) {
            1
        } else {
            0
        }
    } else if char_length(text, at) > 0 && unicode_digit(
        text.subrange(at, at + char_length(text, at)),
    ) {
        char_length(text, at)
    } else {
        0
    }
}

/// Where the digits of `text` that start at `start` end.
pub open spec fn digits_end(text: Seq<u8>, start: int) -> int
    decreases text.len() - start,
{
    if digit_length(text, start) > 0 {
        digits_end(text, start + digit_length(text, start))
    } else {
        start
    }
}

/// The number that ASCII digits stand for.
pub open spec fn decimal(digits: Seq<u8>) -> nat
    decreases digits.len(),
{
    if digits.len() == 0 {
        0
    } else {
        (decimal(digits.drop_last()) * 10 + (digits.last() - 0x30)) as nat
    }
}

/// The places of `count` numbers in `text`, the first of which starts at
/// `start`, with a semicolon between one and the next.
pub open spec fn number_spans(text: Seq<u8>, start: int, count: nat) -> Option<Seq<(int, int)>>
    decreases count,
{
    if count == 0 {
        Some(Seq::empty())
    } else {
        match number_spans(text, start, (count - 1) as nat) {
            None => None,
            Some(before) => {
                let at = if count == 1 {
                    start
                } else {
                    before.last().1 + 1
                };
                if count > 1 && !(before.last().1 < text.len() && text[before.last().1]
                    == SEPARATOR) {
                    None
                } else if digits_end(text, at) > at {
                    Some(before.push((at, digits_end(text, at))))
                } else {
                    None
                }
            },
        }
    }
}

/// Whether all of `digits` are ASCII digits.
pub open spec fn all_digits(digits: Seq<u8>) -> bool {
    forall|i: int| 0 <= i < digits.len() ==> is_digit(#[trigger] digits[i])
}

/// The number at `span`, where it is written in ASCII digits and at most `max`.
pub open spec fn number_at(text: Seq<u8>, span: (int, int), max: nat) -> Option<nat> {
    let digits = text.subrange(span.0, span.1);
    if all_digits(digits) && decimal(digits) <= max {
        Some(decimal(digits))
    } else {
        None
    }
}

/// A component that is given in percent, on a scale that ends at 255.
pub open spec fn scale_percent(percent: nat) -> u8 {
    if percent * 255 / 100 >= 255 {
        255
    } else {
        (percent * 255 / 100) as u8
    }
}

pub(crate) proof fn lemma_digits_end(text: Seq<u8>, start: int)
    requires
        0 <= start <= text.len(),
    ensures
        start <= digits_end(text, start) <= text.len(),
    decreases text.len() - start,
{
    if digit_length(text, start) > 0 {
        lemma_digits_end(text, start + digit_length(text, start));
    }
}

/// Finds how many bytes the digit takes that starts at `at`.
fn find_digit_length(text: &Vec<u8>, at: usize) -> (length: usize)
    ensures
        length == digit_length(text@, at as int),
        length > 0 ==> at + length <= text@.len(),
{
    if at < text.len() && text[at] < 0x80 {
        if 0x30 <= text[at] && text[at] <= 0x39 {
            1
        } else {
            0
        }
    } else {
        let length = find_char_length(text, at);
        if length > 0 && is_unicode_digit(
            vstd::slice::slice_subrange(text.as_slice(), at, at + length),
        ) {
            length
        } else {
            0
        }
    }
}

/// Finds where the digits that start at `start` end.
fn find_digits_end(text: &Vec<u8>, start: usize) -> (end: usize)
    requires
        start <= text@.len(),
    ensures
        end == digits_end(text@, start as int),
        start <= end <= text@.len(),
{
    let mut end: usize = start;
    loop
        invariant
            start <= end <= text@.len(),
            digits_end(text@, start as int) == digits_end(text@, end as int),
        decreases text@.len() - end,
    {
        let length = find_digit_length(text, end);
        if length == 0 {
            return end;
        }
        assert(end + length <= text.len());
        end = end + length;
    }
}

proof fn lemma_decimal_prefix(digits: Seq<u8>, n: int)
    requires
        0 <= n <= digits.len(),
        all_digits(digits),
    ensures
        decimal(digits.take(n)) <= decimal(digits),
    decreases digits.len(),
{
    if n < digits.len() {
        lemma_decimal_prefix(digits.drop_last(), n);
        assert(digits.drop_last().take(n) == digits.take(n));
        assert(is_digit(digits[digits.len() - 1]));
    } else {
        assert(digits.take(n) == digits);
    }
}

/// Reads the number at `span`, where it is written in ASCII digits and at most
/// `max`.
fn read_number(text: &Vec<u8>, span: (usize, usize), max: u64) -> (value: Option<u64>)
    requires
        span.0 <= span.1 <= text@.len(),
    ensures
        match value {
            Some(v) => number_at(text@, (span.0 as int, span.1 as int), max as nat) == Some(
                v as nat,
            ),
            None => number_at(text@, (span.0 as int, span.1 as int), max as nat) is None,
        },
        value matches Some(v) ==> v <= max,
{
    let ghost digits = text@.subrange(span.0 as int, span.1 as int);
    let mut value: u128 = 0;
    let mut i: usize = span.0;
    while i < span.1
        invariant
            span.0 <= i <= span.1 <= text@.len(),
            digits == text@.subrange(span.0 as int, span.1 as int),
            all_digits(digits.take(i - span.0)),
            value == decimal(digits.take(i - span.0)),
            value <= max,
        decreases span.1 - i,
    {
        let ghost n = i - span.0;
        if text[i] < 0x30 || text[i] > 0x39 {
            assert(!is_digit(digits[n]));
            return None;
        }
        proof {
            assert(digits.take(n + 1).drop_last() == digits.take(n));
            assert forall|j: int| 0 <= j < n + 1 implies is_digit(
                #[trigger] digits.take(n + 1)[j],
            ) by {
                if j < n {
                    assert(is_digit(digits.take(n)[j]));
                }
            }
            if all_digits(digits) {
                lemma_decimal_prefix(digits, n + 1);
            }
        }
        value = value * 10 + (text[i] - 0x30) as u128;
        if value > max as u128 {
            return None;
        }
        i = i + 1;
    }
    proof {
        assert(digits.take(digits.len() as int) == digits);
    }
    Some(value as u64)
}

/// The places of numbers, as mathematical integers.
pub open spec fn span_views(spans: Seq<(usize, usize)>) -> Seq<(int, int)> {
    spans.map_values(|span: (usize, usize)| (span.0 as int, span.1 as int))
}

/// Whether each of `spans` lies in `text`.
spec fn spans_in(text: Seq<u8>, spans: Seq<(usize, usize)>) -> bool {
    forall|k: int|
        #![trigger spans[k]]
        0 <= k < spans.len() ==> spans[k].0 < spans[k].1 <= text.len()
}

pub(crate) proof fn lemma_spans_fewer(text: Seq<u8>, start: int, fewer: nat, count: nat)
    requires
        fewer <= count,
        number_spans(text, start, fewer) is None,
    ensures
        number_spans(text, start, count) is None,
    decreases count,
{
    if fewer < count {
        lemma_spans_fewer(text, start, fewer, (count - 1) as nat);
    }
}

/// Finds `count` numbers, the first of which starts at `start`.
fn find_spans(text: &Vec<u8>, start: usize, count: usize) -> (found: Option<Vec<(usize, usize)>>)
    requires
        start <= text@.len(),
    ensures
        match found {
            Some(spans) => {
                &&& number_spans(text@, start as int, count as nat) == Some(span_views(spans@))
                &&& spans@.len() == count
                &&& spans_in(text@, spans@)
            },
            None => number_spans(text@, start as int, count as nat) is None,
        },
{
    let mut spans: Vec<(usize, usize)> = Vec::new();
    let mut at: usize = start;
    assert(span_views(spans@) == Seq::<(int, int)>::empty());
    while spans.len() < count
        invariant
            start <= text@.len(),
            at <= text@.len(),
            spans@.len() <= count,
            number_spans(text@, start as int, spans@.len()) == Some(span_views(spans@)),
            spans_in(text@, spans@),
            spans@.len() == 0 ==> at == start,
            spans@.len() > 0 ==> at == spans@.last().1,
        decreases count - spans@.len(),
    {
        let ghost before = spans@;
        let ghost next = (spans@.len() + 1) as nat;
        assert(before.len() > 0 ==> span_views(before).last().1 == at);
        if spans.len() > 0 {
            if at >= text.len() || text[at] != SEPARATOR {
                proof {
                    lemma_spans_fewer(text@, start as int, next, count as nat);
                }
                return None;
            }
            at = at + 1;
        }
        let end = find_digits_end(text, at);
        proof {
            lemma_digits_end(text@, at as int);
        }
        if end == at {
            proof {
                lemma_spans_fewer(text@, start as int, next, count as nat);
            }
            return None;
        }
        spans.push((at, end));
        assert(span_views(spans@) == span_views(before).push((at as int, end as int)));
        at = end;
    }
    Some(spans)
}

/// One step in the reading of a sixel image: an instruction, or the raster
/// attributes.
#[derive(Debug, Clone, Copy, PartialEq, Eq)]
pub enum SixelItem {
    /// An instruction that draws.
    Instruction(SixelData),
    /// The aspect ratio of a pixel and the size of the image.
    Raster { pan: i64, pad: i64, pixel_width: Option<u32>, pixel_height: Option<u32> },
}

/// The value of `number`, or `default` where there is none.
pub open spec fn or_default(number: Option<nat>, default: nat) -> nat {
    match number {
        Some(value) => value,
        None => default,
    }
}

/// How many numbers, of two to four, the raster attributes have that start at
/// `start`.
pub open spec fn raster_count(text: Seq<u8>, start: int) -> nat {
    if number_spans(text, start, 4) is Some {
        4
    } else if number_spans(text, start, 3) is Some {
        3
    } else {
        2
    }
}

/// The raster attributes whose numbers are at `spans`.
pub open spec fn raster_item(text: Seq<u8>, spans: Seq<(int, int)>) -> SixelItem {
    SixelItem::Raster {
        pan: or_default(number_at(text, spans[0], i64::MAX as nat), 2) as i64,
        pad: or_default(number_at(text, spans[1], i64::MAX as nat), 1) as i64,
        pixel_width: if spans.len() > 2 {
            match number_at(text, spans[2], u32::MAX as nat) {
                Some(width) => Some(width as u32),
                None => None,
            }
        } else {
            None
        },
        pixel_height: if spans.len() > 3 {
            match number_at(text, spans[3], u32::MAX as nat) {
                Some(height) => Some(height as u32),
                None => None,
            }
        } else {
            None
        },
    }
}

/// The color definition whose numbers are at `spans`: the entry, the color
/// system and three components.
pub open spec fn color_item(text: Seq<u8>, spans: Seq<(int, int)>) -> SixelItem {
    let color_number = or_default(number_at(text, spans[0], u16::MAX as nat), 0) as u16;
    let system = or_default(number_at(text, spans[1], i32::MAX as nat), 1);
    let a = or_default(number_at(text, spans[2], u16::MAX as nat), 0);
    let b = or_default(number_at(text, spans[3], u8::MAX as nat), 0);
    let c = or_default(number_at(text, spans[4], u8::MAX as nat), 0);
    if system == 1 {
        SixelItem::Instruction(
            SixelData::DefineColorMapHSL {
                color_number,
                hue_angle: a as u16,
                lightness: b as u8,
                saturation: c as u8,
            },
        )
    } else {
        SixelItem::Instruction(
            SixelData::DefineColorMapRGB {
                color_number,
                rgb: RgbColor {
                    red: scale_percent(a),
                    green: scale_percent(b),
                    blue: scale_percent(c),
                },
            },
        )
    }
}

/// The item that starts at `start`, and where it ends. Behind the number of a
/// color that is selected the text ends or a character follows: bytes that are
/// not valid UTF-8 do not end the number.
pub open spec fn item_at(text: Seq<u8>, start: int) -> Option<(SixelItem, int)> {
    if !(0 <= start < text.len()) {
        None
    } else if text[start] == CARRIAGE_RETURN {
        Some((SixelItem::Instruction(SixelData::CarriageReturn), start + 1))
    } else if text[start] == NEW_LINE {
        Some((SixelItem::Instruction(SixelData::NewLine), start + 1))
    } else if FIRST_SIXEL <= text[start] <= LAST_SIXEL {
        Some(
            (
                SixelItem::Instruction(SixelData::Data((text[start] - FIRST_SIXEL) as u8)),
                start + 1,
            ),
        )
    } else if text[start] == RASTER {
        match number_spans(text, start + 1, raster_count(text, start + 1)) {
            Some(spans) => Some((raster_item(text, spans), spans.last().1)),
            None => None,
        }
    } else if text[start] == COLOR {
        match number_spans(text, start + 1, 1) {
            Some(spans) => {
                let end = spans[0].1;
                if end == text.len() || (char_length(text, end) > 0 && text[end] != SEPARATOR) {
                    Some(
                        (
                            SixelItem::Instruction(
                                SixelData::SelectColorMapEntry(
                                    or_default(
                                        number_at(text, spans[0], u16::MAX as nat),
                                        0,
                                    ) as u16,
                                ),
                            ),
                            end,
                        ),
                    )
                } else {
                    match number_spans(text, start + 1, 5) {
                        Some(five) => Some((color_item(text, five), five.last().1)),
                        None => None,
                    }
                }
            },
            None => None,
        }
    } else if text[start] == REPEAT {
        match number_spans(text, start + 1, 1) {
            Some(spans) => {
                let end = spans[0].1;
                if end < text.len() && FIRST_SIXEL <= text[end] <= LAST_SIXEL {
                    Some(
                        (
                            SixelItem::Instruction(
                                SixelData::Repeat {
                                    repeat_count: or_default(
                                        number_at(text, spans[0], u32::MAX as nat),
                                        1,
                                    ) as u32,
                                    data: (text[end] - FIRST_SIXEL) as u8,
                                },
                            ),
                            end + 1,
                        ),
                    )
                } else {
                    None
                }
            },
            None => None,
        }
    } else {
        None
    }
}

/// Reads the number at `span`, or `default` where it is not written in ASCII
/// digits or more than `max`.
fn read_number_or(text: &Vec<u8>, span: (usize, usize), max: u64, default: u64) -> (value: u64)
    requires
        span.0 <= span.1 <= text@.len(),
        default <= max,
    ensures
        value == or_default(
            number_at(text@, (span.0 as int, span.1 as int), max as nat),
            default as nat,
        ),
        value <= max,
{
    match read_number(text, span, max) {
        Some(value) => value,
        None => default,
    }
}

/// Scales a component that is given in percent.
fn percent_to_8bpc(percent: u64) -> (component: u8)
    requires
        percent <= u16::MAX,
    ensures
        component == scale_percent(percent as nat),
{
    let scaled: u64 = percent * 255 / 100;
    if scaled >= 255 {
        255
    } else {
        scaled as u8
    }
}

/// Reads the raster attributes behind a quotation mark.
fn read_raster(text: &Vec<u8>, start: usize) -> (item: Option<(SixelItem, usize)>)
    requires
        start < text@.len(),
        text@[start as int] == RASTER,
    ensures
        match item {
            Some((value, end)) => item_at(text@, start as int) == Some((value, end as int)),
            None => item_at(text@, start as int) is None,
        },
        item matches Some((_, end)) ==> start < end <= text@.len(),
{
    assert(start < text.len());
    let spans = match find_spans(text, start + 1, 4) {
        Some(spans) => spans,
        None => match find_spans(text, start + 1, 3) {
            Some(spans) => spans,
            None => match find_spans(text, start + 1, 2) {
                Some(spans) => spans,
                None => {
                    return None;
                },
            },
        },
    };
    let ghost views = span_views(spans@);
    assert(number_spans(text@, start + 1, raster_count(text@, start + 1)) == Some(views));
    let pan = read_number_or(text, spans[0], i64::MAX as u64, 2) as i64;
    let pad = read_number_or(text, spans[1], i64::MAX as u64, 1) as i64;
    let pixel_width: Option<u32> = if spans.len() > 2 {
        match read_number(text, spans[2], u32::MAX as u64) {
            Some(width) => Some(width as u32),
            None => None,
        }
    } else {
        None
    };
    let pixel_height: Option<u32> = if spans.len() > 3 {
        match read_number(text, spans[3], u32::MAX as u64) {
            Some(height) => Some(height as u32),
            None => None,
        }
    } else {
        None
    };
    let end = spans[spans.len() - 1].1;
    proof {
        lemma_spans_ordered(text@, start + 1, views.len(), views);
    }
    Some((SixelItem::Raster { pan, pad, pixel_width, pixel_height }, end))
}

pub(crate) proof fn lemma_spans_ordered(text: Seq<u8>, start: int, count: nat, spans: Seq<(int, int)>)
    requires
        0 <= start <= text.len(),
        count > 0,
        number_spans(text, start, count) == Some(spans),
    ensures
        spans.len() == count,
        start < spans.last().1 <= text.len(),
        spans[0].0 == start,
        spans[0].1 == digits_end(text, start),
    decreases count,
{
    reveal_with_fuel(number_spans, 2);
    if count > 1 {
        let before = number_spans(text, start, (count - 1) as nat).unwrap();
        lemma_spans_ordered(text, start, (count - 1) as nat, before);
        lemma_digits_end(text, before.last().1 + 1);
    } else {
        lemma_digits_end(text, start);
    }
}

/// Reads a color behind a number sign.
fn read_color(text: &Vec<u8>, start: usize) -> (item: Option<(SixelItem, usize)>)
    requires
        start < text@.len(),
        text@[start as int] == COLOR,
    ensures
        match item {
            Some((value, end)) => item_at(text@, start as int) == Some((value, end as int)),
            None => item_at(text@, start as int) is None,
        },
        item matches Some((_, end)) ==> start < end <= text@.len(),
{
    assert(start < text.len());
    let spans = match find_spans(text, start + 1, 1) {
        Some(spans) => spans,
        None => {
            return None;
        },
    };
    let end = spans[0].1;
    assert(span_views(spans@)[0].1 == end);
    proof {
        lemma_spans_ordered(text@, start + 1, 1, span_views(spans@));
    }
    if end == text.len() || (find_char_length(text, end) > 0 && text[end] != SEPARATOR) {
        let color_number = read_number_or(text, spans[0], u16::MAX as u64, 0) as u16;
        return Some(
            (SixelItem::Instruction(SixelData::SelectColorMapEntry(color_number)), end),
        );
    }
    let five = match find_spans(text, start + 1, 5) {
        Some(spans) => spans,
        None => {
            return None;
        },
    };
    let ghost views = span_views(five@);
    let color_number = read_number_or(text, five[0], u16::MAX as u64, 0) as u16;
    let system = read_number_or(text, five[1], i32::MAX as u64, 1);
    let a = read_number_or(text, five[2], u16::MAX as u64, 0);
    let b = read_number_or(text, five[3], u8::MAX as u64, 0);
    let c = read_number_or(text, five[4], u8::MAX as u64, 0);
    proof {
        lemma_spans_ordered(text@, start + 1, 5, views);
    }
    let data = if system == 1 {
        SixelData::DefineColorMapHSL {
            color_number,
            hue_angle: a as u16,
            lightness: b as u8,
            saturation: c as u8,
        }
    } else {
        let rgb = RgbColor::new_8bpc(percent_to_8bpc(a), percent_to_8bpc(b), percent_to_8bpc(c));
        SixelData::DefineColorMapRGB { color_number, rgb }
    };
    Some((SixelItem::Instruction(data), five[4].1))
}

/// Reads a repeated sixel behind an exclamation mark.
fn read_repeat(text: &Vec<u8>, start: usize) -> (item: Option<(SixelItem, usize)>)
    requires
        start < text@.len(),
        text@[start as int] == REPEAT,
    ensures
        match item {
            Some((value, end)) => item_at(text@, start as int) == Some((value, end as int)),
            None => item_at(text@, start as int) is None,
        },
        item matches Some((_, end)) ==> start < end <= text@.len(),
{
    assert(start < text.len());
    let spans = match find_spans(text, start + 1, 1) {
        Some(spans) => spans,
        None => {
            return None;
        },
    };
    let end = spans[0].1;
    assert(span_views(spans@)[0].1 == end);
    proof {
        lemma_spans_ordered(text@, start + 1, 1, span_views(spans@));
    }
    if end < text.len() && FIRST_SIXEL <= text[end] && text[end] <= LAST_SIXEL {
        let repeat_count = read_number_or(text, spans[0], u32::MAX as u64, 1) as u32;
        let data = text[end] - FIRST_SIXEL;
        Some((SixelItem::Instruction(SixelData::Repeat { repeat_count, data }), end + 1))
    } else {
        None
    }
}

/// Reads the item that starts at `start`.
fn read_item(text: &Vec<u8>, start: usize) -> (item: Option<(SixelItem, usize)>)
    ensures
        match item {
            Some((value, end)) => item_at(text@, start as int) == Some((value, end as int)),
            None => item_at(text@, start as int) is None,
        },
        item matches Some((_, end)) ==> start < end <= text@.len(),
{
    if start >= text.len() {
        return None;
    }
    let data = text[start];
    if data == CARRIAGE_RETURN {
        Some((SixelItem::Instruction(SixelData::CarriageReturn), start + 1))
    } else if data == NEW_LINE {
        Some((SixelItem::Instruction(SixelData::NewLine), start + 1))
    } else if FIRST_SIXEL <= data && data <= LAST_SIXEL {
        Some((SixelItem::Instruction(SixelData::Data(data - FIRST_SIXEL)), start + 1))
    } else if data == RASTER {
        read_raster(text, start)
    } else if data == COLOR {
        read_color(text, start)
    } else if data == REPEAT {
        read_repeat(text, start)
    } else {
        None
    }
}

/// Every item takes at least one byte of the text, and none beyond its end.
pub proof fn lemma_item_end(text: Seq<u8>, start: int)
    ensures
        item_at(text, start) matches Some((_, end)) ==> start < end <= text.len(),
{
    if item_at(text, start) is Some {
        if text[start] == RASTER {
            let count = raster_count(text, start + 1);
            let spans = number_spans(text, start + 1, count).unwrap();
            lemma_spans_ordered(text, start + 1, count, spans);
        } else if text[start] == COLOR || text[start] == REPEAT {
            let spans = number_spans(text, start + 1, 1).unwrap();
            lemma_spans_ordered(text, start + 1, 1, spans);
            if let Some(five) = number_spans(text, start + 1, 5) {
                lemma_spans_ordered(text, start + 1, 5, five);
            }
        }
    }
}

impl SixelView {
    /// The image with one instruction more.
    pub open spec fn draw(self, data: SixelData) -> SixelView {
        SixelView { data: self.data.push(data), ..self }
    }

    /// The image with these raster attributes.
    pub open spec fn resize(
        self,
        pan: i64,
        pad: i64,
        pixel_width: Option<u32>,
        pixel_height: Option<u32>,
    ) -> SixelView {
        SixelView { pan, pad, pixel_width, pixel_height, ..self }
    }

    /// Whether the image has more pixels than are taken.
    pub open spec fn is_too_large(self) -> bool {
        match (self.pixel_width, self.pixel_height) {
            (Some(width), Some(height)) => width * height > MAX_SIXEL_SIZE,
            _ => false,
        }
    }

    /// The image without its size and its instructions.
    pub open spec fn discard(self) -> SixelView {
        SixelView { pixel_width: None, pixel_height: None, data: Seq::empty(), ..self }
    }

    /// The image after the items of `text` from `start` on: those before the
    /// first byte that starts no item, or before raster attributes that ask
    /// for too large an image.
    pub open spec fn read(self, text: Seq<u8>, start: int) -> SixelView
        decreases text.len() - start,
    {
        match item_at(text, start) {
            None => self,
            Some((item, end)) => {
                proof {
                    lemma_item_end(text, start);
                }
                match item {
                    SixelItem::Instruction(data) => self.draw(data).read(text, end),
                    SixelItem::Raster { pan, pad, pixel_width, pixel_height } => {
                        let resized = self.resize(pan, pad, pixel_width, pixel_height);
                        if resized.is_too_large() {
                            resized.discard()
                        } else {
                            resized.read(text, end)
                        }
                    },
                }
            },
        }
    }
}

/// The aspect ratio that the first parameter of a sixel image stands for.
pub open spec fn aspect_ratio(parameter: i64) -> i64 {
    if 7 <= parameter <= 9 {
        1
    } else if parameter == 3 || parameter == 4 {
        3
    } else if parameter == 2 {
        5
    } else {
        2
    }
}

/// The parameter at `index`, zero where there is none.
pub open spec fn parameter(params: Seq<i64>, index: int) -> i64 {
    if index < params.len() {
        params[index]
    } else {
        0
    }
}

/// The image that has these parameters and nothing drawn in it yet.
pub open spec fn blank_image(params: Seq<i64>) -> SixelView {
    SixelView {
        pan: aspect_ratio(parameter(params, 0)),
        pad: 1,
        pixel_width: None,
        pixel_height: None,
        background_is_transparent: parameter(params, 1) == 1,
        horizontal_grid_size: if params.len() > 2 {
            Some(params[2])
        } else {
            None
        },
        data: Seq::empty(),
    }
}

/// Collects the data of a sixel image.
#[derive(Debug, PartialEq)]
pub struct SixelBuilder {
    sixel: Sixel,
    buf: Vec<u8>,
}

/// What a [`SixelBuilder`] has collected: the image so far, and the bytes that
/// are still to be read.
#[verifier::ext_equal]
pub ghost struct SixelBuilderView {
    pub sixel: SixelView,
    pub buf: Seq<u8>,
}

impl View for SixelBuilder {
    type V = SixelBuilderView;

    closed spec fn view(&self) -> SixelBuilderView {
        SixelBuilderView { sixel: self.sixel@, buf: self.buf@ }
    }
}

impl SixelBuilder {
    /// A builder for the image that has these parameters.
    pub fn new(params: &[i64]) -> (builder: Self)
        ensures
            builder@ == (SixelBuilderView {
                sixel: blank_image(params@),
                buf: Seq::<u8>::empty(),
            }),
    {
        let first: i64 = if params.len() > 0 {
            params[0]
        } else {
            0
        };
        let pan: i64 = match first {
            7 | 8 | 9 => 1,
            0 | 1 | 5 | 6 => 2,
            3 | 4 => 3,
            2 => 5,
            _ => 2,
        };
        let background_is_transparent = params.len() > 1 && params[1] == 1;
        let horizontal_grid_size = if params.len() > 2 {
            Some(params[2])
        } else {
            None
        };
        SixelBuilder {
            sixel: Sixel {
                pan,
                pad: 1,
                pixel_width: None,
                pixel_height: None,
                background_is_transparent,
                horizontal_grid_size,
                data: Vec::new(),
            },
            buf: Vec::new(),
        }
    }

    /// Takes in one byte of the data.
    pub fn push(&mut self, data: u8)
        ensures
            final(self)@ == (SixelBuilderView { buf: old(self)@.buf.push(data), ..old(self)@ }),
    {
        self.buf.push(data);
    }

    /// Reads the data that was taken in. Neither how many bytes were left
    /// unread nor that an image was too large is reported.
    pub fn finish(&mut self)
        ensures
            final(self)@ == (SixelBuilderView {
                sixel: old(self)@.sixel.read(old(self)@.buf, 0),
                ..old(self)@
            }),
    {
        let ghost start = self@;
        let mut at: usize = 0;
        loop
            invariant
                start == old(self)@,
                at <= self.buf@.len(),
                self.buf@ == start.buf,
                self.sixel@.read(start.buf, at as int) == start.sixel.read(start.buf, 0),
            decreases self.buf@.len() - at,
        {
            match read_item(&self.buf, at) {
                None => {
                    return;
                },
                Some((SixelItem::Instruction(data), end)) => {
                    let ghost before = self.sixel@;
                    self.sixel.data.push(data);
                    assert(self.sixel@ == before.draw(data));
                    at = end;
                },
                Some((SixelItem::Raster { pan, pad, pixel_width, pixel_height }, end)) => {
                    let ghost before = self.sixel@;
                    self.sixel.pan = pan;
                    self.sixel.pad = pad;
                    self.sixel.pixel_width = pixel_width;
                    self.sixel.pixel_height = pixel_height;
                    assert(self.sixel@ == before.resize(pan, pad, pixel_width, pixel_height));
                    if let (Some(width), Some(height)) = (pixel_width, pixel_height) {
                        assert(width * height <= u32::MAX * u32::MAX) by (nonlinear_arith)
                            requires
                                0 <= width <= u32::MAX,
                                0 <= height <= u32::MAX,
                        ;
                        let size: u64 = width as u64 * height as u64;
                        if size > MAX_SIXEL_SIZE {
                            let ghost resized = self.sixel@;
                            self.sixel.pixel_width = None;
                            self.sixel.pixel_height = None;
                            self.sixel.data.clear();
                            assert(self.sixel@ == resized.discard());
                            return;
                        }
                        self.sixel.data.reserve(size as usize);
                    }
                    at = end;
                },
            }
        }
    }

    /// The image.
    pub fn into_sixel(self) -> (sixel: Sixel)
        ensures
            sixel@ == self@.sixel,
    {
        self.sixel
    }
}

/// Whether six pixels are given by a number of six bits.
pub open spec fn is_six_bit(data: SixelData) -> bool {
    match data {
        SixelData::Data(pixels) => pixels < 64,
        SixelData::Repeat { data: pixels, .. } => pixels < 64,
        _ => true,
    }
}

/// Six pixels are always given by a number of six bits.
pub proof fn lemma_read_six_bit(image: SixelView, text: Seq<u8>, start: int)
    requires
        forall|i: int| 0 <= i < image.data.len() ==> is_six_bit(#[trigger] image.data[i]),
    ensures
        forall|i: int|
            0 <= i < image.read(text, start).data.len() ==> is_six_bit(
                #[trigger] image.read(text, start).data[i],
            ),
    decreases text.len() - start,
{
    lemma_item_end(text, start);
    if let Some((item, end)) = item_at(text, start) {
        match item {
            SixelItem::Instruction(data) => {
                assert(is_six_bit(data));
                lemma_read_six_bit(image.draw(data), text, end);
            },
            SixelItem::Raster { pan, pad, pixel_width, pixel_height } => {
                lemma_read_six_bit(
                    image.resize(pan, pad, pixel_width, pixel_height),
                    text,
                    end,
                );
            },
        }
    }
}

/// No image comes out that has more pixels than are taken.
pub proof fn lemma_read_size(image: SixelView, text: Seq<u8>, start: int)
    requires
        !image.is_too_large(),
    ensures
        !image.read(text, start).is_too_large(),
    decreases text.len() - start,
{
    lemma_item_end(text, start);
    if let Some((item, end)) = item_at(text, start) {
        match item {
            SixelItem::Instruction(data) => {
                lemma_read_size(image.draw(data), text, end);
            },
            SixelItem::Raster { pan, pad, pixel_width, pixel_height } => {
                let resized = image.resize(pan, pad, pixel_width, pixel_height);
                if !resized.is_too_large() {
                    lemma_read_size(resized, text, end);
                }
            },
        }
    }
}

/// Reading adds at most one instruction for each byte. It keeps those that
/// were there, unless all of them are dropped with the size of the image, and
/// it keeps what only the parameters of the image set.
pub proof fn lemma_read_adds(image: SixelView, text: Seq<u8>, start: int)
    requires
        0 <= start <= text.len(),
    ensures
        ({
            let drawn = image.read(text, start);
            &&& drawn.data.len() <= image.data.len() + (text.len() - start)
            &&& drawn.background_is_transparent == image.background_is_transparent
            &&& drawn.horizontal_grid_size == image.horizontal_grid_size
            &&& image.data.is_prefix_of(drawn.data) || (drawn.data.len() == 0
                && drawn.pixel_width is None && drawn.pixel_height is None)
        }),
    decreases text.len() - start,
{
    lemma_item_end(text, start);
    if let Some((item, end)) = item_at(text, start) {
        match item {
            SixelItem::Instruction(data) => {
                let next = image.draw(data);
                lemma_read_adds(next, text, end);
                if next.data.is_prefix_of(image.read(text, start).data) {
                    assert(image.data == next.data.take(image.data.len() as int));
                    assert(image.data.is_prefix_of(image.read(text, start).data));
                }
            },
            SixelItem::Raster { pan, pad, pixel_width, pixel_height } => {
                lemma_read_adds(
                    image.resize(pan, pad, pixel_width, pixel_height),
                    text,
                    end,
                );
            },
        }
    } else {
        assert(image.data.is_prefix_of(image.data));
    }
}

} // verus!
