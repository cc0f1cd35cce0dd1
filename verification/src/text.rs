//! Text that travels as bytes: hexadecimal digits and UTF-8.

use regex::bytes::Regex;
use vstd::prelude::*;

verus! {

/// Whether `byte` is a hexadecimal digit, in either case.
pub open spec fn is_hex_digit(byte: u8) -> bool {
    ||| 0x30 <= byte <= 0x39
    ||| 0x41 <= byte <= 0x46
    ||| 0x61 <= byte <= 0x66
}

/// The value of a hexadecimal digit.
pub open spec fn hex_digit_value(byte: u8) -> int {
    if byte <= 0x39 {
        byte - 0x30
    } else if byte <= 0x46 {
        byte - 0x41 + 10
    } else {
        byte - 0x61 + 10
    }
}

/// Whether `text` is a sequence of pairs of hexadecimal digits.
pub open spec fn is_hex(text: Seq<u8>) -> bool {
    &&& text.len() % 2 == 0
    &&& forall|i: int| 0 <= i < text.len() ==> is_hex_digit(#[trigger] text[i])
}

/// The bytes that pairs of hexadecimal digits stand for.
pub open spec fn hex_bytes(text: Seq<u8>) -> Seq<u8> {
    Seq::new(
        (text.len() / 2) as nat,
        |i: int| (hex_digit_value(text[2 * i]) * 16 + hex_digit_value(text[2 * i + 1])) as u8,
    )
}

/// The error of `hex::decode`.
#[verifier::external_type_specification]
#[verifier::external_body]
pub struct ExFromHexError(hex::FromHexError);

/// Calls `hex::decode`: succeeds exactly on pairs of hexadecimal digits, in
/// either case, and then gives the bytes that they stand for.
#[verifier::external_body]
pub(crate) fn decode_hex(text: &[u8]) -> (decoded: Result<Vec<u8>, hex::FromHexError>)
    ensures
        decoded is Ok <==> is_hex(text@),
        decoded matches Ok(bytes) ==> bytes@ == hex_bytes(text@),
{
    hex::decode(text)
}

/// The characters that `String::from_utf8_lossy` makes of bytes.
pub uninterp spec fn lossy_utf8(bytes: Seq<u8>) -> Seq<char>;

/// Calls `String::from_utf8_lossy`: the characters are a function of the
/// bytes, and the decoded text where the bytes are valid UTF-8.
#[verifier::external_body]
pub(crate) fn decode_lossy(bytes: &[u8]) -> (text: String)
    ensures
        text@ == lossy_utf8(bytes@),
        vstd::utf8::valid_utf8(bytes@) ==> text@ == vstd::utf8::decode_utf8(bytes@),
{
    String::from_utf8_lossy(bytes).into_owned()
}

/// The text of bytes: what they decode to where they are valid UTF-8, and
/// otherwise what `String::from_utf8_lossy` makes of them.
pub open spec fn text_of(bytes: Seq<u8>) -> Seq<char> {
    if vstd::utf8::valid_utf8(bytes) {
        vstd::utf8::decode_utf8(bytes)
    } else {
        lossy_utf8(bytes)
    }
}

/// Whether the class `\d` of the `regex` crate, the decimal digits of all
/// scripts, has the character that the bytes encode.
pub uninterp spec fn unicode_digit(character: Seq<u8>) -> bool;

/// Calls `regex::bytes::Regex::is_match` with the class `\d` for the whole of
/// the bytes: the answer is a function of the bytes.
#[verifier::external_body]
pub(crate) fn is_unicode_digit(character: &[u8]) -> (digit: bool)
    ensures
        digit == unicode_digit(character@),
{
    Regex::new("^\\d$").unwrap().is_match(character)
}

/// How many bytes the character of `text` takes that starts at `at`: none at
/// the end of the text, and where the bytes are not valid UTF-8.
pub open spec fn char_length(text: Seq<u8>, at: int) -> int {
    if 0 <= at < text.len() && vstd::utf8::valid_first_scalar(text.skip(at)) {
        vstd::utf8::length_of_first_scalar(text.skip(at))
    } else {
        0
    }
}

/// Finds how many bytes the character takes that starts at `at`.
pub(crate) fn find_char_length(text: &Vec<u8>, at: usize) -> (length: usize)
    ensures
        length == char_length(text@, at as int),
        length > 0 ==> at + length <= text@.len(),
{
    if at >= text.len() {
        return 0;
    }
    let left: usize = text.len() - at;
    let first = text[at];
    if first <= 0x7f {
        return 1;
    }
    if 0xc0 <= first && first <= 0xdf && left >= 2 {
        let second = text[at + 1];
        let scalar: u32 = (((first & 0x1F) as u32) << 6) | ((second & 0x3f) as u32);
        if 0x80 <= second && second <= 0xbf && 0x80 <= scalar {
            assert(!(0xD800 <= scalar)) by {
                assert(((((first & 0x1F) as u32) << 6) | ((second & 0x3f) as u32)) < 0xD800)
                    by (bit_vector);
            }
            return 2;
        }
    }
    if 0xe0 <= first && first <= 0xef && left >= 3 {
        let second = text[at + 1];
        let third = text[at + 2];
        let scalar: u32 = (((first & 0x0F) as u32) << 12) | (((second & 0x3f) as u32) << 6) | ((
        third & 0x3f) as u32);
        if 0x80 <= second && second <= 0xbf && 0x80 <= third && third <= 0xbf && 0x800 <= scalar
            && !(0xD800 <= scalar && scalar <= 0xDFFF) {
            return 3;
        }
    }
    if 0xf0 <= first && first <= 0xf7 && left >= 4 {
        let second = text[at + 1];
        let third = text[at + 2];
        let fourth = text[at + 3];
        let scalar: u32 = (((first & 0x07) as u32) << 18) | (((second & 0x3f) as u32) << 12) | (((
        third & 0x3f) as u32) << 6) | ((fourth & 0x3f) as u32);
        if 0x80 <= second && second <= 0xbf && 0x80 <= third && third <= 0xbf && 0x80 <= fourth
            && fourth <= 0xbf && 0x10000 <= scalar && scalar <= 0x10ffff {
            return 4;
        }
    }
    0
}

/// The hexadecimal digit with this value, in lower case.
pub open spec fn hex_digit(value: int) -> u8 {
    if value < 10 {
        (0x30 + value) as u8
    } else {
        (0x61 + value - 10) as u8
    }
}

/// The pairs of hexadecimal digits that stand for bytes.
pub open spec fn hex_encoded(bytes: Seq<u8>) -> Seq<u8> {
    Seq::new(
        2 * bytes.len(),
        |i: int|
            if i % 2 == 0 {
                hex_digit((bytes[i / 2] / 16) as int)
            } else {
                hex_digit((bytes[i / 2] % 16) as int)
            },
    )
}

/// The bytes behind the hexadecimal digits of bytes are those bytes.
pub proof fn lemma_hex_round_trip(bytes: Seq<u8>)
    ensures
        is_hex(hex_encoded(bytes)),
        hex_bytes(hex_encoded(bytes)) == bytes,
{
    let text = hex_encoded(bytes);
    assert forall|i: int| 0 <= i < text.len() implies is_hex_digit(#[trigger] text[i]) by {
        assert(0 <= i / 2 < bytes.len());
    }
    assert forall|i: int| 0 <= i < bytes.len() implies hex_bytes(text)[i] == bytes[i] by {
        assert((2 * i) / 2 == i && (2 * i) % 2 == 0);
        assert((2 * i + 1) / 2 == i && (2 * i + 1) % 2 == 1);
    }
    assert(hex_bytes(text) == bytes);
}

/// The hexadecimal digits are the ASCII digits and the letters from A to F, in
/// either case; a letter has the same value in both, and the digits have the
/// values from 0 to 15.
pub proof fn lemma_hex_digits(value: int)
    requires
        0 <= value < 16,
    ensures
        value < 10 ==> hex_digit_value((0x30 + value) as u8) == value,
        value >= 10 ==> hex_digit_value((0x41 + value - 10) as u8) == value,
        value >= 10 ==> hex_digit_value((0x61 + value - 10) as u8) == value,
        value < 10 ==> hex_digit(value) == 0x30 + value,
        value >= 10 ==> hex_digit(value) == 0x61 + value - 10,
        forall|byte: u8| #[trigger]
            is_hex_digit(byte) <==> (0x30 <= byte <= 0x39 || 0x41 <= byte <= 0x46 || 0x61 <= byte
                <= 0x66),
{
}

/// Text is hexadecimal exactly where all of it is hexadecimal digits and their
/// number is even.
pub proof fn lemma_is_hex(text: Seq<u8>)
    ensures
        is_hex(text) <==> text.len() % 2 == 0 && (forall|i: int|
            0 <= i < text.len() ==> (0x30 <= #[trigger] text[i] <= 0x39 || 0x41 <= text[i] <= 0x46
                || 0x61 <= text[i] <= 0x66)),
{
    if is_hex(text) {
        assert forall|i: int| 0 <= i < text.len() implies (0x30 <= #[trigger] text[i] <= 0x39
            || 0x41 <= text[i] <= 0x46 || 0x61 <= text[i] <= 0x66) by {
            assert(is_hex_digit(text[i]));
        }
    }
}

/// One pair of hexadecimal digits more in front is one byte more in front: the
/// first digit counts sixteen times.
pub proof fn lemma_hex_bytes(high: int, low: int, first: u8, second: u8, rest: Seq<u8>)
    requires
        0 <= high < 16,
        0 <= low < 16,
        hex_digit_value(first) == high,
        hex_digit_value(second) == low,
    ensures
        hex_bytes(Seq::empty()).len() == 0,
        hex_bytes(seq![first, second] + rest) == seq![(high * 16 + low) as u8] + hex_bytes(rest),
{
    let text = seq![first, second] + rest;
    let split = seq![(high * 16 + low) as u8] + hex_bytes(rest);
    assert(hex_bytes(text).len() == split.len());
    assert forall|i: int| 0 <= i < split.len() implies hex_bytes(text)[i] == split[i] by {
        if i > 0 {
            assert(text[2 * i] == rest[2 * (i - 1)]);
            assert(text[2 * i + 1] == rest[2 * (i - 1) + 1]);
        }
    }
    assert(hex_bytes(text) == split);
}

/// The hexadecimal digits of the bytes behind hexadecimal digits are those
/// digits, but for the case of the letters.
pub proof fn lemma_hex_text_round_trip(text: Seq<u8>)
    requires
        is_hex(text),
    ensures
        hex_encoded(hex_bytes(text)).len() == text.len(),
        forall|i: int|
            0 <= i < text.len() ==> #[trigger] hex_encoded(hex_bytes(text))[i] == if 0x41
                <= text[i] <= 0x46 {
                (text[i] + 0x20) as u8
            } else {
                text[i]
            },
{
    let bytes = hex_bytes(text);
    assert forall|i: int| 0 <= i < text.len() implies #[trigger] hex_encoded(bytes)[i] == if 0x41
        <= text[i] <= 0x46 {
        (text[i] + 0x20) as u8
    } else {
        text[i]
    } by {
        let k = i / 2;
        assert(is_hex_digit(text[2 * k]));
        assert(is_hex_digit(text[2 * k + 1]));
        let high = hex_digit_value(text[2 * k]);
        let low = hex_digit_value(text[2 * k + 1]);
        assert(bytes[k] == (high * 16 + low) as u8);
        assert(bytes[k] / 16 == high);
        assert(bytes[k] % 16 == low);
    }
}

/// Bytes that are valid UTF-8 have the text that they decode to; in particular
/// the UTF-8 encoding of a text has that text. Others have the text that
/// `String::from_utf8_lossy` makes of them.
pub proof fn lemma_text_of(bytes: Seq<u8>, text: Seq<char>)
    ensures
        vstd::utf8::valid_utf8(bytes) ==> text_of(bytes) == vstd::utf8::decode_utf8(bytes),
        !vstd::utf8::valid_utf8(bytes) ==> text_of(bytes) == lossy_utf8(bytes),
        text_of(vstd::utf8::encode_utf8(text)) == text,
{
    broadcast use {
        vstd::utf8::encode_utf8_valid_utf8,
        vstd::utf8::encode_utf8_decode_utf8,
    };

}

/// A character takes one to four bytes, which are valid UTF-8 of just one
/// character and end within the text.
pub proof fn lemma_char_length(text: Seq<u8>, at: int)
    ensures
        0 <= char_length(text, at) <= 4,
        char_length(text, at) > 0 ==> {
            let character = text.subrange(at, at + char_length(text, at));
            &&& 0 <= at
            &&& at + char_length(text, at) <= text.len()
            &&& vstd::utf8::valid_utf8(character)
            &&& vstd::utf8::decode_utf8(character).len() == 1
        },
{
    if char_length(text, at) > 0 {
        let rest = text.skip(at);
        let character = text.subrange(at, at + char_length(text, at));
        assert(character.len() == char_length(text, at));
        assert(forall|i: int| 0 <= i < character.len() ==> character[i] == rest[i]);
        assert(vstd::utf8::valid_first_scalar(character));
        assert(vstd::utf8::pop_first_scalar(character) == Seq::<u8>::empty());
        reveal_with_fuel(vstd::utf8::valid_utf8, 2);
        reveal_with_fuel(vstd::utf8::decode_utf8, 2);
    }
}

/// Where any bytes of the text are valid UTF-8 of just one character, that
/// character takes these bytes; an ASCII character takes one.
pub proof fn lemma_char_found(text: Seq<u8>, at: int, length: int)
    requires
        0 <= at,
        0 < length,
        at + length <= text.len(),
        vstd::utf8::valid_utf8(text.subrange(at, at + length)),
        vstd::utf8::decode_utf8(text.subrange(at, at + length)).len() == 1,
    ensures
        char_length(text, at) == length,
        text[at] < 0x80 ==> length == 1,
{
    let character = text.subrange(at, at + length);
    let rest = text.skip(at);
    assert(vstd::utf8::valid_first_scalar(character));
    let taken = vstd::utf8::length_of_first_scalar(character);
    assert(forall|i: int| 0 <= i < character.len() ==> character[i] == rest[i]);
    assert(vstd::utf8::valid_first_scalar(rest));
    let left = vstd::utf8::pop_first_scalar(character);
    reveal_with_fuel(vstd::utf8::valid_utf8, 2);
    reveal_with_fuel(vstd::utf8::decode_utf8, 3);
    if left.len() > 0 {
        assert(vstd::utf8::decode_utf8(character).len() >= 2);
    }
    assert(taken == length);
}

} // verus!
