//! Modified UTF-8, the text encoding of the binary dialects.
//!
//! The encoding differs from UTF-8 in two places: the NUL code point is
//! written as the two bytes `C0 80`, and a code point above `U+FFFF` is split
//! into a UTF-16 surrogate pair whose halves are written as three bytes each.

use crate::error::{Category, Error, PositionView};
use vstd::prelude::*;
use vstd::utf8::*;

verus! {

pub const NULL_CODE_POINT: u8 = 0x00;

pub const MAX_ASCII_CODE_POINT: u8 = 0x7F;

pub const MUTF8_MAX_CHAR_WIDTH: usize = 3;

pub const CONT_TAG: u8 = 0x80;

/// The high (leading) half of the surrogate pair of a code point above `U+FFFF`.
pub open spec fn high_surrogate(code_point: u32) -> u16 {
    (((code_point - 0x10000) as u32 >> 10) as u16) | 0xD800
}

/// The low (trailing) half of the surrogate pair of a code point above `U+FFFF`.
pub open spec fn low_surrogate(code_point: u32) -> u16 {
    (((code_point - 0x10000) as u32 & 0x3FF) as u16) | 0xDC00
}

/// The three bytes that carry one surrogate half.
pub open spec fn surrogate_bytes(surrogate: u16) -> Seq<u8> {
    seq![
        0xE0u8 | ((surrogate & 0xF000) >> 12) as u8,
        0x80u8 | ((surrogate & 0x0FC0) >> 6) as u8,
        0x80u8 | ((surrogate & 0x003F) as u8),
    ]
}

/// The surrogate half that the two continuation bytes of a three-byte
/// sequence with lead byte `ED` carry.
pub open spec fn surrogate_of(second: u8, third: u8) -> u32 {
    0xD000u32 | ((second & 0x3F) as u32) << 6 | (third & 0x3F) as u32
}

/// The code point that a high and a low surrogate half stand for.
pub open spec fn combine_surrogates(high: u32, low: u32) -> u32 {
    (0x10000 + (((high - 0xD800) as u32) << 10 | ((low - 0xDC00) as u32))) as u32
}

/// The four bytes of the UTF-8 encoding of a code point above `U+FFFF`.
pub open spec fn code_point_bytes(code_point: u32) -> Seq<u8> {
    seq![
        0xF0u8 | ((code_point & 0x1C0000) >> 18) as u8,
        0x80u8 | ((code_point & 0x03F000) >> 12) as u8,
        0x80u8 | ((code_point & 0x000FC0) >> 6) as u8,
        0x80u8 | ((code_point & 0x00003F) as u8),
    ]
}

/// The encoding of one character.
pub open spec fn encode_char(c: char) -> Seq<u8> {
    let v = c as u32;
    if v == 0 {
        seq![0xC0u8, 0x80u8]
    } else if v < 0x10000 {
        encode_scalar(v)
    } else {
        surrogate_bytes(high_surrogate(v)) + surrogate_bytes(low_surrogate(v))
    }
}

/// The encoding of a text: the encodings of its characters, in order.
pub open spec fn encode_chars(chars: Seq<char>) -> Seq<u8>
    decreases chars.len(),
{
    if chars.len() == 0 {
        seq![]
    } else {
        encode_char(chars[0]) + encode_chars(chars.drop_first())
    }
}

/// True when the text is its own encoding: no NUL and nothing above `U+FFFF`.
pub open spec fn is_plain(chars: Seq<char>) -> bool {
    forall|i: int| 0 <= i < chars.len() ==> 0 < #[trigger] (chars[i] as u32) < 0x10000
}

/// The width that a lead byte announces, if it can start a UTF-8 sequence.
pub open spec fn char_width(byte: u8) -> Option<usize> {
    if byte <= 0x7F {
        Some(1usize)
    } else if 0xC2 <= byte <= 0xDF {
        Some(2usize)
    } else if 0xE0 <= byte <= 0xEF {
        Some(3usize)
    } else if 0xF0 <= byte <= 0xF4 {
        Some(4usize)
    } else {
        None
    }
}

/// True when the byte has the form `10xxxxxx`.
pub fn is_continuation_byte(byte: u8) -> (b: bool)
    ensures
        b == vstd::utf8::is_continuation_byte(byte),
{
    assert((byte & 0xC0 == 0x80) <==> (0x80 <= byte <= 0xBF)) by (bit_vector);
    byte & 0xC0 == CONT_TAG
}

/// The width that a lead byte announces, if it can start a UTF-8 sequence.
pub fn utf8_char_width(byte: u8) -> (width: Option<usize>)
    ensures
        width == char_width(byte),
{
    if byte <= MAX_ASCII_CODE_POINT {
        Some(1)
    } else if 0xC2 <= byte && byte <= 0xDF {
        Some(2)
    } else if 0xE0 <= byte && byte <= 0xEF {
        Some(3)
    } else if 0xF0 <= byte && byte <= 0xF4 {
        Some(4)
    } else {
        None
    }
}

/// Splits a code point above `U+FFFF` into its surrogate pair.
pub fn to_surrogate_pair(code_point: u32) -> (pair: [u16; 2])
    requires
        0x10000 <= code_point <= 0x10FFFF,
    ensures
        pair[0] == high_surrogate(code_point),
        pair[1] == low_surrogate(code_point),
        0xD800 <= pair[0] <= 0xDBFF,
        0xDC00 <= pair[1] <= 0xDFFF,
{
    let code_point = code_point - 0x10000;
    let first = ((code_point >> 10) as u16) | 0xD800;
    let second = ((code_point & 0x3FF) as u16) | 0xDC00;
    assert(code_point < 0x100000 ==> 0xD800 <= (((code_point >> 10) as u16) | 0xD800) <= 0xDBFF)
        by (bit_vector);
    assert(0xDC00 <= (((code_point & 0x3FF) as u16) | 0xDC00) <= 0xDFFF) by (bit_vector);
    [first, second]
}

/// Writes one surrogate half as a three-byte sequence.
pub fn encode_surrogate(surrogate: u16) -> (bytes: [u8; 3])
    ensures
        bytes@ == surrogate_bytes(surrogate),
{
    let bytes = [
        0xE0u8 | ((surrogate & 0xF000) >> 12) as u8,
        0x80u8 | ((surrogate & 0x0FC0) >> 6) as u8,
        0x80u8 | ((surrogate & 0x003F) as u8),
    ];
    assert(bytes@ =~= surrogate_bytes(surrogate));
    bytes
}

/// Writes a surrogate pair as two three-byte sequences.
pub fn encode_surrogate_pair(surrogate_pair: [u16; 2]) -> (bytes: [u8; 6])
    ensures
        bytes@ == surrogate_bytes(surrogate_pair[0]) + surrogate_bytes(surrogate_pair[1]),
{
    let first = encode_surrogate(surrogate_pair[0]);
    let second = encode_surrogate(surrogate_pair[1]);
    let bytes = [first[0], first[1], first[2], second[0], second[1], second[2]];
    assert(bytes@ =~= surrogate_bytes(surrogate_pair[0]) + surrogate_bytes(surrogate_pair[1]));
    bytes
}

/// Reads the surrogate half out of the two continuation bytes that follow `ED`.
pub fn decode_surrogate(second: u8, third: u8) -> (surrogate: u32)
    ensures
        surrogate == surrogate_of(second, third),
        0xD000 <= surrogate <= 0xDFFF,
{
    let surrogate = 0xD000u32 | ((second & 0x3F) as u32) << 6 | (third & 0x3F) as u32;
    assert(0xD000 <= (0xD000u32 | ((second & 0x3F) as u32) << 6 | (third & 0x3F) as u32) <= 0xDFFF)
        by (bit_vector);
    surrogate
}

/// Writes a code point above `U+FFFF` as its four UTF-8 bytes.
pub fn decode_code_point(code_point: u32) -> (bytes: [u8; 4])
    ensures
        bytes@ == code_point_bytes(code_point),
{
    let bytes = [
        0xF0u8 | ((code_point & 0x1C0000) >> 18) as u8,
        0x80u8 | ((code_point & 0x03F000) >> 12) as u8,
        0x80u8 | ((code_point & 0x000FC0) >> 6) as u8,
        0x80u8 | ((code_point & 0x00003F) as u8),
    ];
    assert(bytes@ =~= code_point_bytes(code_point));
    bytes
}

/// Joins the two halves of a surrogate pair, given by their continuation
/// bytes, into the four UTF-8 bytes of the code point they stand for.
pub fn decode_surrogate_pair(second: u8, third: u8, fifth: u8, sixth: u8) -> (bytes: [u8; 4])
    requires
        0xA0 <= second <= 0xAF,
        0xB0 <= fifth <= 0xBF,
    ensures
        bytes@ == code_point_bytes(
            combine_surrogates(surrogate_of(second, third), surrogate_of(fifth, sixth)),
        ),
{
    let surrogate1 = decode_surrogate(second, third);
    let surrogate2 = decode_surrogate(fifth, sixth);
    assert(0xA0 <= second <= 0xAF ==> 0xD800 <= (0xD000u32 | ((second & 0x3F) as u32) << 6 | (third
        & 0x3F) as u32) <= 0xDBFF) by (bit_vector);
    assert(0xB0 <= fifth <= 0xBF ==> 0xDC00 <= (0xD000u32 | ((fifth & 0x3F) as u32) << 6 | (sixth
        & 0x3F) as u32) <= 0xDFFF) by (bit_vector);
    let high = surrogate1 - 0xD800;
    let low = surrogate2 - 0xDC00;
    assert(high <= 0x3FF ==> (high << 10) <= 0xFFC00) by (bit_vector);
    assert(high <= 0x3FF && low <= 0x3FF ==> (high << 10 | low) <= 0xFFFFF) by (bit_vector);
    let code_point = 0x10000 + (high << 10 | low);
    decode_code_point(code_point)
}

/// The shape of the UTF-8 encoding of one scalar value: its width, the range
/// of its lead byte, and its continuation bytes.
pub proof fn lemma_encode_scalar_shape(v: u32)
    requires
        is_scalar(v),
    ensures
        v < 0x80 ==> encode_scalar(v) =~= seq![v as u8],
        0x80 <= v < 0x800 ==> encode_scalar(v).len() == 2 && 0xC2 <= encode_scalar(v)[0] <= 0xDF,
        0x800 <= v < 0x10000 ==> encode_scalar(v).len() == 3 && 0xE0 <= encode_scalar(v)[0]
            <= 0xEF,
        0x10000 <= v ==> encode_scalar(v).len() == 4 && 0xF0 <= encode_scalar(v)[0] <= 0xF4,
        0x10000 <= v ==> codepoint_width_4(
            encode_scalar(v)[0],
            encode_scalar(v)[1],
            encode_scalar(v)[2],
            encode_scalar(v)[3],
        ) == v,
        forall|j: int| 1 <= j < encode_scalar(v).len() ==> 0x80 <= #[trigger] encode_scalar(v)[j] <= 0xBF,
{
    if v < 0x80 {
        assert(v < 0x80 ==> (v & 0x7F) as u8 == v as u8) by (bit_vector);
    } else if v < 0x800 {
        assert(0x80 <= v < 0x800 ==> 0xC2 <= (0xC0u8 | ((v >> 6) & 0x1F) as u8) <= 0xDF)
            by (bit_vector);
        assert(0x80 <= (0x80u8 | (v & 0x3F) as u8) <= 0xBF) by (bit_vector);
    } else if v < 0x10000 {
        assert(0x800 <= v < 0x10000 ==> 0xE0 <= (0xE0u8 | ((v >> 12) & 0x0F) as u8) <= 0xEF)
            by (bit_vector);
        assert(0x80 <= (0x80u8 | (v & 0x3F) as u8) <= 0xBF) by (bit_vector);
        assert(0x80 <= (0x80u8 | ((v >> 6) & 0x3F) as u8) <= 0xBF) by (bit_vector);
    } else {
        assert(0x10000 <= v <= 0x10FFFF ==> 0xF0 <= (0xF0u8 | ((v >> 18) & 0x7) as u8) <= 0xF4)
            by (bit_vector);
        assert(0x80 <= (0x80u8 | (v & 0x3F) as u8) <= 0xBF) by (bit_vector);
        assert(0x80 <= (0x80u8 | ((v >> 6) & 0x3F) as u8) <= 0xBF) by (bit_vector);
        assert(0x80 <= (0x80u8 | ((v >> 12) & 0x3F) as u8) <= 0xBF) by (bit_vector);
        assert(0x10000 <= v <= 0x10FFFF ==> ((((0xF0u8 | ((v >> 18) & 0x7) as u8) & 0x07) as u32)
            << 18) | ((((0x80u8 | ((v >> 12) & 0x3F) as u8) & 0x3f) as u32) << 12) | ((((0x80u8 | ((v
            >> 6) & 0x3F) as u8) & 0x3f) as u32) << 6) | (((0x80u8 | (v & 0x3F) as u8) & 0x3f) as u32)
            == v) by (bit_vector);
    }
}

/// Every byte of the encoding of a surrogate half is a non-zero byte.
proof fn lemma_surrogate_bytes_shape(s: u16)
    ensures
        surrogate_bytes(s).len() == 3,
        0xE0 <= surrogate_bytes(s)[0] <= 0xEF,
        0x80 <= surrogate_bytes(s)[1] <= 0xBF,
        0x80 <= surrogate_bytes(s)[2] <= 0xBF,
{
    assert(0xE0 <= (0xE0u8 | ((s & 0xF000) >> 12) as u8) <= 0xEF) by (bit_vector);
    assert(0x80 <= (0x80u8 | ((s & 0x0FC0) >> 6) as u8) <= 0xBF) by (bit_vector);
    assert(0x80 <= (0x80u8 | ((s & 0x003F) as u8)) <= 0xBF) by (bit_vector);
}

/// The length of the encoding of one character, and the absence of a zero
/// byte from it.
pub proof fn lemma_encode_char_shape(c: char)
    ensures
        encode_char(c).len() == (if c as u32 == 0 {
            2int
        } else if (c as u32) < 0x10000 {
            encode_scalar(c as u32).len() as int
        } else {
            6int
        }),
        1 <= encode_char(c).len() <= 6,
        forall|j: int| 0 <= j < encode_char(c).len() ==> #[trigger] encode_char(c)[j] != 0,
{
    let v = c as u32;
    char_is_scalar(c);
    if v == 0 {
    } else if v < 0x10000 {
        lemma_encode_scalar_shape(v);
    } else {
        lemma_surrogate_bytes_shape(high_surrogate(v));
        lemma_surrogate_bytes_shape(low_surrogate(v));
    }
}

/// Encoding distributes over appending one character.
pub proof fn lemma_encode_chars_push(chars: Seq<char>, c: char)
    ensures
        encode_chars(chars.push(c)) == encode_chars(chars) + encode_char(c),
    decreases chars.len(),
{
    if chars.len() == 0 {
        assert(chars.push(c).drop_first() =~= Seq::<char>::empty());
        assert(encode_chars(chars.push(c)) =~= encode_char(c) + encode_chars(Seq::<char>::empty()));
        assert(encode_chars(chars) + encode_char(c) =~= encode_char(c));
        assert(encode_char(c) + encode_chars(Seq::<char>::empty()) =~= encode_char(c));
    } else {
        lemma_encode_chars_push(chars.drop_first(), c);
        assert(chars.push(c).drop_first() =~= chars.drop_first().push(c));
        assert(chars.push(c)[0] == chars[0]);
        assert(encode_chars(chars.push(c)) =~= encode_chars(chars) + encode_char(c));
    }
}

/// The UTF-8 encoding distributes over appending one character.
pub proof fn lemma_encode_utf8_push(chars: Seq<char>, c: char)
    ensures
        encode_utf8(chars.push(c)) == encode_utf8(chars) + encode_scalar(c as u32),
    decreases chars.len(),
{
    if chars.len() == 0 {
        assert(chars.push(c).drop_first() =~= Seq::<char>::empty());
        assert(encode_utf8(chars.push(c)) =~= encode_scalar(c as u32) + encode_utf8(
            Seq::<char>::empty(),
        ));
        assert(encode_utf8(chars) + encode_scalar(c as u32) =~= encode_scalar(c as u32));
        assert(encode_scalar(c as u32) + encode_utf8(Seq::<char>::empty()) =~= encode_scalar(
            c as u32,
        ));
    } else {
        lemma_encode_utf8_push(chars.drop_first(), c);
        assert(chars.push(c).drop_first() =~= chars.drop_first().push(c));
        assert(chars.push(c)[0] == chars[0]);
        assert(encode_utf8(chars.push(c)) =~= encode_utf8(chars) + encode_scalar(c as u32));
    }
}

/// A plain text is its own encoding.
pub proof fn lemma_plain_is_utf8(chars: Seq<char>)
    requires
        is_plain(chars),
    ensures
        encode_chars(chars) == encode_utf8(chars),
    decreases chars.len(),
{
    if chars.len() > 0 {
        assert(0 < (chars[0] as u32) < 0x10000);
        assert forall|i: int| 0 <= i < chars.drop_first().len() implies 0 < #[trigger] (
        chars.drop_first()[i] as u32) < 0x10000 by {
            assert(chars.drop_first()[i] == chars[i + 1]);
            assert(0 < (chars[i + 1] as u32) < 0x10000);
        }
        lemma_plain_is_utf8(chars.drop_first());
    }
}

/// The encoding of a text holds no zero byte.
pub proof fn lemma_encode_chars_no_nul(chars: Seq<char>)
    ensures
        forall|i: int| 0 <= i < encode_chars(chars).len() ==> #[trigger] encode_chars(chars)[i] != 0,
    decreases chars.len(),
{
    if chars.len() > 0 {
        lemma_encode_chars_no_nul(chars.drop_first());
        lemma_encode_char_shape(chars[0]);
        let head = encode_char(chars[0]);
        let tail = encode_chars(chars.drop_first());
        assert forall|i: int| 0 <= i < encode_chars(chars).len() implies #[trigger] encode_chars(
            chars,
        )[i] != 0 by {
            if i < head.len() {
                assert(encode_chars(chars)[i] == head[i]);
            } else {
                assert(encode_chars(chars)[i] == tail[i - head.len()]);
            }
        }
    }
}

/// What one step of a walk over the UTF-8 bytes of a text sees: the bytes
/// from the `k`-th character on start with that character's encoding.
proof fn lemma_walk_step(chars: Seq<char>, k: int)
    requires
        0 <= k < chars.len(),
    ensures
        encode_utf8(chars.skip(k)) == encode_scalar(chars[k] as u32) + encode_utf8(chars.skip(k + 1)),
        chars.take(k + 1) == chars.take(k).push(chars[k]),
        is_scalar(chars[k] as u32),
{
    let rest = chars.skip(k);
    assert(rest[0] == chars[k]);
    assert(rest.drop_first() =~= chars.skip(k + 1));
    assert(chars.take(k + 1) =~= chars.take(k).push(chars[k]));
    char_is_scalar(chars[k]);
}

/// The UTF-8 encoding of a non-empty text is not empty.
proof fn lemma_encode_utf8_nonempty(chars: Seq<char>)
    ensures
        chars.len() > 0 ==> encode_utf8(chars).len() > 0,
        chars.len() == 0 ==> encode_utf8(chars).len() == 0,
{
    if chars.len() > 0 {
        char_is_scalar(chars[0]);
        lemma_encode_scalar_shape(chars[0] as u32);
    }
}

/// True when the text is its own encoding, so that its bytes can be used as
/// they are: it holds no NUL and no character above `U+FFFF`.
pub fn is_valid(str: &str) -> (valid: bool)
    ensures
        valid == is_plain(str@),
        valid ==> encode_chars(str@) == encode_utf8(str@),
{
    let bytes = str.as_bytes();
    let mut index: usize = 0;
    let ghost mut k: int = 0;
    proof {
        assert(str@.skip(0) =~= str@);
        assert(bytes@.subrange(0, bytes@.len() as int) =~= bytes@);
    }
    while index < bytes.len()
        invariant
            bytes@ == encode_utf8(str@),
            0 <= k <= str@.len(),
            index <= bytes@.len(),
            bytes@.subrange(index as int, bytes@.len() as int) == encode_utf8(str@.skip(k)),
            is_plain(str@.take(k)),
        decreases bytes@.len() - index,
    {
        let ghost suffix = bytes@.subrange(index as int, bytes@.len() as int);
        proof {
            lemma_encode_utf8_nonempty(str@.skip(k));
            assert(suffix.len() > 0);
            assert(k < str@.len());
            lemma_walk_step(str@, k);
            lemma_encode_scalar_shape(str@[k] as u32);
            assert(suffix[0] == bytes@[index as int]);
            assert(suffix[0] == encode_scalar(str@[k] as u32)[0]);
        }
        let byte = bytes[index];
        let width = match utf8_char_width(byte) {
            Some(width) => width,
            None => {
                return false;
            },
        };
        if byte == NULL_CODE_POINT || width > MUTF8_MAX_CHAR_WIDTH {
            proof {
                assert(!(0 < (str@[k] as u32) < 0x10000));
            }
            return false;
        }
        proof {
            let e = encode_scalar(str@[k] as u32);
            assert(e.len() == width);
            assert(suffix.len() >= e.len());
            assert(suffix.subrange(e.len() as int, suffix.len() as int) =~= encode_utf8(
                str@.skip(k + 1),
            ));
            assert(bytes@.subrange(index + width, bytes@.len() as int) =~= suffix.subrange(
                e.len() as int,
                suffix.len() as int,
            ));
            assert forall|i: int| 0 <= i < str@.take(k + 1).len() implies 0 < #[trigger] (str@.take(
                k + 1,
            )[i] as u32) < 0x10000 by {
                if i < k {
                    assert(str@.take(k + 1)[i] == str@.take(k)[i]);
                    assert(0 < (str@.take(k)[i] as u32) < 0x10000);
                }
            }
            k = k + 1;
        }
        index += width;
    }
    proof {
        lemma_encode_utf8_nonempty(str@.skip(k));
        assert(k == str@.len());
        assert(str@.take(k) =~= str@);
        lemma_plain_is_utf8(str@);
    }
    true
}

/// The length of the encoding of the text, computed without encoding it.
/// A length that does not fit in `usize` is reported as `usize::MAX`.
pub fn len(str: &str) -> (len: usize)
    ensures
        encode_chars(str@).len() <= usize::MAX ==> len == encode_chars(str@).len(),
        encode_chars(str@).len() > usize::MAX ==> len == usize::MAX,
{
    let bytes = str.as_bytes();
    let mut len: usize = 0;
    let mut index: usize = 0;
    let ghost mut k: int = 0;
    proof {
        assert(str@.skip(0) =~= str@);
        assert(bytes@.subrange(0, bytes@.len() as int) =~= bytes@);
        assert(str@.take(0) =~= Seq::<char>::empty());
    }
    while index < bytes.len()
        invariant
            bytes@ == encode_utf8(str@),
            0 <= k <= str@.len(),
            index <= bytes@.len(),
            bytes@.subrange(index as int, bytes@.len() as int) == encode_utf8(str@.skip(k)),
            encode_chars(str@.take(k)).len() <= usize::MAX ==> len == encode_chars(
                str@.take(k),
            ).len(),
            encode_chars(str@.take(k)).len() > usize::MAX ==> len == usize::MAX,
        decreases bytes@.len() - index,
    {
        let ghost suffix = bytes@.subrange(index as int, bytes@.len() as int);
        proof {
            lemma_encode_utf8_nonempty(str@.skip(k));
            assert(suffix.len() > 0);
            lemma_walk_step(str@, k);
            lemma_encode_scalar_shape(str@[k] as u32);
            lemma_encode_char_shape(str@[k]);
            lemma_encode_chars_push(str@.take(k), str@[k]);
            assert(suffix[0] == bytes@[index as int]);
            assert(suffix[0] == encode_scalar(str@[k] as u32)[0]);
        }
        let byte = bytes[index];
        let ghost e = encode_scalar(str@[k] as u32);
        if byte == NULL_CODE_POINT {
            len = len.saturating_add(2);
            proof {
                assert(e.len() == 1);
            }
            index += 1;
        } else if byte <= MAX_ASCII_CODE_POINT {
            len = len.saturating_add(1);
            proof {
                assert(e.len() == 1);
            }
            index += 1;
        } else {
            let width = match utf8_char_width(byte) {
                Some(width) => width,
                None => 1,
            };
            proof {
                assert(e.len() == width);
                assert(suffix.len() >= e.len());
            }
            len = len.saturating_add(
                if width <= MUTF8_MAX_CHAR_WIDTH {
                    width
                } else {
                    6
                },
            );
            index += width;
        }
        proof {
            assert(bytes@.subrange(index as int, bytes@.len() as int) =~= suffix.subrange(
                e.len() as int,
                suffix.len() as int,
            ));
            assert(suffix.subrange(e.len() as int, suffix.len() as int) =~= encode_utf8(
                str@.skip(k + 1),
            ));
            k = k + 1;
        }
    }
    proof {
        lemma_encode_utf8_nonempty(str@.skip(k));
        assert(str@.take(k) =~= str@);
    }
    len
}

/// Encodes a text that [`is_valid`] refuses: NUL becomes `C0 80`, a character
/// above `U+FFFF` becomes the six bytes of its surrogate pair, and every other
/// character keeps its UTF-8 bytes.
pub fn encode_mutf8(str: &str) -> (encoded: Vec<u8>)
    ensures
        encoded@ == encode_chars(str@),
{
    let bytes = str.as_bytes();
    let capacity = len(str);
    let mut encoded: Vec<u8> = Vec::with_capacity(capacity);
    let mut index: usize = 0;
    let ghost mut k: int = 0;
    proof {
        assert(str@.skip(0) =~= str@);
        assert(bytes@.subrange(0, bytes@.len() as int) =~= bytes@);
        assert(str@.take(0) =~= Seq::<char>::empty());
    }
    while index < bytes.len()
        invariant
            bytes@ == encode_utf8(str@),
            0 <= k <= str@.len(),
            index <= bytes@.len(),
            bytes@.subrange(index as int, bytes@.len() as int) == encode_utf8(str@.skip(k)),
            encoded@ == encode_chars(str@.take(k)),
        decreases bytes@.len() - index,
    {
        let ghost suffix = bytes@.subrange(index as int, bytes@.len() as int);
        let ghost c = str@[k];
        let ghost e = encode_scalar(c as u32);
        let ghost before = encoded@;
        proof {
            lemma_encode_utf8_nonempty(str@.skip(k));
            assert(suffix.len() > 0);
            lemma_walk_step(str@, k);
            lemma_encode_scalar_shape(c as u32);
            lemma_encode_chars_push(str@.take(k), c);
            assert(suffix.len() >= e.len());
            assert forall|j: int| 0 <= j < e.len() implies bytes@[index + j] == #[trigger] e[j] by {
                assert(suffix[j] == bytes@[index + j]);
                assert(suffix[j] == e[j]);
            }
            assert(bytes@[index as int] == e[0]);
        }
        let byte = bytes[index];
        if byte == NULL_CODE_POINT {
            encoded.push(0xC0);
            encoded.push(0x80);
            proof {
                assert(encoded@ =~= before + encode_char(c));
            }
            index += 1;
        } else if byte <= MAX_ASCII_CODE_POINT {
            encoded.push(byte);
            proof {
                assert(encoded@ =~= before + encode_char(c));
            }
            index += 1;
        } else {
            let width = match utf8_char_width(byte) {
                Some(width) => width,
                None => 1,
            };
            proof {
                assert(e.len() == width);
            }
            proof {
                assert(bytes@[index + 1] == e[1]);
                if width >= 3 {
                    assert(bytes@[index + 2] == e[2]);
                }
                if width >= 4 {
                    assert(bytes@[index + 3] == e[3]);
                }
            }
            if width <= MUTF8_MAX_CHAR_WIDTH {
                encoded.push(byte);
                encoded.push(bytes[index + 1]);
                if width == 3 {
                    encoded.push(bytes[index + 2]);
                }
                proof {
                    assert(encoded@ =~= before + encode_char(c));
                }
            } else {
                let code_point = ((byte & 0x07) as u32) << 18 | ((bytes[index + 1] & 0x3f) as u32)
                    << 12 | ((bytes[index + 2] & 0x3f) as u32) << 6 | ((bytes[index + 3] & 0x3f) as u32);
                proof {
                    assert(code_point == codepoint_width_4(e[0], e[1], e[2], e[3]));
                    assert(code_point == c as u32);
                }
                let surrogate_pair = to_surrogate_pair(code_point);
                let encoded_pair = encode_surrogate_pair(surrogate_pair);
                let mut j: usize = 0;
                while j < 6
                    invariant
                        j <= 6,
                        encoded@ == before + encoded_pair@.take(j as int),
                    decreases 6 - j,
                {
                    encoded.push(encoded_pair[j]);
                    proof {
                        assert(encoded_pair@.take(j + 1) =~= encoded_pair@.take(j as int).push(
                            encoded_pair@[j as int],
                        ));
                        assert(encoded@ =~= before + encoded_pair@.take(j + 1));
                    }
                    j += 1;
                }
                proof {
                    assert(encoded_pair@.take(6) =~= encoded_pair@);
                    assert(encoded@ =~= before + encode_char(c));
                }
            }
            index += width;
        }
        proof {
            assert(bytes@.subrange(index as int, bytes@.len() as int) =~= suffix.subrange(
                e.len() as int,
                suffix.len() as int,
            ));
            assert(suffix.subrange(e.len() as int, suffix.len() as int) =~= encode_utf8(
                str@.skip(k + 1),
            ));
            k = k + 1;
        }
    }
    proof {
        lemma_encode_utf8_nonempty(str@.skip(k));
        assert(str@.take(k) =~= str@);
    }
    encoded
}

/// Encodes a text. A text with no NUL and nothing above `U+FFFF` is its own
/// encoding and is copied as it is. The result never holds a zero byte.
pub fn encode(str: &str) -> (encoded: Vec<u8>)
    ensures
        encoded@ == encode_chars(str@),
        forall|i: int| 0 <= i < encoded@.len() ==> encoded@[i] != 0,
{
    proof {
        lemma_encode_chars_no_nul(str@);
    }
    if is_valid(str) {
        vstd::slice::slice_to_vec(str.as_bytes())
    } else {
        encode_mutf8(str)
    }
}

/// True when a lead byte and the byte after it can start a three-byte
/// sequence that is neither overlong nor a surrogate half.
pub open spec fn is_three_byte_start(first: u8, second: u8) -> bool {
    ||| first == 0xE0 && 0xA0 <= second <= 0xBF
    ||| 0xE1 <= first <= 0xEC && 0x80 <= second <= 0xBF
    ||| first == 0xED && 0x80 <= second <= 0x9F
    ||| 0xEE <= first <= 0xEF && 0x80 <= second <= 0xBF
}

/// The first character of a strictly encoded text and the number of bytes it
/// takes, or `None` where the bytes start with no character of the encoding:
/// at an invalid lead byte, a missing continuation byte, an overlong form, a
/// surrogate half without its partner, or a four-byte sequence.
pub open spec fn decode_first(bytes: Seq<u8>) -> Option<(char, int)> {
    if bytes.len() == 0 {
        None
    } else if bytes[0] == 0xC0 {
        if bytes.len() >= 2 && bytes[1] == 0x80 {
            Some(('\0', 2int))
        } else {
            None
        }
    } else if bytes[0] <= 0x7F {
        Some((bytes[0] as char, 1int))
    } else if char_width(bytes[0]) is None {
        None
    } else if bytes.len() < 2 || !vstd::utf8::is_continuation_byte(bytes[1]) {
        None
    } else if char_width(bytes[0]) == Some(2usize) {
        Some((codepoint_width_2(bytes[0], bytes[1]) as char, 2int))
    } else if char_width(bytes[0]) == Some(3usize) {
        if bytes.len() < 3 || !vstd::utf8::is_continuation_byte(bytes[2]) {
            None
        } else if is_three_byte_start(bytes[0], bytes[1]) {
            Some((codepoint_width_3(bytes[0], bytes[1], bytes[2]) as char, 3int))
        } else if bytes[0] == 0xED && 0xA0 <= bytes[1] <= 0xAF {
            if bytes.len() >= 6 && bytes[3] == 0xED && 0xB0 <= bytes[4] <= 0xBF
                && vstd::utf8::is_continuation_byte(bytes[5]) {
                Some(
                    (
                        combine_surrogates(
                            surrogate_of(bytes[1], bytes[2]),
                            surrogate_of(bytes[4], bytes[5]),
                        ) as char,
                        6int,
                    ),
                )
            } else {
                None
            }
        } else {
            None
        }
    } else {
        None
    }
}

/// A decoded text with some characters put in front of it.
pub open spec fn prepend(chars: Seq<char>, rest: Option<Seq<char>>) -> Option<Seq<char>> {
    match rest {
        Some(rest) => Some(chars + rest),
        None => None,
    }
}

/// The text that strictly encoded bytes stand for, or `None` where they are
/// no strict encoding of any text.
pub open spec fn decode_strict(bytes: Seq<u8>) -> Option<Seq<char>>
    decreases bytes.len(),
{
    if bytes.len() == 0 {
        Some(Seq::<char>::empty())
    } else {
        match decode_first(bytes) {
            None => None,
            Some((c, width)) => if 0 < width <= bytes.len() {
                prepend(seq![c], decode_strict(bytes.skip(width)))
            } else {
                None
            },
        }
    }
}

/// The text that bytes stand for. Bytes that are valid UTF-8 stand for the
/// text that they are the UTF-8 encoding of; all others are read strictly.
pub open spec fn decode_text(bytes: Seq<u8>) -> Option<Seq<char>> {
    if valid_utf8(bytes) {
        Some(decode_utf8(bytes))
    } else {
        decode_strict(bytes)
    }
}

/// Calls `String::from_utf8`. The contract claims what the standard library
/// documents: the call succeeds exactly on valid UTF-8, and the string then
/// holds the characters that the bytes encode.
#[verifier::external_body]
pub(crate) fn string_from_utf8(bytes: Vec<u8>) -> (text: Option<String>)
    ensures
        text is Some <==> valid_utf8(bytes@),
        text matches Some(s) ==> s@ == decode_utf8(bytes@),
{
    match String::from_utf8(bytes) {
        Ok(text) => Some(text),
        Err(_) => None,
    }
}

/// The error that every undecodable text is reported with.
pub open spec fn is_invalid_data(error: Error) -> bool {
    error.has(Category::InvalidData, "invalid MUTF-8 data"@, PositionView::Nowhere)
}

fn invalid_data() -> (error: Error)
    ensures
        is_invalid_data(error),
{
    Error::new(Category::InvalidData, "invalid MUTF-8 data".to_owned())
}

/// The UTF-8 bytes that the decoder writes for a two-byte sequence are the
/// sequence itself.
proof fn lemma_two_bytes(b0: u8, b1: u8)
    requires
        0xC2 <= b0 <= 0xDF,
        0x80 <= b1 <= 0xBF,
    ensures
        is_scalar(codepoint_width_2(b0, b1)),
        ((codepoint_width_2(b0, b1) as char) as u32) == codepoint_width_2(b0, b1),
        encode_scalar(codepoint_width_2(b0, b1)) =~= seq![b0, b1],
        0x80 <= codepoint_width_2(b0, b1) < 0x800,
{
    let hi: u32 = (b0 & 0x1F) as u32;
    let lo: u32 = (b1 & 0x3f) as u32;
    let cp: u32 = (hi << 6) | lo;
    assert(0x80 <= cp <= 0x7FF && (0xC0u8 | ((cp >> 6) & 0x1F) as u8) == b0 && (0x80u8 | (cp
        & 0x3F) as u8) == b1) by (bit_vector)
        requires
            0xC2 <= b0 <= 0xDF,
            0x80 <= b1 <= 0xBF,
            hi == (b0 & 0x1F) as u32,
            lo == (b1 & 0x3f) as u32,
            cp == (hi << 6) | lo,
    ;
}

/// The UTF-8 bytes that the decoder writes for a three-byte sequence are the
/// sequence itself.
proof fn lemma_three_bytes(b0: u8, b1: u8, b2: u8)
    requires
        is_three_byte_start(b0, b1),
        0x80 <= b2 <= 0xBF,
    ensures
        is_scalar(codepoint_width_3(b0, b1, b2)),
        ((codepoint_width_3(b0, b1, b2) as char) as u32) == codepoint_width_3(b0, b1, b2),
        encode_scalar(codepoint_width_3(b0, b1, b2)) =~= seq![b0, b1, b2],
        0x800 <= codepoint_width_3(b0, b1, b2) < 0x10000,
{
    assert(is_three_byte_start(b0, b1) && 0x80 <= b2 <= 0xBF ==> {
        let cp = (((b0 & 0x0F) as u32) << 12) | (((b1 & 0x3f) as u32) << 6) | ((b2 & 0x3f) as u32);
        &&& 0x800 <= cp <= 0xFFFF
        &&& !(0xD800 <= cp <= 0xDFFF)
        &&& (0xE0u8 | ((cp >> 12) & 0x0F) as u8) == b0
        &&& (0x80u8 | ((cp >> 6) & 0x3F) as u8) == b1
        &&& (0x80u8 | (cp & 0x3F) as u8) == b2
    }) by (bit_vector);
}

/// The code point that a surrogate pair stands for lies above `U+FFFF`, and
/// its four bytes are its UTF-8 encoding.
proof fn lemma_pair_bytes(b1: u8, b2: u8, b4: u8, b5: u8)
    requires
        0xA0 <= b1 <= 0xAF,
        0x80 <= b2 <= 0xBF,
        0xB0 <= b4 <= 0xBF,
        0x80 <= b5 <= 0xBF,
    ensures
        ({
            let cp = combine_surrogates(surrogate_of(b1, b2), surrogate_of(b4, b5));
            &&& 0x10000 <= cp <= 0x10FFFF
            &&& is_scalar(cp)
            &&& ((cp as char) as u32) == cp
            &&& encode_scalar(cp) =~= code_point_bytes(cp)
        }),
{
    let high = surrogate_of(b1, b2);
    let low = surrogate_of(b4, b5);
    assert(0xA0 <= b1 <= 0xAF ==> 0xD800 <= (0xD000u32 | ((b1 & 0x3F) as u32) << 6 | (b2 & 0x3F) as u32)
        <= 0xDBFF) by (bit_vector);
    assert(0xB0 <= b4 <= 0xBF ==> 0xDC00 <= (0xD000u32 | ((b4 & 0x3F) as u32) << 6 | (b5 & 0x3F) as u32)
        <= 0xDFFF) by (bit_vector);
    let h = (high - 0xD800) as u32;
    let l = (low - 0xDC00) as u32;
    assert(h <= 0x3FF && l <= 0x3FF ==> (h << 10 | l) <= 0xFFFFF) by (bit_vector);
    let cp = combine_surrogates(high, low);
    assert(0x10000 <= cp <= 0x10FFFF ==> {
        &&& (0xF0u8 | ((cp >> 18) & 0x7) as u8) == (0xF0u8 | ((cp & 0x1C0000) >> 18) as u8)
        &&& (0x80u8 | ((cp >> 12) & 0x3F) as u8) == (0x80u8 | ((cp & 0x03F000) >> 12) as u8)
        &&& (0x80u8 | ((cp >> 6) & 0x3F) as u8) == (0x80u8 | ((cp & 0x000FC0) >> 6) as u8)
        &&& (0x80u8 | (cp & 0x3F) as u8) == (0x80u8 | ((cp & 0x00003F) as u8))
    }) by (bit_vector);
}

/// One step of the strict reading: where the bytes from `index` on start
/// with a character, the text of the whole is that character put between
/// what was read before and what follows.
proof fn lemma_decode_step(bytes: Seq<u8>, index: int, chars: Seq<char>, c: char, width: int)
    requires
        0 <= index < bytes.len(),
        decode_first(bytes.skip(index)) == Some((c, width)),
        0 < width <= bytes.len() - index,
    ensures
        prepend(chars, decode_strict(bytes.skip(index))) == prepend(
            chars.push(c),
            decode_strict(bytes.skip(index + width)),
        ),
{
    let suffix = bytes.skip(index);
    assert(suffix.skip(width) =~= bytes.skip(index + width));
    match decode_strict(bytes.skip(index + width)) {
        Some(rest) => {
            assert(chars + (seq![c] + rest) =~= chars.push(c) + rest);
        },
        None => {},
    }
}

/// Reads the character that the bytes from `index` on start with and writes
/// its UTF-8 bytes; hands back how many bytes the character took, or `None`
/// where the bytes start with no character.
fn decode_next(bytes: &[u8], index: usize, decoded: &mut Vec<u8>) -> (width: Option<usize>)
    requires
        index < bytes@.len(),
    ensures
        match decode_first(bytes@.skip(index as int)) {
            Some((c, w)) => width == Some(w as usize) && 0 < w <= bytes@.len() - index
                && final(decoded)@ == old(decoded)@ + encode_scalar(c as u32),
            None => width is None,
        },
{
    let n = bytes.len();
    let ghost suffix = bytes@.skip(index as int);
    let ghost before = decoded@;
    proof {
        assert(suffix.len() == n - index);
        assert(suffix[0] == bytes@[index as int]);
        if n - index >= 2 {
            assert(suffix[1] == bytes@[index + 1]);
        }
        if n - index >= 3 {
            assert(suffix[2] == bytes@[index + 2]);
        }
        if n - index >= 6 {
            assert(suffix[3] == bytes@[index + 3]);
            assert(suffix[4] == bytes@[index + 4]);
            assert(suffix[5] == bytes@[index + 5]);
        }
    }
    let first = bytes[index];
    if first == 0xC0 {
        if n - index < 2 || bytes[index + 1] != 0x80 {
            return None;
        }
        decoded.push(NULL_CODE_POINT);
        proof {
            assert(0u32 & 0x7F == 0u32) by (bit_vector);
            assert(encode_scalar(0u32) =~= seq![0u8]);
            assert(decoded@ =~= before + encode_scalar('\0' as u32));
        }
        return Some(2);
    }
    if first <= MAX_ASCII_CODE_POINT {
        decoded.push(first);
        proof {
            let c = first as char;
            char_is_scalar(c);
            lemma_encode_scalar_shape(c as u32);
            assert(decoded@ =~= before + encode_scalar(c as u32));
        }
        return Some(1);
    }
    let width = match utf8_char_width(first) {
        Some(width) => width,
        None => {
            return None;
        },
    };
    if n - index < 2 || !is_continuation_byte(bytes[index + 1]) {
        return None;
    }
    let second = bytes[index + 1];
    if width == 2 {
        decoded.push(first);
        decoded.push(second);
        proof {
            lemma_two_bytes(first, second);
            assert(decoded@ =~= before + seq![first, second]);
        }
        return Some(2);
    }
    if width != 3 || n - index < 3 || !is_continuation_byte(bytes[index + 2]) {
        return None;
    }
    let third = bytes[index + 2];
    if (first == 0xE0 && 0xA0 <= second) || (0xE1 <= first && first <= 0xEC) || (first == 0xED
        && second <= 0x9F) || 0xEE <= first {
        decoded.push(first);
        decoded.push(second);
        decoded.push(third);
        proof {
            lemma_three_bytes(first, second, third);
            assert(decoded@ =~= before + seq![first, second, third]);
        }
        return Some(3);
    }
    if !(first == 0xED && 0xA0 <= second && second <= 0xAF) || n - index < 6 {
        return None;
    }
    let fifth = bytes[index + 4];
    let sixth = bytes[index + 5];
    if bytes[index + 3] != 0xED || !(0xB0 <= fifth && fifth <= 0xBF) || !is_continuation_byte(sixth) {
        return None;
    }
    let pair = decode_surrogate_pair(second, third, fifth, sixth);
    decoded.push(pair[0]);
    decoded.push(pair[1]);
    decoded.push(pair[2]);
    decoded.push(pair[3]);
    proof {
        lemma_pair_bytes(second, third, fifth, sixth);
        assert(decoded@ =~= before + pair@);
    }
    Some(6)
}

/// Reads bytes strictly: ASCII bytes stand for themselves, `C0 80` for NUL,
/// two- and three-byte sequences for the characters that they encode in
/// UTF-8, and a high surrogate half followed by a low one for the character
/// above `U+FFFF` that the pair stands for. Everything else is refused.
pub fn decode_mutf8(bytes: &[u8]) -> (result: Result<String, Error>)
    ensures
        match result {
            Ok(text) => decode_strict(bytes@) == Some(text@),
            Err(error) => decode_strict(bytes@) is None && is_invalid_data(error),
        },
{
    let n = bytes.len();
    let mut decoded: Vec<u8> = Vec::with_capacity(n);
    let mut index: usize = 0;
    let ghost mut chars: Seq<char> = Seq::<char>::empty();
    proof {
        assert(bytes@.skip(0) =~= bytes@);
        match decode_strict(bytes@) {
            Some(rest) => {
                assert(Seq::<char>::empty() + rest =~= rest);
            },
            None => {},
        }
    }
    while index < n
        invariant
            n == bytes@.len(),
            index <= n,
            decoded@ == encode_utf8(chars),
            decode_strict(bytes@) == prepend(chars, decode_strict(bytes@.skip(index as int))),
        decreases n - index,
    {
        let width = match decode_next(bytes, index, &mut decoded) {
            Some(width) => width,
            None => {
                return Err(invalid_data());
            },
        };
        proof {
            let step = decode_first(bytes@.skip(index as int)).unwrap();
            let c = step.0;
            lemma_decode_step(bytes@, index as int, chars, c, width as int);
            lemma_encode_utf8_push(chars, c);
            chars = chars.push(c);
        }
        index += width;
    }
    proof {
        assert(bytes@.skip(index as int) =~= Seq::<u8>::empty());
        assert(chars + Seq::<char>::empty() =~= chars);
        encode_utf8_valid_utf8(chars);
        encode_utf8_decode_utf8(chars);
    }
    match string_from_utf8(decoded) {
        Some(text) => Ok(text),
        None => Err(invalid_data()),
    }
}

/// Decodes a text. Bytes that are valid UTF-8 are taken as they are; all
/// others are read by [`decode_mutf8`]. There is no lossy substitution:
/// bytes that neither reading accepts are an error of category
/// `InvalidData`.
pub fn decode(bytes: &[u8]) -> (result: Result<String, Error>)
    ensures
        match result {
            Ok(text) => decode_text(bytes@) == Some(text@),
            Err(error) => decode_text(bytes@) is None && is_invalid_data(error),
        },
{
    match string_from_utf8(vstd::slice::slice_to_vec(bytes)) {
        Some(text) => Ok(text),
        None => decode_mutf8(bytes),
    }
}

/// The bytes of a surrogate pair, read back.
proof fn lemma_pair_round_trip(v: u32)
    requires
        0x10000 <= v <= 0x10FFFF,
    ensures
        ({
            let high = surrogate_bytes(high_surrogate(v));
            let low = surrogate_bytes(low_surrogate(v));
            &&& high[0] == 0xED
            &&& 0xA0 <= high[1] <= 0xAF
            &&& 0x80 <= high[2] <= 0xBF
            &&& low[0] == 0xED
            &&& 0xB0 <= low[1] <= 0xBF
            &&& 0x80 <= low[2] <= 0xBF
            &&& combine_surrogates(surrogate_of(high[1], high[2]), surrogate_of(low[1], low[2]))
                == v
        }),
{
    let w: u32 = (v - 0x10000) as u32;
    let h: u16 = ((w >> 10) as u16) | 0xD800;
    let l: u16 = ((w & 0x3FF) as u16) | 0xDC00;
    let h0: u8 = 0xE0u8 | ((h & 0xF000) >> 12) as u8;
    let h1: u8 = 0x80u8 | ((h & 0x0FC0) >> 6) as u8;
    let h2: u8 = 0x80u8 | ((h & 0x003F) as u8);
    let l0: u8 = 0xE0u8 | ((l & 0xF000) >> 12) as u8;
    let l1: u8 = 0x80u8 | ((l & 0x0FC0) >> 6) as u8;
    let l2: u8 = 0x80u8 | ((l & 0x003F) as u8);
    assert(h0 == 0xED && 0xA0 <= h1 <= 0xAF && 0x80 <= h2 <= 0xBF && 0xD800 <= h <= 0xDBFF)
        by (bit_vector)
        requires
            w <= 0xFFFFF,
            h == ((w >> 10) as u16) | 0xD800,
            h0 == 0xE0u8 | ((h & 0xF000) >> 12) as u8,
            h1 == 0x80u8 | ((h & 0x0FC0) >> 6) as u8,
            h2 == 0x80u8 | ((h & 0x003F) as u8),
    ;
    assert(l0 == 0xED && 0xB0 <= l1 <= 0xBF && 0x80 <= l2 <= 0xBF && 0xDC00 <= l <= 0xDFFF)
        by (bit_vector)
        requires
            l == ((w & 0x3FF) as u16) | 0xDC00,
            l0 == 0xE0u8 | ((l & 0xF000) >> 12) as u8,
            l1 == 0x80u8 | ((l & 0x0FC0) >> 6) as u8,
            l2 == 0x80u8 | ((l & 0x003F) as u8),
    ;
    let sh: u32 = surrogate_of(h1, h2);
    let sl: u32 = surrogate_of(l1, l2);
    assert(sh == h as u32) by (bit_vector)
        requires
            0xD800 <= h <= 0xDBFF,
            h1 == 0x80u8 | ((h & 0x0FC0) >> 6) as u8,
            h2 == 0x80u8 | ((h & 0x003F) as u8),
            sh == 0xD000u32 | ((h1 & 0x3F) as u32) << 6 | (h2 & 0x3F) as u32,
    ;
    assert(sl == l as u32) by (bit_vector)
        requires
            0xDC00 <= l <= 0xDFFF,
            l1 == 0x80u8 | ((l & 0x0FC0) >> 6) as u8,
            l2 == 0x80u8 | ((l & 0x003F) as u8),
            sl == 0xD000u32 | ((l1 & 0x3F) as u32) << 6 | (l2 & 0x3F) as u32,
    ;
    let dh: u32 = (sh - 0xD800) as u32;
    let dl: u32 = (sl - 0xDC00) as u32;
    assert(dh == w >> 10 && dl == w & 0x3FF) by (bit_vector)
        requires
            w <= 0xFFFFF,
            h == ((w >> 10) as u16) | 0xD800,
            l == ((w & 0x3FF) as u16) | 0xDC00,
            dh == (h as u32 - 0xD800u32) as u32,
            dl == (l as u32 - 0xDC00u32) as u32,
    ;
    assert((dh << 10 | dl) == w) by (bit_vector)
        requires
            w <= 0xFFFFF,
            dh == w >> 10,
            dl == w & 0x3FF,
    ;
}

/// The bytes of a two- or three-byte character, read back.
proof fn lemma_scalar_round_trip(v: u32)
    requires
        is_scalar(v),
        0x80 <= v < 0x10000,
    ensures
        v < 0x800 ==> codepoint_width_2(encode_scalar(v)[0], encode_scalar(v)[1]) == v,
        0x800 <= v ==> codepoint_width_3(
            encode_scalar(v)[0],
            encode_scalar(v)[1],
            encode_scalar(v)[2],
        ) == v && is_three_byte_start(encode_scalar(v)[0], encode_scalar(v)[1]),
{
    if v < 0x800 {
        let b0: u8 = 0xC0u8 | ((v >> 6) & 0x1F) as u8;
        let b1: u8 = 0x80u8 | (v & 0x3F) as u8;
        assert(((((b0 & 0x1F) as u32) << 6) | ((b1 & 0x3f) as u32)) == v) by (bit_vector)
            requires
                0x80 <= v < 0x800,
                b0 == 0xC0u8 | ((v >> 6) & 0x1F) as u8,
                b1 == 0x80u8 | (v & 0x3F) as u8,
        ;
    } else {
        let b0: u8 = 0xE0u8 | ((v >> 12) & 0x0F) as u8;
        let b1: u8 = 0x80u8 | ((v >> 6) & 0x3F) as u8;
        let b2: u8 = 0x80u8 | (v & 0x3F) as u8;
        assert((((b0 & 0x0F) as u32) << 12 | ((b1 & 0x3f) as u32) << 6 | ((b2 & 0x3f) as u32)) == v
            && is_three_byte_start(b0, b1)) by (bit_vector)
            requires
                0x800 <= v < 0x10000,
                !(0xD800 <= v <= 0xDFFF),
                b0 == 0xE0u8 | ((v >> 12) & 0x0F) as u8,
                b1 == 0x80u8 | ((v >> 6) & 0x3F) as u8,
                b2 == 0x80u8 | (v & 0x3F) as u8,
        ;
    }
}

/// Bytes that start with the encoding of a character are read as that
/// character, whatever follows.
pub proof fn lemma_decode_first_of_encode(c: char, rest: Seq<u8>)
    ensures
        decode_first(encode_char(c) + rest) == Some((c, encode_char(c).len() as int)),
{
    let v = c as u32;
    let head = encode_char(c);
    let bytes = head + rest;
    char_is_scalar(c);
    char_u32_cast(c, v);
    lemma_encode_char_shape(c);
    assert forall|j: int| 0 <= j < head.len() implies bytes[j] == head[j] by {}
    if v == 0 {
        assert(bytes[0] == head[0] && bytes[1] == head[1]);
        assert('\0' as u32 == 0u32);
        char_u32_cast('\0', 0u32);
    } else if v < 0x80 {
        lemma_encode_scalar_shape(v);
        assert(bytes[0] == head[0]);
        assert(head[0] == v as u8);
        assert((v as u8) as char == c);
    } else if v < 0x10000 {
        lemma_encode_scalar_shape(v);
        lemma_scalar_round_trip(v);
        assert(bytes[0] == head[0] && bytes[1] == head[1]);
        assert(0x80 <= head[1] <= 0xBF);
        if 0x800 <= v {
            assert(bytes[2] == head[2]);
            assert(0x80 <= head[2] <= 0xBF);
        }
    } else {
        lemma_pair_round_trip(v);
        let high = surrogate_bytes(high_surrogate(v));
        let low = surrogate_bytes(low_surrogate(v));
        assert(head[0] == high[0] && head[1] == high[1] && head[2] == high[2]);
        assert(head[3] == low[0] && head[4] == low[1] && head[5] == low[2]);
        assert(bytes[0] == head[0] && bytes[1] == head[1] && bytes[2] == head[2]);
        assert(bytes[3] == head[3] && bytes[4] == head[4] && bytes[5] == head[5]);
    }
}

/// The strict reading of an encoded text is the text.
pub proof fn lemma_decode_strict_of_encode(chars: Seq<char>)
    ensures
        decode_strict(encode_chars(chars)) == Some(chars),
    decreases chars.len(),
{
    if chars.len() == 0 {
        assert(chars =~= Seq::<char>::empty());
    } else {
        let head = encode_char(chars[0]);
        let tail = encode_chars(chars.drop_first());
        lemma_decode_first_of_encode(chars[0], tail);
        lemma_encode_char_shape(chars[0]);
        lemma_decode_strict_of_encode(chars.drop_first());
        assert((head + tail).skip(head.len() as int) =~= tail);
        assert(seq![chars[0]] + chars.drop_first() =~= chars);
    }
}

/// An encoded text that happens to be valid UTF-8 holds no NUL and nothing
/// above `U+FFFF`, so it is the UTF-8 encoding of the text.
pub proof fn lemma_valid_utf8_encode_is_plain(chars: Seq<char>)
    requires
        valid_utf8(encode_chars(chars)),
    ensures
        is_plain(chars),
        encode_chars(chars) == encode_utf8(chars),
    decreases chars.len(),
{
    if chars.len() > 0 {
        let c = chars[0];
        let v = c as u32;
        let head = encode_char(c);
        let tail = encode_chars(chars.drop_first());
        let bytes = head + tail;
        char_is_scalar(c);
        lemma_encode_char_shape(c);
        assert forall|j: int| 0 <= j < head.len() implies bytes[j] == head[j] by {}
        if v == 0 {
            assert(bytes[0] == 0xC0 && bytes[1] == 0x80);
            assert(((((0xC0u8 & 0x1F) as u32) << 6) | ((0x80u8 & 0x3f) as u32)) == 0u32)
                by (bit_vector);
            assert(!valid_first_scalar(bytes));
        } else if v >= 0x10000 {
            lemma_pair_round_trip(v);
            let high = surrogate_bytes(high_surrogate(v));
            assert(head[0] == high[0] && head[1] == high[1] && head[2] == high[2]);
            assert(bytes[0] == head[0] && bytes[1] == head[1] && bytes[2] == head[2]);
            let b1 = bytes[1];
            let b2 = bytes[2];
            assert(0xD800 <= ((((0xEDu8 & 0x0F) as u32) << 12) | (((b1 & 0x3f) as u32) << 6) | ((b2
                & 0x3f) as u32)) <= 0xDFFF) by (bit_vector)
                requires
                    0xA0 <= b1 <= 0xAF,
            ;
            assert(!valid_first_scalar(bytes));
        } else {
            lemma_encode_scalar_shape(v);
            assert(bytes[0] == head[0]);
            assert(length_of_first_scalar(bytes) == head.len());
            assert(pop_first_scalar(bytes) =~= tail);
            lemma_valid_utf8_encode_is_plain(chars.drop_first());
            assert forall|i: int| 0 <= i < chars.len() implies 0 < #[trigger] (chars[i] as u32)
                < 0x10000 by {
                if i > 0 {
                    assert(chars[i] == chars.drop_first()[i - 1]);
                    assert(0 < (chars.drop_first()[i - 1] as u32) < 0x10000);
                }
            }
        }
        lemma_plain_is_utf8(chars);
    }
}

/// Decoding undoes encoding, for every text: also for one that holds NUL or
/// characters above `U+FFFF`. The encoding itself never holds a zero byte.
pub proof fn lemma_text_round_trip(chars: Seq<char>)
    ensures
        decode_text(encode_chars(chars)) == Some(chars),
        forall|i: int| 0 <= i < encode_chars(chars).len() ==> #[trigger] encode_chars(chars)[i] != 0,
{
    lemma_encode_chars_no_nul(chars);
    if valid_utf8(encode_chars(chars)) {
        lemma_valid_utf8_encode_is_plain(chars);
        encode_utf8_decode_utf8(chars);
    } else {
        lemma_decode_strict_of_encode(chars);
    }
}

} // verus!
