//! The primitives of the wire: fixed-width integers in either byte order,
//! LEB128 varints and the zigzag mapping.

use crate::error::Category;
use vstd::prelude::*;
use zende::Zigzag;

verus! {

/// A byte layout of the format. The dialects share the data model and differ
/// in how they write integers and lengths.
#[derive(Debug, Clone, Copy, PartialEq, Eq, Structural, Hash)]
pub enum Dialect {
    /// Fixed-width integers, most significant byte first.
    BigEndian,
    /// Fixed-width integers, least significant byte first.
    LittleEndian,
    /// 16-bit integers and floats fixed and little-endian; 32- and 64-bit
    /// integers as zigzag LEB128 varints.
    Varint,
}

/// The two bytes of a 16-bit integer, most significant first.
pub open spec fn be16(v: u16) -> Seq<u8> {
    seq![(v >> 8) as u8, v as u8]
}

/// The two bytes of a 16-bit integer, least significant first.
pub open spec fn le16(v: u16) -> Seq<u8> {
    seq![v as u8, (v >> 8) as u8]
}

/// The four bytes of a 32-bit integer, most significant first.
pub open spec fn be32(v: u32) -> Seq<u8> {
    seq![(v >> 24) as u8, (v >> 16) as u8, (v >> 8) as u8, v as u8]
}

/// The four bytes of a 32-bit integer, least significant first.
pub open spec fn le32(v: u32) -> Seq<u8> {
    seq![v as u8, (v >> 8) as u8, (v >> 16) as u8, (v >> 24) as u8]
}

/// The eight bytes of a 64-bit integer, most significant first.
pub open spec fn be64(v: u64) -> Seq<u8> {
    seq![
        (v >> 56) as u8,
        (v >> 48) as u8,
        (v >> 40) as u8,
        (v >> 32) as u8,
        (v >> 24) as u8,
        (v >> 16) as u8,
        (v >> 8) as u8,
        v as u8,
    ]
}

/// The eight bytes of a 64-bit integer, least significant first.
pub open spec fn le64(v: u64) -> Seq<u8> {
    seq![
        v as u8,
        (v >> 8) as u8,
        (v >> 16) as u8,
        (v >> 24) as u8,
        (v >> 32) as u8,
        (v >> 40) as u8,
        (v >> 48) as u8,
        (v >> 56) as u8,
    ]
}

/// The 16-bit integer whose more and less significant bytes are given.
pub open spec fn join16(hi: u8, lo: u8) -> u16 {
    (hi as u16) << 8 | (lo as u16)
}

/// The 32-bit integer whose bytes are given, most significant first.
pub open spec fn join32(b3: u8, b2: u8, b1: u8, b0: u8) -> u32 {
    (b3 as u32) << 24 | (b2 as u32) << 16 | (b1 as u32) << 8 | (b0 as u32)
}

/// The 64-bit integer whose halves are given.
pub open spec fn join64(hi: u32, lo: u32) -> u64 {
    (hi as u64) << 32 | (lo as u64)
}

/// The unsigned LEB128 form of a number: seven bits per byte, least
/// significant group first, the high bit set on every byte but the last.
pub open spec fn uleb128(v: nat) -> Seq<u8>
    decreases v,
{
    if v < 128 {
        seq![v as u8]
    } else {
        seq![((v % 128) + 128) as u8] + uleb128(v / 128)
    }
}

/// The signed LEB128 form of a number: as the unsigned form, but the last
/// byte carries the sign in its bit 6.
pub open spec fn sleb128(v: int) -> Seq<u8>
    decreases (if v < 0 {
        -v
    } else {
        v
    }),
{
    if -64 <= v < 64 {
        seq![(v % 128) as u8]
    } else {
        seq![((v % 128) + 128) as u8] + sleb128(v / 128)
    }
}

/// The zigzag form of a 32-bit integer: `0, -1, 1, -2, ...` become
/// `0, 1, 2, 3, ...`.
pub open spec fn zigzag32(v: i32) -> u32 {
    if v >= 0 {
        (2 * v) as u32
    } else {
        (-2 * v - 1) as u32
    }
}

/// The zigzag form of a 64-bit integer.
pub open spec fn zigzag64(v: i64) -> u64 {
    if v >= 0 {
        (2 * v) as u64
    } else {
        (-2 * v - 1) as u64
    }
}

/// The 32-bit integer that a zigzag form stands for.
pub open spec fn unzigzag32(u: u32) -> i32 {
    if u % 2 == 0 {
        (u / 2) as i32
    } else {
        (-(u / 2) - 1) as i32
    }
}

/// The 64-bit integer that a zigzag form stands for.
pub open spec fn unzigzag64(u: u64) -> i64 {
    if u % 2 == 0 {
        (u / 2) as i64
    } else {
        (-(u / 2) - 1) as i64
    }
}

/// The zigzag mapping and its inverse undo each other.
pub proof fn lemma_zigzag_round_trip(v: i32, w: i64)
    ensures
        unzigzag32(zigzag32(v)) == v,
        unzigzag64(zigzag64(w)) == w,
{
}

/// Calls `zende::Zigzag::zigzag` on an `i32`. The contract claims that the
/// result is the zigzag form of the integer.
#[verifier::external_body]
pub(crate) fn zigzag_i32(value: i32) -> (encoded: u32)
    ensures
        encoded == zigzag32(value),
{
    value.zigzag()
}

/// Calls `zende::Zigzag::zigzag` on an `i64`. The contract claims that the
/// result is the zigzag form of the integer.
#[verifier::external_body]
pub(crate) fn zigzag_i64(value: i64) -> (encoded: u64)
    ensures
        encoded == zigzag64(value),
{
    value.zigzag()
}

/// Calls `zende::Zigzag::zigzag` on a `u32`. The contract claims that the
/// result is the integer that the zigzag form stands for.
#[verifier::external_body]
pub(crate) fn unzigzag_u32(encoded: u32) -> (value: i32)
    ensures
        value == unzigzag32(encoded),
{
    encoded.zigzag()
}

/// Calls `zende::Zigzag::zigzag` on a `u64`. The contract claims that the
/// result is the integer that the zigzag form stands for.
#[verifier::external_body]
pub(crate) fn unzigzag_u64(encoded: u64) -> (value: i64)
    ensures
        value == unzigzag64(encoded),
{
    encoded.zigzag()
}

/// Calls `mini_leb128::write_u32` with the vector as the writer. The
/// contract claims that the unsigned LEB128 form of the number is appended;
/// writing to a vector does not fail.
#[verifier::external_body]
pub(crate) fn leb128_write_u32(writer: &mut Vec<u8>, value: u32)
    ensures
        final(writer)@ == old(writer)@ + uleb128(value as nat),
{
    let _ = mini_leb128::write_u32(writer, value);
}

/// Calls `mini_leb128::write_u64` with the vector as the writer. The
/// contract claims that the unsigned LEB128 form of the number is appended;
/// writing to a vector does not fail.
#[verifier::external_body]
pub(crate) fn leb128_write_u64(writer: &mut Vec<u8>, value: u64)
    ensures
        final(writer)@ == old(writer)@ + uleb128(value as nat),
{
    let _ = mini_leb128::write_u64(writer, value);
}

/// Calls `mini_leb128::write_i32` with the vector as the writer. The
/// contract claims that the signed LEB128 form of the number is appended;
/// writing to a vector does not fail.
#[verifier::external_body]
pub(crate) fn leb128_write_i32(writer: &mut Vec<u8>, value: i32)
    ensures
        final(writer)@ == old(writer)@ + sleb128(value as int),
{
    let _ = mini_leb128::write_i32(writer, value);
}

/// Appends the two bytes of a 16-bit integer, most significant first.
pub fn write_be16(writer: &mut Vec<u8>, value: u16)
    ensures
        final(writer)@ == old(writer)@ + be16(value),
{
    writer.push(#[verifier::truncate] ((value >> 8) as u8));
    writer.push(#[verifier::truncate] (value as u8));
    assert(writer@ =~= old(writer)@ + be16(value));
}

/// Appends the two bytes of a 16-bit integer, least significant first.
pub fn write_le16(writer: &mut Vec<u8>, value: u16)
    ensures
        final(writer)@ == old(writer)@ + le16(value),
{
    writer.push(#[verifier::truncate] (value as u8));
    writer.push(#[verifier::truncate] ((value >> 8) as u8));
    assert(writer@ =~= old(writer)@ + le16(value));
}

/// Appends the four bytes of a 32-bit integer, most significant first.
pub fn write_be32(writer: &mut Vec<u8>, value: u32)
    ensures
        final(writer)@ == old(writer)@ + be32(value),
{
    writer.push(#[verifier::truncate] ((value >> 24) as u8));
    writer.push(#[verifier::truncate] ((value >> 16) as u8));
    writer.push(#[verifier::truncate] ((value >> 8) as u8));
    writer.push(#[verifier::truncate] (value as u8));
    assert(writer@ =~= old(writer)@ + be32(value));
}

/// Appends the four bytes of a 32-bit integer, least significant first.
pub fn write_le32(writer: &mut Vec<u8>, value: u32)
    ensures
        final(writer)@ == old(writer)@ + le32(value),
{
    writer.push(#[verifier::truncate] (value as u8));
    writer.push(#[verifier::truncate] ((value >> 8) as u8));
    writer.push(#[verifier::truncate] ((value >> 16) as u8));
    writer.push(#[verifier::truncate] ((value >> 24) as u8));
    assert(writer@ =~= old(writer)@ + le32(value));
}

/// Appends the eight bytes of a 64-bit integer, most significant first.
pub fn write_be64(writer: &mut Vec<u8>, value: u64)
    ensures
        final(writer)@ == old(writer)@ + be64(value),
{
    writer.push(#[verifier::truncate] ((value >> 56) as u8));
    writer.push(#[verifier::truncate] ((value >> 48) as u8));
    writer.push(#[verifier::truncate] ((value >> 40) as u8));
    writer.push(#[verifier::truncate] ((value >> 32) as u8));
    writer.push(#[verifier::truncate] ((value >> 24) as u8));
    writer.push(#[verifier::truncate] ((value >> 16) as u8));
    writer.push(#[verifier::truncate] ((value >> 8) as u8));
    writer.push(#[verifier::truncate] (value as u8));
    assert(writer@ =~= old(writer)@ + be64(value));
}

/// Appends the eight bytes of a 64-bit integer, least significant first.
pub fn write_le64(writer: &mut Vec<u8>, value: u64)
    ensures
        final(writer)@ == old(writer)@ + le64(value),
{
    writer.push(#[verifier::truncate] (value as u8));
    writer.push(#[verifier::truncate] ((value >> 8) as u8));
    writer.push(#[verifier::truncate] ((value >> 16) as u8));
    writer.push(#[verifier::truncate] ((value >> 24) as u8));
    writer.push(#[verifier::truncate] ((value >> 32) as u8));
    writer.push(#[verifier::truncate] ((value >> 40) as u8));
    writer.push(#[verifier::truncate] ((value >> 48) as u8));
    writer.push(#[verifier::truncate] ((value >> 56) as u8));
    assert(writer@ =~= old(writer)@ + le64(value));
}

/// Joining the bytes of an integer gives the integer back, in every width.
pub proof fn lemma_join_bytes(a: u16, b: u32, c: u64)
    ensures
        join16((a >> 8) as u8, a as u8) == a,
        join32((b >> 24) as u8, (b >> 16) as u8, (b >> 8) as u8, b as u8) == b,
        join64(
            join32((c >> 56) as u8, (c >> 48) as u8, (c >> 40) as u8, (c >> 32) as u8),
            join32((c >> 24) as u8, (c >> 16) as u8, (c >> 8) as u8, c as u8),
        ) == c,
{
    assert(((((a >> 8) as u8) as u16) << 8 | ((a as u8) as u16)) == a) by (bit_vector);
    let b3 = (b >> 24) as u8;
    let b2 = (b >> 16) as u8;
    let b1 = (b >> 8) as u8;
    let b0 = b as u8;
    assert(((b3 as u32) << 24 | (b2 as u32) << 16 | (b1 as u32) << 8 | (b0 as u32)) == b)
        by (bit_vector)
        requires
            b3 == (b >> 24) as u8,
            b2 == (b >> 16) as u8,
            b1 == (b >> 8) as u8,
            b0 == b as u8,
    ;
    let c7 = (c >> 56) as u8;
    let c6 = (c >> 48) as u8;
    let c5 = (c >> 40) as u8;
    let c4 = (c >> 32) as u8;
    let c3 = (c >> 24) as u8;
    let c2 = (c >> 16) as u8;
    let c1 = (c >> 8) as u8;
    let c0 = c as u8;
    let hi = join32(c7, c6, c5, c4);
    let lo = join32(c3, c2, c1, c0);
    assert(((hi as u64) << 32 | (lo as u64)) == c) by (bit_vector)
        requires
            c7 == (c >> 56) as u8,
            c6 == (c >> 48) as u8,
            c5 == (c >> 40) as u8,
            c4 == (c >> 32) as u8,
            c3 == (c >> 24) as u8,
            c2 == (c >> 16) as u8,
            c1 == (c >> 8) as u8,
            c0 == c as u8,
            hi == (c7 as u32) << 24 | (c6 as u32) << 16 | (c5 as u32) << 8 | (c4 as u32),
            lo == (c3 as u32) << 24 | (c2 as u32) << 16 | (c1 as u32) << 8 | (c0 as u32),
    ;
}

/// A signed integer survives a trip through the unsigned integer of its
/// bits, in every width.
pub proof fn lemma_signed_bits(a: i8, b: i16, c: i32, d: i64)
    ensures
        ((a as u8) as i8) == a,
        ((b as u16) as i16) == b,
        ((c as u32) as i32) == c,
        ((d as u64) as i64) == d,
{
    assert(((a as u8) as i8) == a) by (bit_vector);
    assert(((b as u16) as i16) == b) by (bit_vector);
    assert(((c as u32) as i32) == c) by (bit_vector);
    assert(((d as u64) as i64) == d) by (bit_vector);
}

/// `128` to the given power.
pub open spec fn pow128(k: nat) -> nat
    decreases k,
{
    if k == 0 {
        1
    } else {
        128 * pow128((k - 1) as nat)
    }
}

/// The number that an unsigned LEB128 form at the start of the bytes stands
/// for and the count of bytes it takes. Bytes that end inside the form are
/// an `UnexpectedEof`; a form of more than `max` bytes is `InvalidData`.
pub open spec fn parse_uleb(s: Seq<u8>, max: nat) -> Result<(nat, int), Category>
    decreases max,
{
    if max == 0 {
        Err(Category::InvalidData)
    } else if s.len() == 0 {
        Err(Category::UnexpectedEof)
    } else if s[0] < 128 {
        Ok((s[0] as nat, 1int))
    } else {
        match parse_uleb(s.skip(1), (max - 1) as nat) {
            Ok((v, n)) => Ok((((s[0] - 128) + 128 * v) as nat, n + 1)),
            Err(e) => Err(e),
        }
    }
}

/// The number that a signed LEB128 form at the start of the bytes stands
/// for and the count of bytes it takes.
pub open spec fn parse_sleb(s: Seq<u8>, max: nat) -> Result<(int, int), Category>
    decreases max,
{
    if max == 0 {
        Err(Category::InvalidData)
    } else if s.len() == 0 {
        Err(Category::UnexpectedEof)
    } else if s[0] < 64 {
        Ok((s[0] as int, 1int))
    } else if s[0] < 128 {
        Ok((s[0] - 128, 1int))
    } else {
        match parse_sleb(s.skip(1), (max - 1) as nat) {
            Ok((v, n)) => Ok(((s[0] - 128) + 128 * v, n + 1)),
            Err(e) => Err(e),
        }
    }
}

proof fn lemma_pow128(k: nat)
    ensures
        pow128(k) >= 1,
        pow128(k + 1) == 128 * pow128(k),
        k <= 10 ==> pow128(k) <= 0x40_0000_0000_0000_0000,
    decreases k,
{
    if k > 0 {
        lemma_pow128((k - 1) as nat);
    }
    if k <= 10 {
        reveal_with_fuel(pow128, 12);
    }
}

/// Reads an unsigned LEB128 form of at most `max` bytes.
pub fn read_uleb(bytes: &[u8], pos: usize, max: usize) -> (result: Result<(u128, usize), Category>)
    requires
        pos <= bytes@.len(),
        max <= 10,
    ensures
        match result {
            Ok((v, n)) => parse_uleb(bytes@.skip(pos as int), max as nat) == Ok::<
                (nat, int),
                Category,
            >((v as nat, n as int)) && 0 < n <= max && pos + n <= bytes@.len(),
            Err(e) => parse_uleb(bytes@.skip(pos as int), max as nat) == Err::<(nat, int), Category>(e),
        },
{
    let len = bytes.len();
    let mut acc: u128 = 0;
    let mut mult: u128 = 1;
    let mut i: usize = 0;
    let ghost s = bytes@.skip(pos as int);
    proof {
        assert(s.skip(0) =~= s);
        lemma_pow128(0);
    }
    loop
        invariant
            len == bytes@.len(),
            pos <= len,
            max <= 10,
            i <= max,
            pos + i <= len,
            s == bytes@.skip(pos as int),
            mult == pow128(i as nat),
            acc < mult,
            parse_uleb(s, max as nat) == (match parse_uleb(s.skip(i as int), (max - i) as nat) {
                Ok((v, n)) => Ok::<(nat, int), Category>(((acc + mult * v) as nat, n + i)),
                Err(e) => Err::<(nat, int), Category>(e),
            }),
        decreases max - i,
    {
        if i == max {
            return Err(Category::InvalidData);
        }
        if pos + i >= len {
            proof {
                assert(s.skip(i as int).len() == 0);
            }
            return Err(Category::UnexpectedEof);
        }
        let byte = bytes[pos + i];
        let ghost tail = s.skip(i as int);
        proof {
            assert(tail[0] == byte);
            assert(tail.skip(1) =~= s.skip(i + 1));
            lemma_pow128(i as nat);
            lemma_pow128((i + 1) as nat);
        }
        if byte < 128 {
            proof {
                assert(mult * (byte as int) <= mult * 127) by (nonlinear_arith)
                    requires
                        byte <= 127,
                        mult >= 0,
                ;
            }
            return Ok((acc + mult * (byte as u128), i + 1));
        }
        proof {
            let low = (byte - 128) as int;
            assert(mult * low <= mult * 127) by (nonlinear_arith)
                requires
                    0 <= low <= 127,
                    mult >= 0,
            ;
            assert(mult * low >= 0) by (nonlinear_arith)
                requires
                    0 <= low,
                    mult >= 0,
            ;
            match parse_uleb(s.skip(i + 1), (max - i - 1) as nat) {
                Ok((v, n)) => {
                    assert(acc + mult * (low + 128 * v) == (acc + mult * low) + (mult * 128) * v)
                        by (nonlinear_arith);
                },
                Err(e) => {},
            }
        }
        acc = acc + mult * ((byte - 128) as u128);
        mult = mult * 128;
        i += 1;
    }
}

/// Reads a signed LEB128 form of at most `max` bytes.
pub fn read_sleb(bytes: &[u8], pos: usize, max: usize) -> (result: Result<(i128, usize), Category>)
    requires
        pos <= bytes@.len(),
        max <= 10,
    ensures
        match result {
            Ok((v, n)) => parse_sleb(bytes@.skip(pos as int), max as nat) == Ok::<
                (int, int),
                Category,
            >((v as int, n as int)) && 0 < n <= max && pos + n <= bytes@.len(),
            Err(e) => parse_sleb(bytes@.skip(pos as int), max as nat) == Err::<(int, int), Category>(e),
        },
{
    let len = bytes.len();
    let mut acc: i128 = 0;
    let mut mult: i128 = 1;
    let mut i: usize = 0;
    let ghost s = bytes@.skip(pos as int);
    proof {
        assert(s.skip(0) =~= s);
        lemma_pow128(0);
    }
    loop
        invariant
            len == bytes@.len(),
            pos <= len,
            max <= 10,
            i <= max,
            pos + i <= len,
            s == bytes@.skip(pos as int),
            mult == pow128(i as nat),
            0 <= acc < mult,
            parse_sleb(s, max as nat) == (match parse_sleb(s.skip(i as int), (max - i) as nat) {
                Ok((v, n)) => Ok::<(int, int), Category>((acc + mult * v, n + i)),
                Err(e) => Err::<(int, int), Category>(e),
            }),
        decreases max - i,
    {
        if i == max {
            return Err(Category::InvalidData);
        }
        if pos + i >= len {
            proof {
                assert(s.skip(i as int).len() == 0);
            }
            return Err(Category::UnexpectedEof);
        }
        let byte = bytes[pos + i];
        let ghost tail = s.skip(i as int);
        proof {
            assert(tail[0] == byte);
            assert(tail.skip(1) =~= s.skip(i + 1));
            lemma_pow128(i as nat);
            lemma_pow128((i + 1) as nat);
        }
        if byte < 128 {
            let last: i128 = if byte < 64 {
                byte as i128
            } else {
                byte as i128 - 128
            };
            proof {
                assert(-64 * mult <= mult * last <= mult * 63) by (nonlinear_arith)
                    requires
                        -64 <= last <= 63,
                        mult >= 0,
                ;
            }
            return Ok((acc + mult * last, i + 1));
        }
        proof {
            let low = (byte - 128) as int;
            assert(0 <= mult * low <= mult * 127) by (nonlinear_arith)
                requires
                    0 <= low <= 127,
                    mult >= 0,
            ;
            match parse_sleb(s.skip(i + 1), (max - i - 1) as nat) {
                Ok((v, n)) => {
                    assert(acc + mult * (low + 128 * v) == (acc + mult * low) + (mult * 128) * v)
                        by (nonlinear_arith);
                },
                Err(e) => {},
            }
        }
        acc = acc + mult * ((byte - 128) as i128);
        mult = mult * 128;
        i += 1;
    }
}

/// An unsigned LEB128 form is read back as the number it was made from,
/// whatever follows it.
pub proof fn lemma_uleb_round_trip(v: nat, rest: Seq<u8>, max: nat)
    requires
        max >= 1,
        v < pow128(max),
    ensures
        parse_uleb(uleb128(v) + rest, max) == Ok::<(nat, int), Category>(
            (v, uleb128(v).len() as int),
        ),
        1 <= uleb128(v).len() <= max,
    decreases v,
{
    lemma_pow128(0);
    if v < 128 {
        assert((uleb128(v) + rest)[0] == v as u8);
    } else {
        let head = ((v % 128) + 128) as u8;
        let tail = uleb128(v / 128);
        assert(max >= 2) by {
            if max == 1 {
                assert(pow128(1) == 128 * pow128(0));
            }
        }
        lemma_pow128((max - 1) as nat);
        assert(v / 128 < pow128((max - 1) as nat));
        lemma_uleb_round_trip(v / 128, rest, (max - 1) as nat);
        let bytes = uleb128(v) + rest;
        assert(bytes[0] == head);
        assert(bytes.skip(1) =~= tail + rest);
        assert((head - 128) + 128 * (v / 128) == v);
    }
}

/// A signed LEB128 form is read back as the number it was made from,
/// whatever follows it.
pub proof fn lemma_sleb_round_trip(v: int, rest: Seq<u8>, max: nat)
    requires
        max >= 1,
        -64 * pow128((max - 1) as nat) <= v < 64 * pow128((max - 1) as nat),
    ensures
        parse_sleb(sleb128(v) + rest, max) == Ok::<(int, int), Category>(
            (v, sleb128(v).len() as int),
        ),
        1 <= sleb128(v).len() <= max,
    decreases (if v < 0 {
        -v
    } else {
        v
    }),
{
    lemma_pow128(0);
    if -64 <= v < 64 {
        let b = (v % 128) as u8;
        assert((sleb128(v) + rest)[0] == b);
        if v >= 0 {
            assert(b == v);
        } else {
            assert(b == v + 128);
        }
    } else {
        let head = ((v % 128) + 128) as u8;
        let tail = sleb128(v / 128);
        assert(max >= 2) by {
            if max == 1 {
                assert(pow128(0) == 1);
            }
        }
        lemma_pow128((max - 2) as nat);
        lemma_sleb_round_trip(v / 128, rest, (max - 1) as nat);
        let bytes = sleb128(v) + rest;
        assert(bytes[0] == head);
        assert(bytes.skip(1) =~= tail + rest);
        assert((head - 128) + 128 * (v / 128) == v);
    }
}

/// Reads one byte.
pub fn read_u8(bytes: &[u8], pos: usize) -> (result: Option<u8>)
    ensures
        pos < bytes@.len() ==> result == Some(bytes@[pos as int]),
        pos >= bytes@.len() ==> result is None,
{
    if pos < bytes.len() {
        Some(bytes[pos])
    } else {
        None
    }
}

/// Reads the 16-bit integer whose more significant byte comes first.
pub fn read_be16(bytes: &[u8], pos: usize) -> (result: Option<u16>)
    ensures
        pos + 2 <= bytes@.len() ==> result == Some(
            join16(bytes@[pos as int], bytes@[pos + 1]),
        ),
        pos + 2 > bytes@.len() ==> result is None,
{
    if bytes.len() < 2 || pos > bytes.len() - 2 {
        return None;
    }
    Some((bytes[pos] as u16) << 8 | (bytes[pos + 1] as u16))
}

/// Reads the 16-bit integer whose less significant byte comes first.
pub fn read_le16(bytes: &[u8], pos: usize) -> (result: Option<u16>)
    ensures
        pos + 2 <= bytes@.len() ==> result == Some(
            join16(bytes@[pos + 1], bytes@[pos as int]),
        ),
        pos + 2 > bytes@.len() ==> result is None,
{
    if bytes.len() < 2 || pos > bytes.len() - 2 {
        return None;
    }
    Some((bytes[pos + 1] as u16) << 8 | (bytes[pos] as u16))
}

/// Reads the 32-bit integer whose most significant byte comes first.
pub fn read_be32(bytes: &[u8], pos: usize) -> (result: Option<u32>)
    ensures
        pos + 4 <= bytes@.len() ==> result == Some(
            join32(bytes@[pos as int], bytes@[pos + 1], bytes@[pos + 2], bytes@[pos + 3]),
        ),
        pos + 4 > bytes@.len() ==> result is None,
{
    if bytes.len() < 4 || pos > bytes.len() - 4 {
        return None;
    }
    Some(
        (bytes[pos] as u32) << 24 | (bytes[pos + 1] as u32) << 16 | (bytes[pos + 2] as u32) << 8 | (
        bytes[pos + 3] as u32),
    )
}

/// Reads the 32-bit integer whose least significant byte comes first.
pub fn read_le32(bytes: &[u8], pos: usize) -> (result: Option<u32>)
    ensures
        pos + 4 <= bytes@.len() ==> result == Some(
            join32(bytes@[pos + 3], bytes@[pos + 2], bytes@[pos + 1], bytes@[pos as int]),
        ),
        pos + 4 > bytes@.len() ==> result is None,
{
    if bytes.len() < 4 || pos > bytes.len() - 4 {
        return None;
    }
    Some(
        (bytes[pos + 3] as u32) << 24 | (bytes[pos + 2] as u32) << 16 | (bytes[pos + 1] as u32) << 8
            | (bytes[pos] as u32),
    )
}

/// Reads the 64-bit integer whose most significant byte comes first.
pub fn read_be64(bytes: &[u8], pos: usize) -> (result: Option<u64>)
    ensures
        pos + 8 <= bytes@.len() ==> result == Some(
            join64(
                join32(bytes@[pos as int], bytes@[pos + 1], bytes@[pos + 2], bytes@[pos + 3]),
                join32(bytes@[pos + 4], bytes@[pos + 5], bytes@[pos + 6], bytes@[pos + 7]),
            ),
        ),
        pos + 8 > bytes@.len() ==> result is None,
{
    if bytes.len() < 8 || pos > bytes.len() - 8 {
        return None;
    }
    let hi = match read_be32(bytes, pos) {
        Some(hi) => hi,
        None => {
            return None;
        },
    };
    let lo = match read_be32(bytes, pos + 4) {
        Some(lo) => lo,
        None => {
            return None;
        },
    };
    Some((hi as u64) << 32 | (lo as u64))
}

/// Reads the 64-bit integer whose least significant byte comes first.
pub fn read_le64(bytes: &[u8], pos: usize) -> (result: Option<u64>)
    ensures
        pos + 8 <= bytes@.len() ==> result == Some(
            join64(
                join32(bytes@[pos + 7], bytes@[pos + 6], bytes@[pos + 5], bytes@[pos + 4]),
                join32(bytes@[pos + 3], bytes@[pos + 2], bytes@[pos + 1], bytes@[pos as int]),
            ),
        ),
        pos + 8 > bytes@.len() ==> result is None,
{
    if bytes.len() < 8 || pos > bytes.len() - 8 {
        return None;
    }
    let lo = match read_le32(bytes, pos) {
        Some(lo) => lo,
        None => {
            return None;
        },
    };
    let hi = match read_le32(bytes, pos + 4) {
        Some(hi) => hi,
        None => {
            return None;
        },
    };
    Some((hi as u64) << 32 | (lo as u64))
}

} // verus!
