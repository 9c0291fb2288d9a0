//! What each dialect writes for an integer, a float and a length, and how it
//! reads them back.

use super::wire::{
    be16, be32, be64, join16, join32, join64, le16, le32, le64, lemma_join_bytes, lemma_signed_bits,
    lemma_sleb_round_trip, lemma_uleb_round_trip, lemma_zigzag_round_trip, parse_sleb, parse_uleb,
    pow128, sleb128, uleb128, unzigzag32, unzigzag64, zigzag32, zigzag64, Dialect,
};
use crate::error::Category;
use vstd::prelude::*;

verus! {

/// The outcome of reading one item off the front of some bytes: the item and
/// the count of bytes it took, or the category of the failure.
pub type Parsed<T> = Result<(T, int), Category>;

impl Dialect {
    /// The bytes of a 16-bit integer.
    #[verifier::opaque]
    pub open spec fn i16_bytes(self, v: i16) -> Seq<u8> {
        match self {
            Dialect::BigEndian => be16(v as u16),
            _ => le16(v as u16),
        }
    }

    /// The bytes of a 32-bit integer.
    #[verifier::opaque]
    pub open spec fn i32_bytes(self, v: i32) -> Seq<u8> {
        match self {
            Dialect::BigEndian => be32(v as u32),
            Dialect::LittleEndian => le32(v as u32),
            Dialect::Varint => uleb128(zigzag32(v) as nat),
        }
    }

    /// The bytes of a 64-bit integer.
    #[verifier::opaque]
    pub open spec fn i64_bytes(self, v: i64) -> Seq<u8> {
        match self {
            Dialect::BigEndian => be64(v as u64),
            Dialect::LittleEndian => le64(v as u64),
            Dialect::Varint => uleb128(zigzag64(v) as nat),
        }
    }

    /// The bytes of a 32-bit float, given by its bits.
    #[verifier::opaque]
    pub open spec fn f32_bytes(self, bits: u32) -> Seq<u8> {
        match self {
            Dialect::BigEndian => be32(bits),
            _ => le32(bits),
        }
    }

    /// The bytes of a 64-bit float, given by its bits.
    #[verifier::opaque]
    pub open spec fn f64_bytes(self, bits: u64) -> Seq<u8> {
        match self {
            Dialect::BigEndian => be64(bits),
            _ => le64(bits),
        }
    }

    /// The greatest byte length of a string that the dialect can count.
    pub open spec fn str_len_max(self) -> nat {
        match self {
            Dialect::Varint => 2147483647,
            _ => 65535,
        }
    }

    /// The greatest number of elements that the dialect can count.
    pub open spec fn seq_len_max(self) -> nat {
        2147483647
    }

    /// The bytes of the byte length of a string: unsigned 16 bits in the
    /// fixed-width dialects, a signed LEB128 varint in the varint dialect.
    #[verifier::opaque]
    pub open spec fn str_len_bytes(self, n: nat) -> Seq<u8> {
        match self {
            Dialect::BigEndian => be16(n as u16),
            Dialect::LittleEndian => le16(n as u16),
            Dialect::Varint => sleb128(n as int),
        }
    }

    /// The bytes of an element count: the count as a 32-bit integer.
    #[verifier::opaque]
    pub open spec fn seq_len_bytes(self, n: nat) -> Seq<u8> {
        self.i32_bytes(n as i32)
    }

    /// Reads a 16-bit integer off the front of the bytes.
    #[verifier::opaque]
    pub open spec fn parse_i16(self, s: Seq<u8>) -> Parsed<i16> {
        if s.len() < 2 {
            Err(Category::UnexpectedEof)
        } else {
            match self {
                Dialect::BigEndian => Ok((join16(s[0], s[1]) as i16, 2int)),
                _ => Ok((join16(s[1], s[0]) as i16, 2int)),
            }
        }
    }

    /// Reads four bytes as an unsigned integer off the front of the bytes.
    #[verifier::opaque]
    pub open spec fn parse_fixed32(self, s: Seq<u8>) -> Parsed<u32> {
        if s.len() < 4 {
            Err(Category::UnexpectedEof)
        } else {
            match self {
                Dialect::BigEndian => Ok((join32(s[0], s[1], s[2], s[3]), 4int)),
                _ => Ok((join32(s[3], s[2], s[1], s[0]), 4int)),
            }
        }
    }

    /// Reads eight bytes as an unsigned integer off the front of the bytes.
    #[verifier::opaque]
    pub open spec fn parse_fixed64(self, s: Seq<u8>) -> Parsed<u64> {
        if s.len() < 8 {
            Err(Category::UnexpectedEof)
        } else {
            match self {
                Dialect::BigEndian => Ok(
                    (
                        join64(join32(s[0], s[1], s[2], s[3]), join32(s[4], s[5], s[6], s[7])),
                        8int,
                    ),
                ),
                _ => Ok(
                    (
                        join64(join32(s[7], s[6], s[5], s[4]), join32(s[3], s[2], s[1], s[0])),
                        8int,
                    ),
                ),
            }
        }
    }

    /// Reads a 32-bit integer off the front of the bytes. A varint that does
    /// not fit in 32 bits is `InvalidData`.
    #[verifier::opaque]
    pub open spec fn parse_i32(self, s: Seq<u8>) -> Parsed<i32> {
        match self {
            Dialect::Varint => match parse_uleb(s, 5) {
                Ok((v, n)) => if v <= u32::MAX {
                    Ok((unzigzag32(v as u32), n))
                } else {
                    Err(Category::InvalidData)
                },
                Err(e) => Err(e),
            },
            _ => match self.parse_fixed32(s) {
                Ok((v, n)) => Ok((v as i32, n)),
                Err(e) => Err(e),
            },
        }
    }

    /// Reads a 64-bit integer off the front of the bytes. A varint that does
    /// not fit in 64 bits is `InvalidData`.
    #[verifier::opaque]
    pub open spec fn parse_i64(self, s: Seq<u8>) -> Parsed<i64> {
        match self {
            Dialect::Varint => match parse_uleb(s, 10) {
                Ok((v, n)) => if v <= u64::MAX {
                    Ok((unzigzag64(v as u64), n))
                } else {
                    Err(Category::InvalidData)
                },
                Err(e) => Err(e),
            },
            _ => match self.parse_fixed64(s) {
                Ok((v, n)) => Ok((v as i64, n)),
                Err(e) => Err(e),
            },
        }
    }

    /// Reads the bits of a 32-bit float off the front of the bytes.
    #[verifier::opaque]
    pub open spec fn parse_f32(self, s: Seq<u8>) -> Parsed<u32> {
        self.parse_fixed32(s)
    }

    /// Reads the bits of a 64-bit float off the front of the bytes.
    #[verifier::opaque]
    pub open spec fn parse_f64(self, s: Seq<u8>) -> Parsed<u64> {
        self.parse_fixed64(s)
    }

    /// Reads the byte length of a string off the front of the bytes. A
    /// negative length, or one above the limit, is `InvalidData`.
    #[verifier::opaque]
    pub open spec fn parse_str_len(self, s: Seq<u8>) -> Parsed<nat> {
        match self {
            Dialect::Varint => match parse_sleb(s, 5) {
                Ok((v, n)) => if 0 <= v <= 2147483647 {
                    Ok((v as nat, n))
                } else {
                    Err(Category::InvalidData)
                },
                Err(e) => Err(e),
            },
            _ => if s.len() < 2 {
                Err(Category::UnexpectedEof)
            } else {
                match self {
                    Dialect::BigEndian => Ok((join16(s[0], s[1]) as nat, 2int)),
                    _ => Ok((join16(s[1], s[0]) as nat, 2int)),
                }
            },
        }
    }

    /// Reads an element count off the front of the bytes. A negative count
    /// is `InvalidData`.
    #[verifier::opaque]
    pub open spec fn parse_seq_len(self, s: Seq<u8>) -> Parsed<nat> {
        match self.parse_i32(s) {
            Ok((v, n)) => if v >= 0 {
                Ok((v as nat, n))
            } else {
                Err(Category::InvalidData)
            },
            Err(e) => Err(e),
        }
    }
}

/// What was written in fixed width is read back, whatever follows.
pub proof fn lemma_fixed_round_trip(d: Dialect, a: u16, b: u32, c: u64, rest: Seq<u8>)
    requires
        d != Dialect::Varint,
    ensures
        d.parse_i16(d.i16_bytes(a as i16) + rest) == Ok::<(i16, int), Category>((a as i16, 2int)),
        d.parse_fixed32(d.f32_bytes(b) + rest) == Ok::<(u32, int), Category>((b, 4int)),
        d.parse_fixed64(d.f64_bytes(c) + rest) == Ok::<(u64, int), Category>((c, 8int)),
        d.parse_str_len(d.str_len_bytes(a as nat) + rest) == Ok::<(nat, int), Category>(
            (a as nat, 2int),
        ),
        d.i16_bytes(a as i16).len() == 2,
        d.f32_bytes(b).len() == 4,
        d.f64_bytes(c).len() == 8,
        d.str_len_bytes(a as nat).len() == 2,
{
    reveal(Dialect::i16_bytes);
    reveal(Dialect::i32_bytes);
    reveal(Dialect::i64_bytes);
    reveal(Dialect::f32_bytes);
    reveal(Dialect::f64_bytes);
    reveal(Dialect::str_len_bytes);
    reveal(Dialect::seq_len_bytes);
    reveal(Dialect::parse_i16);
    reveal(Dialect::parse_fixed32);
    reveal(Dialect::parse_fixed64);
    reveal(Dialect::parse_i32);
    reveal(Dialect::parse_i64);
    reveal(Dialect::parse_f32);
    reveal(Dialect::parse_f64);
    reveal(Dialect::parse_str_len);
    reveal(Dialect::parse_seq_len);
    lemma_join_bytes(a, b, c);
    assert(((a as i16) as u16) == a) by (bit_vector);
    assert(((a as nat) as u16) == a);
    let s16 = d.i16_bytes(a as i16) + rest;
    assert(s16[0] == d.i16_bytes(a as i16)[0] && s16[1] == d.i16_bytes(a as i16)[1]);
    let l16 = d.str_len_bytes(a as nat) + rest;
    assert(l16[0] == d.str_len_bytes(a as nat)[0] && l16[1] == d.str_len_bytes(a as nat)[1]);
    let s32 = d.f32_bytes(b) + rest;
    assert(s32[0] == d.f32_bytes(b)[0] && s32[1] == d.f32_bytes(b)[1] && s32[2] == d.f32_bytes(
        b,
    )[2] && s32[3] == d.f32_bytes(b)[3]);
    let s64 = d.f64_bytes(c) + rest;
    let e = d.f64_bytes(c);
    assert(s64[0] == e[0] && s64[1] == e[1] && s64[2] == e[2] && s64[3] == e[3] && s64[4] == e[4]
        && s64[5] == e[5] && s64[6] == e[6] && s64[7] == e[7]);
}

/// Every integer and every float that a dialect writes, it reads back,
/// whatever follows.
pub proof fn lemma_number_round_trip(d: Dialect, a: i16, b: i32, c: i64, rest: Seq<u8>)
    ensures
        d.parse_i16(d.i16_bytes(a) + rest) == Ok::<(i16, int), Category>(
            (a, d.i16_bytes(a).len() as int),
        ),
        d.parse_i32(d.i32_bytes(b) + rest) == Ok::<(i32, int), Category>(
            (b, d.i32_bytes(b).len() as int),
        ),
        d.parse_i64(d.i64_bytes(c) + rest) == Ok::<(i64, int), Category>(
            (c, d.i64_bytes(c).len() as int),
        ),
        d.parse_f32(d.f32_bytes(b as u32) + rest) == Ok::<(u32, int), Category>(
            (b as u32, d.f32_bytes(b as u32).len() as int),
        ),
        d.parse_f64(d.f64_bytes(c as u64) + rest) == Ok::<(u64, int), Category>(
            (c as u64, d.f64_bytes(c as u64).len() as int),
        ),
        d.i16_bytes(a).len() >= 1,
        d.i32_bytes(b).len() >= 1,
        d.i64_bytes(c).len() >= 1,
        d.f32_bytes(b as u32).len() >= 1,
        d.f64_bytes(c as u64).len() >= 1,
{
    reveal(Dialect::i16_bytes);
    reveal(Dialect::i32_bytes);
    reveal(Dialect::i64_bytes);
    reveal(Dialect::f32_bytes);
    reveal(Dialect::f64_bytes);
    reveal(Dialect::str_len_bytes);
    reveal(Dialect::seq_len_bytes);
    reveal(Dialect::parse_i16);
    reveal(Dialect::parse_fixed32);
    reveal(Dialect::parse_fixed64);
    reveal(Dialect::parse_i32);
    reveal(Dialect::parse_i64);
    reveal(Dialect::parse_f32);
    reveal(Dialect::parse_f64);
    reveal(Dialect::parse_str_len);
    reveal(Dialect::parse_seq_len);
    lemma_signed_bits(0, a, b, c);
    let fixed = if d == Dialect::Varint {
        Dialect::LittleEndian
    } else {
        d
    };
    lemma_fixed_round_trip(fixed, a as u16, b as u32, c as u64, rest);
    if d == Dialect::Varint {
        lemma_zigzag_round_trip(b, c);
        reveal_with_fuel(pow128, 11);
        lemma_uleb_round_trip(zigzag32(b) as nat, rest, 5);
        lemma_uleb_round_trip(zigzag64(c) as nat, rest, 10);
    }
}

/// Every length within a dialect's limits is read back as it was written,
/// whatever follows.
pub proof fn lemma_len_round_trip(d: Dialect, n: nat, rest: Seq<u8>)
    ensures
        n <= d.str_len_max() ==> d.parse_str_len(d.str_len_bytes(n) + rest) == Ok::<
            (nat, int),
            Category,
        >((n, d.str_len_bytes(n).len() as int)) && d.str_len_bytes(n).len() >= 1,
        n <= d.seq_len_max() ==> d.parse_seq_len(d.seq_len_bytes(n) + rest) == Ok::<
            (nat, int),
            Category,
        >((n, d.seq_len_bytes(n).len() as int)) && d.seq_len_bytes(n).len() >= 1,
{
    reveal(Dialect::i16_bytes);
    reveal(Dialect::i32_bytes);
    reveal(Dialect::i64_bytes);
    reveal(Dialect::f32_bytes);
    reveal(Dialect::f64_bytes);
    reveal(Dialect::str_len_bytes);
    reveal(Dialect::seq_len_bytes);
    reveal(Dialect::parse_i16);
    reveal(Dialect::parse_fixed32);
    reveal(Dialect::parse_fixed64);
    reveal(Dialect::parse_i32);
    reveal(Dialect::parse_i64);
    reveal(Dialect::parse_f32);
    reveal(Dialect::parse_f64);
    reveal(Dialect::parse_str_len);
    reveal(Dialect::parse_seq_len);
    if n <= d.seq_len_max() {
        lemma_number_round_trip(d, 0, n as i32, 0, rest);
    }
    if n <= d.str_len_max() {
        if d == Dialect::Varint {
            reveal_with_fuel(pow128, 6);
            lemma_sleb_round_trip(n as int, rest, 5);
        } else {
            lemma_fixed_round_trip(d, n as u16, 0, 0, rest);
        }
    }
}

} // verus!
