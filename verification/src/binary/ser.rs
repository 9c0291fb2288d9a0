//! Writing value trees in a binary dialect.

use super::format::{
    document, encodable, entries_bytes, entries_overflow, entry_bytes, ints_bytes, items_bytes,
    items_overflow, lemma_entries_bytes_step, lemma_ints_bytes_step, lemma_items_bytes_step,
    lemma_items_overflow, lemma_overflow_encodable, lemma_prefix, longs_bytes, overflow, payload, raw_bytes,
    seq_overflow, str_bytes, str_overflow, Overflow, RECURSION_LIMIT,
};
use super::mutf8;
use super::wire::{
    leb128_write_i32, leb128_write_u32, leb128_write_u64, write_be16, write_be32, write_be64,
    write_le16, write_le32, write_le64, zigzag_i32, zigzag_i64, Dialect,
};
use crate::error::{
    invalid_root_message, seq_len_overflow_message, str_len_overflow_message, Category, Error, Path,
    PositionView, SegmentView,
};
use crate::util::SeqKind;
use crate::value::compound::compound_entries;
use crate::value::list::{
    byte_array_items, byte_items, compound_items, double_items, float_items, int_array_items,
    int_items, lemma_list_homogeneous, lemma_list_of_lists, list_items, list_view, long_array_items,
    long_items, short_items, string_items,
};
use crate::value::model::{distinct_keys, ValueView};
use crate::value::tag::{Type, TypeId};
use crate::value::{bytes_view, Byte, Compound, List, Value};
use vstd::prelude::*;

verus! {

/// The primitives that a binary dialect writes: integers, floats (by their
/// bits) and the two kinds of length.
pub trait Encode {
    /// The dialect that the encoder writes.
    spec fn dialect(&self) -> Dialect;

    /// Writes an 8-bit integer: one byte in every dialect.
    fn encode_i8(&self, writer: &mut Vec<u8>, value: i8)
        ensures
            final(writer)@ == old(writer)@ + seq![value as u8],
    ;

    /// Writes a 16-bit integer.
    fn encode_i16(&self, writer: &mut Vec<u8>, value: i16)
        ensures
            final(writer)@ == old(writer)@ + self.dialect().i16_bytes(value),
    ;

    /// Writes a 32-bit integer.
    fn encode_i32(&self, writer: &mut Vec<u8>, value: i32)
        ensures
            final(writer)@ == old(writer)@ + self.dialect().i32_bytes(value),
    ;

    /// Writes a 64-bit integer.
    fn encode_i64(&self, writer: &mut Vec<u8>, value: i64)
        ensures
            final(writer)@ == old(writer)@ + self.dialect().i64_bytes(value),
    ;

    /// Writes a 32-bit float, given by its bits.
    fn encode_f32(&self, writer: &mut Vec<u8>, bits: u32)
        ensures
            final(writer)@ == old(writer)@ + self.dialect().f32_bytes(bits),
    ;

    /// Writes a 64-bit float, given by its bits.
    fn encode_f64(&self, writer: &mut Vec<u8>, bits: u64)
        ensures
            final(writer)@ == old(writer)@ + self.dialect().f64_bytes(bits),
    ;

    /// Writes the byte length of a string. A length above the dialect's
    /// limit is an error that names the limit, and nothing is written.
    fn encode_str_len(&self, writer: &mut Vec<u8>, value: usize) -> (result: Result<(), Error>)
        ensures
            match result {
                Ok(()) => value <= self.dialect().str_len_max() && final(writer)@ == old(writer)@
                    + self.dialect().str_len_bytes(value as nat),
                Err(error) => value > self.dialect().str_len_max() && final(writer)@ == old(writer)@ && error.has(
                    Category::InvalidInput,
                    str_len_overflow_message(self.dialect().str_len_max() as usize),
                    PositionView::Nowhere,
                ),
            },
    ;

    /// Writes an element count. A count above the dialect's limit is an
    /// error that names the limit, and nothing is written.
    fn encode_seq_len(&self, writer: &mut Vec<u8>, value: usize) -> (result: Result<(), Error>)
        ensures
            match result {
                Ok(()) => value <= self.dialect().seq_len_max() && final(writer)@ == old(writer)@
                    + self.dialect().seq_len_bytes(value as nat),
                Err(error) => value > self.dialect().seq_len_max() && final(writer)@ == old(writer)@ && error.has(
                    Category::InvalidInput,
                    seq_len_overflow_message(self.dialect().seq_len_max() as usize),
                    PositionView::Nowhere,
                ),
            },
    ;
}

/// The encoder of the fixed-width, big-endian dialect.
#[derive(Debug, Clone, Copy)]
pub struct BeEncoder;

/// The encoder of the fixed-width, little-endian dialect.
#[derive(Debug, Clone, Copy)]
pub struct LeEncoder;

/// The encoder of the varint dialect.
#[derive(Debug, Clone, Copy)]
pub struct VarintEncoder;

impl Encode for BeEncoder {
    open spec fn dialect(&self) -> Dialect {
        Dialect::BigEndian
    }

    fn encode_i8(&self, writer: &mut Vec<u8>, value: i8) {
        writer.push(#[verifier::truncate] (value as u8));
        assert(writer@ =~= old(writer)@ + seq![value as u8]);
    }

    fn encode_i16(&self, writer: &mut Vec<u8>, value: i16) {
        reveal(Dialect::i16_bytes);
        write_be16(writer, #[verifier::truncate] (value as u16));
    }

    fn encode_i32(&self, writer: &mut Vec<u8>, value: i32) {
        reveal(Dialect::i32_bytes);
        write_be32(writer, #[verifier::truncate] (value as u32));
    }

    fn encode_i64(&self, writer: &mut Vec<u8>, value: i64) {
        reveal(Dialect::i64_bytes);
        write_be64(writer, #[verifier::truncate] (value as u64));
    }

    fn encode_f32(&self, writer: &mut Vec<u8>, bits: u32) {
        reveal(Dialect::f32_bytes);
        write_be32(writer, bits);
    }

    fn encode_f64(&self, writer: &mut Vec<u8>, bits: u64) {
        reveal(Dialect::f64_bytes);
        write_be64(writer, bits);
    }

    fn encode_str_len(&self, writer: &mut Vec<u8>, value: usize) -> (result: Result<(), Error>) {
        reveal(Dialect::str_len_bytes);
        if value > 65535 {
            return Err(Error::str_len_limit(65535));
        }
        write_be16(writer, value as u16);
        Ok(())
    }

    fn encode_seq_len(&self, writer: &mut Vec<u8>, value: usize) -> (result: Result<(), Error>) {
        reveal(Dialect::seq_len_bytes);
        if value > 2147483647 {
            return Err(Error::seq_len_limit(2147483647));
        }
        self.encode_i32(writer, value as i32);
        Ok(())
    }
}

impl Encode for LeEncoder {
    open spec fn dialect(&self) -> Dialect {
        Dialect::LittleEndian
    }

    fn encode_i8(&self, writer: &mut Vec<u8>, value: i8) {
        writer.push(#[verifier::truncate] (value as u8));
        assert(writer@ =~= old(writer)@ + seq![value as u8]);
    }

    fn encode_i16(&self, writer: &mut Vec<u8>, value: i16) {
        reveal(Dialect::i16_bytes);
        write_le16(writer, #[verifier::truncate] (value as u16));
    }

    fn encode_i32(&self, writer: &mut Vec<u8>, value: i32) {
        reveal(Dialect::i32_bytes);
        write_le32(writer, #[verifier::truncate] (value as u32));
    }

    fn encode_i64(&self, writer: &mut Vec<u8>, value: i64) {
        reveal(Dialect::i64_bytes);
        write_le64(writer, #[verifier::truncate] (value as u64));
    }

    fn encode_f32(&self, writer: &mut Vec<u8>, bits: u32) {
        reveal(Dialect::f32_bytes);
        write_le32(writer, bits);
    }

    fn encode_f64(&self, writer: &mut Vec<u8>, bits: u64) {
        reveal(Dialect::f64_bytes);
        write_le64(writer, bits);
    }

    fn encode_str_len(&self, writer: &mut Vec<u8>, value: usize) -> (result: Result<(), Error>) {
        reveal(Dialect::str_len_bytes);
        if value > 65535 {
            return Err(Error::str_len_limit(65535));
        }
        write_le16(writer, value as u16);
        Ok(())
    }

    fn encode_seq_len(&self, writer: &mut Vec<u8>, value: usize) -> (result: Result<(), Error>) {
        reveal(Dialect::seq_len_bytes);
        if value > 2147483647 {
            return Err(Error::seq_len_limit(2147483647));
        }
        self.encode_i32(writer, value as i32);
        Ok(())
    }
}

impl Encode for VarintEncoder {
    open spec fn dialect(&self) -> Dialect {
        Dialect::Varint
    }

    fn encode_i8(&self, writer: &mut Vec<u8>, value: i8) {
        writer.push(#[verifier::truncate] (value as u8));
        assert(writer@ =~= old(writer)@ + seq![value as u8]);
    }

    fn encode_i16(&self, writer: &mut Vec<u8>, value: i16) {
        reveal(Dialect::i16_bytes);
        write_le16(writer, #[verifier::truncate] (value as u16));
    }

    fn encode_i32(&self, writer: &mut Vec<u8>, value: i32) {
        reveal(Dialect::i32_bytes);
        leb128_write_u32(writer, zigzag_i32(value));
    }

    fn encode_i64(&self, writer: &mut Vec<u8>, value: i64) {
        reveal(Dialect::i64_bytes);
        leb128_write_u64(writer, zigzag_i64(value));
    }

    fn encode_f32(&self, writer: &mut Vec<u8>, bits: u32) {
        reveal(Dialect::f32_bytes);
        write_le32(writer, bits);
    }

    fn encode_f64(&self, writer: &mut Vec<u8>, bits: u64) {
        reveal(Dialect::f64_bytes);
        write_le64(writer, bits);
    }

    fn encode_str_len(&self, writer: &mut Vec<u8>, value: usize) -> (result: Result<(), Error>) {
        reveal(Dialect::str_len_bytes);
        if value > 2147483647 {
            return Err(Error::str_len_limit(2147483647));
        }
        leb128_write_i32(writer, value as i32);
        Ok(())
    }

    fn encode_seq_len(&self, writer: &mut Vec<u8>, value: usize) -> (result: Result<(), Error>) {
        reveal(Dialect::seq_len_bytes);
        if value > 2147483647 {
            return Err(Error::seq_len_limit(2147483647));
        }
        self.encode_i32(writer, value as i32);
        Ok(())
    }
}

/// The message of the error about a sequence that does not say how many
/// elements it has.
pub open spec fn unsized_seq_message() -> Seq<char> {
    "binary dialects of NBT cannot serialize unsized sequences"@
}

/// What the binary form of a value tree is made of: the hooks that a
/// traversal calls to write tags, scalars, strings and the frames of
/// sequences and maps.
pub struct BinaryEmitter<E: Encode> {
    encoder: E,
}

impl<E: Encode> BinaryEmitter<E> {
    /// The dialect that the emitter writes.
    pub closed spec fn dialect(&self) -> Dialect {
        self.encoder.dialect()
    }

    /// An emitter that writes with the given encoder.
    pub fn new(encoder: E) -> (emitter: Self)
        ensures
            emitter.dialect() == encoder.dialect(),
    {
        BinaryEmitter { encoder }
    }

    /// Writes a tag byte.
    pub fn emit_header_id(&self, writer: &mut Vec<u8>, id: TypeId)
        ensures
            final(writer)@ == old(writer)@ + seq![id.code()],
    {
        writer.push(id.to_u8());
        assert(writer@ =~= old(writer)@ + seq![id.code()]);
    }

    /// Writes a boolean as the byte `0` or `1`.
    pub fn emit_bool(&self, writer: &mut Vec<u8>, value: bool)
        ensures
            final(writer)@ == old(writer)@ + seq![Byte::Boolean(value).value() as u8],
    {
        self.encoder.encode_i8(writer, Byte::Boolean(value).to_i8());
    }

    /// Writes an 8-bit integer.
    pub fn emit_i8(&self, writer: &mut Vec<u8>, value: i8)
        ensures
            final(writer)@ == old(writer)@ + seq![value as u8],
    {
        self.encoder.encode_i8(writer, value);
    }

    /// Writes a 16-bit integer.
    pub fn emit_i16(&self, writer: &mut Vec<u8>, value: i16)
        ensures
            final(writer)@ == old(writer)@ + self.dialect().i16_bytes(value),
    {
        self.encoder.encode_i16(writer, value);
    }

    /// Writes a 32-bit integer.
    pub fn emit_i32(&self, writer: &mut Vec<u8>, value: i32)
        ensures
            final(writer)@ == old(writer)@ + self.dialect().i32_bytes(value),
    {
        self.encoder.encode_i32(writer, value);
    }

    /// Writes a 64-bit integer.
    pub fn emit_i64(&self, writer: &mut Vec<u8>, value: i64)
        ensures
            final(writer)@ == old(writer)@ + self.dialect().i64_bytes(value),
    {
        self.encoder.encode_i64(writer, value);
    }

    /// Writes a 32-bit float, given by its bits.
    pub fn emit_f32(&self, writer: &mut Vec<u8>, bits: u32)
        ensures
            final(writer)@ == old(writer)@ + self.dialect().f32_bytes(bits),
    {
        self.encoder.encode_f32(writer, bits);
    }

    /// Writes a 64-bit float, given by its bits.
    pub fn emit_f64(&self, writer: &mut Vec<u8>, bits: u64)
        ensures
            final(writer)@ == old(writer)@ + self.dialect().f64_bytes(bits),
    {
        self.encoder.encode_f64(writer, bits);
    }

    /// Writes a string: the byte length of its encoding, then the encoding.
    /// A string too long for the dialect is an error that names the limit,
    /// and nothing is written.
    pub fn emit_str(&self, writer: &mut Vec<u8>, value: &str) -> (result: Result<(), Error>)
        ensures
            match result {
                Ok(()) => mutf8::encode_chars(value@).len() <= self.dialect().str_len_max()
                    && final(writer)@ == old(writer)@ + str_bytes(self.dialect(), value@),
                Err(error) => mutf8::encode_chars(value@).len() > self.dialect().str_len_max()
                    && final(writer)@ == old(writer)@ && error.has(
                    Category::InvalidInput,
                    str_len_overflow_message(self.dialect().str_len_max() as usize),
                    PositionView::Nowhere,
                ),
            },
    {
        let encoded = mutf8::encode(value);
        match self.encoder.encode_str_len(writer, encoded.len()) {
            Ok(()) => {},
            Err(error) => {
                return Err(error);
            },
        }
        let ghost middle = writer@;
        writer.extend_from_slice(encoded.as_slice());
        proof {
            assert(writer@ =~= old(writer)@ + str_bytes(self.dialect(), value@));
        }
        Ok(())
    }

    /// Opens a sequence: writes the element tag of a list (an array has
    /// none), then the element count. A sequence that does not say how many
    /// elements it has cannot be written; one with more elements than the
    /// dialect can count is an error that names the limit.
    pub fn begin_seq(&self, writer: &mut Vec<u8>, kind: SeqKind, len: Option<usize>) -> (result:
        Result<(), Error>)
        ensures
            match result {
                Ok(()) => len is Some && len->0 <= self.dialect().seq_len_max() && final(writer)@
                    == old(writer)@ + seq_header(kind) + self.dialect().seq_len_bytes(
                    len->0 as nat,
                ),
                Err(error) => final(writer)@ == old(writer)@ + seq_header(kind) && (match len {
                    None => error.has(
                        Category::InvalidInput,
                        unsized_seq_message(),
                        PositionView::Nowhere,
                    ),
                    Some(len) => len > self.dialect().seq_len_max() && error.has(
                        Category::InvalidInput,
                        seq_len_overflow_message(self.dialect().seq_len_max() as usize),
                        PositionView::Nowhere,
                    ),
                }),
            },
    {
        if let SeqKind::List(id) = kind {
            self.emit_header_id(writer, id);
        }
        proof {
            assert(writer@ =~= old(writer)@ + seq_header(kind));
        }
        match len {
            Some(len) => self.encoder.encode_seq_len(writer, len),
            None => Err(
                Error::new(
                    Category::InvalidInput,
                    "binary dialects of NBT cannot serialize unsized sequences".to_owned(),
                ),
            ),
        }
    }

    /// Closes a sequence: nothing is written.
    pub fn end_seq(&self, writer: &mut Vec<u8>)
        ensures
            final(writer)@ == old(writer)@,
    {
    }

    /// Opens a map: nothing is written, a compound has no count.
    pub fn begin_map(&self, writer: &mut Vec<u8>)
        ensures
            final(writer)@ == old(writer)@,
    {
    }

    /// Announces an entry: writes the tag of its value, which the traversal
    /// has found out before.
    pub fn before_key(&self, writer: &mut Vec<u8>, hint: Type)
        ensures
            final(writer)@ == old(writer)@ + seq![hint.id().code()],
    {
        self.emit_header_id(writer, hint.to_id());
    }

    /// Writes the key of an entry, as a string.
    pub fn emit_key(&self, writer: &mut Vec<u8>, key: &str) -> (result: Result<(), Error>)
        ensures
            match result {
                Ok(()) => mutf8::encode_chars(key@).len() <= self.dialect().str_len_max()
                    && final(writer)@ == old(writer)@ + str_bytes(self.dialect(), key@),
                Err(error) => mutf8::encode_chars(key@).len() > self.dialect().str_len_max()
                    && final(writer)@ == old(writer)@ && error.has(
                    Category::InvalidInput,
                    str_len_overflow_message(self.dialect().str_len_max() as usize),
                    PositionView::Nowhere,
                ),
            },
    {
        self.emit_str(writer, key)
    }

    /// Closes a map: writes the `End` tag.
    pub fn end_map(&self, writer: &mut Vec<u8>)
        ensures
            final(writer)@ == old(writer)@ + seq![0u8],
    {
        self.emit_header_id(writer, TypeId::End);
    }

    /// The binary form is not meant to be read by people.
    pub fn is_human_readable(&self) -> (readable: bool)
        ensures
            !readable,
    {
        false
    }
}

/// The bytes that open a sequence before its count: the element tag of a
/// list, nothing for an array.
pub open spec fn seq_header(kind: SeqKind) -> Seq<u8> {
    match kind {
        SeqKind::List(id) => seq![id.code()],
        _ => Seq::<u8>::empty(),
    }
}

/// What a writing step promises. `depth` is how many levels of lists and
/// compounds may still be entered. On success the payload of the value was
/// appended, the path is as it was, and the value is a well-formed tree
/// that the dialect can count and that nests no deeper than `depth`. On
/// failure the error tells the first thing, in the order of writing, that
/// cannot be written, and where; the path was drained into the error, and
/// what was written before the failure stays written.
pub open spec fn wrote(
    d: Dialect,
    v: ValueView,
    before: Seq<u8>,
    after: Seq<u8>,
    path_before: Seq<SegmentView>,
    path_after: Seq<SegmentView>,
    depth: nat,
    result: Result<(), Error>,
) -> bool {
    match result {
        Ok(()) => {
            &&& after == before + payload(d, v)
            &&& path_after == path_before
            &&& overflow(d, v, path_before, depth) is None
            &&& v.wf()
        },
        Err(error) => {
            &&& overflow(d, v, path_before, depth) matches Some(o)
            &&& error.has(o.category(), o.message(d), PositionView::Path(o.path))
            &&& path_after == Seq::<SegmentView>::empty()
            &&& before.is_prefix_of(after)
        },
    }
}

/// Writes a string value.
pub fn emit_string<E: Encode>(
    emitter: &BinaryEmitter<E>,
    writer: &mut Vec<u8>,
    value: &str,
    path: &mut Path,
    depth: usize,
) -> (result: Result<(), Error>)
    ensures
        wrote(
            emitter.dialect(),
            ValueView::String(value@),
            old(writer)@,
            final(writer)@,
            old(path)@,
            final(path)@,
            depth as nat,
            result,
        ),
{
    proof {
        lemma_prefix(old(writer)@, Seq::empty(), Seq::empty(), Seq::empty());
    }
    match emitter.emit_str(writer, value) {
        Ok(()) => Ok(()),
        Err(error) => Err(error.attach_path(path)),
    }
}

/// Opens a sequence of `len` elements and turns a failure into the error
/// that tells where it happened.
fn open_seq<E: Encode>(
    emitter: &BinaryEmitter<E>,
    writer: &mut Vec<u8>,
    kind: SeqKind,
    len: usize,
    path: &mut Path,
) -> (result: Result<(), Error>)
    ensures
        match result {
            Ok(()) => seq_overflow(emitter.dialect(), len as nat, old(path)@) is None && final(writer)@ == old(writer)@ + seq_header(kind) + emitter.dialect().seq_len_bytes(len as nat)
                && final(path)@ == old(path)@,
            Err(error) => seq_overflow(emitter.dialect(), len as nat, old(path)@) matches Some(o)
                && error.has(
                Category::InvalidInput,
                o.message(emitter.dialect()),
                PositionView::Path(o.path),
            ) && final(path)@ == Seq::<SegmentView>::empty() && old(writer)@.is_prefix_of(
                final(writer)@,
            ),
        },
{
    proof {
        lemma_prefix(old(writer)@, Seq::empty(), Seq::empty(), seq_header(kind));
    }
    match emitter.begin_seq(writer, kind, Some(len)) {
        Ok(()) => Ok(()),
        Err(error) => Err(error.attach_path(path)),
    }
}

/// Writes an array of bytes: the count, then one byte each.
pub fn emit_byte_array<E: Encode>(
    emitter: &BinaryEmitter<E>,
    writer: &mut Vec<u8>,
    value: &Vec<Byte>,
    path: &mut Path,
    depth: usize,
) -> (result: Result<(), Error>)
    ensures
        wrote(
            emitter.dialect(),
            ValueView::ByteArray(bytes_view(value@)),
            old(writer)@,
            final(writer)@,
            old(path)@,
            final(path)@,
            depth as nat,
            result,
        ),
{
    let ghost d = emitter.dialect();
    let ghost a = bytes_view(value@);
    match open_seq(emitter, writer, SeqKind::ByteArray, value.len(), path) {
        Ok(()) => {},
        Err(error) => {
            return Err(error);
        },
    }
    let ghost start = writer@;
    let mut i: usize = 0;
    proof {
        assert(start =~= old(writer)@ + d.seq_len_bytes(a.len()));
        assert(writer@ =~= start + raw_bytes(a).take(0));
    }
    while i < value.len()
        invariant
            a == bytes_view(value@),
            i <= value@.len(),
            writer@ == start + raw_bytes(a).take(i as int),
        decreases value@.len() - i,
    {
        emitter.emit_i8(writer, value[i].to_i8());
        proof {
            assert(raw_bytes(a).take(i + 1) =~= raw_bytes(a).take(i as int).push(a[i as int] as u8));
            assert(writer@ =~= start + raw_bytes(a).take(i + 1));
        }
        i += 1;
    }
    proof {
        assert(raw_bytes(a).take(i as int) =~= raw_bytes(a));
        assert(writer@ =~= old(writer)@ + payload(d, ValueView::ByteArray(a)));
    }
    Ok(())
}

/// Writes an array of 32-bit integers: the count, then each integer.
pub fn emit_int_array<E: Encode>(
    emitter: &BinaryEmitter<E>,
    writer: &mut Vec<u8>,
    value: &Vec<i32>,
    path: &mut Path,
    depth: usize,
) -> (result: Result<(), Error>)
    ensures
        wrote(
            emitter.dialect(),
            ValueView::IntArray(value@),
            old(writer)@,
            final(writer)@,
            old(path)@,
            final(path)@,
            depth as nat,
            result,
        ),
{
    let ghost d = emitter.dialect();
    match open_seq(emitter, writer, SeqKind::IntArray, value.len(), path) {
        Ok(()) => {},
        Err(error) => {
            return Err(error);
        },
    }
    let ghost start = writer@;
    let mut i: usize = 0;
    proof {
        assert(start =~= old(writer)@ + d.seq_len_bytes(value@.len()));
        lemma_ints_bytes_step(d, value@, Seq::empty(), 0);
        assert(writer@ =~= start + ints_bytes(d, value@.take(0)));
    }
    while i < value.len()
        invariant
            d == emitter.dialect(),
            i <= value@.len(),
            writer@ == start + ints_bytes(d, value@.take(i as int)),
        decreases value@.len() - i,
    {
        emitter.emit_i32(writer, value[i]);
        proof {
            lemma_ints_bytes_step(d, value@, Seq::empty(), i as int);
            assert(writer@ =~= start + ints_bytes(d, value@.take(i + 1)));
        }
        i += 1;
    }
    proof {
        lemma_ints_bytes_step(d, value@, Seq::empty(), 0);
        assert(writer@ =~= old(writer)@ + payload(d, ValueView::IntArray(value@)));
    }
    Ok(())
}

/// Writes an array of 64-bit integers: the count, then each integer.
pub fn emit_long_array<E: Encode>(
    emitter: &BinaryEmitter<E>,
    writer: &mut Vec<u8>,
    value: &Vec<i64>,
    path: &mut Path,
    depth: usize,
) -> (result: Result<(), Error>)
    ensures
        wrote(
            emitter.dialect(),
            ValueView::LongArray(value@),
            old(writer)@,
            final(writer)@,
            old(path)@,
            final(path)@,
            depth as nat,
            result,
        ),
{
    let ghost d = emitter.dialect();
    match open_seq(emitter, writer, SeqKind::LongArray, value.len(), path) {
        Ok(()) => {},
        Err(error) => {
            return Err(error);
        },
    }
    let ghost start = writer@;
    let mut i: usize = 0;
    proof {
        assert(start =~= old(writer)@ + d.seq_len_bytes(value@.len()));
        lemma_ints_bytes_step(d, Seq::empty(), value@, 0);
        assert(writer@ =~= start + longs_bytes(d, value@.take(0)));
    }
    while i < value.len()
        invariant
            d == emitter.dialect(),
            i <= value@.len(),
            writer@ == start + longs_bytes(d, value@.take(i as int)),
        decreases value@.len() - i,
    {
        emitter.emit_i64(writer, value[i]);
        proof {
            lemma_ints_bytes_step(d, Seq::empty(), value@, i as int);
            assert(writer@ =~= start + longs_bytes(d, value@.take(i + 1)));
        }
        i += 1;
    }
    proof {
        lemma_ints_bytes_step(d, Seq::empty(), value@, 0);
        assert(writer@ =~= old(writer)@ + payload(d, ValueView::LongArray(value@)));
    }
    Ok(())
}

/// Writes a value: its payload, without a tag in front. The kind of the
/// value is found out first and decides what is written.
pub fn emit_value<E: Encode>(
    emitter: &BinaryEmitter<E>,
    writer: &mut Vec<u8>,
    value: &Value,
    path: &mut Path,
    depth: usize,
) -> (result: Result<(), Error>)
    ensures
        wrote(
            emitter.dialect(),
            value@,
            old(writer)@,
            final(writer)@,
            old(path)@,
            final(path)@,
            depth as nat,
            result,
        ),
    decreases value@,
{
    match value {
        Value::Byte(v) => {
            emitter.emit_i8(writer, v.to_i8());
            Ok(())
        },
        Value::Short(v) => {
            emitter.emit_i16(writer, *v);
            Ok(())
        },
        Value::Int(v) => {
            emitter.emit_i32(writer, *v);
            Ok(())
        },
        Value::Long(v) => {
            emitter.emit_i64(writer, *v);
            Ok(())
        },
        Value::Float(v) => {
            emitter.emit_f32(writer, *v);
            Ok(())
        },
        Value::Double(v) => {
            emitter.emit_f64(writer, *v);
            Ok(())
        },
        Value::ByteArray(v) => emit_byte_array(emitter, writer, v, path, depth),
        Value::String(v) => emit_string(emitter, writer, v.as_str(), path, depth),
        Value::List(v) => {
            proof {
                assert(decreases_to!(value@ => value@->List_0));
            }
            emit_list(emitter, writer, v, path, depth)
        },
        Value::Compound(v) => {
            proof {
                assert(decreases_to!(value@ => value@->Compound_0));
            }
            emit_compound(emitter, writer, v, path, depth)
        },
        Value::IntArray(v) => emit_int_array(emitter, writer, v, path, depth),
        Value::LongArray(v) => emit_long_array(emitter, writer, v, path, depth),
    }
}

/// Writes a compound: every entry as the tag of its value, its key and the
/// payload of its value, and the `End` tag behind the last. The tag of a
/// value is found out before anything of the entry is written.
pub fn emit_compound<E: Encode>(
    emitter: &BinaryEmitter<E>,
    writer: &mut Vec<u8>,
    compound: &Compound,
    path: &mut Path,
    depth: usize,
) -> (result: Result<(), Error>)
    ensures
        wrote(
            emitter.dialect(),
            ValueView::Compound(compound@),
            old(writer)@,
            final(writer)@,
            old(path)@,
            final(path)@,
            depth as nat,
            result,
        ),
    decreases compound@,
{
    let ghost d = emitter.dialect();
    let ghost entries = compound@;
    let ghost base = path@;
    let ghost start = writer@;
    proof {
        lemma_prefix(start, start, start, Seq::empty());
    }
    if depth == 0 {
        return Err(Error::recursion_limit_exceeded(path));
    }
    emitter.begin_map(writer);
    let len = compound.len();
    let mut i: usize = 0;
    proof {
        lemma_entries_bytes_step(d, entries, 0);
        assert(writer@ =~= start + entries_bytes(d, entries.take(0)));
    }
    while i < len
        invariant
            d == emitter.dialect(),
            entries == compound@,
            len == entries.len(),
            i <= len,
            depth > 0,
            path@ == base,
            base == old(path)@,
            start == old(writer)@,
            writer@ == start + entries_bytes(d, entries.take(i as int)),
            entries_overflow(d, entries, base, 0, (depth - 1) as nat) == entries_overflow(
                d,
                entries,
                base,
                i as nat,
                (depth - 1) as nat,
            ),
            forall|j: int| 0 <= j < i ==> (#[trigger] entries[j]).1.wf(),
            forall|j: int, k: int| 0 <= j < i && 0 <= k < len && j != k ==> (#[trigger] entries[j]).0
                != (#[trigger] entries[k]).0,
        decreases len - i,
    {
        let (key, value) = match compound.entry_at(i) {
            Some(entry) => entry,
            None => {
                return Ok(());
            },
        };
        let ghost inner = base.push(SegmentView::Identifier(key@));
        let ghost before = writer@;
        proof {
            lemma_entries_bytes_step(d, entries, i as int);
            assert(entries[i as int] == (key@, value@));
            assert(decreases_to!(entries => entries[i as int]));
            assert(decreases_to!(entries[i as int] => entries[i as int].1));
        }
        path.enter_scope(key.clone());
        let hint = value.ty();
        emitter.before_key(writer, hint);
        match emitter.emit_key(writer, key.as_str()) {
            Ok(()) => {},
            Err(error) => {
                proof {
                    assert(entries_overflow(d, entries, base, i as nat, (depth - 1) as nat) is Some);
                    lemma_prefix(start, before, writer@, entries_bytes(d, entries.take(i as int)));
                    lemma_prefix(before, writer@, writer@, seq![hint.id().code()]);
                }
                return Err(error.attach_path(path));
            },
        }
        match emit_value(emitter, writer, value, path, depth - 1) {
            Ok(()) => {},
            Err(error) => {
                proof {
                    assert(entries_overflow(d, entries, base, i as nat, (depth - 1) as nat) is Some);
                    let keyed = before + seq![hint.id().code()] + str_bytes(d, key@);
                    lemma_prefix(start, before, keyed, entries_bytes(d, entries.take(i as int)));
                    lemma_prefix(before, keyed, writer@, seq![hint.id().code()] + str_bytes(d, key@));
                    assert(keyed =~= before + (seq![hint.id().code()] + str_bytes(d, key@)));
                    lemma_prefix(start, keyed, writer@, Seq::empty());
                }
                return Err(error);
            },
        }
        let _ = path.leave_scope();
        proof {
            assert(entries_overflow(d, entries, base, i as nat, (depth - 1) as nat)
                == entries_overflow(d, entries, base, (i + 1) as nat, (depth - 1) as nat));
            assert(path@ =~= base);
            assert(writer@ =~= before + entry_bytes(d, key@, value@));
            assert(writer@ =~= start + entries_bytes(d, entries.take(i + 1)));
        }
        i += 1;
    }
    emitter.end_map(writer);
    proof {
        lemma_entries_bytes_step(d, entries, 0);
        assert(writer@ =~= old(writer)@ + payload(d, ValueView::Compound(entries)));
        assert(distinct_keys(entries));
    }
    Ok(())
}

/// What writing the elements of a list promises: as [`wrote`], for the
/// payloads of the items one after the other.
pub open spec fn wrote_items(
    d: Dialect,
    items: Seq<ValueView>,
    before: Seq<u8>,
    after: Seq<u8>,
    path_before: Seq<SegmentView>,
    path_after: Seq<SegmentView>,
    depth: nat,
    result: Result<(), Error>,
) -> bool {
    match result {
        Ok(()) => {
            &&& after == before + items_bytes(d, items)
            &&& path_after == path_before
            &&& items_overflow(d, items, path_before, 0, depth) is None
            &&& forall|j: int| 0 <= j < items.len() ==> (#[trigger] items[j]).wf()
        },
        Err(error) => {
            &&& items_overflow(d, items, path_before, 0, depth) matches Some(o)
            &&& error.has(o.category(), o.message(d), PositionView::Path(o.path))
            &&& path_after == Seq::<SegmentView>::empty()
            &&& before.is_prefix_of(after)
        },
    }
}

/// Writes the elements of a list of bytes.
fn emit_byte_items<E: Encode>(
    emitter: &BinaryEmitter<E>,
    writer: &mut Vec<u8>,
    elements: &Vec<Byte>,
    path: &mut Path,
    depth: usize,
) -> (result: Result<(), Error>)
    ensures
        result is Ok,
        wrote_items(
            emitter.dialect(),
            byte_items(elements@),
            old(writer)@,
            final(writer)@,
            old(path)@,
            final(path)@,
            depth as nat,
            result,
        ),
{
    let ghost d = emitter.dialect();
    let ghost items = byte_items(elements@);
    let ghost start = writer@;
    let mut i: usize = 0;
    proof {
        lemma_items_bytes_step(d, items, 0);
        assert(writer@ =~= start + items_bytes(d, items.take(0)));
    }
    while i < elements.len()
        invariant
            d == emitter.dialect(),
            items == byte_items(elements@),
            i <= elements@.len(),
            writer@ == start + items_bytes(d, items.take(i as int)),
        decreases elements@.len() - i,
    {
        emitter.emit_i8(writer, elements[i].to_i8());
        proof {
            lemma_items_bytes_step(d, items, i as int);
            assert(items[i as int] == ValueView::Byte(elements@[i as int].value()));
            assert(writer@ =~= start + items_bytes(d, items.take(i + 1)));
        }
        i += 1;
    }
    proof {
        lemma_items_bytes_step(d, items, 0);
        assert forall|j: int| 0 <= j < items.len() implies encodable(d, #[trigger] items[j])
            && items[j].wf() && items[j].height() <= depth by {
            assert(items[j] == ValueView::Byte(elements@[j].value()));
            assert(items[j].height() == 0);
        }
        lemma_items_overflow(d, items, path@, 0, depth as nat);
    }
    Ok(())
}

/// Writes the elements of a list of shorts.
fn emit_short_items<E: Encode>(
    emitter: &BinaryEmitter<E>,
    writer: &mut Vec<u8>,
    elements: &Vec<i16>,
    path: &mut Path,
    depth: usize,
) -> (result: Result<(), Error>)
    ensures
        result is Ok,
        wrote_items(
            emitter.dialect(),
            short_items(elements@),
            old(writer)@,
            final(writer)@,
            old(path)@,
            final(path)@,
            depth as nat,
            result,
        ),
{
    let ghost d = emitter.dialect();
    let ghost items = short_items(elements@);
    let ghost start = writer@;
    let mut i: usize = 0;
    proof {
        lemma_items_bytes_step(d, items, 0);
        assert(writer@ =~= start + items_bytes(d, items.take(0)));
    }
    while i < elements.len()
        invariant
            d == emitter.dialect(),
            items == short_items(elements@),
            i <= elements@.len(),
            writer@ == start + items_bytes(d, items.take(i as int)),
        decreases elements@.len() - i,
    {
        emitter.emit_i16(writer, elements[i]);
        proof {
            lemma_items_bytes_step(d, items, i as int);
            assert(items[i as int] == ValueView::Short(elements@[i as int]));
            assert(writer@ =~= start + items_bytes(d, items.take(i + 1)));
        }
        i += 1;
    }
    proof {
        lemma_items_bytes_step(d, items, 0);
        assert forall|j: int| 0 <= j < items.len() implies encodable(d, #[trigger] items[j])
            && items[j].wf() && items[j].height() <= depth by {
            assert(items[j] == ValueView::Short(elements@[j]));
            assert(items[j].height() == 0);
        }
        lemma_items_overflow(d, items, path@, 0, depth as nat);
    }
    Ok(())
}

/// Writes the elements of a list of ints.
fn emit_int_items<E: Encode>(
    emitter: &BinaryEmitter<E>,
    writer: &mut Vec<u8>,
    elements: &Vec<i32>,
    path: &mut Path,
    depth: usize,
) -> (result: Result<(), Error>)
    ensures
        result is Ok,
        wrote_items(
            emitter.dialect(),
            int_items(elements@),
            old(writer)@,
            final(writer)@,
            old(path)@,
            final(path)@,
            depth as nat,
            result,
        ),
{
    let ghost d = emitter.dialect();
    let ghost items = int_items(elements@);
    let ghost start = writer@;
    let mut i: usize = 0;
    proof {
        lemma_items_bytes_step(d, items, 0);
        assert(writer@ =~= start + items_bytes(d, items.take(0)));
    }
    while i < elements.len()
        invariant
            d == emitter.dialect(),
            items == int_items(elements@),
            i <= elements@.len(),
            writer@ == start + items_bytes(d, items.take(i as int)),
        decreases elements@.len() - i,
    {
        emitter.emit_i32(writer, elements[i]);
        proof {
            lemma_items_bytes_step(d, items, i as int);
            assert(items[i as int] == ValueView::Int(elements@[i as int]));
            assert(writer@ =~= start + items_bytes(d, items.take(i + 1)));
        }
        i += 1;
    }
    proof {
        lemma_items_bytes_step(d, items, 0);
        assert forall|j: int| 0 <= j < items.len() implies encodable(d, #[trigger] items[j])
            && items[j].wf() && items[j].height() <= depth by {
            assert(items[j] == ValueView::Int(elements@[j]));
            assert(items[j].height() == 0);
        }
        lemma_items_overflow(d, items, path@, 0, depth as nat);
    }
    Ok(())
}

/// Writes the elements of a list of longs.
fn emit_long_items<E: Encode>(
    emitter: &BinaryEmitter<E>,
    writer: &mut Vec<u8>,
    elements: &Vec<i64>,
    path: &mut Path,
    depth: usize,
) -> (result: Result<(), Error>)
    ensures
        result is Ok,
        wrote_items(
            emitter.dialect(),
            long_items(elements@),
            old(writer)@,
            final(writer)@,
            old(path)@,
            final(path)@,
            depth as nat,
            result,
        ),
{
    let ghost d = emitter.dialect();
    let ghost items = long_items(elements@);
    let ghost start = writer@;
    let mut i: usize = 0;
    proof {
        lemma_items_bytes_step(d, items, 0);
        assert(writer@ =~= start + items_bytes(d, items.take(0)));
    }
    while i < elements.len()
        invariant
            d == emitter.dialect(),
            items == long_items(elements@),
            i <= elements@.len(),
            writer@ == start + items_bytes(d, items.take(i as int)),
        decreases elements@.len() - i,
    {
        emitter.emit_i64(writer, elements[i]);
        proof {
            lemma_items_bytes_step(d, items, i as int);
            assert(items[i as int] == ValueView::Long(elements@[i as int]));
            assert(writer@ =~= start + items_bytes(d, items.take(i + 1)));
        }
        i += 1;
    }
    proof {
        lemma_items_bytes_step(d, items, 0);
        assert forall|j: int| 0 <= j < items.len() implies encodable(d, #[trigger] items[j])
            && items[j].wf() && items[j].height() <= depth by {
            assert(items[j] == ValueView::Long(elements@[j]));
            assert(items[j].height() == 0);
        }
        lemma_items_overflow(d, items, path@, 0, depth as nat);
    }
    Ok(())
}

/// Writes the elements of a list of floats.
fn emit_float_items<E: Encode>(
    emitter: &BinaryEmitter<E>,
    writer: &mut Vec<u8>,
    elements: &Vec<u32>,
    path: &mut Path,
    depth: usize,
) -> (result: Result<(), Error>)
    ensures
        result is Ok,
        wrote_items(
            emitter.dialect(),
            float_items(elements@),
            old(writer)@,
            final(writer)@,
            old(path)@,
            final(path)@,
            depth as nat,
            result,
        ),
{
    let ghost d = emitter.dialect();
    let ghost items = float_items(elements@);
    let ghost start = writer@;
    let mut i: usize = 0;
    proof {
        lemma_items_bytes_step(d, items, 0);
        assert(writer@ =~= start + items_bytes(d, items.take(0)));
    }
    while i < elements.len()
        invariant
            d == emitter.dialect(),
            items == float_items(elements@),
            i <= elements@.len(),
            writer@ == start + items_bytes(d, items.take(i as int)),
        decreases elements@.len() - i,
    {
        emitter.emit_f32(writer, elements[i]);
        proof {
            lemma_items_bytes_step(d, items, i as int);
            assert(items[i as int] == ValueView::Float(elements@[i as int]));
            assert(writer@ =~= start + items_bytes(d, items.take(i + 1)));
        }
        i += 1;
    }
    proof {
        lemma_items_bytes_step(d, items, 0);
        assert forall|j: int| 0 <= j < items.len() implies encodable(d, #[trigger] items[j])
            && items[j].wf() && items[j].height() <= depth by {
            assert(items[j] == ValueView::Float(elements@[j]));
            assert(items[j].height() == 0);
        }
        lemma_items_overflow(d, items, path@, 0, depth as nat);
    }
    Ok(())
}

/// Writes the elements of a list of doubles.
fn emit_double_items<E: Encode>(
    emitter: &BinaryEmitter<E>,
    writer: &mut Vec<u8>,
    elements: &Vec<u64>,
    path: &mut Path,
    depth: usize,
) -> (result: Result<(), Error>)
    ensures
        result is Ok,
        wrote_items(
            emitter.dialect(),
            double_items(elements@),
            old(writer)@,
            final(writer)@,
            old(path)@,
            final(path)@,
            depth as nat,
            result,
        ),
{
    let ghost d = emitter.dialect();
    let ghost items = double_items(elements@);
    let ghost start = writer@;
    let mut i: usize = 0;
    proof {
        lemma_items_bytes_step(d, items, 0);
        assert(writer@ =~= start + items_bytes(d, items.take(0)));
    }
    while i < elements.len()
        invariant
            d == emitter.dialect(),
            items == double_items(elements@),
            i <= elements@.len(),
            writer@ == start + items_bytes(d, items.take(i as int)),
        decreases elements@.len() - i,
    {
        emitter.emit_f64(writer, elements[i]);
        proof {
            lemma_items_bytes_step(d, items, i as int);
            assert(items[i as int] == ValueView::Double(elements@[i as int]));
            assert(writer@ =~= start + items_bytes(d, items.take(i + 1)));
        }
        i += 1;
    }
    proof {
        lemma_items_bytes_step(d, items, 0);
        assert forall|j: int| 0 <= j < items.len() implies encodable(d, #[trigger] items[j])
            && items[j].wf() && items[j].height() <= depth by {
            assert(items[j] == ValueView::Double(elements@[j]));
            assert(items[j].height() == 0);
        }
        lemma_items_overflow(d, items, path@, 0, depth as nat);
    }
    Ok(())
}

/// Writes the elements of a list of byte arrays.
fn emit_byte_array_items<E: Encode>(
    emitter: &BinaryEmitter<E>,
    writer: &mut Vec<u8>,
    elements: &Vec<Vec<Byte>>,
    path: &mut Path,
    depth: usize,
) -> (result: Result<(), Error>)
    ensures
        wrote_items(
            emitter.dialect(),
            byte_array_items(elements@),
            old(writer)@,
            final(writer)@,
            old(path)@,
            final(path)@,
            depth as nat,
            result,
        ),

{
    let ghost d = emitter.dialect();
    let ghost items = byte_array_items(elements@);
    let ghost base = path@;
    let ghost start = writer@;
    let mut i: usize = 0;
    proof {
        lemma_items_bytes_step(d, items, 0);
        assert(writer@ =~= start + items_bytes(d, items.take(0)));
    }
    while i < elements.len()
        invariant
            d == emitter.dialect(),
            items == byte_array_items(elements@),
            i <= elements@.len(),
            path@ == base,
            base == old(path)@,
            start == old(writer)@,
            writer@ == start + items_bytes(d, items.take(i as int)),
            items_overflow(d, items, base, 0, depth as nat) == items_overflow(
                d,
                items,
                base,
                i as nat,
                depth as nat,
            ),
            forall|j: int| 0 <= j < i ==> (#[trigger] items[j]).wf(),
        decreases elements@.len() - i,
    {
        let ghost before = writer@;
        proof {
            assert(items[i as int] == ValueView::ByteArray(bytes_view(elements@[i as int]@)));

            lemma_items_bytes_step(d, items, i as int);
        }
        path.enter_element(i);
        match emit_byte_array(emitter, writer, &elements[i], path, depth) {
            Ok(()) => {},
            Err(error) => {
                proof {
                    lemma_prefix(start, before, writer@, items_bytes(d, items.take(i as int)));
                    assert(items_overflow(d, items, base, i as nat, depth as nat) is Some);
                }
                return Err(error);
            },
        }
        let _ = path.leave_element();
        proof {
            assert(items_overflow(d, items, base, i as nat, depth as nat) == items_overflow(
                d,
                items,
                base,
                (i + 1) as nat,
                depth as nat,
            ));
            assert(path@ =~= base);
            assert(writer@ =~= start + items_bytes(d, items.take(i + 1)));
        }
        i += 1;
    }
    proof {
        lemma_items_bytes_step(d, items, 0);
    }
    Ok(())
}

/// Writes the elements of a list of strings.
fn emit_string_items<E: Encode>(
    emitter: &BinaryEmitter<E>,
    writer: &mut Vec<u8>,
    elements: &Vec<String>,
    path: &mut Path,
    depth: usize,
) -> (result: Result<(), Error>)
    ensures
        wrote_items(
            emitter.dialect(),
            string_items(elements@),
            old(writer)@,
            final(writer)@,
            old(path)@,
            final(path)@,
            depth as nat,
            result,
        ),

{
    let ghost d = emitter.dialect();
    let ghost items = string_items(elements@);
    let ghost base = path@;
    let ghost start = writer@;
    let mut i: usize = 0;
    proof {
        lemma_items_bytes_step(d, items, 0);
        assert(writer@ =~= start + items_bytes(d, items.take(0)));
    }
    while i < elements.len()
        invariant
            d == emitter.dialect(),
            items == string_items(elements@),
            i <= elements@.len(),
            path@ == base,
            base == old(path)@,
            start == old(writer)@,
            writer@ == start + items_bytes(d, items.take(i as int)),
            items_overflow(d, items, base, 0, depth as nat) == items_overflow(
                d,
                items,
                base,
                i as nat,
                depth as nat,
            ),
            forall|j: int| 0 <= j < i ==> (#[trigger] items[j]).wf(),
        decreases elements@.len() - i,
    {
        let ghost before = writer@;
        proof {
            assert(items[i as int] == ValueView::String(elements@[i as int]@));

            lemma_items_bytes_step(d, items, i as int);
        }
        path.enter_element(i);
        match emit_string(emitter, writer, elements[i].as_str(), path, depth) {
            Ok(()) => {},
            Err(error) => {
                proof {
                    lemma_prefix(start, before, writer@, items_bytes(d, items.take(i as int)));
                    assert(items_overflow(d, items, base, i as nat, depth as nat) is Some);
                }
                return Err(error);
            },
        }
        let _ = path.leave_element();
        proof {
            assert(items_overflow(d, items, base, i as nat, depth as nat) == items_overflow(
                d,
                items,
                base,
                (i + 1) as nat,
                depth as nat,
            ));
            assert(path@ =~= base);
            assert(writer@ =~= start + items_bytes(d, items.take(i + 1)));
        }
        i += 1;
    }
    proof {
        lemma_items_bytes_step(d, items, 0);
    }
    Ok(())
}

/// Writes the elements of a list of lists.
fn emit_list_items<E: Encode>(
    emitter: &BinaryEmitter<E>,
    writer: &mut Vec<u8>,
    elements: &Vec<List>,
    path: &mut Path,
    depth: usize,
) -> (result: Result<(), Error>)
    ensures
        wrote_items(
            emitter.dialect(),
            list_items(elements@),
            old(writer)@,
            final(writer)@,
            old(path)@,
            final(path)@,
            depth as nat,
            result,
        ),
    decreases list_items(elements@),
{
    let ghost d = emitter.dialect();
    let ghost items = list_items(elements@);
    let ghost base = path@;
    let ghost start = writer@;
    let mut i: usize = 0;
    proof {
        lemma_items_bytes_step(d, items, 0);
        assert(writer@ =~= start + items_bytes(d, items.take(0)));
    }
    while i < elements.len()
        invariant
            d == emitter.dialect(),
            items == list_items(elements@),
            i <= elements@.len(),
            path@ == base,
            base == old(path)@,
            start == old(writer)@,
            writer@ == start + items_bytes(d, items.take(i as int)),
            items_overflow(d, items, base, 0, depth as nat) == items_overflow(
                d,
                items,
                base,
                i as nat,
                depth as nat,
            ),
            forall|j: int| 0 <= j < i ==> (#[trigger] items[j]).wf(),
        decreases elements@.len() - i,
    {
        let ghost before = writer@;
        proof {
            assert(items[i as int] == ValueView::List(list_view(elements@[i as int])));
            assert(decreases_to!(items => items[i as int])); assert(decreases_to!(items[i as int] => items[i as int]->List_0));
            lemma_items_bytes_step(d, items, i as int);
        }
        path.enter_element(i);
        match emit_list(emitter, writer, &elements[i], path, depth) {
            Ok(()) => {},
            Err(error) => {
                proof {
                    lemma_prefix(start, before, writer@, items_bytes(d, items.take(i as int)));
                    assert(items_overflow(d, items, base, i as nat, depth as nat) is Some);
                }
                return Err(error);
            },
        }
        let _ = path.leave_element();
        proof {
            assert(items_overflow(d, items, base, i as nat, depth as nat) == items_overflow(
                d,
                items,
                base,
                (i + 1) as nat,
                depth as nat,
            ));
            assert(path@ =~= base);
            assert(writer@ =~= start + items_bytes(d, items.take(i + 1)));
        }
        i += 1;
    }
    proof {
        lemma_items_bytes_step(d, items, 0);
    }
    Ok(())
}

/// Writes the elements of a list of compounds.
fn emit_compound_items<E: Encode>(
    emitter: &BinaryEmitter<E>,
    writer: &mut Vec<u8>,
    elements: &Vec<Compound>,
    path: &mut Path,
    depth: usize,
) -> (result: Result<(), Error>)
    ensures
        wrote_items(
            emitter.dialect(),
            compound_items(elements@),
            old(writer)@,
            final(writer)@,
            old(path)@,
            final(path)@,
            depth as nat,
            result,
        ),
    decreases compound_items(elements@),
{
    let ghost d = emitter.dialect();
    let ghost items = compound_items(elements@);
    let ghost base = path@;
    let ghost start = writer@;
    let mut i: usize = 0;
    proof {
        lemma_items_bytes_step(d, items, 0);
        assert(writer@ =~= start + items_bytes(d, items.take(0)));
    }
    while i < elements.len()
        invariant
            d == emitter.dialect(),
            items == compound_items(elements@),
            i <= elements@.len(),
            path@ == base,
            base == old(path)@,
            start == old(writer)@,
            writer@ == start + items_bytes(d, items.take(i as int)),
            items_overflow(d, items, base, 0, depth as nat) == items_overflow(
                d,
                items,
                base,
                i as nat,
                depth as nat,
            ),
            forall|j: int| 0 <= j < i ==> (#[trigger] items[j]).wf(),
        decreases elements@.len() - i,
    {
        let ghost before = writer@;
        proof {
            assert(items[i as int] == ValueView::Compound(compound_entries(elements@[i as int])));
            assert(decreases_to!(items => items[i as int])); assert(decreases_to!(items[i as int] => items[i as int]->Compound_0));
            lemma_items_bytes_step(d, items, i as int);
        }
        path.enter_element(i);
        match emit_compound(emitter, writer, &elements[i], path, depth) {
            Ok(()) => {},
            Err(error) => {
                proof {
                    lemma_prefix(start, before, writer@, items_bytes(d, items.take(i as int)));
                    assert(items_overflow(d, items, base, i as nat, depth as nat) is Some);
                }
                return Err(error);
            },
        }
        let _ = path.leave_element();
        proof {
            assert(items_overflow(d, items, base, i as nat, depth as nat) == items_overflow(
                d,
                items,
                base,
                (i + 1) as nat,
                depth as nat,
            ));
            assert(path@ =~= base);
            assert(writer@ =~= start + items_bytes(d, items.take(i + 1)));
        }
        i += 1;
    }
    proof {
        lemma_items_bytes_step(d, items, 0);
    }
    Ok(())
}

/// Writes the elements of a list of int arrays.
fn emit_int_array_items<E: Encode>(
    emitter: &BinaryEmitter<E>,
    writer: &mut Vec<u8>,
    elements: &Vec<Vec<i32>>,
    path: &mut Path,
    depth: usize,
) -> (result: Result<(), Error>)
    ensures
        wrote_items(
            emitter.dialect(),
            int_array_items(elements@),
            old(writer)@,
            final(writer)@,
            old(path)@,
            final(path)@,
            depth as nat,
            result,
        ),

{
    let ghost d = emitter.dialect();
    let ghost items = int_array_items(elements@);
    let ghost base = path@;
    let ghost start = writer@;
    let mut i: usize = 0;
    proof {
        lemma_items_bytes_step(d, items, 0);
        assert(writer@ =~= start + items_bytes(d, items.take(0)));
    }
    while i < elements.len()
        invariant
            d == emitter.dialect(),
            items == int_array_items(elements@),
            i <= elements@.len(),
            path@ == base,
            base == old(path)@,
            start == old(writer)@,
            writer@ == start + items_bytes(d, items.take(i as int)),
            items_overflow(d, items, base, 0, depth as nat) == items_overflow(
                d,
                items,
                base,
                i as nat,
                depth as nat,
            ),
            forall|j: int| 0 <= j < i ==> (#[trigger] items[j]).wf(),
        decreases elements@.len() - i,
    {
        let ghost before = writer@;
        proof {
            assert(items[i as int] == ValueView::IntArray(elements@[i as int]@));

            lemma_items_bytes_step(d, items, i as int);
        }
        path.enter_element(i);
        match emit_int_array(emitter, writer, &elements[i], path, depth) {
            Ok(()) => {},
            Err(error) => {
                proof {
                    lemma_prefix(start, before, writer@, items_bytes(d, items.take(i as int)));
                    assert(items_overflow(d, items, base, i as nat, depth as nat) is Some);
                }
                return Err(error);
            },
        }
        let _ = path.leave_element();
        proof {
            assert(items_overflow(d, items, base, i as nat, depth as nat) == items_overflow(
                d,
                items,
                base,
                (i + 1) as nat,
                depth as nat,
            ));
            assert(path@ =~= base);
            assert(writer@ =~= start + items_bytes(d, items.take(i + 1)));
        }
        i += 1;
    }
    proof {
        lemma_items_bytes_step(d, items, 0);
    }
    Ok(())
}

/// Writes the elements of a list of long arrays.
fn emit_long_array_items<E: Encode>(
    emitter: &BinaryEmitter<E>,
    writer: &mut Vec<u8>,
    elements: &Vec<Vec<i64>>,
    path: &mut Path,
    depth: usize,
) -> (result: Result<(), Error>)
    ensures
        wrote_items(
            emitter.dialect(),
            long_array_items(elements@),
            old(writer)@,
            final(writer)@,
            old(path)@,
            final(path)@,
            depth as nat,
            result,
        ),

{
    let ghost d = emitter.dialect();
    let ghost items = long_array_items(elements@);
    let ghost base = path@;
    let ghost start = writer@;
    let mut i: usize = 0;
    proof {
        lemma_items_bytes_step(d, items, 0);
        assert(writer@ =~= start + items_bytes(d, items.take(0)));
    }
    while i < elements.len()
        invariant
            d == emitter.dialect(),
            items == long_array_items(elements@),
            i <= elements@.len(),
            path@ == base,
            base == old(path)@,
            start == old(writer)@,
            writer@ == start + items_bytes(d, items.take(i as int)),
            items_overflow(d, items, base, 0, depth as nat) == items_overflow(
                d,
                items,
                base,
                i as nat,
                depth as nat,
            ),
            forall|j: int| 0 <= j < i ==> (#[trigger] items[j]).wf(),
        decreases elements@.len() - i,
    {
        let ghost before = writer@;
        proof {
            assert(items[i as int] == ValueView::LongArray(elements@[i as int]@));

            lemma_items_bytes_step(d, items, i as int);
        }
        path.enter_element(i);
        match emit_long_array(emitter, writer, &elements[i], path, depth) {
            Ok(()) => {},
            Err(error) => {
                proof {
                    lemma_prefix(start, before, writer@, items_bytes(d, items.take(i as int)));
                    assert(items_overflow(d, items, base, i as nat, depth as nat) is Some);
                }
                return Err(error);
            },
        }
        let _ = path.leave_element();
        proof {
            assert(items_overflow(d, items, base, i as nat, depth as nat) == items_overflow(
                d,
                items,
                base,
                (i + 1) as nat,
                depth as nat,
            ));
            assert(path@ =~= base);
            assert(writer@ =~= start + items_bytes(d, items.take(i + 1)));
        }
        i += 1;
    }
    proof {
        lemma_items_bytes_step(d, items, 0);
    }
    Ok(())
}

/// Writes a list: the tag that its elements share, the element count, and
/// the payload of every element, with no tag per element. A list that has
/// no element kind yet is written with the tag `End` and the count zero.
pub fn emit_list<E: Encode>(
    emitter: &BinaryEmitter<E>,
    writer: &mut Vec<u8>,
    list: &List,
    path: &mut Path,
    depth: usize,
) -> (result: Result<(), Error>)
    ensures
        wrote(
            emitter.dialect(),
            ValueView::List(list@),
            old(writer)@,
            final(writer)@,
            old(path)@,
            final(path)@,
            depth as nat,
            result,
        ),
    decreases list@,
{
    let ghost d = emitter.dialect();
    let ghost whole = ValueView::List(list@);
    let ghost items = list@.items;
    let ghost base = path@;
    proof {
        lemma_list_homogeneous(*list);
        lemma_prefix(
            old(writer)@,
            Seq::empty(),
            Seq::empty(),
            seq![list@.elem.code()] + d.seq_len_bytes(items.len()),
        );
    }
    if depth == 0 {
        proof {
            lemma_prefix(old(writer)@, Seq::empty(), Seq::empty(), Seq::empty());
        }
        return Err(Error::recursion_limit_exceeded(path));
    }
    match open_seq(emitter, writer, SeqKind::List(list.id()), list.len(), path) {
        Ok(()) => {},
        Err(error) => {
            return Err(error);
        },
    }
    let ghost start = writer@;
    proof {
        assert(start =~= old(writer)@ + (seq![list@.elem.code()] + d.seq_len_bytes(items.len())));
        assert(decreases_to!(list@ => list@.items));
    }
    let result = match list {
        List::Empty => {
            proof {
                assert(items =~= Seq::<ValueView>::empty());
                assert(writer@ =~= start + items_bytes(d, items));
            }
            Ok(())
        },
        List::Byte(elements) => {
            proof {

                assert(items == byte_items(elements@));
            }
            emit_byte_items(emitter, writer, elements, path, depth - 1)
        },
        List::Short(elements) => {
            proof {

                assert(items == short_items(elements@));
            }
            emit_short_items(emitter, writer, elements, path, depth - 1)
        },
        List::Int(elements) => {
            proof {

                assert(items == int_items(elements@));
            }
            emit_int_items(emitter, writer, elements, path, depth - 1)
        },
        List::Long(elements) => {
            proof {

                assert(items == long_items(elements@));
            }
            emit_long_items(emitter, writer, elements, path, depth - 1)
        },
        List::Float(elements) => {
            proof {

                assert(items == float_items(elements@));
            }
            emit_float_items(emitter, writer, elements, path, depth - 1)
        },
        List::Double(elements) => {
            proof {

                assert(items == double_items(elements@));
            }
            emit_double_items(emitter, writer, elements, path, depth - 1)
        },
        List::ByteArray(elements) => {
            proof {

                assert(items == byte_array_items(elements@));
            }
            emit_byte_array_items(emitter, writer, elements, path, depth - 1)
        },
        List::String(elements) => {
            proof {

                assert(items == string_items(elements@));
            }
            emit_string_items(emitter, writer, elements, path, depth - 1)
        },
        List::List(elements) => {
            proof {
                lemma_list_of_lists(*elements);
                assert(items == list_items(elements@));
            }
            emit_list_items(emitter, writer, elements, path, depth - 1)
        },
        List::Compound(elements) => {
            proof {

                assert(items == compound_items(elements@));
            }
            emit_compound_items(emitter, writer, elements, path, depth - 1)
        },
        List::IntArray(elements) => {
            proof {

                assert(items == int_array_items(elements@));
            }
            emit_int_array_items(emitter, writer, elements, path, depth - 1)
        },
        List::LongArray(elements) => {
            proof {

                assert(items == long_array_items(elements@));
            }
            emit_long_array_items(emitter, writer, elements, path, depth - 1)
        },
    };
    proof {
        if result is Ok {
            assert(writer@ =~= old(writer)@ + payload(d, whole));
        } else {
            lemma_prefix(old(writer)@, start, writer@, Seq::empty());
        }
    }
    result
}

/// The message of the error about a root that is neither a compound nor,
/// where lists are allowed, a list.
pub open spec fn root_message(tag: TypeId) -> Seq<char> {
    invalid_root_message(tag.name())
}

/// True when a document can be written: the root may be a root, the
/// dialect can count the name and everything in the tree, and the tree
/// nests no deeper than the limit.
pub open spec fn document_accepted(d: Dialect, name: Seq<char>, root: ValueView, allow_list: bool)
    -> bool {
    &&& super::format::is_root_tag(root.tag(), allow_list)
    &&& mutf8::encode_chars(name).len() <= d.str_len_max()
    &&& encodable(d, root)
    &&& root.height() <= RECURSION_LIMIT
}

/// True when the error is the one that a document that cannot be written
/// is refused with. A root that may not be a root is reported at the empty
/// path. Otherwise the error tells the first thing that cannot be written:
/// the name, at the empty path, or something in the tree, at its path.
pub open spec fn document_refused(
    d: Dialect,
    name: Seq<char>,
    root: ValueView,
    allow_list: bool,
    error: Error,
) -> bool {
    let path = Seq::<SegmentView>::empty();
    if !super::format::is_root_tag(root.tag(), allow_list) {
        error.has(Category::InvalidInput, root_message(root.tag()), PositionView::Path(path))
    } else {
        match str_overflow(d, name, path) {
            Some(o) => error.has(Category::InvalidInput, o.message(d), PositionView::Path(path)),
            None => overflow(d, root, path, RECURSION_LIMIT as nat) matches Some(o) && error.has(
                o.category(),
                o.message(d),
                PositionView::Path(o.path),
            ),
        }
    }
}

/// Writes a document: the tag of the root, the name, and the payload of
/// the root. The root must be a compound, or a list where `allow_list`
/// says so.
pub fn emit_document<E: Encode>(
    emitter: &BinaryEmitter<E>,
    writer: &mut Vec<u8>,
    header: &str,
    value: &Value,
    allow_list: bool,
) -> (result: Result<(), Error>)
    ensures
        match result {
            Ok(()) => document_accepted(emitter.dialect(), header@, value@, allow_list)
                && value@.wf() && final(writer)@ == old(writer)@ + document(
                emitter.dialect(),
                header@,
                value@,
            ),
            Err(error) => !document_accepted(emitter.dialect(), header@, value@, allow_list)
                && document_refused(emitter.dialect(), header@, value@, allow_list, error) && old(writer)@.is_prefix_of(final(writer)@),
        },
{
    let ghost d = emitter.dialect();
    proof {
        lemma_overflow_encodable(d, value@, Seq::empty(), RECURSION_LIMIT as nat);
        lemma_prefix(old(writer)@, Seq::empty(), Seq::empty(), Seq::empty());
    }
    let mut path = Path::new();
    let ty = value.ty();
    let is_root = match ty {
        Type::Compound => true,
        Type::List => allow_list,
        _ => false,
    };
    if !is_root {
        return Err(Error::invalid_root(ty.to_id().as_str(), &mut path));
    }
    emitter.before_key(writer, ty);
    match emitter.emit_key(writer, header) {
        Ok(()) => {},
        Err(error) => {
            return Err(error.attach_path(&mut path));
        },
    }
    let ghost middle = writer@;
    proof {
        assert(middle =~= old(writer)@ + (seq![value@.tag().code()] + str_bytes(d, header@)));
        lemma_prefix(
            old(writer)@,
            middle,
            middle,
            seq![value@.tag().code()] + str_bytes(d, header@),
        );
    }
    match emit_value(emitter, writer, value, &mut path, RECURSION_LIMIT) {
        Ok(()) => {
            proof {
                assert(writer@ =~= old(writer)@ + document(d, header@, value@));
            }
            Ok(())
        },
        Err(error) => {
            proof {
                lemma_prefix(old(writer)@, middle, writer@, Seq::empty());
            }
            Err(error)
        },
    }
}

/// Writes a document in the fixed-width, big-endian dialect. The root must
/// be a compound.
pub fn to_be_vec(header: &str, value: &Value) -> (result: Result<Vec<u8>, Error>)
    ensures
        match result {
            Ok(bytes) => document_accepted(Dialect::BigEndian, header@, value@, false) && value@.wf()
                && bytes@ == document(Dialect::BigEndian, header@, value@),
            Err(error) => !document_accepted(Dialect::BigEndian, header@, value@, false)
                && document_refused(Dialect::BigEndian, header@, value@, false, error),
        },
{
    let mut vec: Vec<u8> = Vec::new();
    let emitter = BinaryEmitter::new(BeEncoder);
    proof {
        assert(vec@ =~= Seq::<u8>::empty());
        assert(emitter.dialect() == Dialect::BigEndian);
    }
    let ghost before = vec@;
    let result = emit_document(&emitter, &mut vec, header, value, false);
    proof {
        assert(before + document(emitter.dialect(), header@, value@) =~= document(
            emitter.dialect(),
            header@,
            value@,
        ));
    }
    match result {
        Ok(()) => Ok(vec),
        Err(error) => Err(error),
    }
}

/// Writes a document in the fixed-width, little-endian dialect. The root
/// must be a compound.
pub fn to_le_vec(header: &str, value: &Value) -> (result: Result<Vec<u8>, Error>)
    ensures
        match result {
            Ok(bytes) => document_accepted(Dialect::LittleEndian, header@, value@, false) && value@.wf()
                && bytes@ == document(Dialect::LittleEndian, header@, value@),
            Err(error) => !document_accepted(Dialect::LittleEndian, header@, value@, false)
                && document_refused(Dialect::LittleEndian, header@, value@, false, error),
        },
{
    let mut vec: Vec<u8> = Vec::new();
    let emitter = BinaryEmitter::new(LeEncoder);
    proof {
        assert(vec@ =~= Seq::<u8>::empty());
        assert(emitter.dialect() == Dialect::LittleEndian);
    }
    let ghost before = vec@;
    let result = emit_document(&emitter, &mut vec, header, value, false);
    proof {
        assert(before + document(emitter.dialect(), header@, value@) =~= document(
            emitter.dialect(),
            header@,
            value@,
        ));
    }
    match result {
        Ok(()) => Ok(vec),
        Err(error) => Err(error),
    }
}

/// Writes a document in the varint dialect. The root must be a compound,
/// or a list where `allow_list` says so: not every profile of the dialect
/// takes a bare list as a root.
pub fn to_varint_vec(header: &str, value: &Value, allow_list: bool) -> (result: Result<
    Vec<u8>,
    Error,
>)
    ensures
        match result {
            Ok(bytes) => document_accepted(Dialect::Varint, header@, value@, allow_list) && value@.wf()
                && bytes@ == document(Dialect::Varint, header@, value@),
            Err(error) => !document_accepted(Dialect::Varint, header@, value@, allow_list)
                && document_refused(Dialect::Varint, header@, value@, allow_list, error),
        },
{
    let mut vec: Vec<u8> = Vec::new();
    let emitter = BinaryEmitter::new(VarintEncoder);
    proof {
        assert(vec@ =~= Seq::<u8>::empty());
        assert(emitter.dialect() == Dialect::Varint);
    }
    match emit_document(&emitter, &mut vec, header, value, allow_list) {
        Ok(()) => Ok(vec),
        Err(error) => Err(error),
    }
}

} // verus!
