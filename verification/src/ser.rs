//! The traversal engine: what is written, and what is refused, as a
//! producer's data is walked.
//!
//! The format wants the tag of a value before the value, and the one tag
//! of a list before its first element; a walk over a producer's data
//! learns the shape of a value only by visiting it. So every value is
//! visited twice: first only to find out its kind, which touches no
//! output, then to write it. The engine is told the kind that the first
//! visit found and decides what the second may write.

pub mod emit;
pub mod shape;

pub use self::emit::Emit;

use crate::binary::format::{str_bytes, RECURSION_LIMIT};
use crate::binary::mutf8::encode_chars;
use crate::binary::ser::{seq_header, unsized_seq_message, BinaryEmitter, Encode};
use crate::binary::wire::Dialect;
use crate::error::{
    invalid_seq_message, seq_len_overflow_message, str_len_overflow_message, Category, Error, Path,
    PositionView, SegmentView,
};
use crate::util::{ArrayBrand, SeqKind};
use crate::value::tag::{Type, TypeId};
use vstd::prelude::*;

verus! {

/// The writer of one document: the emitter, the bytes written so far, the
/// path to the value at hand, and how many levels may still be entered.
pub struct Serializer<E: Encode> {
    emitter: BinaryEmitter<E>,
    writer: Vec<u8>,
    path: Path,
    depth: usize,
}

/// True when the error reports that the tree nests too deep, at the given
/// path.
pub open spec fn is_depth_refusal(error: Error, path: Seq<SegmentView>) -> bool {
    error.has(
        Category::RecursionLimitExceeded,
        "recursion limit exceeded"@,
        PositionView::Path(path),
    )
}

/// True when the error reports that a string is too long for the dialect,
/// at the given path.
pub open spec fn is_str_overflow(error: Error, d: Dialect, path: Seq<SegmentView>) -> bool {
    error.has(
        Category::InvalidInput,
        str_len_overflow_message(d.str_len_max() as usize),
        PositionView::Path(path),
    )
}

/// True when the error reports that a sequence cannot be opened, at the
/// given path: it does not say how many elements it has, or it has more
/// than the dialect can count.
pub open spec fn is_seq_refusal(error: Error, d: Dialect, len: Option<usize>, path: Seq<SegmentView>)
    -> bool {
    match len {
        None => error.has(Category::InvalidInput, unsized_seq_message(), PositionView::Path(path)),
        Some(len) => len > d.seq_len_max() && error.has(
            Category::InvalidInput,
            seq_len_overflow_message(d.seq_len_max() as usize),
            PositionView::Path(path),
        ),
    }
}

/// True when a sequence of the given length can be opened.
pub open spec fn seq_fits(d: Dialect, len: Option<usize>) -> bool {
    len matches Some(n) && n <= d.seq_len_max()
}

impl<E: Encode> Serializer<E> {
    /// The dialect that is written.
    pub closed spec fn dialect(&self) -> Dialect {
        self.emitter.dialect()
    }

    /// The bytes written so far.
    pub closed spec fn written(&self) -> Seq<u8> {
        self.writer@
    }

    /// The path to the value at hand.
    pub closed spec fn path(&self) -> Seq<SegmentView> {
        self.path@
    }

    /// How many levels of sequences and maps may still be entered.
    pub closed spec fn depth(&self) -> usize {
        self.depth
    }

    /// True when the call left the dialect and the depth alone and appended
    /// the bytes.
    pub open spec fn appended(&self, before: &Self, bytes: Seq<u8>) -> bool {
        &&& self.dialect() == before.dialect()
        &&& self.depth() == before.depth()
        &&& self.written() == before.written() + bytes
    }

    /// True when the call appended the bytes and left the path alone.
    pub open spec fn wrote(&self, before: &Self, bytes: Seq<u8>) -> bool {
        self.appended(before, bytes) && self.path() == before.path()
    }

    /// True when the call entered a level: it appended the bytes, left the
    /// path alone, and one level less may be entered.
    pub open spec fn entered(&self, before: &Self, bytes: Seq<u8>) -> bool {
        &&& before.depth() > 0
        &&& self.dialect() == before.dialect()
        &&& self.depth() == before.depth() - 1
        &&& self.written() == before.written() + bytes
        &&& self.path() == before.path()
    }

    /// True when the call left a level: it appended the bytes, and one
    /// level more may be entered.
    pub open spec fn left(&self, before: &Self, bytes: Seq<u8>) -> bool {
        &&& self.dialect() == before.dialect()
        &&& self.depth() == before.depth() + 1
        &&& self.written() == before.written() + bytes
    }

    /// True when the call failed: the path was drained into the error, and
    /// what was written before the call plus `bytes` stays written.
    pub open spec fn failed(&self, before: &Self, bytes: Seq<u8>) -> bool {
        &&& self.dialect() == before.dialect()
        &&& self.written() == before.written() + bytes
        &&& self.path() == Seq::<SegmentView>::empty()
    }

    /// A serializer that has written nothing and stands at the root.
    pub fn new(emitter: BinaryEmitter<E>) -> (serializer: Self)
        ensures
            serializer.dialect() == emitter.dialect(),
            serializer.written() == Seq::<u8>::empty(),
            serializer.path() == Seq::<SegmentView>::empty(),
            serializer.depth() == RECURSION_LIMIT,
    {
        Serializer { emitter, writer: Vec::new(), path: Path::new(), depth: RECURSION_LIMIT }
    }

    /// How many levels of sequences and maps may still be entered.
    pub fn remaining_depth(&self) -> (depth: usize)
        ensures
            depth == self.depth(),
    {
        self.depth
    }

    /// Enters a sequence or a map. A tree that nests deeper than the limit
    /// is refused here, with the path, before the stack can run out.
    pub fn enter(&mut self) -> (result: Result<(), Error>)
        ensures
            match result {
                Ok(()) => final(self).entered(old(self), Seq::empty()),
                Err(error) => old(self).depth() == 0 && is_depth_refusal(error, old(self).path())
                    && final(self).failed(old(self), Seq::empty()),
            },
    {
        proof {
            assert(self.written() + Seq::<u8>::empty() =~= self.written());
        }
        if self.depth == 0 {
            return Err(Error::recursion_limit_exceeded(&mut self.path));
        }
        self.depth = self.depth - 1;
        Ok(())
    }

    /// Leaves a sequence or a map.
    pub fn leave(&mut self)
        requires
            old(self).depth() < usize::MAX,
        ensures
            final(self).left(old(self), Seq::empty()),
            final(self).path() == old(self).path(),
    {
        self.depth = self.depth + 1;
        proof {
            assert(self.written() + Seq::<u8>::empty() =~= self.written());
        }
    }

    /// Hands out the bytes written.
    pub fn into_inner(self) -> (bytes: Vec<u8>)
        ensures
            bytes@ == self.written(),
    {
        self.writer
    }

    /// The bytes written so far.
    pub fn bytes(&self) -> (bytes: &Vec<u8>)
        ensures
            bytes@ == self.written(),
    {
        &self.writer
    }

    /// The path to the value at hand.
    pub fn current_path(&self) -> (path: &Path)
        ensures
            path@ == self.path(),
    {
        &self.path
    }

    /// The path to the value at hand, for a kind probe or a key to report
    /// a failure at.
    pub fn path_mut(&mut self) -> (path: &mut Path)
        ensures
            path@ == old(self).path(),
            final(self).path() == final(path)@,
            final(self).written() == old(self).written(),
            final(self).dialect() == old(self).dialect(),
            final(self).depth() == old(self).depth(),
    {
        &mut self.path
    }

    /// Writes a tag byte.
    pub fn emit_header_id(&mut self, id: TypeId)
        ensures
            final(self).wrote(old(self), seq![id.code()]),
    {
        self.emitter.emit_header_id(&mut self.writer, id);
    }

    /// Starts a document: writes the tag of the root and the name of the
    /// document. The name stands at the root and enters no scope. A name
    /// too long for the dialect is refused; the tag is written even so.
    pub fn begin_root(&mut self, header: &str, tag: TypeId) -> (result: Result<(), Error>)
        ensures
            match result {
                Ok(()) => encode_chars(header@).len() <= old(self).dialect().str_len_max() && final(self).wrote(old(self), seq![tag.code()] + str_bytes(old(self).dialect(), header@)),
                Err(error) => encode_chars(header@).len() > old(self).dialect().str_len_max()
                    && is_str_overflow(error, old(self).dialect(), old(self).path()) && final(self).failed(old(self), seq![tag.code()]),
            },
    {
        self.emitter.emit_header_id(&mut self.writer, tag);
        match self.emitter.emit_str(&mut self.writer, header) {
            Ok(()) => {
                proof {
                    assert(self.written() =~= old(self).written() + (seq![tag.code()] + str_bytes(
                        self.dialect(),
                        header@,
                    )));
                }
                Ok(())
            },
            Err(error) => Err(error.attach_path(&mut self.path)),
        }
    }

    /// Writes a boolean.
    pub fn serialize_bool(&mut self, value: bool)
        ensures
            final(self).wrote(old(self), seq![crate::value::Byte::Boolean(value).value() as u8]),
    {
        self.emitter.emit_bool(&mut self.writer, value);
    }

    /// Writes an 8-bit integer.
    pub fn serialize_i8(&mut self, value: i8)
        ensures
            final(self).wrote(old(self), seq![value as u8]),
    {
        self.emitter.emit_i8(&mut self.writer, value);
    }

    /// Writes a 16-bit integer.
    pub fn serialize_i16(&mut self, value: i16)
        ensures
            final(self).wrote(old(self), old(self).dialect().i16_bytes(value)),
    {
        self.emitter.emit_i16(&mut self.writer, value);
    }

    /// Writes a 32-bit integer.
    pub fn serialize_i32(&mut self, value: i32)
        ensures
            final(self).wrote(old(self), old(self).dialect().i32_bytes(value)),
    {
        self.emitter.emit_i32(&mut self.writer, value);
    }

    /// Writes a 64-bit integer.
    pub fn serialize_i64(&mut self, value: i64)
        ensures
            final(self).wrote(old(self), old(self).dialect().i64_bytes(value)),
    {
        self.emitter.emit_i64(&mut self.writer, value);
    }

    /// Writes a 32-bit float, given by its bits.
    pub fn serialize_f32(&mut self, bits: u32)
        ensures
            final(self).wrote(old(self), old(self).dialect().f32_bytes(bits)),
    {
        self.emitter.emit_f32(&mut self.writer, bits);
    }

    /// Writes a 64-bit float, given by its bits.
    pub fn serialize_f64(&mut self, bits: u64)
        ensures
            final(self).wrote(old(self), old(self).dialect().f64_bytes(bits)),
    {
        self.emitter.emit_f64(&mut self.writer, bits);
    }

    /// Writes a string. One that is too long for the dialect is refused:
    /// nothing is written, and the error carries the path.
    pub fn serialize_str(&mut self, value: &str) -> (result: Result<(), Error>)
        ensures
            match result {
                Ok(()) => encode_chars(value@).len() <= old(self).dialect().str_len_max() && final(self).wrote(old(self), str_bytes(old(self).dialect(), value@)),
                Err(error) => encode_chars(value@).len() > old(self).dialect().str_len_max()
                    && is_str_overflow(error, old(self).dialect(), old(self).path()) && final(self).failed(old(self), Seq::empty()),
            },
    {
        proof {
            assert(self.written() + Seq::<u8>::empty() =~= self.written());
        }
        match self.emitter.emit_str(&mut self.writer, value) {
            Ok(()) => Ok(()),
            Err(error) => Err(error.attach_path(&mut self.path)),
        }
    }

    /// Opens a sequence: writes the element tag of a list, then the count.
    /// A sequence that cannot be opened is refused with the path; the
    /// element tag of a list is written even so.
    pub fn begin_seq(&mut self, kind: SeqKind, len: Option<usize>) -> (result: Result<(), Error>)
        ensures
            match result {
                Ok(()) => seq_fits(old(self).dialect(), len) && final(self).wrote(
                    old(self),
                    seq_header(kind) + old(self).dialect().seq_len_bytes(len->0 as nat),
                ),
                Err(error) => !seq_fits(old(self).dialect(), len) && is_seq_refusal(
                    error,
                    old(self).dialect(),
                    len,
                    old(self).path(),
                ) && final(self).failed(old(self), seq_header(kind)),
            },
    {
        match self.emitter.begin_seq(&mut self.writer, kind, len) {
            Ok(()) => {
                proof {
                    assert(self.written() =~= old(self).written() + (seq_header(kind)
                        + self.dialect().seq_len_bytes(len->0 as nat)));
                }
                Ok(())
            },
            Err(error) => Err(error.attach_path(&mut self.path)),
        }
    }

    /// Closes a sequence: nothing is written.
    pub fn end_seq(&mut self)
        ensures
            final(self).wrote(old(self), Seq::empty()),
    {
        self.emitter.end_seq(&mut self.writer);
        proof {
            assert(self.written() + Seq::<u8>::empty() =~= self.written());
        }
    }

    /// Opens a map: nothing is written.
    pub fn begin_map(&mut self)
        ensures
            final(self).wrote(old(self), Seq::empty()),
    {
        self.emitter.begin_map(&mut self.writer);
        proof {
            assert(self.written() + Seq::<u8>::empty() =~= self.written());
        }
    }

    /// Closes a map: writes the `End` tag.
    pub fn end_map(&mut self)
        ensures
            final(self).wrote(old(self), seq![0u8]),
    {
        self.emitter.end_map(&mut self.writer);
    }

    /// Opens an entry whose value is of the given kind, which a probe of the
    /// value has found out: enters the scope of the key, then writes the tag
    /// and the key. Only then may the value be written. A key too long
    /// for the dialect is refused; the tag is written even so.
    pub fn begin_entry(&mut self, key: &str, kind: Type) -> (result: Result<(), Error>)
        ensures
            match result {
                Ok(()) => encode_chars(key@).len() <= old(self).dialect().str_len_max() && final(self).appended(old(self), seq![kind.id().code()] + str_bytes(old(self).dialect(), key@))
                    && final(self).path() == old(self).path().push(SegmentView::Identifier(key@)),
                Err(error) => encode_chars(key@).len() > old(self).dialect().str_len_max()
                    && is_str_overflow(
                    error,
                    old(self).dialect(),
                    old(self).path().push(SegmentView::Identifier(key@)),
                ) && final(self).failed(old(self), seq![kind.id().code()]),
            },
    {
        self.path.enter_scope(key.to_owned());
        self.emitter.before_key(&mut self.writer, kind);
        match self.emitter.emit_key(&mut self.writer, key) {
            Ok(()) => {
                proof {
                    assert(self.written() =~= old(self).written() + (seq![kind.id().code()]
                        + str_bytes(self.dialect(), key@)));
                }
                Ok(())
            },
            Err(error) => Err(error.attach_path(&mut self.path)),
        }
    }

    /// Closes the entry that [`Serializer::begin_entry`] opened: leaves the
    /// scope of its key.
    pub fn end_entry(&mut self)
        requires
            old(self).path().len() > 0,
            old(self).path().last() is Identifier,
        ensures
            final(self).appended(old(self), Seq::empty()),
            final(self).path() == old(self).path().drop_last(),
    {
        let _ = self.path.leave_scope();
        proof {
            assert(self.written() + Seq::<u8>::empty() =~= self.written());
        }
    }

    /// Opens a variant: a map of one entry, whose key is the name of the
    /// variant and whose value is of the given kind. The map is a level of
    /// its own.
    pub fn begin_variant(&mut self, variant: &str, hint: Type) -> (result: Result<(), Error>)
        ensures
            match result {
                Ok(()) => encode_chars(variant@).len() <= old(self).dialect().str_len_max()
                    && old(self).depth() > 0 && final(self).dialect() == old(self).dialect()
                    && final(self).depth() == old(self).depth() - 1 && final(self).written() == old(self).written() + (seq![hint.id().code()] + str_bytes(old(self).dialect(), variant@))
                    && final(self).path() == old(self).path().push(
                    SegmentView::Identifier(variant@),
                ),
                Err(error) => if old(self).depth() == 0 {
                    is_depth_refusal(error, old(self).path()) && final(self).failed(
                        old(self),
                        Seq::empty(),
                    )
                } else {
                    encode_chars(variant@).len() > old(self).dialect().str_len_max()
                        && is_str_overflow(
                        error,
                        old(self).dialect(),
                        old(self).path().push(SegmentView::Identifier(variant@)),
                    ) && final(self).failed(old(self), seq![hint.id().code()])
                },
            },
    {
        match self.enter() {
            Ok(()) => {},
            Err(error) => {
                return Err(error);
            },
        }
        proof {
            assert(old(self).written() + Seq::<u8>::empty() =~= old(self).written());
        }
        self.emitter.begin_map(&mut self.writer);
        self.begin_entry(variant, hint)
    }

    /// Closes the variant that [`Serializer::begin_variant`] opened: leaves
    /// the scope of its name and writes the `End` tag of its map.
    pub fn end_variant(&mut self)
        requires
            old(self).path().len() > 0,
            old(self).path().last() is Identifier,
            old(self).depth() < usize::MAX,
        ensures
            final(self).left(old(self), seq![0u8]),
            final(self).path() == old(self).path().drop_last(),
    {
        let _ = self.path.leave_scope();
        self.emitter.end_map(&mut self.writer);
        self.depth = self.depth + 1;
    }
}

/// The state of one sequence that is being written.
pub struct SeqSerializer {
    brand: Option<ArrayBrand>,
    len: Option<usize>,
    expected: Option<Type>,
    index: usize,
}

impl SeqSerializer {
    /// The brand of the sequence, if it is an array.
    pub closed spec fn brand(&self) -> Option<ArrayBrand> {
        self.brand
    }

    /// The number of elements that the producer announced.
    pub closed spec fn len(&self) -> Option<usize> {
        self.len
    }

    /// The kind that every element must have, once it is known.
    pub closed spec fn expected(&self) -> Option<Type> {
        self.expected
    }

    /// How many elements were written.
    pub closed spec fn index(&self) -> usize {
        self.index
    }

    /// True when the header of the sequence has been written: at once for
    /// an array, with the first element for a list.
    pub open spec fn opened(&self) -> bool {
        self.brand() is Some || self.index() > 0
    }

    /// How many elements were written.
    pub fn count(&self) -> (count: usize)
        ensures
            count == self.index(),
    {
        self.index
    }

    /// Starts a sequence, which is a level of its own. The header of an
    /// array is written at once: the kind of its elements is known
    /// beforehand. The header of a list must wait for the first element to
    /// tell the kind.
    pub fn new<E: Encode>(serializer: &mut Serializer<E>, brand: Option<ArrayBrand>, len: Option<usize>)
        -> (result: Result<SeqSerializer, Error>)
        ensures
            match result {
                Ok(seq) => seq.brand() == brand && seq.len() == len && seq.index() == 0 && (
                match brand {
                    Some(b) => seq.expected() == Some(
                        match b {
                            ArrayBrand::Byte => Type::Byte,
                            ArrayBrand::Int => Type::Int,
                            ArrayBrand::Long => Type::Long,
                        },
                    ) && seq_fits(old(serializer).dialect(), len) && final(serializer).entered(
                        old(serializer),
                        old(serializer).dialect().seq_len_bytes(len->0 as nat),
                    ),
                    None => seq.expected() is None && final(serializer).entered(
                        old(serializer),
                        Seq::empty(),
                    ),
                }),
                Err(error) => final(serializer).failed(old(serializer), Seq::empty()) && if old(serializer).depth() == 0 {
                    is_depth_refusal(error, old(serializer).path())
                } else {
                    brand is Some && !seq_fits(old(serializer).dialect(), len) && is_seq_refusal(
                        error,
                        old(serializer).dialect(),
                        len,
                        old(serializer).path(),
                    )
                },
            },
    {
        proof {
            assert(serializer.written() + Seq::<u8>::empty() =~= serializer.written());
        }
        match serializer.enter() {
            Ok(()) => {},
            Err(error) => {
                return Err(error);
            },
        }
        let expected = match brand {
            Some(brand) => {
                match serializer.begin_seq(brand.to_seq_kind(), len) {
                    Ok(()) => {},
                    Err(error) => {
                        return Err(error);
                    },
                }
                proof {
                    assert(seq_header(brand.seq_kind()) + serializer.dialect().seq_len_bytes(
                        len->0 as nat,
                    ) =~= serializer.dialect().seq_len_bytes(len->0 as nat));
                }
                Some(brand.element_kind())
            },
            None => None,
        };
        Ok(SeqSerializer { brand, len, expected, index: 0 })
    }

    /// Admits the next element, whose kind a probe of it has found out,
    /// and enters it. An element of another kind than the sequence is
    /// refused with both kinds and the path of the element. The first
    /// element of a list fixes the kind of the list: the header of the list
    /// is written now, before any byte of the element.
    pub fn begin_element<E: Encode>(&mut self, serializer: &mut Serializer<E>, actual: Type) -> (result:
        Result<(), Error>)
        ensures
            match result {
                Ok(()) => {
                    &&& old(self).expected() matches Some(e) ==> e == actual
                    &&& final(self).brand() == old(self).brand()
                    &&& final(self).len() == old(self).len()
                    &&& final(self).index() == old(self).index()
                    &&& final(self).expected() == Some(actual)
                    &&& final(serializer).path() == old(serializer).path().push(
                        SegmentView::Index(old(self).index()),
                    )
                    &&& if old(self).index() == 0 && old(self).brand() is None {
                        seq_fits(old(serializer).dialect(), old(self).len()) && final(serializer).appended(
                            old(serializer),
                            seq![actual.id().code()] + old(serializer).dialect().seq_len_bytes(
                                old(self).len()->0 as nat,
                            ),
                        )
                    } else {
                        final(serializer).appended(old(serializer), Seq::empty())
                    }
                },
                Err(error) => {
                    &&& final(serializer).path() == Seq::<SegmentView>::empty()
                    &&& final(serializer).dialect() == old(serializer).dialect()
                    &&& match old(self).expected() {
                        Some(e) if e != actual => error.has(
                            Category::InvalidInput,
                            invalid_seq_message(actual.id(), e.id()),
                            PositionView::Path(
                                old(serializer).path().push(SegmentView::Index(old(self).index())),
                            ),
                        ) && final(serializer).written() == old(serializer).written(),
                        _ => old(self).index() == 0 && old(self).brand() is None && !seq_fits(
                            old(serializer).dialect(),
                            old(self).len(),
                        ) && is_seq_refusal(
                            error,
                            old(serializer).dialect(),
                            old(self).len(),
                            old(serializer).path(),
                        ) && final(serializer).written() == old(serializer).written() + seq![
                            actual.id().code(),
                        ],
                    }
                },
            },
    {
        let ghost base = serializer.path();
        proof {
            assert(serializer.written() + Seq::<u8>::empty() =~= serializer.written());
        }
        if let Some(expected) = self.expected {
            if actual != expected {
                serializer.path.enter_element(self.index);
                return Err(Error::invalid_seq(actual.to_id(), expected.to_id(), &mut serializer.path));
            }
        }
        if self.index == 0 && self.brand.is_none() {
            match serializer.begin_seq(SeqKind::List(actual.to_id()), self.len) {
                Ok(()) => {},
                Err(error) => {
                    return Err(error);
                },
            }
        }
        serializer.path.enter_element(self.index);
        self.expected = Some(actual);
        Ok(())
    }

    /// Leaves the element that [`SeqSerializer::begin_element`] entered and
    /// counts it.
    pub fn end_element<E: Encode>(&mut self, serializer: &mut Serializer<E>)
        requires
            old(serializer).path().len() > 0,
            old(serializer).path().last() is Index,
            old(self).index() < usize::MAX,
        ensures
            final(serializer).appended(old(serializer), Seq::empty()),
            final(serializer).path() == old(serializer).path().drop_last(),
            final(self).index() == old(self).index() + 1,
            final(self).brand() == old(self).brand(),
            final(self).len() == old(self).len(),
            final(self).expected() == old(self).expected(),
    {
        let _ = serializer.path.leave_element();
        self.index = self.index + 1;
        proof {
            assert(serializer.written() + Seq::<u8>::empty() =~= serializer.written());
        }
    }

    /// Ends the sequence and leaves its level. A list that had no element
    /// has no header yet: it is written now, as a list of no elements of
    /// the tag `End`.
    pub fn end<E: Encode>(self, serializer: &mut Serializer<E>)
        requires
            old(serializer).depth() < usize::MAX,
        ensures
            final(serializer).left(
                old(serializer),
                if self.opened() {
                    Seq::<u8>::empty()
                } else {
                    seq![0u8] + old(serializer).dialect().seq_len_bytes(0)
                },
            ),
            final(serializer).path() == old(serializer).path(),
    {
        proof {
            assert(serializer.written() + Seq::<u8>::empty() =~= serializer.written());
        }
        if self.index == 0 && self.brand.is_none() {
            let opened = serializer.begin_seq(SeqKind::List(TypeId::End), Some(0));
            proof {
                assert(seq_fits(serializer.dialect(), Some(0usize)));
            }
            match opened {
                Ok(()) => {},
                Err(_) => {},
            }
        }
        serializer.end_seq();
        proof {
            assert(serializer.written() + Seq::<u8>::empty() =~= serializer.written());
        }
        serializer.leave();
    }
}

/// The state of one map that is being written.
pub struct MapSerializer {
    cached: Option<String>,
}

impl MapSerializer {
    /// The key that waits for its value.
    pub closed spec fn cached(&self) -> Option<Seq<char>> {
        match self.cached {
            Some(key) => Some(key@),
            None => None,
        }
    }

    /// The key that waits for its value.
    pub fn key(&self) -> (key: Option<&String>)
        ensures
            match key {
                Some(key) => self.cached() == Some(key@),
                None => self.cached() is None,
            },
    {
        self.cached.as_ref()
    }

    /// True when a key waits for its value.
    pub fn has_key(&self) -> (waiting: bool)
        ensures
            waiting == (self.cached() is Some),
    {
        self.cached.is_some()
    }

    /// Starts a map, which is a level of its own: a compound has no
    /// header.
    pub fn new<E: Encode>(serializer: &mut Serializer<E>) -> (result: Result<MapSerializer, Error>)
        ensures
            match result {
                Ok(map) => map.cached() is None && final(serializer).entered(
                    old(serializer),
                    Seq::empty(),
                ),
                Err(error) => old(serializer).depth() == 0 && is_depth_refusal(
                    error,
                    old(serializer).path(),
                ) && final(serializer).failed(old(serializer), Seq::empty()),
            },
    {
        match serializer.enter() {
            Ok(()) => {},
            Err(error) => {
                return Err(error);
            },
        }
        serializer.begin_map();
        proof {
            assert(old(serializer).written() + Seq::<u8>::empty() + Seq::<u8>::empty() =~= old(serializer).written() + Seq::<u8>::empty());
        }
        Ok(MapSerializer { cached: None })
    }

    /// Keeps a key until its value comes: nothing of an entry can be
    /// written before the kind of its value is known.
    pub fn serialize_key(&mut self, key: String)
        ensures
            final(self).cached() == Some(key@),
    {
        self.cached = Some(key);
    }

    /// Opens the entry of the key that was kept, for a value of the given
    /// kind, which a probe of the value has found out.
    pub fn begin_value<E: Encode>(&mut self, serializer: &mut Serializer<E>, kind: Type) -> (result:
        Result<(), Error>)
        requires
            old(self).cached() is Some,
        ensures
            final(self).cached() is None,
            match result {
                Ok(()) => encode_chars(old(self).cached()->0).len() <= old(serializer).dialect().str_len_max() && final(serializer).appended(
                    old(serializer),
                    seq![kind.id().code()] + str_bytes(
                        old(serializer).dialect(),
                        old(self).cached()->0,
                    ),
                ) && final(serializer).path() == old(serializer).path().push(
                    SegmentView::Identifier(old(self).cached()->0),
                ),
                Err(error) => encode_chars(old(self).cached()->0).len() > old(serializer).dialect().str_len_max() && is_str_overflow(
                    error,
                    old(serializer).dialect(),
                    old(serializer).path().push(SegmentView::Identifier(old(self).cached()->0)),
                ) && final(serializer).failed(old(serializer), seq![kind.id().code()]),
            },
    {
        let key = match self.cached.take() {
            Some(key) => key,
            None => String::new(),
        };
        serializer.begin_entry(key.as_str(), kind)
    }

    /// Closes the entry that [`MapSerializer::begin_value`] opened.
    pub fn end_value<E: Encode>(&mut self, serializer: &mut Serializer<E>)
        requires
            old(serializer).path().len() > 0,
            old(serializer).path().last() is Identifier,
        ensures
            final(self).cached() == old(self).cached(),
            final(serializer).appended(old(serializer), Seq::empty()),
            final(serializer).path() == old(serializer).path().drop_last(),
    {
        serializer.end_entry();
    }

    /// Ends the map and leaves its level: writes the `End` tag.
    pub fn end<E: Encode>(self, serializer: &mut Serializer<E>)
        requires
            old(serializer).depth() < usize::MAX,
        ensures
            final(serializer).left(old(serializer), seq![0u8]),
            final(serializer).path() == old(serializer).path(),
    {
        serializer.end_map();
        serializer.leave();
        proof {
            assert(old(serializer).written() + seq![0u8] + Seq::<u8>::empty() =~= old(serializer).written() + seq![0u8]);
        }
    }
}

} // verus!
