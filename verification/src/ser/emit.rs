//! The contract between a traversal and whatever gives a tree its form:
//! the hooks that the traversal calls, and what each must do.

use crate::binary::format::str_bytes;
use crate::binary::mutf8::encode_chars;
use crate::binary::ser::{seq_header, BinaryEmitter, Encode};
use crate::error::Error;
use crate::util::SeqKind;
use crate::value::tag::{Type, TypeId};
use crate::value::Byte;
use vstd::prelude::*;

verus! {

/// One call of a hook, with what the traversal hands in.
pub enum Hook {
    HeaderId(TypeId),
    Bool(bool),
    I8(i8),
    I16(i16),
    I32(i32),
    I64(i64),
    /// A 32-bit float, by its bits.
    F32(u32),
    /// A 64-bit float, by its bits.
    F64(u64),
    Str(Seq<char>),
    BeginSeq(SeqKind, Option<usize>),
    BeforeElement,
    AfterElement,
    EndSeq,
    BeginMap,
    /// Before the key of an entry whose value is of the given kind, which
    /// a probe of the value has found out.
    BeforeKey(Type),
    Key(Seq<char>),
    AfterKey,
    BeforeValue,
    AfterValue,
    EndMap,
}

/// What gives a tree its form. A traversal calls the hooks in the order in
/// which it meets the pieces of a tree; an emitter appends to the output
/// what each piece is in its form.
///
/// Every hook obeys one rule, [`Emit::hooked`]: where the emitter takes the
/// call, it appends exactly the bytes that it says the call stands for;
/// where it does not, it fails, what was written before stays written, and
/// the error has no position, for the traversal to attach its path.
pub trait Emit: Sized {
    /// Whether the emitter, in the state it is in, takes the call.
    spec fn accepts(&self, hook: Hook) -> bool;

    /// The bytes that the emitter, in the state it is in, appends for the
    /// call.
    spec fn emitted(&self, hook: Hook) -> Seq<u8>;

    /// Whether the form is one for people to read.
    spec fn human_readable(&self) -> bool;

    /// The rule of every hook. A call that the emitter takes appends
    /// exactly the bytes that the emitter says it stands for. A call that
    /// it does not take fails: what was written before stays written, and
    /// the error has no position.
    open spec fn hooked(&self, hook: Hook, before: Seq<u8>, after: Seq<u8>, result: Result<(), Error>)
        -> bool {
        match result {
            Ok(()) => self.accepts(hook) && after == before + self.emitted(hook),
            Err(error) => !self.accepts(hook) && before.is_prefix_of(after)
                && error.position() is Nowhere,
        }
    }

    fn emit_header_id(&mut self, writer: &mut Vec<u8>, id: TypeId) -> (result: Result<(), Error>)
        ensures
            old(self).hooked(Hook::HeaderId(id), old(writer)@, final(writer)@, result),
    ;

    fn emit_bool(&mut self, writer: &mut Vec<u8>, value: bool) -> (result: Result<(), Error>)
        ensures
            old(self).hooked(Hook::Bool(value), old(writer)@, final(writer)@, result),
    ;

    fn emit_i8(&mut self, writer: &mut Vec<u8>, value: i8) -> (result: Result<(), Error>)
        ensures
            old(self).hooked(Hook::I8(value), old(writer)@, final(writer)@, result),
    ;

    fn emit_i16(&mut self, writer: &mut Vec<u8>, value: i16) -> (result: Result<(), Error>)
        ensures
            old(self).hooked(Hook::I16(value), old(writer)@, final(writer)@, result),
    ;

    fn emit_i32(&mut self, writer: &mut Vec<u8>, value: i32) -> (result: Result<(), Error>)
        ensures
            old(self).hooked(Hook::I32(value), old(writer)@, final(writer)@, result),
    ;

    fn emit_i64(&mut self, writer: &mut Vec<u8>, value: i64) -> (result: Result<(), Error>)
        ensures
            old(self).hooked(Hook::I64(value), old(writer)@, final(writer)@, result),
    ;

    fn emit_f32(&mut self, writer: &mut Vec<u8>, bits: u32) -> (result: Result<(), Error>)
        ensures
            old(self).hooked(Hook::F32(bits), old(writer)@, final(writer)@, result),
    ;

    fn emit_f64(&mut self, writer: &mut Vec<u8>, bits: u64) -> (result: Result<(), Error>)
        ensures
            old(self).hooked(Hook::F64(bits), old(writer)@, final(writer)@, result),
    ;

    fn emit_str(&mut self, writer: &mut Vec<u8>, value: &str) -> (result: Result<(), Error>)
        ensures
            old(self).hooked(Hook::Str(value@), old(writer)@, final(writer)@, result),
    ;

    fn begin_seq(&mut self, writer: &mut Vec<u8>, kind: SeqKind, len: Option<usize>) -> (result:
        Result<(), Error>)
        ensures
            old(self).hooked(Hook::BeginSeq(kind, len), old(writer)@, final(writer)@, result),
    ;

    fn before_element(&mut self, writer: &mut Vec<u8>) -> (result: Result<(), Error>)
        ensures
            old(self).hooked(Hook::BeforeElement, old(writer)@, final(writer)@, result),
    ;

    fn after_element(&mut self, writer: &mut Vec<u8>) -> (result: Result<(), Error>)
        ensures
            old(self).hooked(Hook::AfterElement, old(writer)@, final(writer)@, result),
    ;

    fn end_seq(&mut self, writer: &mut Vec<u8>) -> (result: Result<(), Error>)
        ensures
            old(self).hooked(Hook::EndSeq, old(writer)@, final(writer)@, result),
    ;

    fn begin_map(&mut self, writer: &mut Vec<u8>) -> (result: Result<(), Error>)
        ensures
            old(self).hooked(Hook::BeginMap, old(writer)@, final(writer)@, result),
    ;

    fn before_key(&mut self, writer: &mut Vec<u8>, hint: Type) -> (result: Result<(), Error>)
        ensures
            old(self).hooked(Hook::BeforeKey(hint), old(writer)@, final(writer)@, result),
    ;

    fn emit_key(&mut self, writer: &mut Vec<u8>, key: &str) -> (result: Result<(), Error>)
        ensures
            old(self).hooked(Hook::Key(key@), old(writer)@, final(writer)@, result),
    ;

    fn after_key(&mut self, writer: &mut Vec<u8>) -> (result: Result<(), Error>)
        ensures
            old(self).hooked(Hook::AfterKey, old(writer)@, final(writer)@, result),
    ;

    fn before_value(&mut self, writer: &mut Vec<u8>) -> (result: Result<(), Error>)
        ensures
            old(self).hooked(Hook::BeforeValue, old(writer)@, final(writer)@, result),
    ;

    fn after_value(&mut self, writer: &mut Vec<u8>) -> (result: Result<(), Error>)
        ensures
            old(self).hooked(Hook::AfterValue, old(writer)@, final(writer)@, result),
    ;

    fn end_map(&mut self, writer: &mut Vec<u8>) -> (result: Result<(), Error>)
        ensures
            old(self).hooked(Hook::EndMap, old(writer)@, final(writer)@, result),
    ;

    fn is_human_readable(&self) -> (readable: bool)
        ensures
            readable == self.human_readable(),
    ;
}

impl<E: Encode> Emit for BinaryEmitter<E> {
    /// The binary form takes every call but a string too long for the
    /// dialect to count and a sequence that it cannot open.
    open spec fn accepts(&self, hook: Hook) -> bool {
        match hook {
            Hook::Str(s) | Hook::Key(s) => encode_chars(s).len() <= self.dialect().str_len_max(),
            Hook::BeginSeq(_, len) => len matches Some(n) && n <= self.dialect().seq_len_max(),
            _ => true,
        }
    }

    /// The binary form of each piece: a tag is its code, a number is what
    /// the dialect writes for it, a string is its length and its encoding,
    /// a sequence opens with the element tag of a list and its count, an
    /// entry begins with the tag of its value, and a map ends with the
    /// `End` tag. Nothing else is written.
    open spec fn emitted(&self, hook: Hook) -> Seq<u8> {
        match hook {
            Hook::HeaderId(id) => seq![id.code()],
            Hook::Bool(value) => seq![Byte::Boolean(value).value() as u8],
            Hook::I8(value) => seq![value as u8],
            Hook::I16(value) => self.dialect().i16_bytes(value),
            Hook::I32(value) => self.dialect().i32_bytes(value),
            Hook::I64(value) => self.dialect().i64_bytes(value),
            Hook::F32(bits) => self.dialect().f32_bytes(bits),
            Hook::F64(bits) => self.dialect().f64_bytes(bits),
            Hook::Str(s) | Hook::Key(s) => str_bytes(self.dialect(), s),
            Hook::BeginSeq(kind, len) => seq_header(kind) + self.dialect().seq_len_bytes(
                len->0 as nat,
            ),
            Hook::BeforeKey(hint) => seq![hint.id().code()],
            Hook::EndMap => seq![0u8],
            _ => Seq::empty(),
        }
    }

    open spec fn human_readable(&self) -> bool {
        false
    }

    fn emit_header_id(&mut self, writer: &mut Vec<u8>, id: TypeId) -> (result: Result<(), Error>) {
        BinaryEmitter::emit_header_id(self, writer, id);
        Ok(())
    }

    fn emit_bool(&mut self, writer: &mut Vec<u8>, value: bool) -> (result: Result<(), Error>) {
        BinaryEmitter::emit_bool(self, writer, value);
        Ok(())
    }

    fn emit_i8(&mut self, writer: &mut Vec<u8>, value: i8) -> (result: Result<(), Error>) {
        BinaryEmitter::emit_i8(self, writer, value);
        Ok(())
    }

    fn emit_i16(&mut self, writer: &mut Vec<u8>, value: i16) -> (result: Result<(), Error>) {
        BinaryEmitter::emit_i16(self, writer, value);
        Ok(())
    }

    fn emit_i32(&mut self, writer: &mut Vec<u8>, value: i32) -> (result: Result<(), Error>) {
        BinaryEmitter::emit_i32(self, writer, value);
        Ok(())
    }

    fn emit_i64(&mut self, writer: &mut Vec<u8>, value: i64) -> (result: Result<(), Error>) {
        BinaryEmitter::emit_i64(self, writer, value);
        Ok(())
    }

    fn emit_f32(&mut self, writer: &mut Vec<u8>, bits: u32) -> (result: Result<(), Error>) {
        BinaryEmitter::emit_f32(self, writer, bits);
        Ok(())
    }

    fn emit_f64(&mut self, writer: &mut Vec<u8>, bits: u64) -> (result: Result<(), Error>) {
        BinaryEmitter::emit_f64(self, writer, bits);
        Ok(())
    }

    fn emit_str(&mut self, writer: &mut Vec<u8>, value: &str) -> (result: Result<(), Error>) {
        proof {
            assert(writer@.is_prefix_of(writer@));
        }
        BinaryEmitter::emit_str(self, writer, value)
    }

    fn begin_seq(&mut self, writer: &mut Vec<u8>, kind: SeqKind, len: Option<usize>) -> (result:
        Result<(), Error>) {
        let result = BinaryEmitter::begin_seq(self, writer, kind, len);
        proof {
            assert((old(writer)@ + seq_header(kind)).subrange(0, old(writer)@.len() as int)
                =~= old(writer)@);
            assert(old(writer)@ + seq_header(kind) + self.dialect().seq_len_bytes(len->0 as nat)
                =~= old(writer)@ + (seq_header(kind) + self.dialect().seq_len_bytes(
                len->0 as nat,
            )));
        }
        result
    }

    fn before_element(&mut self, writer: &mut Vec<u8>) -> (result: Result<(), Error>) {
        proof {
            assert(writer@ + Seq::<u8>::empty() =~= writer@);
        }
        Ok(())
    }

    fn after_element(&mut self, writer: &mut Vec<u8>) -> (result: Result<(), Error>) {
        proof {
            assert(writer@ + Seq::<u8>::empty() =~= writer@);
        }
        Ok(())
    }

    fn end_seq(&mut self, writer: &mut Vec<u8>) -> (result: Result<(), Error>) {
        proof {
            assert(writer@ + Seq::<u8>::empty() =~= writer@);
        }
        Ok(())
    }

    fn begin_map(&mut self, writer: &mut Vec<u8>) -> (result: Result<(), Error>) {
        proof {
            assert(writer@ + Seq::<u8>::empty() =~= writer@);
        }
        Ok(())
    }

    fn before_key(&mut self, writer: &mut Vec<u8>, hint: Type) -> (result: Result<(), Error>) {
        BinaryEmitter::before_key(self, writer, hint);
        Ok(())
    }

    fn emit_key(&mut self, writer: &mut Vec<u8>, key: &str) -> (result: Result<(), Error>) {
        proof {
            assert(writer@.is_prefix_of(writer@));
        }
        BinaryEmitter::emit_key(self, writer, key)
    }

    fn after_key(&mut self, writer: &mut Vec<u8>) -> (result: Result<(), Error>) {
        proof {
            assert(writer@ + Seq::<u8>::empty() =~= writer@);
        }
        Ok(())
    }

    fn before_value(&mut self, writer: &mut Vec<u8>) -> (result: Result<(), Error>) {
        proof {
            assert(writer@ + Seq::<u8>::empty() =~= writer@);
        }
        Ok(())
    }

    fn after_value(&mut self, writer: &mut Vec<u8>) -> (result: Result<(), Error>) {
        proof {
            assert(writer@ + Seq::<u8>::empty() =~= writer@);
        }
        Ok(())
    }

    fn end_map(&mut self, writer: &mut Vec<u8>) -> (result: Result<(), Error>) {
        BinaryEmitter::end_map(self, writer);
        Ok(())
    }

    fn is_human_readable(&self) -> (readable: bool) {
        false
    }
}

} // verus!
