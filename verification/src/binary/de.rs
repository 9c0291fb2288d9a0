//! Reading value trees in a binary dialect.

use super::dialect::Parsed;
use super::format::{
    failure, parse_document, RECURSION_LIMIT, parse_entries, parse_ints, parse_items, parse_leaf, parse_longs,
    parse_payload, parse_str, Decoded, Failure,
};
use super::mutf8;
use super::wire::{
    read_be16, read_be32, read_be64, read_le16, read_le32, read_le64, read_sleb, read_u8, read_uleb,
    unzigzag_u32, unzigzag_u64, Dialect,
};
use crate::error::{Category, Error, Path, Position, PositionView, SegmentView};
use crate::value::model::{put, Entries, ListView, ValueView};
use crate::value::tag::{Type, TypeId};
use crate::value::{bytes_view, Byte, Compound, List, Value};
use vstd::prelude::*;
use vstd::slice::slice_subrange;

verus! {

/// What a reading step promises: the outcome is the one that the format
/// gives the bytes from `pos` on. On success the item and the position
/// behind it are handed out; on failure, the category.
pub open spec fn read<T>(
    outcome: Parsed<T>,
    pos: usize,
    len: nat,
    result: Result<(T, usize), Category>,
) -> bool {
    match result {
        Ok((item, next)) => outcome == Ok::<(T, int), Category>((item, next - pos)) && pos <= next
            <= len,
        Err(category) => outcome == Err::<(T, int), Category>(category),
    }
}

/// Reads a 16-bit integer.
pub fn read_i16(d: Dialect, bytes: &[u8], pos: usize) -> (result: Result<(i16, usize), Category>)
    requires
        pos <= bytes@.len(),
    ensures
        read(d.parse_i16(bytes@.skip(pos as int)), pos, bytes@.len(), result),
{
    let total: usize = bytes.len();
    reveal(Dialect::parse_i16);
    let raw = match d {
        Dialect::BigEndian => read_be16(bytes, pos),
        _ => read_le16(bytes, pos),
    };
    match raw {
        Some(v) => Ok((#[verifier::truncate] (v as i16), pos + 2)),
        None => Err(Category::UnexpectedEof),
    }
}

/// Reads four bytes as an unsigned integer.
pub fn read_fixed32(d: Dialect, bytes: &[u8], pos: usize) -> (result: Result<(u32, usize), Category>)
    requires
        pos <= bytes@.len(),
    ensures
        read(d.parse_fixed32(bytes@.skip(pos as int)), pos, bytes@.len(), result),
{
    let total: usize = bytes.len();
    reveal(Dialect::parse_fixed32);
    let raw = match d {
        Dialect::BigEndian => read_be32(bytes, pos),
        _ => read_le32(bytes, pos),
    };
    match raw {
        Some(v) => Ok((v, pos + 4)),
        None => Err(Category::UnexpectedEof),
    }
}

/// Reads eight bytes as an unsigned integer.
pub fn read_fixed64(d: Dialect, bytes: &[u8], pos: usize) -> (result: Result<(u64, usize), Category>)
    requires
        pos <= bytes@.len(),
    ensures
        read(d.parse_fixed64(bytes@.skip(pos as int)), pos, bytes@.len(), result),
{
    let total: usize = bytes.len();
    reveal(Dialect::parse_fixed64);
    let raw = match d {
        Dialect::BigEndian => read_be64(bytes, pos),
        _ => read_le64(bytes, pos),
    };
    match raw {
        Some(v) => Ok((v, pos + 8)),
        None => Err(Category::UnexpectedEof),
    }
}

/// Reads a 32-bit integer.
pub fn read_i32(d: Dialect, bytes: &[u8], pos: usize) -> (result: Result<(i32, usize), Category>)
    requires
        pos <= bytes@.len(),
    ensures
        read(d.parse_i32(bytes@.skip(pos as int)), pos, bytes@.len(), result),
{
    let total: usize = bytes.len();
    reveal(Dialect::parse_i32);
    match d {
        Dialect::Varint => match read_uleb(bytes, pos, 5) {
            Ok((v, n)) => if v <= 0xFFFF_FFFF {
                Ok((unzigzag_u32(v as u32), pos + n))
            } else {
                Err(Category::InvalidData)
            },
            Err(category) => Err(category),
        },
        _ => match read_fixed32(d, bytes, pos) {
            Ok((v, next)) => Ok((#[verifier::truncate] (v as i32), next)),
            Err(category) => Err(category),
        },
    }
}

/// Reads a 64-bit integer.
pub fn read_i64(d: Dialect, bytes: &[u8], pos: usize) -> (result: Result<(i64, usize), Category>)
    requires
        pos <= bytes@.len(),
    ensures
        read(d.parse_i64(bytes@.skip(pos as int)), pos, bytes@.len(), result),
{
    let total: usize = bytes.len();
    reveal(Dialect::parse_i64);
    match d {
        Dialect::Varint => match read_uleb(bytes, pos, 10) {
            Ok((v, n)) => if v <= 0xFFFF_FFFF_FFFF_FFFF {
                Ok((unzigzag_u64(v as u64), pos + n))
            } else {
                Err(Category::InvalidData)
            },
            Err(category) => Err(category),
        },
        _ => match read_fixed64(d, bytes, pos) {
            Ok((v, next)) => Ok((#[verifier::truncate] (v as i64), next)),
            Err(category) => Err(category),
        },
    }
}

/// Reads the byte length of a string.
pub fn read_str_len(d: Dialect, bytes: &[u8], pos: usize) -> (result: Result<(usize, usize), Category>)
    requires
        pos <= bytes@.len(),
    ensures
        match result {
            Ok((len, next)) => d.parse_str_len(bytes@.skip(pos as int)) == Ok::<
                (nat, int),
                Category,
            >((len as nat, next - pos)) && pos <= next <= bytes@.len(),
            Err(category) => d.parse_str_len(bytes@.skip(pos as int)) == Err::<
                (nat, int),
                Category,
            >(category),
        },
{
    let total: usize = bytes.len();
    reveal(Dialect::parse_str_len);
    match d {
        Dialect::Varint => match read_sleb(bytes, pos, 5) {
            Ok((v, n)) => if 0 <= v && v <= 2147483647 {
                Ok((v as usize, pos + n))
            } else {
                Err(Category::InvalidData)
            },
            Err(category) => Err(category),
        },
        Dialect::BigEndian => match read_be16(bytes, pos) {
            Some(v) => Ok((v as usize, pos + 2)),
            None => Err(Category::UnexpectedEof),
        },
        Dialect::LittleEndian => match read_le16(bytes, pos) {
            Some(v) => Ok((v as usize, pos + 2)),
            None => Err(Category::UnexpectedEof),
        },
    }
}

/// Reads an element count.
pub fn read_seq_len(d: Dialect, bytes: &[u8], pos: usize) -> (result: Result<(usize, usize), Category>)
    requires
        pos <= bytes@.len(),
    ensures
        match result {
            Ok((len, next)) => d.parse_seq_len(bytes@.skip(pos as int)) == Ok::<
                (nat, int),
                Category,
            >((len as nat, next - pos)) && pos <= next <= bytes@.len(),
            Err(category) => d.parse_seq_len(bytes@.skip(pos as int)) == Err::<
                (nat, int),
                Category,
            >(category),
        },
{
    let total: usize = bytes.len();
    reveal(Dialect::parse_seq_len);
    match read_i32(d, bytes, pos) {
        Ok((v, next)) => if v >= 0 {
            Ok((v as usize, next))
        } else {
            Err(Category::InvalidData)
        },
        Err(category) => Err(category),
    }
}

/// Reads a string: its byte length, then that many bytes of Modified
/// UTF-8.
pub fn read_str(d: Dialect, bytes: &[u8], pos: usize) -> (result: Result<(String, usize), Category>)
    requires
        pos <= bytes@.len(),
    ensures
        match result {
            Ok((text, next)) => parse_str(d, bytes@.skip(pos as int)) == Ok::<
                (Seq<char>, int),
                Category,
            >((text@, next - pos)) && pos <= next <= bytes@.len(),
            Err(category) => parse_str(d, bytes@.skip(pos as int)) == Err::<
                (Seq<char>, int),
                Category,
            >(category),
        },
{
    let total: usize = bytes.len();
    reveal(parse_str);
    let (len, start) = match read_str_len(d, bytes, pos) {
        Ok(read) => read,
        Err(category) => {
            return Err(category);
        },
    };
    if bytes.len() - start < len {
        return Err(Category::UnexpectedEof);
    }
    let body = slice_subrange(bytes, start, start + len);
    proof {
        let s = bytes@.skip(pos as int);
        assert(s.subrange(start - pos, start - pos + len) =~= body@);
    }
    match mutf8::decode(body) {
        Ok(text) => Ok((text, start + len)),
        Err(_) => Err(Category::InvalidData),
    }
}

/// Reads `count` 32-bit integers.
pub fn read_ints(d: Dialect, bytes: &[u8], pos: usize, count: usize) -> (result: Result<
    (Vec<i32>, usize),
    Category,
>)
    requires
        pos <= bytes@.len(),
    ensures
        match result {
            Ok((a, next)) => parse_ints(d, bytes@.skip(pos as int), count as nat) == Ok::<
                (Seq<i32>, int),
                Category,
            >((a@, next - pos)) && pos <= next <= bytes@.len(),
            Err(category) => parse_ints(d, bytes@.skip(pos as int), count as nat) == Err::<
                (Seq<i32>, int),
                Category,
            >(category),
        },
{
    let total: usize = bytes.len();
    let mut a: Vec<i32> = Vec::new();
    let mut at: usize = pos;
    let mut i: usize = 0;
    let ghost s = bytes@.skip(pos as int);
    proof {
        assert(bytes@.skip(at as int) =~= s);
        match parse_ints(d, s, count as nat) {
            Ok((rest, m)) => {
                assert(a@ + rest =~= rest);
            },
            Err(_) => {},
        }
    }
    while i < count
        invariant
            i <= count,
            pos <= at <= bytes@.len(),
            s == bytes@.skip(pos as int),
            a@.len() == i,
            parse_ints(d, s, count as nat) == (match parse_ints(
                d,
                bytes@.skip(at as int),
                (count - i) as nat,
            ) {
                Ok((rest, m)) => Ok::<(Seq<i32>, int), Category>((a@ + rest, m + (at - pos))),
                Err(category) => Err::<(Seq<i32>, int), Category>(category),
            }),
        decreases count - i,
    {
        let ghost before = a@;
        let (x, next) = match read_i32(d, bytes, at) {
            Ok(read) => read,
            Err(category) => {
                return Err(category);
            },
        };
        a.push(x);
        proof {
            assert(bytes@.skip(at as int).skip(next - at) =~= bytes@.skip(next as int));
            match parse_ints(d, bytes@.skip(next as int), (count - i - 1) as nat) {
                Ok((rest, m)) => {
                    assert(before + (seq![x] + rest) =~= a@ + rest);
                },
                Err(_) => {},
            }
        }
        at = next;
        i += 1;
    }
    proof {
        assert(a@ + Seq::<i32>::empty() =~= a@);
    }
    Ok((a, at))
}

/// Reads `count` 64-bit integers.
pub fn read_longs(d: Dialect, bytes: &[u8], pos: usize, count: usize) -> (result: Result<
    (Vec<i64>, usize),
    Category,
>)
    requires
        pos <= bytes@.len(),
    ensures
        match result {
            Ok((a, next)) => parse_longs(d, bytes@.skip(pos as int), count as nat) == Ok::<
                (Seq<i64>, int),
                Category,
            >((a@, next - pos)) && pos <= next <= bytes@.len(),
            Err(category) => parse_longs(d, bytes@.skip(pos as int), count as nat) == Err::<
                (Seq<i64>, int),
                Category,
            >(category),
        },
{
    let total: usize = bytes.len();
    let mut a: Vec<i64> = Vec::new();
    let mut at: usize = pos;
    let mut i: usize = 0;
    let ghost s = bytes@.skip(pos as int);
    proof {
        assert(bytes@.skip(at as int) =~= s);
        match parse_longs(d, s, count as nat) {
            Ok((rest, m)) => {
                assert(a@ + rest =~= rest);
            },
            Err(_) => {},
        }
    }
    while i < count
        invariant
            i <= count,
            pos <= at <= bytes@.len(),
            s == bytes@.skip(pos as int),
            a@.len() == i,
            parse_longs(d, s, count as nat) == (match parse_longs(
                d,
                bytes@.skip(at as int),
                (count - i) as nat,
            ) {
                Ok((rest, m)) => Ok::<(Seq<i64>, int), Category>((a@ + rest, m + (at - pos))),
                Err(category) => Err::<(Seq<i64>, int), Category>(category),
            }),
        decreases count - i,
    {
        let ghost before = a@;
        let (x, next) = match read_i64(d, bytes, at) {
            Ok(read) => read,
            Err(category) => {
                return Err(category);
            },
        };
        a.push(x);
        proof {
            assert(bytes@.skip(at as int).skip(next - at) =~= bytes@.skip(next as int));
            match parse_longs(d, bytes@.skip(next as int), (count - i - 1) as nat) {
                Ok((rest, m)) => {
                    assert(before + (seq![x] + rest) =~= a@ + rest);
                },
                Err(_) => {},
            }
        }
        at = next;
        i += 1;
    }
    proof {
        assert(a@ + Seq::<i64>::empty() =~= a@);
    }
    Ok((a, at))
}

/// Reads an array of bytes: the count, then one byte each.
pub fn read_byte_array(d: Dialect, bytes: &[u8], pos: usize) -> (result: Result<
    (Vec<Byte>, usize),
    Category,
>)
    requires
        pos <= bytes@.len(),
    ensures
        match result {
            Ok((a, next)) => parse_leaf(d, TypeId::ByteArray, bytes@.skip(pos as int)) == Ok::<
                (ValueView, int),
                Category,
            >((ValueView::ByteArray(bytes_view(a@)), next - pos)) && pos <= next <= bytes@.len(),
            Err(category) => parse_leaf(d, TypeId::ByteArray, bytes@.skip(pos as int)) == Err::<
                (ValueView, int),
                Category,
            >(category),
        },
{
    let total: usize = bytes.len();
    reveal(parse_leaf);
    let (count, start) = match read_seq_len(d, bytes, pos) {
        Ok(read) => read,
        Err(category) => {
            return Err(category);
        },
    };
    if bytes.len() - start < count {
        return Err(Category::UnexpectedEof);
    }
    let mut a: Vec<Byte> = Vec::new();
    let mut i: usize = 0;
    while i < count
        invariant
            i <= count,
            start + count <= bytes@.len(),
            bytes@.len() <= usize::MAX,
            a@.len() == i,
            forall|j: int| 0 <= j < i ==> (#[trigger] a@[j]).value() == bytes@[start + j] as i8,
        decreases count - i,
    {
        a.push(Byte::Integer(#[verifier::truncate] (bytes[start + i] as i8)));
        i += 1;
    }
    proof {
        let s = bytes@.skip(pos as int);
        let n = start - pos;
        assert(bytes_view(a@) =~= Seq::new(count as nat, |i: int| s[n + i] as i8));
    }
    Ok((a, start + count))
}

/// Reads the payload of a value that holds no other value.
pub fn decode_leaf(d: Dialect, tag: TypeId, bytes: &[u8], pos: usize) -> (result: Result<
    (Value, usize),
    Category,
>)
    requires
        pos <= bytes@.len(),
    ensures
        match result {
            Ok((value, next)) => parse_leaf(d, tag, bytes@.skip(pos as int)) == Ok::<
                (ValueView, int),
                Category,
            >((value@, next - pos)) && pos <= next <= bytes@.len(),
            Err(category) => parse_leaf(d, tag, bytes@.skip(pos as int)) == Err::<
                (ValueView, int),
                Category,
            >(category),
        },
{
    let total: usize = bytes.len();
    proof {
        reveal(parse_leaf);
        reveal(Dialect::parse_f32);
        reveal(Dialect::parse_f64);
    }
    match tag {
        TypeId::Byte => match read_u8(bytes, pos) {
            Some(byte) => {
                proof {
                    assert(bytes@.skip(pos as int)[0] == byte);
                }
                Ok((Value::Byte(Byte::Integer(#[verifier::truncate] (byte as i8))), pos + 1))
            },
            None => Err(Category::UnexpectedEof),
        },
        TypeId::Short => match read_i16(d, bytes, pos) {
            Ok((x, next)) => Ok((Value::Short(x), next)),
            Err(category) => Err(category),
        },
        TypeId::Int => match read_i32(d, bytes, pos) {
            Ok((x, next)) => Ok((Value::Int(x), next)),
            Err(category) => Err(category),
        },
        TypeId::Long => match read_i64(d, bytes, pos) {
            Ok((x, next)) => Ok((Value::Long(x), next)),
            Err(category) => Err(category),
        },
        TypeId::Float => match read_fixed32(d, bytes, pos) {
            Ok((x, next)) => Ok((Value::Float(x), next)),
            Err(category) => Err(category),
        },
        TypeId::Double => match read_fixed64(d, bytes, pos) {
            Ok((x, next)) => Ok((Value::Double(x), next)),
            Err(category) => Err(category),
        },
        TypeId::ByteArray => match read_byte_array(d, bytes, pos) {
            Ok((a, next)) => Ok((Value::ByteArray(a), next)),
            Err(category) => Err(category),
        },
        TypeId::String => match read_str(d, bytes, pos) {
            Ok((text, next)) => Ok((Value::String(text), next)),
            Err(category) => Err(category),
        },
        TypeId::IntArray => {
            let (count, start) = match read_seq_len(d, bytes, pos) {
                Ok(read) => read,
                Err(category) => {
                    return Err(category);
                },
            };
            proof {
                assert(bytes@.skip(pos as int).skip(start - pos) =~= bytes@.skip(start as int));
            }
            match read_ints(d, bytes, start, count) {
                Ok((a, next)) => Ok((Value::IntArray(a), next)),
                Err(category) => Err(category),
            }
        },
        TypeId::LongArray => {
            let (count, start) = match read_seq_len(d, bytes, pos) {
                Ok(read) => read,
                Err(category) => {
                    return Err(category);
                },
            };
            proof {
                assert(bytes@.skip(pos as int).skip(start - pos) =~= bytes@.skip(start as int));
            }
            match read_longs(d, bytes, start, count) {
                Ok((a, next)) => Ok((Value::LongArray(a), next)),
                Err(category) => Err(category),
            }
        },
        _ => Err(Category::InvalidData),
    }
}

/// A value that was read has the tag that it was read for.
pub proof fn lemma_parse_tag(d: Dialect, tag: TypeId, s: Seq<u8>, depth: nat, path: Seq<SegmentView>)
    ensures
        parse_payload(d, tag, s, depth, path) matches Ok((v, n)) ==> v.tag() == tag,
{
    reveal(parse_leaf);
}

/// The message of the error of each category that reading fails with.
pub open spec fn failure_message(category: Category) -> Seq<char> {
    match category {
        Category::UnexpectedEof => "unexpected end of input"@,
        Category::RecursionLimitExceeded => "recursion limit exceeded"@,
        _ => "invalid data"@,
    }
}

/// True when the error reports the failure: it has its category, the
/// message of that category, and its path as its position.
pub open spec fn reports(error: Error, failure: Failure) -> bool {
    error.has(
        failure.category,
        failure_message(failure.category),
        PositionView::Path(failure.path),
    )
}

/// The error of the given category at the path, which is drained.
fn fail(category: Category, path: &mut Path) -> (error: Error)
    ensures
        reports(error, Failure { category, path: old(path)@ }),
        final(path)@ == Seq::<SegmentView>::empty(),
{
    let message = match category {
        Category::UnexpectedEof => "unexpected end of input",
        Category::RecursionLimitExceeded => "recursion limit exceeded",
        _ => "invalid data",
    };
    Error::with_position(category, message.to_owned(), Position::Path(path.take()))
}

/// What reading a value promises: the outcome is the one that the format
/// gives the bytes from `pos` on. On success the value and the position
/// behind it are handed out and the path is as it was. On failure the
/// error reports the failure that the format gives: its category, and the
/// path at which the reader stood; the path was drained into the error.
pub open spec fn decoded(
    outcome: Decoded<ValueView>,
    pos: usize,
    len: nat,
    path_before: Seq<SegmentView>,
    path_after: Seq<SegmentView>,
    result: Result<(Value, usize), Error>,
) -> bool {
    match result {
        Ok((value, next)) => outcome == Ok::<(ValueView, int), Failure>((value@, next - pos))
            && pos <= next <= len && path_after == path_before,
        Err(error) => outcome matches Err(failure) && reports(error, failure) && path_after
            == Seq::<SegmentView>::empty(),
    }
}

/// Reads the payload of a value of the given tag. `depth` is how many
/// levels of lists and compounds may still be entered: a list or a
/// compound at depth `0` is refused, so that no input, however deep, can
/// exhaust the stack.
pub fn decode_payload(
    d: Dialect,
    tag: TypeId,
    bytes: &[u8],
    pos: usize,
    depth: usize,
    path: &mut Path,
) -> (result: Result<(Value, usize), Error>)
    requires
        pos <= bytes@.len(),
    ensures
        decoded(
            parse_payload(d, tag, bytes@.skip(pos as int), depth as nat, old(path)@),
            pos,
            bytes@.len(),
            old(path)@,
            final(path)@,
            result,
        ),
    decreases depth, 1nat,
{
    match tag {
        TypeId::List => match decode_list(d, bytes, pos, depth, path) {
            Ok((list, next)) => {
                return Ok((Value::List(list), next));
            },
            Err(error) => {
                return Err(error);
            },
        },
        TypeId::Compound => {
            if depth == 0 {
                return Err(fail(Category::RecursionLimitExceeded, path));
            }
            match decode_entries(d, bytes, pos, depth - 1, path) {
                Ok((compound, next)) => {
                    return Ok((Value::Compound(compound), next));
                },
                Err(error) => {
                    return Err(error);
                },
            }
        },
        _ => {
            match decode_leaf(d, tag, bytes, pos) {
                Ok((value, next)) => {
                    return Ok((value, next));
                },
                Err(category) => {
                    return Err(fail(category, path));
                },
            }
        },
    }
}

/// Reads the payload of a list: the tag of its elements, the element
/// count, and exactly that many payloads of that one tag.
pub fn decode_list(d: Dialect, bytes: &[u8], pos: usize, depth: usize, path: &mut Path) -> (result:
    Result<(List, usize), Error>)
    requires
        pos <= bytes@.len(),
    ensures
        match result {
            Ok((list, next)) => parse_payload(
                d,
                TypeId::List,
                bytes@.skip(pos as int),
                depth as nat,
                old(path)@,
            ) == Ok::<(ValueView, int), Failure>((ValueView::List(list@), next - pos)) && pos
                <= next <= bytes@.len() && final(path)@ == old(path)@,
            Err(error) => parse_payload(
                d,
                TypeId::List,
                bytes@.skip(pos as int),
                depth as nat,
                old(path)@,
            ) matches Err(failure) && reports(error, failure) && final(path)@ == Seq::<
                SegmentView,
            >::empty(),
        },
    decreases depth, 0nat,
{
    let total: usize = bytes.len();
    let ghost s = bytes@.skip(pos as int);
    let ghost base = path@;
    let code = match read_u8(bytes, pos) {
        Some(code) => code,
        None => {
            return Err(fail(Category::UnexpectedEof, path));
        },
    };
    proof {
        assert(s[0] == code);
        assert(s.skip(1) =~= bytes@.skip(pos + 1));
    }
    let elem = match TypeId::from_u8(code) {
        Some(elem) => elem,
        None => {
            return Err(fail(Category::InvalidData, path));
        },
    };
    let (count, start) = match read_seq_len(d, bytes, pos + 1) {
        Ok(read) => read,
        Err(category) => {
            return Err(fail(category, path));
        },
    };
    if elem == TypeId::End && count > 0 {
        return Err(fail(Category::InvalidData, path));
    }
    if depth == 0 {
        return Err(fail(Category::RecursionLimitExceeded, path));
    }
    let mut list = match elem.to_type() {
        Some(ty) => List::with_capacity_and_type(0, ty),
        None => List::Empty,
    };
    let ghost n = start - pos - 1;
    let ghost body = s.skip(1 + n);
    let ghost whole = parse_items(d, elem, body, count as nat, (depth - 1) as nat, base, 0);
    let mut at: usize = start;
    let mut i: usize = 0;
    proof {
        assert(body =~= bytes@.skip(start as int));
        assert(list@.items =~= Seq::<ValueView>::empty());
        match whole {
            Ok((rest, m)) => {
                assert(list@.items + rest =~= rest);
            },
            Err(_) => {},
        }
        assert(parse_payload(d, TypeId::List, s, depth as nat, base) == (match whole {
            Ok((items, m)) => Ok::<(ValueView, int), Failure>(
                (ValueView::List(ListView { elem, items }), 1 + n + m),
            ),
            Err(failure) => Err::<(ValueView, int), Failure>(failure),
        }));
    }
    while i < count
        invariant
            total == bytes@.len(),
            i <= count,
            depth > 0,
            start <= at <= bytes@.len(),
            start == pos + 1 + n,
            s == bytes@.skip(pos as int),
            body == bytes@.skip(start as int),
            path@ == base,
            base == old(path)@,
            whole == parse_items(d, elem, body, count as nat, (depth - 1) as nat, base, 0),
            parse_payload(d, TypeId::List, s, depth as nat, base) == (match whole {
                Ok((items, m)) => Ok::<(ValueView, int), Failure>(
                    (ValueView::List(ListView { elem, items }), 1 + n + m),
                ),
                Err(failure) => Err::<(ValueView, int), Failure>(failure),
            }),
            list@.elem == elem,
            list@.items.len() == i,
            whole == (match parse_items(
                d,
                elem,
                bytes@.skip(at as int),
                (count - i) as nat,
                (depth - 1) as nat,
                base,
                i as nat,
            ) {
                Ok((rest, m)) => Ok::<(Seq<ValueView>, int), Failure>(
                    (list@.items + rest, m + (at - start)),
                ),
                Err(failure) => Err::<(Seq<ValueView>, int), Failure>(failure),
            }),
        decreases count - i,
    {
        let ghost before = list@.items;
        path.enter_element(i);
        let (value, next) = match decode_payload(d, elem, bytes, at, depth - 1, path) {
            Ok(read) => read,
            Err(error) => {
                return Err(error);
            },
        };
        let _ = path.leave_element();
        proof {
            assert(path@ =~= base);
            lemma_parse_tag(
                d,
                elem,
                bytes@.skip(at as int),
                (depth - 1) as nat,
                base.push(SegmentView::Index(i)),
            );
            assert(bytes@.skip(at as int).skip(next - at) =~= bytes@.skip(next as int));
            match parse_items(
                d,
                elem,
                bytes@.skip(next as int),
                (count - i - 1) as nat,
                (depth - 1) as nat,
                base,
                (i + 1) as nat,
            ) {
                Ok((rest, m)) => {
                    assert(before + (seq![value@] + rest) =~= before.push(value@) + rest);
                },
                Err(_) => {},
            }
        }
        list.push(value);
        at = next;
        i += 1;
    }
    proof {
        assert(list@.items + Seq::<ValueView>::empty() =~= list@.items);
        assert(list@ == ListView { elem, items: list@.items });
    }
    Ok((list, at))
}

/// Reads the entries of a compound, up to and with the `End` tag that
/// closes it. No count is trusted: the entries end where the `End` tag
/// stands.
pub fn decode_entries(d: Dialect, bytes: &[u8], pos: usize, depth: usize, path: &mut Path) -> (result:
    Result<(Compound, usize), Error>)
    requires
        pos <= bytes@.len(),
    ensures
        match result {
            Ok((compound, next)) => parse_entries(
                d,
                bytes@.skip(pos as int),
                depth as nat,
                Seq::empty(),
                old(path)@,
            ) == Ok::<(Entries, int), Failure>((compound@, next - pos)) && pos <= next
                <= bytes@.len() && final(path)@ == old(path)@,
            Err(error) => parse_entries(
                d,
                bytes@.skip(pos as int),
                depth as nat,
                Seq::empty(),
                old(path)@,
            ) matches Err(failure) && reports(error, failure) && final(path)@ == Seq::<
                SegmentView,
            >::empty(),
        },
    decreases depth, 2nat,
{
    let total: usize = bytes.len();
    let ghost s = bytes@.skip(pos as int);
    let ghost base = path@;
    let ghost whole = parse_entries(d, s, depth as nat, Seq::empty(), base);
    let mut compound = Compound::new();
    let mut at: usize = pos;
    proof {
        assert(bytes@.skip(at as int) =~= s);
    }
    loop
        invariant
            total == bytes@.len(),
            pos <= at <= bytes@.len(),
            s == bytes@.skip(pos as int),
            path@ == base,
            base == old(path)@,
            whole == parse_entries(d, s, depth as nat, Seq::empty(), base),
            whole == (match parse_entries(d, bytes@.skip(at as int), depth as nat, compound@, base) {
                Ok((entries, m)) => Ok::<(Entries, int), Failure>((entries, m + (at - pos))),
                Err(failure) => Err::<(Entries, int), Failure>(failure),
            }),
        decreases bytes@.len() - at,
    {
        let ghost here = bytes@.skip(at as int);
        let code = match read_u8(bytes, at) {
            Some(code) => code,
            None => {
                return Err(fail(Category::UnexpectedEof, path));
            },
        };
        proof {
            assert(here[0] == code);
            assert(here.skip(1) =~= bytes@.skip(at + 1));
        }
        if code == 0 {
            return Ok((compound, at + 1));
        }
        let tag = match TypeId::from_u8(code) {
            Some(tag) => tag,
            None => {
                return Err(fail(Category::InvalidData, path));
            },
        };
        path.enter_unresolved();
        let (key, key_end) = match read_str(d, bytes, at + 1) {
            Ok(read) => read,
            Err(category) => {
                return Err(fail(category, path));
            },
        };
        path.leave_unresolved();
        proof {
            assert(path@ =~= base);
            assert(here.skip(1 + (key_end - at - 1)) =~= bytes@.skip(key_end as int));
        }
        path.enter_scope(key.clone());
        let (value, next) = match decode_payload(d, tag, bytes, key_end, depth, path) {
            Ok(read) => read,
            Err(error) => {
                return Err(error);
            },
        };
        let _ = path.leave_scope();
        proof {
            assert(path@ =~= base);
            assert(here.skip(1 + (key_end - at - 1) + (next - key_end)) =~= bytes@.skip(next as int));
        }
        let _ = compound.insert(key, value);
        at = next;
    }
}

/// What reading a document promises: on success, the name and the root
/// that the format gives the bytes; on failure, the error that reports
/// the failure that the format gives.
pub open spec fn decoded_document(
    outcome: Decoded<(Seq<char>, ValueView)>,
    result: Result<(String, Value), Error>,
) -> bool {
    match result {
        Ok((name, root)) => outcome matches Ok((read, _)) && read == (name@, root@),
        Err(error) => outcome matches Err(failure) && reports(error, failure),
    }
}

/// Reads a document: the tag of the root, its name and its payload. The
/// root must be a compound, or a list where `allow_list` says so. Bytes
/// behind the document are left alone: the position behind the document
/// is handed out with the name and the root.
pub fn decode_document(d: Dialect, bytes: &[u8], depth: usize, allow_list: bool) -> (result: Result<
    (String, Value, usize),
    Error,
>)
    ensures
        match result {
            Ok((name, root, next)) => parse_document(d, bytes@, depth as nat, allow_list) == Ok::<
                ((Seq<char>, ValueView), int),
                Failure,
            >(((name@, root@), next as int)) && next <= bytes@.len(),
            Err(error) => parse_document(d, bytes@, depth as nat, allow_list) matches Err(failure)
                && reports(error, failure),
        },
{
    let total: usize = bytes.len();
    let mut path = Path::new();
    let code = match read_u8(bytes, 0) {
        Some(code) => code,
        None => {
            return Err(fail(Category::UnexpectedEof, &mut path));
        },
    };
    let tag = match TypeId::from_u8(code) {
        Some(tag) => tag,
        None => {
            return Err(fail(Category::InvalidData, &mut path));
        },
    };
    let is_root = match tag {
        TypeId::Compound => true,
        TypeId::List => allow_list,
        _ => false,
    };
    if !is_root {
        return Err(fail(Category::InvalidData, &mut path));
    }
    let (name, start) = match read_str(d, bytes, 1) {
        Ok(read) => read,
        Err(category) => {
            return Err(fail(category, &mut path));
        },
    };
    proof {
        assert(bytes@.skip(1 + (start - 1)) =~= bytes@.skip(start as int));
    }
    match decode_payload(d, tag, bytes, start, depth, &mut path) {
        Ok((root, next)) => Ok((name, root, next)),
        Err(error) => Err(error),
    }
}

/// Reads a document in the fixed-width, big-endian dialect.
pub fn from_be_slice(bytes: &[u8]) -> (result: Result<(String, Value), Error>)
    ensures
        decoded_document(
            parse_document(Dialect::BigEndian, bytes@, RECURSION_LIMIT as nat, false),
            result,
        ),
{
    match decode_document(Dialect::BigEndian, bytes, RECURSION_LIMIT, false) {
        Ok((name, root, _)) => Ok((name, root)),
        Err(error) => Err(error),
    }
}

/// Reads a document in the fixed-width, little-endian dialect.
pub fn from_le_slice(bytes: &[u8]) -> (result: Result<(String, Value), Error>)
    ensures
        decoded_document(
            parse_document(Dialect::LittleEndian, bytes@, RECURSION_LIMIT as nat, false),
            result,
        ),
{
    match decode_document(Dialect::LittleEndian, bytes, RECURSION_LIMIT, false) {
        Ok((name, root, _)) => Ok((name, root)),
        Err(error) => Err(error),
    }
}

/// Reads a document in the varint dialect. A bare list is taken as a root
/// where `allow_list` says so.
pub fn from_varint_slice(bytes: &[u8], allow_list: bool) -> (result: Result<(String, Value), Error>)
    ensures
        decoded_document(
            parse_document(Dialect::Varint, bytes@, RECURSION_LIMIT as nat, allow_list),
            result,
        ),
{
    match decode_document(Dialect::Varint, bytes, RECURSION_LIMIT, allow_list) {
        Ok((name, root, _)) => Ok((name, root)),
        Err(error) => Err(error),
    }
}

} // verus!
