//! The formatters of the text form: what each piece of a tree is written
//! as, compactly or with line breaks and indentation.

use crate::str::{java_escape_all, EscapeJava};
use crate::text::{decimal, format_signed, name_needs_quotes, needs_escaped};
use crate::util::SeqKind;
use vstd::prelude::*;
use vstd::string::*;
use vstd::utf8::encode_utf8;

verus! {

/// The text of a string between double quotes, escaped where it holds
/// anything but ASCII letters, digits, `+`, `-`, `.` and `_`.
pub open spec fn quoted(s: Seq<char>) -> Seq<char> {
    if name_needs_quotes(s) {
        "\""@ + java_escape_all(s) + "\""@
    } else {
        "\""@ + s + "\""@
    }
}

/// The text of a key: quoted like a string where it must be, or where
/// every key is asked to be; else bare.
pub open spec fn key_form(s: Seq<char>, normalize: bool) -> Seq<char> {
    if name_needs_quotes(s) || normalize {
        quoted(s)
    } else {
        s
    }
}

/// The text that opens a sequence of the kind.
pub open spec fn seq_open(kind: SeqKind) -> Seq<char> {
    match kind {
        SeqKind::ByteArray => "[B;"@,
        SeqKind::IntArray => "[I;"@,
        SeqKind::LongArray => "[L;"@,
        SeqKind::List(_) => "["@,
    }
}

/// The text between two items of a sequence or a map: a comma before every
/// item but the first.
pub open spec fn separator(has_value: bool) -> Seq<char> {
    if has_value {
        ","@
    } else {
        Seq::empty()
    }
}

/// Appends the UTF-8 bytes of a text.
fn put(writer: &mut Vec<u8>, text: &str)
    ensures
        final(writer)@ == old(writer)@ + encode_utf8(text@),
{
    writer.extend_from_slice(text.as_bytes());
}

fn quote(value: &str) -> (text: String)
    ensures
        text@ == quoted(value@),
{
    let mut text = "\"".to_owned();
    if needs_escaped(value) {
        text.append(EscapeJava::new(value).collect().as_str());
    } else {
        text.append(value);
    }
    text.append("\"");
    text
}

/// The formatter that writes a tree on one line, without any space.
#[derive(Debug, Clone, Copy)]
pub struct CompactFormatter {
    normalize: bool,
    has_value: bool,
}

impl CompactFormatter {
    /// Whether every key is quoted, also one that need not be.
    pub closed spec fn normalize(&self) -> bool {
        self.normalize
    }

    /// Whether the sequence or the map at hand has an item already.
    pub closed spec fn has_value(&self) -> bool {
        self.has_value
    }

    /// True when the call changed neither setting nor state and appended
    /// the text.
    pub open spec fn wrote(&self, before: &Self, old_bytes: Seq<u8>, bytes: Seq<u8>, text: Seq<char>)
        -> bool {
        &&& self.normalize() == before.normalize()
        &&& self.has_value() == before.has_value()
        &&& bytes == old_bytes + encode_utf8(text)
    }

    /// True when the call appended the text and set the state.
    pub open spec fn moved(
        &self,
        before: &Self,
        old_bytes: Seq<u8>,
        bytes: Seq<u8>,
        text: Seq<char>,
        has_value: bool,
    ) -> bool {
        &&& self.normalize() == before.normalize()
        &&& self.has_value() == has_value
        &&& bytes == old_bytes + encode_utf8(text)
    }

    /// A formatter at the start of a tree.
    pub fn new(normalize: bool) -> (formatter: CompactFormatter)
        ensures
            formatter.normalize() == normalize,
            !formatter.has_value(),
    {
        CompactFormatter { normalize, has_value: false }
    }

    /// Writes `true` or `false`.
    pub fn write_bool(&mut self, writer: &mut Vec<u8>, value: bool)
        ensures
            final(self).wrote(
                old(self),
                old(writer)@,
                final(writer)@,
                if value {
                    "true"@
                } else {
                    "false"@
                },
            ),
    {
        put(
            writer,
            if value {
                "true"
            } else {
                "false"
            },
        );
    }

    /// Writes an integer in decimal and the letter of its width behind it:
    /// `b` for 8 bits, `s` for 16, none for 32 and `L` for 64.
    pub fn write_integer(&mut self, writer: &mut Vec<u8>, value: i64, suffix: &str)
        ensures
            final(self).wrote(
                old(self),
                old(writer)@,
                final(writer)@,
                decimal(value as int) + suffix@,
            ),
    {
        let mut text = format_signed(value as i128);
        text.append(suffix);
        put(writer, text.as_str());
    }

    /// Writes an 8-bit integer.
    pub fn write_i8(&mut self, writer: &mut Vec<u8>, value: i8)
        ensures
            final(self).wrote(old(self), old(writer)@, final(writer)@, decimal(value as int) + "b"@),
    {
        self.write_integer(writer, value as i64, "b");
    }

    /// Writes a 16-bit integer.
    pub fn write_i16(&mut self, writer: &mut Vec<u8>, value: i16)
        ensures
            final(self).wrote(old(self), old(writer)@, final(writer)@, decimal(value as int) + "s"@),
    {
        self.write_integer(writer, value as i64, "s");
    }

    /// Writes a 32-bit integer.
    pub fn write_i32(&mut self, writer: &mut Vec<u8>, value: i32)
        ensures
            final(self).wrote(old(self), old(writer)@, final(writer)@, decimal(value as int) + ""@),
    {
        self.write_integer(writer, value as i64, "");
    }

    /// Writes a 64-bit integer.
    pub fn write_i64(&mut self, writer: &mut Vec<u8>, value: i64)
        ensures
            final(self).wrote(old(self), old(writer)@, final(writer)@, decimal(value as int) + "L"@),
    {
        self.write_integer(writer, value, "L");
    }

    /// Writes a float whose digits the caller hands in, and the letter of
    /// its width behind them: `f` for 32 bits, `d` for 64.
    pub fn write_float(&mut self, writer: &mut Vec<u8>, digits: &str, suffix: &str)
        ensures
            final(self).wrote(old(self), old(writer)@, final(writer)@, digits@ + suffix@),
    {
        let mut text = digits.to_owned();
        text.append(suffix);
        put(writer, text.as_str());
    }

    /// Writes a string between double quotes, escaped where it must be.
    pub fn write_str(&mut self, writer: &mut Vec<u8>, value: &str)
        ensures
            final(self).wrote(old(self), old(writer)@, final(writer)@, quoted(value@)),
    {
        put(writer, quote(value).as_str());
    }

    /// Opens a sequence: `[`, and `B;`, `I;` or `L;` behind it for an
    /// array.
    pub fn begin_seq(&mut self, writer: &mut Vec<u8>, kind: SeqKind)
        ensures
            final(self).moved(old(self), old(writer)@, final(writer)@, seq_open(kind), false),
    {
        self.has_value = false;
        put(
            writer,
            match kind {
                SeqKind::ByteArray => "[B;",
                SeqKind::IntArray => "[I;",
                SeqKind::LongArray => "[L;",
                SeqKind::List(_) => "[",
            },
        );
    }

    /// Writes the comma before an element that is not the first.
    pub fn before_element(&mut self, writer: &mut Vec<u8>)
        ensures
            final(self).wrote(
                old(self),
                old(writer)@,
                final(writer)@,
                separator(old(self).has_value()),
            ),
    {
        put(
            writer,
            if self.has_value {
                ","
            } else {
                ""
            },
        );
        proof {
            reveal_strlit("");
            assert(""@ =~= Seq::<char>::empty());
        }
    }

    /// Notes that the sequence has an element.
    pub fn after_element(&mut self, writer: &mut Vec<u8>)
        ensures
            final(self).normalize() == old(self).normalize(),
            final(self).has_value(),
            final(writer)@ == old(writer)@,
    {
        self.has_value = true;
    }

    /// Closes a sequence: `]`.
    pub fn end_seq(&mut self, writer: &mut Vec<u8>)
        ensures
            final(self).wrote(old(self), old(writer)@, final(writer)@, "]"@),
    {
        put(writer, "]");
    }

    /// Opens a map: `{`.
    pub fn begin_map(&mut self, writer: &mut Vec<u8>)
        ensures
            final(self).moved(old(self), old(writer)@, final(writer)@, "{"@, false),
    {
        self.has_value = false;
        put(writer, "{");
    }

    /// Writes the comma before an entry that is not the first.
    pub fn before_key(&mut self, writer: &mut Vec<u8>)
        ensures
            final(self).wrote(
                old(self),
                old(writer)@,
                final(writer)@,
                separator(old(self).has_value()),
            ),
    {
        self.before_element(writer);
    }

    /// Writes a key: quoted where it must be or where every key is asked
    /// to be, else bare.
    pub fn write_key(&mut self, writer: &mut Vec<u8>, key: &str)
        ensures
            final(self).wrote(
                old(self),
                old(writer)@,
                final(writer)@,
                key_form(key@, old(self).normalize()),
            ),
    {
        if needs_escaped(key) || self.normalize {
            put(writer, quote(key).as_str());
        } else {
            put(writer, key);
        }
    }

    /// Writes the colon behind a key.
    pub fn after_key(&mut self, writer: &mut Vec<u8>)
        ensures
            final(self).wrote(old(self), old(writer)@, final(writer)@, ":"@),
    {
        put(writer, ":");
    }

    /// Writes nothing before a value.
    pub fn before_value(&mut self, writer: &mut Vec<u8>)
        ensures
            *final(self) == *old(self),
            final(writer)@ == old(writer)@,
    {
    }

    /// Notes that the map has an entry.
    pub fn after_value(&mut self, writer: &mut Vec<u8>)
        ensures
            final(self).normalize() == old(self).normalize(),
            final(self).has_value(),
            final(writer)@ == old(writer)@,
    {
        self.has_value = true;
    }

    /// Closes a map: `}`.
    pub fn end_map(&mut self, writer: &mut Vec<u8>)
        ensures
            final(self).wrote(old(self), old(writer)@, final(writer)@, "}"@),
    {
        put(writer, "}");
    }
}

/// The indentation of a line at the given depth: the indent, that many
/// times.
pub open spec fn indentation(indent: Seq<char>, depth: nat) -> Seq<char>
    decreases depth,
{
    if depth == 0 {
        Seq::empty()
    } else {
        indentation(indent, (depth - 1) as nat) + indent
    }
}

/// A line break and the indentation of the new line.
pub open spec fn newline_indent(indent: Seq<char>, depth: nat) -> Seq<char> {
    "\n"@ + indentation(indent, depth)
}

/// The formatter that writes every item of a sequence or a map on a line
/// of its own, indented by its depth.
pub struct PrettyFormatter {
    delegate: CompactFormatter,
    indent: String,
    depth: usize,
}

impl PrettyFormatter {
    /// Whether every key is quoted, also one that need not be.
    pub closed spec fn normalize(&self) -> bool {
        self.delegate.normalize()
    }

    /// Whether the sequence or the map at hand has an item already.
    pub closed spec fn has_value(&self) -> bool {
        self.delegate.has_value()
    }

    /// The text that one level of depth is indented by.
    pub closed spec fn indent(&self) -> Seq<char> {
        self.indent@
    }

    /// How many sequences and maps are open.
    pub closed spec fn depth(&self) -> usize {
        self.depth
    }

    /// True when the call appended the text and left the formatter with the
    /// given state and depth.
    pub open spec fn moved(
        &self,
        before: &Self,
        old_bytes: Seq<u8>,
        bytes: Seq<u8>,
        text: Seq<char>,
        has_value: bool,
        depth: int,
    ) -> bool {
        &&& self.normalize() == before.normalize()
        &&& self.indent() == before.indent()
        &&& self.has_value() == has_value
        &&& self.depth() == depth
        &&& bytes == old_bytes + encode_utf8(text)
    }

    /// How many sequences and maps are open.
    pub fn level(&self) -> (depth: usize)
        ensures
            depth == self.depth(),
    {
        self.depth
    }

    /// A formatter that indents by two spaces.
    pub fn new(normalize: bool) -> (formatter: PrettyFormatter)
        ensures
            formatter.normalize() == normalize,
            formatter.indent() == "  "@,
            formatter.depth() == 0,
            !formatter.has_value(),
    {
        PrettyFormatter::with_indent(normalize, "  ")
    }

    /// A formatter that indents by the given text.
    pub fn with_indent(normalize: bool, indent: &str) -> (formatter: PrettyFormatter)
        ensures
            formatter.normalize() == normalize,
            formatter.indent() == indent@,
            formatter.depth() == 0,
            !formatter.has_value(),
    {
        PrettyFormatter { delegate: CompactFormatter::new(normalize), indent: indent.to_owned(), depth: 0 }
    }

    /// The compact formatter that writes the scalars, the strings and the
    /// keys of the tree.
    pub fn scalars(&mut self) -> (delegate: &mut CompactFormatter)
        ensures
            delegate.normalize() == old(self).normalize(),
            delegate.has_value() == old(self).has_value(),
            final(self).normalize() == final(delegate).normalize(),
            final(self).has_value() == final(delegate).has_value(),
            final(self).indent() == old(self).indent(),
            final(self).depth() == old(self).depth(),
    {
        &mut self.delegate
    }

    fn write_newline_indent(&self, writer: &mut Vec<u8>)
        ensures
            final(writer)@ == old(writer)@ + encode_utf8(
                newline_indent(self.indent(), self.depth() as nat),
            ),
    {
        let mut text = "\n".to_owned();
        let mut i: usize = 0;
        proof {
            assert(text@ =~= "\n"@ + indentation(self.indent(), 0));
        }
        while i < self.depth
            invariant
                i <= self.depth,
                text@ == "\n"@ + indentation(self.indent@, i as nat),
            decreases self.depth - i,
        {
            text.append(self.indent.as_str());
            proof {
                assert(text@ =~= "\n"@ + indentation(self.indent@, (i + 1) as nat));
            }
            i += 1;
        }
        put(writer, text.as_str());
    }

    /// Opens a sequence, one level deeper.
    pub fn begin_seq(&mut self, writer: &mut Vec<u8>, kind: SeqKind)
        requires
            old(self).depth() < usize::MAX,
        ensures
            final(self).moved(
                old(self),
                old(writer)@,
                final(writer)@,
                seq_open(kind),
                false,
                old(self).depth() + 1,
            ),
    {
        self.depth = self.depth + 1;
        self.delegate.begin_seq(writer, kind);
    }

    /// Starts the line of an element: the comma behind the element before
    /// it, then a line break and the indentation.
    pub fn before_element(&mut self, writer: &mut Vec<u8>)
        ensures
            final(self).moved(
                old(self),
                old(writer)@,
                final(writer)@,
                separator(old(self).has_value()) + newline_indent(
                    old(self).indent(),
                    old(self).depth() as nat,
                ),
                old(self).has_value(),
                old(self).depth() as int,
            ),
    {
        let ghost first = separator(self.has_value());
        let ghost second = newline_indent(self.indent(), self.depth() as nat);
        self.delegate.before_element(writer);
        self.write_newline_indent(writer);
        proof {
            lemma_utf8_concat(first, second);
            assert(writer@ =~= old(writer)@ + (encode_utf8(first) + encode_utf8(second)));
        }
    }

    /// Notes that the sequence has an element.
    pub fn after_element(&mut self, writer: &mut Vec<u8>)
        ensures
            final(self).moved(
                old(self),
                old(writer)@,
                final(writer)@,
                Seq::empty(),
                true,
                old(self).depth() as int,
            ),
    {
        self.delegate.after_element(writer);
        proof {
            assert(writer@ + encode_utf8(Seq::<char>::empty()) =~= writer@);
        }
    }

    /// The text that closes a sequence or a map: on a line of its own,
    /// one level less deep, where anything stands between the brackets.
    pub open spec fn close(&self, bracket: Seq<char>) -> Seq<char> {
        if self.has_value() {
            newline_indent(self.indent(), (self.depth() - 1) as nat) + bracket
        } else {
            bracket
        }
    }

    fn end(&mut self, writer: &mut Vec<u8>, bracket: &str)
        requires
            old(self).depth() > 0,
        ensures
            final(self).moved(
                old(self),
                old(writer)@,
                final(writer)@,
                old(self).close(bracket@),
                old(self).has_value(),
                old(self).depth() - 1,
            ),
    {
        self.depth = self.depth - 1;
        if self.delegate.has_value {
            let ghost first = newline_indent(self.indent(), self.depth() as nat);
            self.write_newline_indent(writer);
            put(writer, bracket);
            proof {
                lemma_utf8_concat(first, bracket@);
                assert(writer@ =~= old(writer)@ + (encode_utf8(first) + encode_utf8(bracket@)));
            }
        } else {
            put(writer, bracket);
        }
    }

    /// Closes a sequence, one level less deep.
    pub fn end_seq(&mut self, writer: &mut Vec<u8>)
        requires
            old(self).depth() > 0,
        ensures
            final(self).moved(
                old(self),
                old(writer)@,
                final(writer)@,
                old(self).close("]"@),
                old(self).has_value(),
                old(self).depth() - 1,
            ),
    {
        self.end(writer, "]");
    }

    /// Opens a map, one level deeper.
    pub fn begin_map(&mut self, writer: &mut Vec<u8>)
        requires
            old(self).depth() < usize::MAX,
        ensures
            final(self).moved(
                old(self),
                old(writer)@,
                final(writer)@,
                "{"@,
                false,
                old(self).depth() + 1,
            ),
    {
        self.depth = self.depth + 1;
        self.delegate.begin_map(writer);
    }

    /// Starts the line of an entry: the comma behind the entry before it,
    /// then a line break and the indentation.
    pub fn before_key(&mut self, writer: &mut Vec<u8>)
        ensures
            final(self).moved(
                old(self),
                old(writer)@,
                final(writer)@,
                separator(old(self).has_value()) + newline_indent(
                    old(self).indent(),
                    old(self).depth() as nat,
                ),
                old(self).has_value(),
                old(self).depth() as int,
            ),
    {
        self.before_element(writer);
    }

    /// Writes a colon and a space behind a key.
    pub fn after_key(&mut self, writer: &mut Vec<u8>)
        ensures
            final(self).moved(
                old(self),
                old(writer)@,
                final(writer)@,
                ": "@,
                old(self).has_value(),
                old(self).depth() as int,
            ),
    {
        put(writer, ": ");
    }

    /// Notes that the map has an entry.
    pub fn after_value(&mut self, writer: &mut Vec<u8>)
        ensures
            final(self).moved(
                old(self),
                old(writer)@,
                final(writer)@,
                Seq::empty(),
                true,
                old(self).depth() as int,
            ),
    {
        self.after_element(writer);
    }

    /// Closes a map, one level less deep.
    pub fn end_map(&mut self, writer: &mut Vec<u8>)
        requires
            old(self).depth() > 0,
        ensures
            final(self).moved(
                old(self),
                old(writer)@,
                final(writer)@,
                old(self).close("}"@),
                old(self).has_value(),
                old(self).depth() - 1,
            ),
    {
        self.end(writer, "}");
    }
}

/// The UTF-8 bytes of two texts, one after the other, are the bytes of
/// the first and then the bytes of the second.
pub proof fn lemma_utf8_concat(a: Seq<char>, b: Seq<char>)
    ensures
        encode_utf8(a + b) == encode_utf8(a) + encode_utf8(b),
    decreases a.len(),
{
    if a.len() == 0 {
        assert(a + b =~= b);
        assert(encode_utf8(a) + encode_utf8(b) =~= encode_utf8(b));
    } else {
        lemma_utf8_concat(a.drop_first(), b);
        assert((a + b).drop_first() =~= a.drop_first() + b);
        assert((a + b)[0] == a[0]);
        assert(encode_utf8(a + b) =~= encode_utf8(a) + encode_utf8(b));
    }
}

} // verus!
