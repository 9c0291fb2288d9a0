//! Escaping one character the way Java source text does.

use vstd::prelude::*;

verus! {

/// The character of a hexadecimal digit, in lower case.
pub open spec fn hex_char(digit: u32) -> char {
    if digit < 10 {
        (0x30 + digit) as char
    } else {
        (0x57 + digit) as char
    }
}

/// The hexadecimal digit of a character at the given place, counted from
/// the least significant; only the low sixteen bits of the character have
/// a place.
pub open spec fn hex_digit(c: char, index: usize) -> char {
    hex_char(((c as u32) >> ((index * 4) as u32)) & 0x0F)
}

/// The escape of a character in the `\uXXXX` form, from the `from`-th of
/// its six characters on.
pub open spec fn unicode_escape_from(c: char, from: int) -> Seq<char> {
    seq!['\\', 'u', hex_digit(c, 3), hex_digit(c, 2), hex_digit(c, 1), hex_digit(c, 0)].skip(from)
}

/// The escape of a character in the `\uXXXX` form.
pub open spec fn unicode_escape(c: char) -> Seq<char> {
    unicode_escape_from(c, 0)
}

/// The letter behind the backslash in the short escape of the character,
/// if it has one: backspace, tab, line feed, form feed, carriage return
/// and the double quote have.
pub open spec fn short_escape(c: char) -> Option<char> {
    if c == '\x08' {
        Some('b')
    } else if c == '\x09' {
        Some('t')
    } else if c == '\x0A' {
        Some('n')
    } else if c == '\x0C' {
        Some('f')
    } else if c == '\x0D' {
        Some('r')
    } else if c == '\x22' {
        Some('"')
    } else {
        None
    }
}

/// The escape of a character: its short escape where it has one, the
/// character itself where it is printable ASCII, and the `\uXXXX` form
/// otherwise.
pub open spec fn java_escape(c: char) -> Seq<char> {
    match short_escape(c) {
        Some(letter) => seq!['\\', letter],
        None => if '\x20' <= c <= '\x7E' {
            seq![c]
        } else {
            unicode_escape(c)
        },
    }
}

/// The hexadecimal digit of a character at the given place.
pub fn get_hex_digit(c: char, index: usize) -> (digit: char)
    requires
        index <= 3,
    ensures
        digit == hex_digit(c, index),
{
    let shift: u32 = (index * 4) as u32;
    let code: u32 = c as u32;
    let value: u32 = (code >> shift) & 0x0F;
    assert((code >> shift) & 0x0F <= 15) by (bit_vector);
    if value < 10 {
        (0x30u8 + value as u8) as char
    } else {
        (0x57u8 + value as u8) as char
    }
}

#[derive(Debug, Clone, Copy)]
enum EscapeUnicodeState {
    Backslash,
    Type,
    Value,
    Done,
}

/// The characters of the `\uXXXX` escape of a character, one at a time.
#[derive(Debug, Clone, Copy)]
pub struct EscapeJavaUnicode {
    c: char,
    state: EscapeUnicodeState,
    hex_digit_index: usize,
}

impl EscapeJavaUnicode {
    /// The characters that are still to come.
    pub closed spec fn remaining(&self) -> Seq<char> {
        match self.state {
            EscapeUnicodeState::Backslash => unicode_escape_from(self.c, 0),
            EscapeUnicodeState::Type => unicode_escape_from(self.c, 1),
            EscapeUnicodeState::Value => unicode_escape_from(self.c, 5 - self.hex_digit_index),
            EscapeUnicodeState::Done => Seq::empty(),
        }
    }

    /// True when the state is one that the escape can be in.
    pub closed spec fn wf(&self) -> bool {
        self.hex_digit_index <= 3 && (self.state is Backslash || self.state is Type
            ==> self.hex_digit_index == 3)
    }

    /// The escape of the character, with all six characters to come.
    pub fn new(c: char) -> (escape: EscapeJavaUnicode)
        ensures
            escape.wf(),
            escape.remaining() == unicode_escape(c),
    {
        EscapeJavaUnicode { c, state: EscapeUnicodeState::Backslash, hex_digit_index: 3 }
    }

    /// The next character of the escape, or `None` when all have come.
    pub fn next(&mut self) -> (next: Option<char>)
        requires
            old(self).wf(),
        ensures
            final(self).wf(),
            match next {
                Some(c) => old(self).remaining().len() > 0 && c == old(self).remaining()[0]
                    && final(self).remaining() == old(self).remaining().drop_first(),
                None => old(self).remaining().len() == 0 && final(self).remaining() == old(self).remaining(),
            },
    {
        match self.state {
            EscapeUnicodeState::Backslash => {
                self.state = EscapeUnicodeState::Type;
                proof {
                    assert(self.remaining() =~= old(self).remaining().drop_first());
                }
                Some('\\')
            },
            EscapeUnicodeState::Type => {
                self.state = EscapeUnicodeState::Value;
                proof {
                    assert(self.remaining() =~= old(self).remaining().drop_first());
                }
                Some('u')
            },
            EscapeUnicodeState::Value => {
                let c = get_hex_digit(self.c, self.hex_digit_index);
                if self.hex_digit_index == 0 {
                    self.state = EscapeUnicodeState::Done;
                } else {
                    self.hex_digit_index -= 1;
                }
                proof {
                    assert(self.remaining() =~= old(self).remaining().drop_first());
                }
                Some(c)
            },
            EscapeUnicodeState::Done => None,
        }
    }

    /// How many characters are still to come.
    pub fn len(&self) -> (len: usize)
        requires
            self.wf(),
        ensures
            len == self.remaining().len(),
    {
        match self.state {
            EscapeUnicodeState::Backslash => 6,
            EscapeUnicodeState::Type => 5,
            EscapeUnicodeState::Value => self.hex_digit_index + 1,
            EscapeUnicodeState::Done => 0,
        }
    }

    /// The last character that is still to come.
    pub fn last(self) -> (last: Option<char>)
        requires
            self.wf(),
        ensures
            match last {
                Some(c) => self.remaining().len() > 0 && c == self.remaining().last(),
                None => self.remaining().len() == 0,
            },
    {
        match self.state {
            EscapeUnicodeState::Done => None,
            _ => Some(get_hex_digit(self.c, 0)),
        }
    }
}

#[derive(Debug, Clone, Copy)]
enum EscapeJavaState {
    Backslash(char),
    Char(char),
    Unicode(EscapeJavaUnicode),
    Done,
}

/// The characters of the escape of a character, one at a time.
#[derive(Debug, Clone, Copy)]
pub struct EscapeJava {
    state: EscapeJavaState,
}

impl EscapeJava {
    /// The characters that are still to come.
    pub closed spec fn remaining(&self) -> Seq<char> {
        match self.state {
            EscapeJavaState::Backslash(c) => seq!['\\', c],
            EscapeJavaState::Char(c) => seq![c],
            EscapeJavaState::Unicode(escape) => escape.remaining(),
            EscapeJavaState::Done => Seq::empty(),
        }
    }

    /// True when the state is one that the escape can be in.
    pub closed spec fn wf(&self) -> bool {
        self.state matches EscapeJavaState::Unicode(escape) ==> escape.wf()
    }

    /// The escape of the character, with all its characters to come.
    pub fn new(c: char) -> (escape: EscapeJava)
        ensures
            escape.wf(),
            escape.remaining() == java_escape(c),
    {
        let init = if c == '\x08' {
            EscapeJavaState::Backslash('b')
        } else if c == '\x09' {
            EscapeJavaState::Backslash('t')
        } else if c == '\x0A' {
            EscapeJavaState::Backslash('n')
        } else if c == '\x0C' {
            EscapeJavaState::Backslash('f')
        } else if c == '\x0D' {
            EscapeJavaState::Backslash('r')
        } else if c == '\x22' {
            EscapeJavaState::Backslash('"')
        } else if '\x20' <= c && c <= '\x7E' {
            EscapeJavaState::Char(c)
        } else {
            EscapeJavaState::Unicode(EscapeJavaUnicode::new(c))
        };
        EscapeJava { state: init }
    }

    /// The next character of the escape, or `None` when all have come.
    pub fn next(&mut self) -> (next: Option<char>)
        requires
            old(self).wf(),
        ensures
            final(self).wf(),
            match next {
                Some(c) => old(self).remaining().len() > 0 && c == old(self).remaining()[0]
                    && final(self).remaining() == old(self).remaining().drop_first(),
                None => old(self).remaining().len() == 0 && final(self).remaining() == old(self).remaining(),
            },
    {
        match self.state {
            EscapeJavaState::Backslash(c) => {
                self.state = EscapeJavaState::Char(c);
                proof {
                    assert(self.remaining() =~= old(self).remaining().drop_first());
                }
                Some('\\')
            },
            EscapeJavaState::Char(c) => {
                self.state = EscapeJavaState::Done;
                proof {
                    assert(self.remaining() =~= old(self).remaining().drop_first());
                }
                Some(c)
            },
            EscapeJavaState::Unicode(escape) => {
                let mut inner = escape;
                let next = inner.next();
                self.state = EscapeJavaState::Unicode(inner);
                next
            },
            EscapeJavaState::Done => None,
        }
    }

    /// How many characters are still to come.
    pub fn len(&self) -> (len: usize)
        requires
            self.wf(),
        ensures
            len == self.remaining().len(),
    {
        match self.state {
            EscapeJavaState::Backslash(_) => 2,
            EscapeJavaState::Char(_) => 1,
            EscapeJavaState::Unicode(escape) => escape.len(),
            EscapeJavaState::Done => 0,
        }
    }

    /// The last character that is still to come.
    pub fn last(self) -> (last: Option<char>)
        requires
            self.wf(),
        ensures
            match last {
                Some(c) => self.remaining().len() > 0 && c == self.remaining().last(),
                None => self.remaining().len() == 0,
            },
    {
        match self.state {
            EscapeJavaState::Backslash(c) => Some(c),
            EscapeJavaState::Char(c) => Some(c),
            EscapeJavaState::Unicode(escape) => escape.last(),
            EscapeJavaState::Done => None,
        }
    }
}

} // verus!
