//! Escaping a text the way Java source text does.

use crate::char::{java_escape, unicode_escape};
use crate::text::string_push;
use vstd::prelude::*;
use vstd::std_specs::iter::IteratorSpec;
use vstd::string::{axiom_spec_iter, next_postcondition};

verus! {

/// The escapes of the characters of a text, one after the other.
pub open spec fn java_escape_all(chars: Seq<char>) -> Seq<char>
    decreases chars.len(),
{
    if chars.len() == 0 {
        Seq::empty()
    } else {
        java_escape(chars[0]) + java_escape_all(chars.drop_first())
    }
}

/// The `\uXXXX` escapes of the characters of a text, one after the other.
pub open spec fn unicode_escape_all(chars: Seq<char>) -> Seq<char>
    decreases chars.len(),
{
    if chars.len() == 0 {
        Seq::empty()
    } else {
        unicode_escape(chars[0]) + unicode_escape_all(chars.drop_first())
    }
}

/// The characters of a text, in order.
pub fn chars_of(s: &str) -> (chars: Vec<char>)
    ensures
        chars@ == s@,
{
    broadcast use axiom_spec_iter;
    broadcast use next_postcondition;

    let mut chars: Vec<char> = Vec::new();
    let mut iter = s.chars();
    loop
        invariant
            chars@ + iter.remaining() == s@,
            iter.obeys_prophetic_iter_laws(),
            iter.decrease() is Some,
        decreases iter.decrease()->0,
    {
        match iter.next() {
            Some(c) => {
                chars.push(c);
                proof {
                    assert(chars@ + iter.remaining() =~= s@);
                }
            },
            None => {
                proof {
                    assert(chars@ + iter.remaining() =~= chars@);
                }
                return chars;
            },
        }
    }
}

/// The characters of the escape of a text, one at a time: every character
/// of the text is escaped as [`crate::char::EscapeJava`] escapes it.
pub struct EscapeJava {
    chars: Vec<char>,
    index: usize,
    iter: Option<crate::char::EscapeJava>,
}

impl EscapeJava {
    /// The characters that are still to come.
    pub closed spec fn remaining(&self) -> Seq<char> {
        (match self.iter {
            Some(escape) => escape.remaining(),
            None => Seq::empty(),
        }) + java_escape_all(self.chars@.skip(self.index as int))
    }

    /// True when the state is one that the escape can be in.
    pub closed spec fn wf(&self) -> bool {
        self.index <= self.chars@.len() && (self.iter matches Some(escape) ==> escape.wf())
    }

    /// The escape of the text, with all its characters to come.
    pub fn new(s: &str) -> (escape: Self)
        ensures
            escape.wf(),
            escape.remaining() == java_escape_all(s@),
    {
        let escape = EscapeJava { chars: chars_of(s), index: 0, iter: None };
        proof {
            assert(escape.chars@.skip(0) =~= s@);
            assert(escape.remaining() =~= java_escape_all(s@));
        }
        escape
    }

    /// The next character of the escape, or `None` when all have come.
    pub fn next(&mut self) -> (next: Option<char>)
        requires
            old(self).wf(),
        ensures
            final(self).wf(),
            match next {
                Some(c) => old(self).remaining().len() > 0 && c == old(self).remaining()[0]
                    && final(self).remaining() == old(self).remaining().drop_first(),
                None => old(self).remaining().len() == 0 && final(self).remaining() == old(self).remaining(),
            },
    {
        if let Some(escape) = self.iter {
            let mut inner = escape;
            if let Some(c) = inner.next() {
                self.iter = Some(inner);
                proof {
                    assert(self.remaining() =~= old(self).remaining().drop_first());
                }
                return Some(c);
            }
        }
        let ghost rest = java_escape_all(self.chars@.skip(self.index as int));
        proof {
            assert(old(self).remaining() =~= rest);
        }
        if self.index >= self.chars.len() {
            self.iter = None;
            proof {
                assert(self.remaining() =~= old(self).remaining());
            }
            return None;
        }
        let c = self.chars[self.index];
        proof {
            let tail = self.chars@.skip(self.index as int);
            assert(tail[0] == c);
            assert(tail.drop_first() =~= self.chars@.skip(self.index + 1));
        }
        self.index += 1;
        let mut inner = crate::char::EscapeJava::new(c);
        let next = inner.next();
        self.iter = Some(inner);
        proof {
            assert(self.remaining() =~= old(self).remaining().drop_first());
        }
        next
    }

    /// The whole of what is still to come, as a string.
    pub fn collect(self) -> (text: String)
        requires
            self.wf(),
        ensures
            text@ == self.remaining(),
    {
        let mut escape = self;
        let mut text = String::new();
        loop
            invariant
                escape.wf(),
                text@ + escape.remaining() == self.remaining(),
            decreases escape.remaining().len(),
        {
            match escape.next() {
                Some(c) => {
                    let ghost before = text@;
                    string_push(&mut text, c);
                    proof {
                        assert(text@ + escape.remaining() =~= self.remaining());
                    }
                },
                None => {
                    proof {
                        assert(text@ + escape.remaining() =~= text@);
                    }
                    return text;
                },
            }
        }
    }
}

/// The characters of the `\uXXXX` escape of a text, one at a time.
pub struct EscapeJavaUnicode {
    chars: Vec<char>,
    index: usize,
    iter: Option<crate::char::EscapeJavaUnicode>,
}

impl EscapeJavaUnicode {
    /// The characters that are still to come.
    pub closed spec fn remaining(&self) -> Seq<char> {
        (match self.iter {
            Some(escape) => escape.remaining(),
            None => Seq::empty(),
        }) + unicode_escape_all(self.chars@.skip(self.index as int))
    }

    /// True when the state is one that the escape can be in.
    pub closed spec fn wf(&self) -> bool {
        self.index <= self.chars@.len() && (self.iter matches Some(escape) ==> escape.wf())
    }

    /// The escape of the text, with all its characters to come.
    pub fn new(s: &str) -> (escape: Self)
        ensures
            escape.wf(),
            escape.remaining() == unicode_escape_all(s@),
    {
        let escape = EscapeJavaUnicode { chars: chars_of(s), index: 0, iter: None };
        proof {
            assert(escape.chars@.skip(0) =~= s@);
            assert(escape.remaining() =~= unicode_escape_all(s@));
        }
        escape
    }

    /// The next character of the escape, or `None` when all have come.
    pub fn next(&mut self) -> (next: Option<char>)
        requires
            old(self).wf(),
        ensures
            final(self).wf(),
            match next {
                Some(c) => old(self).remaining().len() > 0 && c == old(self).remaining()[0]
                    && final(self).remaining() == old(self).remaining().drop_first(),
                None => old(self).remaining().len() == 0 && final(self).remaining() == old(self).remaining(),
            },
    {
        if let Some(escape) = self.iter {
            let mut inner = escape;
            if let Some(c) = inner.next() {
                self.iter = Some(inner);
                proof {
                    assert(self.remaining() =~= old(self).remaining().drop_first());
                }
                return Some(c);
            }
        }
        let ghost rest = unicode_escape_all(self.chars@.skip(self.index as int));
        proof {
            assert(old(self).remaining() =~= rest);
        }
        if self.index >= self.chars.len() {
            self.iter = None;
            proof {
                assert(self.remaining() =~= old(self).remaining());
            }
            return None;
        }
        let c = self.chars[self.index];
        proof {
            let tail = self.chars@.skip(self.index as int);
            assert(tail[0] == c);
            assert(tail.drop_first() =~= self.chars@.skip(self.index + 1));
        }
        self.index += 1;
        let mut inner = crate::char::EscapeJavaUnicode::new(c);
        let next = inner.next();
        self.iter = Some(inner);
        proof {
            assert(self.remaining() =~= old(self).remaining().drop_first());
        }
        next
    }

    /// The whole of what is still to come, as a string.
    pub fn collect(self) -> (text: String)
        requires
            self.wf(),
        ensures
            text@ == self.remaining(),
    {
        let mut escape = self;
        let mut text = String::new();
        loop
            invariant
                escape.wf(),
                text@ + escape.remaining() == self.remaining(),
            decreases escape.remaining().len(),
        {
            match escape.next() {
                Some(c) => {
                    string_push(&mut text, c);
                    proof {
                        assert(text@ + escape.remaining() =~= self.remaining());
                    }
                },
                None => {
                    proof {
                        assert(text@ + escape.remaining() =~= text@);
                    }
                    return text;
                },
            }
        }
    }
}

} // verus!
