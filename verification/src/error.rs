//! The error taxonomy and the structural path that errors carry.

use crate::text::{
    debug_text, decimal, format_debug, format_unsigned, name_needs_quotes, needs_escaped,
};
use crate::value::tag::TypeId;
use vstd::prelude::*;
use vstd::string::*;

verus! {

/// What kind of failure an error reports.
#[derive(Debug, Clone, Copy, PartialEq, Eq, Structural, Hash)]
pub enum Category {
    /// A failure that a caller's own data model raised.
    Custom,
    /// The input bytes are not a document of the format.
    InvalidData,
    /// The value handed in cannot be written in the format.
    InvalidInput,
    /// The sink or the source failed.
    Io,
    /// The source ended inside a value.
    UnexpectedEof,
    /// The value nests deeper than the limit.
    RecursionLimitExceeded,
}

/// A line and a column in a text document.
#[derive(Debug, Clone, Copy, PartialEq, Eq, Structural, Hash)]
pub struct Cursor {
    pub line: u64,
    pub column: u64,
}

impl Cursor {
    /// A cursor at the given line and column.
    pub fn new(line: u64, column: u64) -> (cursor: Cursor)
        ensures
            cursor.line == line,
            cursor.column == column,
    {
        Cursor { line, column }
    }
}

/// One step of a structural path.
#[derive(Debug, PartialEq, Eq)]
pub enum PathSegment {
    /// A map entry whose key is still being computed.
    Unresolved,
    /// A named field.
    Identifier(String),
    /// An element of a sequence.
    Index(usize),
}

/// The mathematical value of a path segment.
pub enum SegmentView {
    Unresolved,
    Identifier(Seq<char>),
    Index(usize),
}

impl View for PathSegment {
    type V = SegmentView;

    open spec fn view(&self) -> SegmentView {
        match self {
            PathSegment::Unresolved => SegmentView::Unresolved,
            PathSegment::Identifier(name) => SegmentView::Identifier(name@),
            PathSegment::Index(index) => SegmentView::Index(*index),
        }
    }
}

impl Clone for PathSegment {
    fn clone(&self) -> (copy: Self)
        ensures
            copy@ == self@,
    {
        match self {
            PathSegment::Unresolved => PathSegment::Unresolved,
            PathSegment::Identifier(name) => PathSegment::Identifier(name.clone()),
            PathSegment::Index(index) => PathSegment::Index(*index),
        }
    }
}

impl PathSegment {
    /// The name of a named segment.
    pub fn unwrap_identifier(self) -> (name: String)
        requires
            self is Identifier,
        ensures
            self@ == SegmentView::Identifier(name@),
    {
        match self {
            PathSegment::Identifier(name) => name,
            _ => String::new(),
        }
    }

    /// The index of an indexed segment.
    pub fn unwrap_index(self) -> (index: usize)
        requires
            self is Index,
        ensures
            self@ == SegmentView::Index(index),
    {
        match self {
            PathSegment::Index(index) => index,
            _ => 0,
        }
    }

    /// The text of the segment as it stands alone: `[????]` for an unresolved
    /// key, the name (quoted where [`needs_escaped`] asks for it) for a field,
    /// and the index in square brackets for an element.
    pub fn display(&self) -> (text: String)
        ensures
            text@ == segment_text(self@, true),
    {
        segment_display(self, true)
    }
}

/// The text of a name in a path: the name itself, or its quoted form.
pub open spec fn name_text(name: Seq<char>) -> Seq<char> {
    if name_needs_quotes(name) {
        debug_text(name)
    } else {
        name
    }
}

/// The text of one segment; a named segment that is not the first of its path
/// is preceded by a dot.
pub open spec fn segment_text(segment: SegmentView, first: bool) -> Seq<char> {
    match segment {
        SegmentView::Unresolved => "[????]"@,
        SegmentView::Identifier(name) => if first {
            name_text(name)
        } else {
            "."@ + name_text(name)
        },
        SegmentView::Index(index) => "["@ + decimal(index as int) + "]"@,
    }
}

/// The text of the segments of a path from the `from`-th on.
pub open spec fn segments_text(segments: Seq<SegmentView>, from: int) -> Seq<char>
    decreases segments.len() - from,
{
    if from < 0 || from >= segments.len() {
        Seq::<char>::empty()
    } else {
        segment_text(segments[from], from == 0) + segments_text(segments, from + 1)
    }
}

/// The text of a path: `{}` for the empty path, else its segments in order.
pub open spec fn path_text(segments: Seq<SegmentView>) -> Seq<char> {
    if segments.len() == 0 {
        "{}"@
    } else {
        segments_text(segments, 0)
    }
}

fn segment_display(segment: &PathSegment, first: bool) -> (text: String)
    ensures
        text@ == segment_text(segment@, first),
{
    match segment {
        PathSegment::Unresolved => "[????]".to_owned(),
        PathSegment::Identifier(name) => {
            let mut text = if first {
                String::new()
            } else {
                ".".to_owned()
            };
            if needs_escaped(name.as_str()) {
                let quoted = format_debug(name.as_str());
                text.append(quoted.as_str());
            } else {
                text.append(name.as_str());
            }
            proof {
                assert(Seq::<char>::empty() + name_text(name@) =~= name_text(name@));
            }
            text
        },
        PathSegment::Index(index) => {
            let mut text = "[".to_owned();
            let number = format_unsigned(*index as u128);
            text.append(number.as_str());
            text.append("]");
            text
        },
    }
}

/// The stack of segments that leads from the root of a document to the value
/// at hand.
#[derive(Debug, PartialEq, Eq)]
pub struct Path {
    inner: Vec<PathSegment>,
}

impl View for Path {
    type V = Seq<SegmentView>;

    closed spec fn view(&self) -> Seq<SegmentView> {
        Seq::new(self.inner@.len(), |i: int| self.inner@[i]@)
    }
}

impl Clone for Path {
    fn clone(&self) -> (copy: Self)
        ensures
            copy@ == self@,
    {
        let mut inner: Vec<PathSegment> = Vec::new();
        let mut i: usize = 0;
        while i < self.inner.len()
            invariant
                i <= self.inner@.len(),
                inner@.len() == i,
                forall|j: int| 0 <= j < i ==> inner@[j]@ == self.inner@[j]@,
            decreases self.inner@.len() - i,
        {
            inner.push(self.inner[i].clone());
            i += 1;
        }
        let copy = Path { inner };
        assert(copy@ =~= self@);
        copy
    }
}

impl Default for Path {
    fn default() -> (path: Path)
        ensures
            path@ == Seq::<SegmentView>::empty(),
    {
        Path::new()
    }
}

impl Path {
    /// The empty path.
    pub fn new() -> (path: Path)
        ensures
            path@ == Seq::<SegmentView>::empty(),
    {
        let path = Path { inner: Vec::new() };
        assert(path@ =~= Seq::<SegmentView>::empty());
        path
    }

    /// The number of segments.
    pub fn len(&self) -> (len: usize)
        ensures
            len == self@.len(),
    {
        self.inner.len()
    }

    /// True when the path has no segment.
    pub fn is_empty(&self) -> (empty: bool)
        ensures
            empty == (self@.len() == 0),
    {
        self.inner.len() == 0
    }

    /// The last segment, where there is one.
    pub fn last(&self) -> (segment: Option<&PathSegment>)
        ensures
            match segment {
                Some(segment) => self@.len() > 0 && segment@ == self@.last(),
                None => self@.len() == 0,
            },
    {
        if self.inner.len() == 0 {
            None
        } else {
            Some(&self.inner[self.inner.len() - 1])
        }
    }

    /// Takes the segments out and leaves the empty path behind.
    pub fn take(&mut self) -> (taken: Path)
        ensures
            taken@ == old(self)@,
            final(self)@ == Seq::<SegmentView>::empty(),
    {
        let mut inner: Vec<PathSegment> = Vec::new();
        std::mem::swap(&mut self.inner, &mut inner);
        let taken = Path { inner };
        assert(taken@ =~= old(self)@);
        assert(self@ =~= Seq::<SegmentView>::empty());
        taken
    }

    fn push(&mut self, segment: PathSegment)
        ensures
            final(self)@ == old(self)@.push(segment@),
    {
        self.inner.push(segment);
        assert(self@ =~= old(self)@.push(segment@));
    }

    fn pop(&mut self) -> (segment: PathSegment)
        requires
            old(self)@.len() > 0,
        ensures
            segment@ == old(self)@.last(),
            final(self)@ == old(self)@.drop_last(),
    {
        let ghost before = self.inner@;
        let segment = self.inner.pop();
        match segment {
            Some(segment) => {
                assert(self@ =~= old(self)@.drop_last());
                assert(segment == before.last());
                segment
            },
            None => PathSegment::Unresolved,
        }
    }

    /// Enters a map entry whose key is not known yet.
    pub fn enter_unresolved(&mut self)
        ensures
            final(self)@ == old(self)@.push(SegmentView::Unresolved),
    {
        self.push(PathSegment::Unresolved);
    }

    /// Leaves the entry that [`Path::enter_unresolved`] entered.
    pub fn leave_unresolved(&mut self)
        requires
            old(self)@.len() > 0,
            old(self)@.last() is Unresolved,
        ensures
            final(self)@ == old(self)@.drop_last(),
    {
        let _ = self.pop();
    }

    /// Enters the field of the given name.
    pub fn enter_scope(&mut self, scope: String)
        ensures
            final(self)@ == old(self)@.push(SegmentView::Identifier(scope@)),
    {
        self.push(PathSegment::Identifier(scope));
    }

    /// Leaves the field that [`Path::enter_scope`] entered and hands back its
    /// name.
    pub fn leave_scope(&mut self) -> (scope: String)
        requires
            old(self)@.len() > 0,
            old(self)@.last() is Identifier,
        ensures
            old(self)@.last() == SegmentView::Identifier(scope@),
            final(self)@ == old(self)@.drop_last(),
    {
        self.pop().unwrap_identifier()
    }

    /// Enters the element at the given index.
    pub fn enter_element(&mut self, index: usize)
        ensures
            final(self)@ == old(self)@.push(SegmentView::Index(index)),
    {
        self.push(PathSegment::Index(index));
    }

    /// Leaves the element that [`Path::enter_element`] entered and hands back
    /// its index.
    pub fn leave_element(&mut self) -> (index: usize)
        requires
            old(self)@.len() > 0,
            old(self)@.last() is Index,
        ensures
            old(self)@.last() == SegmentView::Index(index),
            final(self)@ == old(self)@.drop_last(),
    {
        self.pop().unwrap_index()
    }

    /// The text of the path.
    pub fn display(&self) -> (text: String)
        ensures
            text@ == path_text(self@),
    {
        if self.inner.len() == 0 {
            return "{}".to_owned();
        }
        let mut text = String::new();
        let mut index: usize = self.inner.len();
        proof {
            assert(segments_text(self@, index as int) =~= Seq::<char>::empty());
        }
        let mut tail: String = String::new();
        // The text is built back to front, one segment at a time.
        while index > 0
            invariant
                index <= self.inner@.len(),
                self@.len() == self.inner@.len(),
                tail@ == segments_text(self@, index as int),
            decreases index,
        {
            index -= 1;
            let mut piece = segment_display(&self.inner[index], index == 0);
            proof {
                assert(self@[index as int] == self.inner@[index as int]@);
            }
            piece.append(tail.as_str());
            tail = piece;
        }
        text.append(tail.as_str());
        proof {
            assert(Seq::<char>::empty() + tail@ =~= tail@);
        }
        text
    }
}

/// Where in a document an error arose.
#[derive(Debug, PartialEq, Eq)]
pub enum Position {
    /// Nowhere in particular.
    Nowhere,
    /// At a structural path.
    Path(Path),
    /// At a byte offset.
    Byte(u64),
    /// At a line and a column.
    Cursor(Cursor),
}

/// The mathematical value of a position.
pub enum PositionView {
    Nowhere,
    Path(Seq<SegmentView>),
    Byte(u64),
    Cursor(Cursor),
}

impl View for Position {
    type V = PositionView;

    open spec fn view(&self) -> PositionView {
        match self {
            Position::Nowhere => PositionView::Nowhere,
            Position::Path(path) => PositionView::Path(path@),
            Position::Byte(offset) => PositionView::Byte(*offset),
            Position::Cursor(cursor) => PositionView::Cursor(*cursor),
        }
    }
}

impl Clone for Position {
    fn clone(&self) -> (copy: Self)
        ensures
            copy@ == self@,
    {
        match self {
            Position::Nowhere => Position::Nowhere,
            Position::Path(path) => Position::Path(path.clone()),
            Position::Byte(offset) => Position::Byte(*offset),
            Position::Cursor(cursor) => Position::Cursor(*cursor),
        }
    }
}

impl Position {
    /// The text that an error message ends with: nothing for no position,
    /// and the path between backticks after ` at path ` for a path.
    pub open spec fn text(position: PositionView) -> Seq<char> {
        match position {
            PositionView::Nowhere => Seq::<char>::empty(),
            PositionView::Path(path) => " at path `"@ + path_text(path) + "`"@,
            PositionView::Byte(offset) => " at byte "@ + decimal(offset as int),
            PositionView::Cursor(cursor) => " at line "@ + decimal(cursor.line as int)
                + " column "@ + decimal(cursor.column as int),
        }
    }

    /// The text of the position, as an error message ends with it.
    pub fn display(&self) -> (text: String)
        ensures
            text@ == Position::text(self@),
    {
        match self {
            Position::Nowhere => String::new(),
            Position::Path(path) => {
                let mut text = " at path `".to_owned();
                text.append(path.display().as_str());
                text.append("`");
                text
            },
            Position::Byte(offset) => {
                let mut text = " at byte ".to_owned();
                text.append(format_unsigned(*offset as u128).as_str());
                text
            },
            Position::Cursor(cursor) => {
                let mut text = " at line ".to_owned();
                text.append(format_unsigned(cursor.line as u128).as_str());
                text.append(" column ");
                text.append(format_unsigned(cursor.column as u128).as_str());
                text
            },
        }
    }
}

/// A failure of one encode or decode call: its category, a message and the
/// position at which it arose.
#[derive(Debug, PartialEq, Eq)]
pub struct Error {
    category: Category,
    message: String,
    position: Position,
}

/// The result of a fallible operation of this library.
pub type Result<T> = std::result::Result<T, Error>;

impl Clone for Error {
    fn clone(&self) -> (copy: Self)
        ensures
            copy.category() == self.category(),
            copy.message() == self.message(),
            copy.position() == self.position(),
    {
        Error {
            category: self.category,
            message: self.message.clone(),
            position: self.position.clone(),
        }
    }
}

impl Error {
    /// The category of the error.
    pub closed spec fn category(&self) -> Category {
        self.category
    }

    /// The message of the error.
    pub closed spec fn message(&self) -> Seq<char> {
        self.message@
    }

    /// The position of the error.
    pub closed spec fn position(&self) -> PositionView {
        self.position@
    }

    /// True when the error has the given category and message and lies at the
    /// given position.
    pub open spec fn has(&self, category: Category, message: Seq<char>, position: PositionView)
        -> bool {
        &&& self.category() == category
        &&& self.message() == message
        &&& self.position() == position
    }

    /// An error without a position.
    pub fn new(category: Category, message: String) -> (error: Error)
        ensures
            error.has(category, message@, PositionView::Nowhere),
    {
        Error::with_position(category, message, Position::Nowhere)
    }

    /// An error at the given position.
    pub fn with_position(category: Category, message: String, position: Position) -> (error:
        Error)
        ensures
            error.has(category, message@, position@),
    {
        Error { category, message, position }
    }

    /// The category of the error.
    pub fn get_category(&self) -> (category: Category)
        ensures
            category == self.category(),
    {
        self.category
    }

    /// The message of the error.
    pub fn get_message(&self) -> (message: &String)
        ensures
            message@ == self.message(),
    {
        &self.message
    }

    /// The position of the error.
    pub fn get_position(&self) -> (position: &Position)
        ensures
            position@ == self.position(),
    {
        &self.position
    }

    /// Gives the error the path as its position, and drains the path, unless
    /// the error has a position already: a position is never overwritten.
    pub fn attach_path(self, path: &mut Path) -> (error: Error)
        ensures
            error.category() == self.category(),
            error.message() == self.message(),
            self.position() is Nowhere ==> error.position() == PositionView::Path(old(path)@)
                && final(path)@ == Seq::<SegmentView>::empty(),
            !(self.position() is Nowhere) ==> error.position() == self.position() && final(path)@
                == old(path)@,
    {
        let mut error = self;
        if let Position::Nowhere = error.position {
            error.position = Position::Path(path.take());
        }
        error
    }

    /// A failure of the sink or the source, at the given position.
    pub fn io(category: Category, message: String, position: Position) -> (error: Error)
        ensures
            error.has(category, message@, position@),
    {
        Error::with_position(category, message, position)
    }

    /// The text of the error: `error: `, the quoted message, and the position.
    pub fn display(&self) -> (text: String)
        ensures
            text@ == "error: "@ + debug_text(self.message()) + Position::text(self.position()),
    {
        let mut text = "error: ".to_owned();
        text.append(format_debug(self.message.as_str()).as_str());
        text.append(self.position.display().as_str());
        text
    }

    /// The nesting limit was exceeded at the path, which is drained.
    pub fn recursion_limit_exceeded(path: &mut Path) -> (error: Error)
        ensures
            error.has(
                Category::RecursionLimitExceeded,
                "recursion limit exceeded"@,
                PositionView::Path(old(path)@),
            ),
            final(path)@ == Seq::<SegmentView>::empty(),
    {
        Error::with_position(
            Category::RecursionLimitExceeded,
            "recursion limit exceeded".to_owned(),
            Position::Path(path.take()),
        )
    }
}

/// The message of an error about a kind of key that the format cannot hold.
pub open spec fn invalid_key_message(display_type: Seq<char>) -> Seq<char> {
    "NBT does not support "@ + display_type + " keys"@
}

/// The message of an error about a kind of value that the format cannot hold.
pub open spec fn invalid_type_message(display_type: Seq<char>) -> Seq<char> {
    "NBT does not support "@ + display_type + " values"@
}

/// The message of an error about a kind of value that cannot be a root.
pub open spec fn invalid_root_message(display_type: Seq<char>) -> Seq<char> {
    "NBT does not support "@ + display_type + " root values"@
}

/// The message of an error about a sequence whose elements differ in kind.
pub open spec fn invalid_seq_message(actual: TypeId, expected: TypeId) -> Seq<char> {
    "NBT does not support mixed sequences (got "@ + actual.name() + ", expected "@
        + expected.name() + ")"@
}

/// The message of an error about a sequence that holds another number of
/// elements than it announced.
pub open spec fn invalid_seq_hint_message(actual: usize, expected: usize) -> Seq<char> {
    "invalid sequence length hint (got "@ + decimal(actual as int) + ", expected "@ + decimal(
        expected as int,
    ) + ")"@
}

/// The message of an error about a sequence that holds more elements than it
/// announced.
pub open spec fn invalid_seq_len_message(actual: usize, expected: usize) -> Seq<char> {
    "oversized sequence length (got "@ + decimal(actual as int) + ", expected "@ + decimal(
        expected as int,
    ) + ")"@
}

/// The message of an error about a sequence longer than a dialect can count.
pub open spec fn seq_len_overflow_message(max: usize) -> Seq<char> {
    "selected dialect cannot serialize a sequence with greater than `"@ + decimal(
        max as int,
    ) + "` elements"@
}

/// The message of an error about a string longer than a dialect can count.
pub open spec fn str_len_overflow_message(max: usize) -> Seq<char> {
    "selected dialect cannot serialize a string with greater than `"@ + decimal(max as int)
        + "` bytes"@
}

fn got_expected(head: &str, actual: &str, expected: &str) -> (text: String)
    ensures
        text@ == head@ + actual@ + ", expected "@ + expected@ + ")"@,
{
    let mut text = head.to_owned();
    text.append(actual);
    text.append(", expected ");
    text.append(expected);
    text.append(")");
    text
}

fn framed(head: &str, middle: &str, tail: &str) -> (text: String)
    ensures
        text@ == head@ + middle@ + tail@,
{
    let mut text = head.to_owned();
    text.append(middle);
    text.append(tail);
    text
}

impl Error {
    /// The value handed in as a map key is of a kind that cannot be a key.
    /// The path is drained into the error.
    pub fn invalid_key(display_type: &str, path: &mut Path) -> (error: Error)
        ensures
            error.has(
                Category::InvalidInput,
                invalid_key_message(display_type@),
                PositionView::Path(old(path)@),
            ),
            final(path)@ == Seq::<SegmentView>::empty(),
    {
        Error::with_position(
            Category::InvalidInput,
            framed("NBT does not support ", display_type, " keys"),
            Position::Path(path.take()),
        )
    }

    /// The value handed in is of a kind that the format cannot hold. The path
    /// is drained into the error.
    pub fn invalid_type(display_type: &str, path: &mut Path) -> (error: Error)
        ensures
            error.has(
                Category::InvalidInput,
                invalid_type_message(display_type@),
                PositionView::Path(old(path)@),
            ),
            final(path)@ == Seq::<SegmentView>::empty(),
    {
        Error::with_position(
            Category::InvalidInput,
            framed("NBT does not support ", display_type, " values"),
            Position::Path(path.take()),
        )
    }

    /// The value handed in is of a kind that cannot be the root of a
    /// document. The path is drained into the error.
    pub fn invalid_root(display_type: &str, path: &mut Path) -> (error: Error)
        ensures
            error.has(
                Category::InvalidInput,
                invalid_root_message(display_type@),
                PositionView::Path(old(path)@),
            ),
            final(path)@ == Seq::<SegmentView>::empty(),
    {
        Error::with_position(
            Category::InvalidInput,
            framed("NBT does not support ", display_type, " root values"),
            Position::Path(path.take()),
        )
    }

    /// An element of a sequence is of another kind than the sequence. The
    /// path is drained into the error.
    pub fn invalid_seq(actual: TypeId, expected: TypeId, path: &mut Path) -> (error: Error)
        ensures
            error.has(
                Category::InvalidInput,
                invalid_seq_message(actual, expected),
                PositionView::Path(old(path)@),
            ),
            final(path)@ == Seq::<SegmentView>::empty(),
    {
        Error::with_position(
            Category::InvalidInput,
            got_expected(
                "NBT does not support mixed sequences (got ",
                actual.as_str(),
                expected.as_str(),
            ),
            Position::Path(path.take()),
        )
    }

    /// A sequence ended with another number of elements than it announced.
    /// The path is drained into the error.
    pub fn invalid_seq_hint(actual: usize, expected: usize, path: &mut Path) -> (error: Error)
        ensures
            error.has(
                Category::InvalidInput,
                invalid_seq_hint_message(actual, expected),
                PositionView::Path(old(path)@),
            ),
            final(path)@ == Seq::<SegmentView>::empty(),
    {
        Error::with_position(
            Category::InvalidInput,
            got_expected(
                "invalid sequence length hint (got ",
                format_unsigned(actual as u128).as_str(),
                format_unsigned(expected as u128).as_str(),
            ),
            Position::Path(path.take()),
        )
    }

    /// A sequence holds more elements than it announced. The path is drained
    /// into the error.
    pub fn invalid_seq_len(actual: usize, expected: usize, path: &mut Path) -> (error: Error)
        ensures
            error.has(
                Category::InvalidInput,
                invalid_seq_len_message(actual, expected),
                PositionView::Path(old(path)@),
            ),
            final(path)@ == Seq::<SegmentView>::empty(),
    {
        Error::with_position(
            Category::InvalidInput,
            got_expected(
                "oversized sequence length (got ",
                format_unsigned(actual as u128).as_str(),
                format_unsigned(expected as u128).as_str(),
            ),
            Position::Path(path.take()),
        )
    }

    /// A sequence holds more than the `max` elements that a dialect can
    /// count.
    pub fn seq_len_limit(max: usize) -> (error: Error)
        ensures
            error.has(Category::InvalidInput, seq_len_overflow_message(max), PositionView::Nowhere),
    {
        Error::new(
            Category::InvalidInput,
            framed(
                "selected dialect cannot serialize a sequence with greater than `",
                format_unsigned(max as u128).as_str(),
                "` elements",
            ),
        )
    }

    /// A string takes more than the `max` bytes that a dialect can count.
    pub fn str_len_limit(max: usize) -> (error: Error)
        ensures
            error.has(Category::InvalidInput, str_len_overflow_message(max), PositionView::Nowhere),
    {
        Error::new(
            Category::InvalidInput,
            framed(
                "selected dialect cannot serialize a string with greater than `",
                format_unsigned(max as u128).as_str(),
                "` bytes",
            ),
        )
    }

    /// A sequence holds more than the `max` elements that the dialect can
    /// count. The path is drained into the error.
    pub fn seq_len_overflow(max: usize, path: &mut Path) -> (error: Error)
        ensures
            error.has(
                Category::InvalidInput,
                seq_len_overflow_message(max),
                PositionView::Path(old(path)@),
            ),
            final(path)@ == Seq::<SegmentView>::empty(),
    {
        Error::with_position(
            Category::InvalidInput,
            framed(
                "selected dialect cannot serialize a sequence with greater than `",
                format_unsigned(max as u128).as_str(),
                "` elements",
            ),
            Position::Path(path.take()),
        )
    }

    /// A string takes more than the `max` bytes that the dialect can count.
    /// The path is drained into the error.
    pub fn str_len_overflow(max: usize, path: &mut Path) -> (error: Error)
        ensures
            error.has(
                Category::InvalidInput,
                str_len_overflow_message(max),
                PositionView::Path(old(path)@),
            ),
            final(path)@ == Seq::<SegmentView>::empty(),
    {
        Error::with_position(
            Category::InvalidInput,
            framed(
                "selected dialect cannot serialize a string with greater than `",
                format_unsigned(max as u128).as_str(),
                "` bytes",
            ),
            Position::Path(path.take()),
        )
    }
}

/// A name between backticks.
pub open spec fn ticked(name: Seq<char>) -> Seq<char> {
    "`"@ + name + "`"@
}

/// The names from the `from`-th on, each between backticks, with `, `
/// between them.
pub open spec fn listed(names: Seq<Seq<char>>, from: int) -> Seq<char>
    decreases names.len() - from,
{
    if from < 0 || from >= names.len() {
        Seq::empty()
    } else if from == 0 {
        ticked(names[from]) + listed(names, from + 1)
    } else {
        ", "@ + ticked(names[from]) + listed(names, from + 1)
    }
}

/// The words that tell which names were expected: the name, for one; both
/// with `or` between them, for two; `one of` and the list, for more.
pub open spec fn one_of_text(names: Seq<Seq<char>>) -> Seq<char> {
    if names.len() == 1 {
        ticked(names[0])
    } else if names.len() == 2 {
        ticked(names[0]) + " or "@ + ticked(names[1])
    } else {
        "one of "@ + listed(names, 0)
    }
}

/// The views of the names.
pub open spec fn names_view(names: Seq<&str>) -> Seq<Seq<char>> {
    Seq::new(names.len(), |i: int| names[i]@)
}

fn tick(name: &str) -> (text: String)
    ensures
        text@ == ticked(name@),
{
    framed("`", name, "`")
}

/// The words that tell which names were expected.
pub fn one_of(names: &[&str]) -> (text: String)
    requires
        names@.len() > 0,
    ensures
        text@ == one_of_text(names_view(names@)),
{
    let ghost views = names_view(names@);
    if names.len() == 1 {
        return tick(names[0]);
    }
    if names.len() == 2 {
        let mut text = tick(names[0]);
        text.append(" or ");
        text.append(tick(names[1]).as_str());
        return text;
    }
    let mut index: usize = names.len();
    let mut tail = String::new();
    proof {
        assert(listed(views, index as int) =~= Seq::<char>::empty());
    }
    while index > 0
        invariant
            index <= names@.len(),
            views == names_view(names@),
            tail@ == listed(views, index as int),
        decreases index,
    {
        index -= 1;
        let mut piece = if index == 0 {
            String::new()
        } else {
            ", ".to_owned()
        };
        piece.append(tick(names[index]).as_str());
        piece.append(tail.as_str());
        proof {
            assert(views[index as int] == names@[index as int]@);
            assert(Seq::<char>::empty() + ticked(views[index as int]) =~= ticked(
                views[index as int],
            ));
            assert(piece@ =~= listed(views, index as int));
        }
        tail = piece;
    }
    let mut text = "one of ".to_owned();
    text.append(tail.as_str());
    text
}

/// The message of an error about a name that is none of the expected.
pub open spec fn unknown_message(what: Seq<char>, name: Seq<char>, expected: Seq<Seq<char>>)
    -> Seq<char> {
    if expected.len() == 0 {
        "unknown "@ + what + " `"@ + name + "`, there are no "@ + what + "s"@
    } else {
        "unknown "@ + what + " `"@ + name + "`, expected "@ + one_of_text(expected)
    }
}

fn unknown(what: &str, name: &str, expected: &[&str]) -> (text: String)
    ensures
        text@ == unknown_message(what@, name@, names_view(expected@)),
{
    let mut text = "unknown ".to_owned();
    text.append(what);
    text.append(" `");
    text.append(name);
    if expected.len() == 0 {
        text.append("`, there are no ");
        text.append(what);
        text.append("s");
    } else {
        text.append("`, expected ");
        text.append(one_of(expected).as_str());
    }
    text
}

impl Error {
    /// A failure that a caller's own data model raised, with its message.
    pub fn custom(message: String) -> (error: Error)
        ensures
            error.has(Category::Custom, message@, PositionView::Nowhere),
    {
        Error::new(Category::Custom, message)
    }

    /// The input names a variant that is none of the expected.
    pub fn unknown_variant(variant: &str, expected: &[&str]) -> (error: Error)
        ensures
            error.has(
                Category::InvalidData,
                unknown_message("variant"@, variant@, names_view(expected@)),
                PositionView::Nowhere,
            ),
    {
        Error::new(Category::InvalidData, unknown("variant", variant, expected))
    }

    /// The input names a field that is none of the expected.
    pub fn unknown_field(field: &str, expected: &[&str]) -> (error: Error)
        ensures
            error.has(
                Category::InvalidData,
                unknown_message("field"@, field@, names_view(expected@)),
                PositionView::Nowhere,
            ),
    {
        Error::new(Category::InvalidData, unknown("field", field, expected))
    }

    /// The input lacks a field.
    pub fn missing_field(field: &str) -> (error: Error)
        ensures
            error.has(
                Category::InvalidData,
                "missing field `"@ + field@ + "`"@,
                PositionView::Nowhere,
            ),
    {
        Error::new(Category::InvalidData, framed("missing field `", field, "`"))
    }

    /// The input holds a field twice.
    pub fn duplicate_field(field: &str) -> (error: Error)
        ensures
            error.has(
                Category::InvalidData,
                "duplicate field `"@ + field@ + "`"@,
                PositionView::Nowhere,
            ),
    {
        Error::new(Category::InvalidData, framed("duplicate field `", field, "`"))
    }
}

} // verus!
