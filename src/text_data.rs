use vstd::prelude::*;

verus! {

/// A position in source text: a 1-based line and a 0-based column.
#[derive(Debug, Clone, Copy, PartialEq, Eq, Structural)]
pub struct TextPos {
    pub line: usize,
    pub pos: usize,
}

/// The part of the source text between two positions; `end` is the position
/// right after the last character covered.
#[derive(Debug, Clone, Copy, PartialEq, Eq, Structural)]
pub struct TextRange {
    pub start: TextPos,
    pub end: TextPos,
}

/// A range whose two ends are borrowed from ranges that already exist.
#[derive(Debug, Clone, Copy)]
pub struct BorrowedTextRange<'a> {
    pub start: &'a TextPos,
    pub end: &'a TextPos,
}

pub open spec fn first_pos() -> TextPos {
    TextPos { line: 1, pos: 0 }
}

/// The empty range at the start of a text.
pub open spec fn empty_range() -> TextRange {
    TextRange { start: first_pos(), end: first_pos() }
}

/// The range that starts where `a` starts and ends where `b` ends.
pub open spec fn span_join(a: TextRange, b: TextRange) -> TextRange {
    TextRange { start: a.start, end: b.end }
}

impl TextPos {
    /// The position of the first character of a text.
    pub fn new_empty() -> (r: TextPos)
        ensures
            r == first_pos(),
    {
        TextPos { line: 1, pos: 0 }
    }
}

impl TextRange {
    /// The empty range at the start of a text.
    pub fn new_empty() -> (r: TextRange)
        ensures
            r == empty_range(),
    {
        TextRange { start: TextPos::new_empty(), end: TextPos::new_empty() }
    }

    /// The range from the start of `a` to the end of `b`.
    pub fn join(a: &TextRange, b: &TextRange) -> (r: TextRange)
        ensures
            r == span_join(*a, *b),
    {
        TextRange { start: a.start, end: b.end }
    }
}

impl<'a> BorrowedTextRange<'a> {
    /// Borrows both ends of `range`.
    pub fn from_range(range: &'a TextRange) -> (r: BorrowedTextRange<'a>)
        ensures
            *r.start == range.start,
            *r.end == range.end,
    {
        BorrowedTextRange { start: &range.start, end: &range.end }
    }

    /// The start of `a` and the end of `b`.
    pub fn from_pair(a: &BorrowedTextRange<'a>, b: &BorrowedTextRange<'a>) -> (r: BorrowedTextRange<'a>)
        ensures
            *r.start == *a.start,
            *r.end == *b.end,
    {
        BorrowedTextRange { start: a.start, end: b.end }
    }

    /// An owned copy of the two positions.
    pub fn to_range(&self) -> (r: TextRange)
        ensures
            r.start == *self.start,
            r.end == *self.end,
    {
        TextRange { start: *self.start, end: *self.end }
    }
}

} // verus!
