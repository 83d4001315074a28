//! Source positions and position-annotated (spanned) values.
//!
//! A position is a triple of character index, line, and column, all
//! zero-based and measured from the start of the query document.

use vstd::prelude::*;

verus! {

/// A zero-based position inside a query source: absolute character index,
/// line number, and column within that line.
#[derive(Clone, Copy, PartialEq, Eq, Debug)]
pub struct SourcePosition {
    pub index: usize,
    pub line: usize,
    pub col: usize,
}

impl SourcePosition {
    /// Build a position from its three components.
    pub fn new(index: usize, line: usize, col: usize) -> (r: SourcePosition)
        ensures
            r.index == index,
            r.line == line,
            r.col == col,
    {
        SourcePosition { index, line, col }
    }

    /// The position of the very first character of a document.
    pub fn origin() -> (r: SourcePosition)
        ensures
            r.index == 0,
            r.line == 0,
            r.col == 0,
    {
        SourcePosition { index: 0, line: 0, col: 0 }
    }

    /// The position one character further on, where the character stepped
    /// over is `c`: a line feed starts a new line, anything else moves one
    /// column to the right.
    pub fn advanced_by(&self, c: char) -> (r: SourcePosition)
        requires
            self.index < usize::MAX,
            self.line < usize::MAX,
            self.col < usize::MAX,
        ensures
            r == self.spec_advanced_by(c),
    {
        if c == '\n' {
            SourcePosition { index: self.index + 1, line: self.line + 1, col: 0 }
        } else {
            SourcePosition { index: self.index + 1, line: self.line, col: self.col + 1 }
        }
    }

    /// What stepping over `c` does to a position.
    pub open spec fn spec_advanced_by(self, c: char) -> SourcePosition {
        if c == '\n' {
            SourcePosition { index: (self.index + 1) as usize, line: (self.line + 1) as usize, col: 0 }
        } else {
            SourcePosition { index: (self.index + 1) as usize, line: self.line, col: (self.col + 1) as usize }
        }
    }
}

/// A value together with the source span it was read from: `start` is the
/// position of its first character, `end` the position one past its last.
#[derive(PartialEq, Eq, Debug)]
pub struct Spanning<T> {
    pub item: T,
    pub start: SourcePosition,
    pub end: SourcePosition,
}

/// The mathematical model of a spanned value: the model of the value plus
/// the two positions.
pub struct SpanningV<V> {
    pub item: V,
    pub start: SourcePosition,
    pub end: SourcePosition,
}

impl<T: View> View for Spanning<T> {
    type V = SpanningV<T::V>;

    open spec fn view(&self) -> SpanningV<T::V> {
        SpanningV { item: self.item@, start: self.start, end: self.end }
    }
}

impl<T> Spanning<T> {
    /// Annotate `item` with the span from `start` to `end`.
    pub fn new(item: T, start: SourcePosition, end: SourcePosition) -> (r: Spanning<T>)
        ensures
            r.item == item,
            r.start == start,
            r.end == end,
    {
        Spanning { item, start, end }
    }

    /// Annotate `item` with the empty span at `pos`.
    pub fn zero_width(item: T, pos: SourcePosition) -> (r: Spanning<T>)
        ensures
            r.item == item,
            r.start == pos,
            r.end == pos,
    {
        Spanning { item, start: pos, end: pos }
    }
}

} // verus!
