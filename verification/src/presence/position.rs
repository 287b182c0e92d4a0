//! Cursor positions and selections in a document.

use vstd::prelude::*;

verus! {

/// Cursor position in a document.
#[derive(Debug, Clone, Copy)]
pub struct CursorPosition {
    /// Field name (for documents with multiple text fields)
    pub field: Option<u32>,
    /// Line number (0-indexed)
    pub line: u32,
    /// Column number (0-indexed)
    pub column: u32,
    /// Character offset from document start
    pub offset: u32,
}

impl CursorPosition {
    /// Create a new cursor position.
    pub fn new(offset: u32) -> (position: CursorPosition)
        ensures
            position == (CursorPosition { field: None, line: 0, column: offset, offset }),
    {
        CursorPosition { field: None, line: 0, column: offset, offset }
    }

    /// Create with line and column.
    pub fn at(line: u32, column: u32) -> (position: CursorPosition)
        ensures
            position == (CursorPosition { field: None, line, column, offset: 0 }),
    {
        CursorPosition { field: None, line, column, offset: 0 }
    }

    /// Set the field.
    pub fn with_field(self, field: u32) -> (position: CursorPosition)
        ensures
            position == (CursorPosition { field: Some(field), ..self }),
    {
        CursorPosition {
            field: Some(field),
            line: self.line,
            column: self.column,
            offset: self.offset,
        }
    }
}

/// Selection direction.
#[derive(Debug, Clone, Copy, PartialEq, Eq, Structural)]
pub enum SelectionDirection {
    /// No direction (collapsed)
    Undirected,
    /// Selection goes forward (start < end)
    Forward,
    /// Selection goes backward (start > end)
    Backward,
}

impl CursorPosition {
    /// Whether this position comes before another: by their offsets, and at the same
    /// offset by line and column, which alone tell positions apart that were given so.
    pub open spec fn before(self, other: CursorPosition) -> bool {
        ||| self.offset < other.offset
        ||| self.offset == other.offset && self.line < other.line
        ||| self.offset == other.offset && self.line == other.line && self.column < other.column
    }

    /// Whether this position comes before another.
    pub fn is_before(&self, other: &CursorPosition) -> (before: bool)
        ensures
            before == self.before(*other),
    {
        self.offset < other.offset || self.offset == other.offset && (self.line < other.line
            || self.line == other.line && self.column < other.column)
    }
}

/// The direction from one position to another.
pub open spec fn direction_of(start: CursorPosition, end: CursorPosition) -> SelectionDirection {
    if start.before(end) {
        SelectionDirection::Forward
    } else if end.before(start) {
        SelectionDirection::Backward
    } else {
        SelectionDirection::Undirected
    }
}

/// Selection range in a document.
#[derive(Debug, Clone, Copy)]
pub struct SelectionRange {
    /// Start position
    pub start: CursorPosition,
    /// End position
    pub end: CursorPosition,
    /// Selection direction
    pub direction: SelectionDirection,
}

impl SelectionRange {
    /// Create a new selection range. Its direction is that from the start to the end.
    pub fn new(start: CursorPosition, end: CursorPosition) -> (range: SelectionRange)
        ensures
            range == (SelectionRange { start, end, direction: direction_of(start, end) }),
    {
        let direction = if start.is_before(&end) {
            SelectionDirection::Forward
        } else if end.is_before(&start) {
            SelectionDirection::Backward
        } else {
            SelectionDirection::Undirected
        };
        SelectionRange { start, end, direction }
    }

    /// Create a collapsed selection (cursor).
    pub fn collapsed(pos: CursorPosition) -> (range: SelectionRange)
        ensures
            range == (SelectionRange { start: pos, end: pos, direction: SelectionDirection::Undirected }),
    {
        SelectionRange { start: pos, end: pos, direction: SelectionDirection::Undirected }
    }

    /// Check if selection is collapsed.
    pub fn is_collapsed(&self) -> (collapsed: bool)
        ensures
            collapsed == (self.start.offset == self.end.offset),
    {
        self.start.offset == self.end.offset
    }

    /// How far the end is past the start; zero if it is not.
    pub open spec fn spec_len(self) -> int {
        if self.start.offset <= self.end.offset {
            self.end.offset - self.start.offset
        } else {
            0
        }
    }

    /// Get selection length.
    pub fn len(&self) -> (len: u32)
        ensures
            len == self.spec_len(),
    {
        if self.start.offset <= self.end.offset {
            self.end.offset - self.start.offset
        } else {
            0
        }
    }

    /// Check if selection is empty.
    pub fn is_empty(&self) -> (empty: bool)
        ensures
            empty == (self.spec_len() == 0),
            empty == (self.end.offset <= self.start.offset),
    {
        self.len() == 0
    }
}

/// A collapsed selection is empty.
pub proof fn collapsed_selections_are_empty(range: SelectionRange)
    requires
        range.start.offset == range.end.offset,
    ensures
        range.spec_len() == 0,
{
}

/// Positions are ordered by offset; at the same offset by line, and on the same line by
/// column. A selection is undirected exactly if its ends are at the same place, and turns
/// around with its ends.
pub proof fn selections_point_from_start_to_end(start: CursorPosition, end: CursorPosition)
    ensures
        start.offset < end.offset ==> direction_of(start, end) == SelectionDirection::Forward,
        start.offset == end.offset && start.line < end.line ==> direction_of(start, end)
            == SelectionDirection::Forward,
        start.offset == end.offset && start.line == end.line && start.column < end.column
            ==> direction_of(start, end) == SelectionDirection::Forward,
        direction_of(start, end) == SelectionDirection::Forward <==> direction_of(end, start)
            == SelectionDirection::Backward,
        direction_of(start, end) == SelectionDirection::Undirected <==> start.offset == end.offset
            && start.line == end.line && start.column == end.column,
        start.before(end) == (direction_of(start, end) == SelectionDirection::Forward),
{
}

/// A selection that goes forward is as long as its end is past its start; any other is
/// empty.
pub proof fn selections_are_as_long_as_they_reach(range: SelectionRange)
    ensures
        range.start.offset <= range.end.offset ==> range.start.offset + range.spec_len()
            == range.end.offset,
        range.start.offset > range.end.offset ==> range.spec_len() == 0,
{
}

} // verus!
