//! Cursors and selections in a collaborative text.

use crate::text::model::TextState;
use crate::text::node::CharId;
use crate::text::rga::RgaText;
use vstd::prelude::*;

verus! {

/// Cursor position in collaborative text.
#[derive(Debug, Clone, Copy)]
pub struct TextCursor {
    /// Character ID the cursor is after
    pub after: CharId,
    /// Visual offset from start
    pub offset: usize,
}

/// The character that a cursor at an offset stands after: the visible character
/// before it, or the root if there is none.
pub open spec fn character_before(text: TextState, offset: nat) -> CharId {
    if 0 < offset <= text.shown().len() {
        text.shown()[offset - 1]
    } else {
        CharId::spec_root()
    }
}

impl TextCursor {
    /// The cursor at an offset of a text.
    pub open spec fn spec_at(offset: usize, text: TextState) -> TextCursor {
        TextCursor { after: character_before(text, offset as nat), offset }
    }

    /// The cursor one character to the left, or the same cursor at the start.
    pub open spec fn moved_left(self, text: TextState) -> TextCursor {
        if self.offset > 0 {
            TextCursor::spec_at((self.offset - 1) as usize, text)
        } else {
            self
        }
    }

    /// The cursor one character to the right, or the same cursor at the end of
    /// the text or past it.
    pub open spec fn moved_right(self, text: TextState) -> TextCursor {
        if self.offset < text.chars().len() {
            TextCursor::spec_at((self.offset + 1) as usize, text)
        } else {
            self
        }
    }

    /// Create a cursor at a position.
    pub fn at(offset: usize, text: &RgaText) -> (cursor: TextCursor)
        requires
            text.wf(),
        ensures
            cursor == TextCursor::spec_at(offset, text@),
    {
        let after = if offset == 0 {
            CharId::root()
        } else {
            match text.visible_id_at_position(offset - 1) {
                Some(id) => id,
                None => CharId::root(),
            }
        };
        TextCursor { after, offset }
    }

    /// Move cursor left. At the start it stays as it is.
    pub fn move_left(&mut self, text: &RgaText)
        requires
            text.wf(),
        ensures
            *final(self) == old(self).moved_left(text@),
    {
        if self.offset > 0 {
            *self = TextCursor::at(self.offset - 1, text);
        }
    }

    /// Move cursor right. At the end of the text, or past it, it stays as it is.
    pub fn move_right(&mut self, text: &RgaText)
        requires
            text.wf(),
        ensures
            *final(self) == old(self).moved_right(text@),
    {
        if self.offset < text.len() {
            *self = TextCursor::at(self.offset + 1, text);
        }
    }
}

/// A move and the move back leave a cursor where it was, unless the first of the
/// two stops at an end of the text.
pub proof fn moves_undo_each_other(cursor: TextCursor, text: TextState)
    requires
        cursor == TextCursor::spec_at(cursor.offset, text),
        text.chars().len() <= usize::MAX,
    ensures
        cursor.offset < text.chars().len() ==> cursor.moved_right(text).moved_left(text) == cursor,
        0 < cursor.offset <= text.chars().len() ==> cursor.moved_left(text).moved_right(text)
            == cursor,
{
}

/// Text selection in collaborative text.
#[derive(Debug, Clone, Copy)]
pub struct TextSelection {
    /// Anchor position
    pub anchor: usize,
    /// Focus (cursor) position
    pub focus: usize,
}

impl TextSelection {
    /// The smaller of the two positions.
    pub open spec fn spec_start(self) -> usize {
        if self.anchor < self.focus {
            self.anchor
        } else {
            self.focus
        }
    }

    /// The larger of the two positions.
    pub open spec fn spec_end(self) -> usize {
        if self.anchor < self.focus {
            self.focus
        } else {
            self.anchor
        }
    }

    /// Create a collapsed selection (cursor).
    pub fn cursor(pos: usize) -> (selection: TextSelection)
        ensures
            selection == (TextSelection { anchor: pos, focus: pos }),
    {
        TextSelection { anchor: pos, focus: pos }
    }

    /// Create a selection range.
    pub fn range(start: usize, end: usize) -> (selection: TextSelection)
        ensures
            selection == (TextSelection { anchor: start, focus: end }),
    {
        TextSelection { anchor: start, focus: end }
    }

    /// Check if selection is collapsed (cursor).
    pub fn is_collapsed(&self) -> (collapsed: bool)
        ensures
            collapsed == (self.anchor == self.focus),
    {
        self.anchor == self.focus
    }

    /// Get the start of the selection.
    pub fn start(&self) -> (start: usize)
        ensures
            start == self.spec_start(),
            start <= self.anchor,
            start <= self.focus,
    {
        if self.anchor < self.focus {
            self.anchor
        } else {
            self.focus
        }
    }

    /// Get the end of the selection.
    pub fn end(&self) -> (end: usize)
        ensures
            end == self.spec_end(),
            self.anchor <= end,
            self.focus <= end,
    {
        if self.anchor < self.focus {
            self.focus
        } else {
            self.anchor
        }
    }

    /// Get selection length: the distance of the two positions.
    pub fn len(&self) -> (len: usize)
        ensures
            len == self.spec_end() - self.spec_start(),
    {
        self.end() - self.start()
    }

    /// Check if selection is empty.
    pub fn is_empty(&self) -> (empty: bool)
        ensures
            empty == (self.anchor == self.focus),
            empty == (self.spec_end() == self.spec_start()),
    {
        self.is_collapsed()
    }
}

/// A cursor stands after the visible character before its offset, and after the beginning
/// of the document at the start and past the end.
pub proof fn cursors_stand_after_a_character(offset: usize, text: TextState)
    ensures
        TextCursor::spec_at(offset, text).offset == offset,
        0 < offset <= text.shown().len() ==> TextCursor::spec_at(offset, text).after
            == text.shown()[offset - 1],
        offset == 0 || offset > text.shown().len() ==> TextCursor::spec_at(offset, text).after
            == CharId::spec_root(),
{
}

/// A move takes a cursor one character further, and stops at the ends of the text.
pub proof fn moves_go_one_character(cursor: TextCursor, text: TextState)
    requires
        text.chars().len() <= usize::MAX,
    ensures
        ({
            let left = cursor.moved_left(text);
            let right = cursor.moved_right(text);
            &&& cursor.offset == 0 ==> left == cursor
            &&& cursor.offset > 0 ==> left.offset == cursor.offset - 1
            &&& 1 < cursor.offset <= text.shown().len() + 1 ==> left.after
                == text.shown()[cursor.offset - 2]
            &&& cursor.offset == 1 ==> left.after == CharId::spec_root()
            &&& cursor.offset >= text.chars().len() ==> right == cursor
            &&& cursor.offset < text.chars().len() ==> right.offset == cursor.offset + 1
                && right.after == text.shown()[cursor.offset as int]
        }),
{
}

/// A selection starts at the smaller of its two positions and ends at the larger, whichever
/// of the two is the anchor.
pub proof fn selections_start_at_the_smaller_position(selection: TextSelection)
    ensures
        selection.anchor <= selection.focus ==> selection.spec_start() == selection.anchor
            && selection.spec_end() == selection.focus,
        selection.anchor > selection.focus ==> selection.spec_start() == selection.focus
            && selection.spec_end() == selection.anchor,
{
}

} // verus!
