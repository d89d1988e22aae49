//! The playback position.

use vstd::prelude::*;

verus! {

/// Where playback stands: a section, a line of it, a sub-line of that line.
#[derive(Clone, Debug, PartialEq, Eq)]
pub struct Cursor {
    section: String,
    line_index: usize,
    phrase_index: usize,
}

/// Model of a cursor.
pub struct CursorView {
    pub section: Seq<char>,
    pub line_index: nat,
    pub phrase_index: nat,
}

impl CursorView {
    /// The start of section `name`.
    pub open spec fn at(name: Seq<char>) -> CursorView {
        CursorView { section: name, line_index: 0, phrase_index: 0 }
    }

    /// The next sub-line of the same line.
    pub open spec fn next_phrase(self) -> CursorView {
        CursorView { phrase_index: self.phrase_index + 1, ..self }
    }

    /// The first sub-line of the next line.
    pub open spec fn next_line(self) -> CursorView {
        CursorView { line_index: self.line_index + 1, phrase_index: 0, ..self }
    }
}

impl View for Cursor {
    type V = CursorView;

    closed spec fn view(&self) -> CursorView {
        CursorView {
            section: self.section@,
            line_index: self.line_index as nat,
            phrase_index: self.phrase_index as nat,
        }
    }
}

impl Cursor {
    /// A cursor at the start of section `section`.
    pub fn new(section: String) -> (c: Cursor)
        ensures
            c@ == CursorView::at(section@),
    {
        Cursor { section, line_index: 0, phrase_index: 0 }
    }

    /// Jumps to the start of section `name`, whether or not a document
    /// has such a section: a lookup at a cursor in an unknown section
    /// finds no line.
    pub fn set_section(&mut self, name: String)
        ensures
            final(self)@ == CursorView::at(name@),
    {
        self.section = name;
        self.line_index = 0;
        self.phrase_index = 0;
    }

    /// Name of the section the cursor is in.
    pub fn section(&self) -> (r: &String)
        ensures
            r@ == self@.section,
    {
        &self.section
    }

    /// Index of the line within the section.
    pub fn line_index(&self) -> (r: usize)
        ensures
            r == self@.line_index,
    {
        self.line_index
    }

    /// Index of the sub-line within the line.
    pub fn phrase_index(&self) -> (r: usize)
        ensures
            r == self@.phrase_index,
    {
        self.phrase_index
    }

    /// Moves to the next line of the section, at its first sub-line.
    pub fn next_line_index(&mut self)
        requires
            old(self)@.line_index < usize::MAX,
        ensures
            final(self)@ == old(self)@.next_line(),
    {
        self.line_index = self.line_index + 1;
        self.phrase_index = 0;
    }

    /// Moves to the next sub-line of the same line.
    pub fn next_phrase_index(&mut self)
        requires
            old(self)@.phrase_index < usize::MAX,
        ensures
            final(self)@ == old(self)@.next_phrase(),
    {
        self.phrase_index = self.phrase_index + 1;
    }
}

} // verus!
