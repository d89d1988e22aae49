//! Walking a document with a cursor: lookup, advance, menu choice.

use vstd::prelude::*;
use vstd::string::StrSliceExecFns;
use crate::cursor::{Cursor, CursorView};
use crate::text::strip_anchor;
use crate::model::{
    first_named, lemma_find_first, section_views, Dialog, DialogView, Line, LineView, Menu,
    MenuOption, MenuOptionView, Section, Speaker, SpeakerView,
};

verus! {

/// What the caller asks of a playback session.
#[derive(Clone, Copy, Debug, PartialEq, Eq)]
pub enum Action {
    /// Show the next sub-line, or the next line.
    Advance,
    /// Take the menu option with this index.
    SelectOption(usize),
    /// Leave the dialogue.
    Exit,
}

/// The section that an option leads to: its first argument, anchor stripped.
pub open spec fn target_of(o: MenuOptionView) -> Option<Seq<char>> {
    if o.args.len() > 0 {
        Some(strip_anchor(o.args[0]))
    } else {
        None
    }
}

/// The name shown for a speaker: the override, else the alias; none for the narrator.
pub open spec fn shown_name(s: SpeakerView) -> Option<Seq<char>> {
    match s {
        SpeakerView::Narrator => None,
        SpeakerView::Character(alias, Some(name)) => Some(name),
        SpeakerView::Character(alias, None) => Some(alias),
    }
}

/// The model of a line that may be missing.
pub open spec fn line_opt(o: Option<&Line>) -> Option<LineView> {
    match o {
        Some(l) => Some(l@),
        None => None,
    }
}

/// The characters of a string that may be missing.
pub open spec fn name_opt(o: Option<&String>) -> Option<Seq<char>> {
    match o {
        Some(s) => Some(s@),
        None => None,
    }
}

impl DialogView {
    /// The line at a cursor: none where the section is unknown or the
    /// line index is past the section's end.
    pub open spec fn line_at(self, c: CursorView) -> Option<LineView> {
        match self.lines_of(c.section) {
            Some(lines) => if c.line_index < lines.len() {
                Some(lines[c.line_index as int])
            } else {
                None
            },
            None => None,
        }
    }

    /// The sub-line at a cursor, where it stands on a phrase and inside it.
    pub open spec fn sub_line_at(self, c: CursorView) -> Option<Seq<char>> {
        match self.line_at(c) {
            Some(LineView::Phrase { lines, .. }) => if c.phrase_index < lines.len() {
                Some(lines[c.phrase_index as int])
            } else {
                None
            },
            _ => None,
        }
    }

    /// One step forward. On a phrase: to its next sub-line, or past its
    /// last one to the next line. On a menu or on no line: no move.
    pub open spec fn advance(self, c: CursorView) -> CursorView {
        match self.line_at(c) {
            Some(LineView::Phrase { lines, .. }) => if c.phrase_index + 1 < lines.len() {
                c.next_phrase()
            } else {
                c.next_line()
            },
            _ => c,
        }
    }

    /// `n` steps forward.
    pub open spec fn advance_n(self, c: CursorView, n: nat) -> CursorView
        decreases n,
    {
        if n == 0 {
            c
        } else {
            self.advance(self.advance_n(c, (n - 1) as nat))
        }
    }

    /// Where option `index` of the menu at `c` leads: none where `c` is
    /// not on a menu, the menu has no such option, or the option no target.
    pub open spec fn select(self, c: CursorView, index: nat) -> Option<CursorView> {
        match self.line_at(c) {
            Some(LineView::Menu(m)) => if index < m.options.len() {
                match target_of(m.options[index as int]) {
                    Some(t) => Some(CursorView::at(t)),
                    None => None,
                }
            } else {
                None
            },
            _ => None,
        }
    }

    /// The cursor after an action.
    pub open spec fn apply(self, c: CursorView, a: Action) -> CursorView {
        match a {
            Action::Advance => self.advance(c),
            Action::SelectOption(i) => match self.select(c, i as nat) {
                Some(t) => t,
                None => c,
            },
            Action::Exit => c,
        }
    }
}

impl Speaker {
    /// The name to show for the speaker, if it is a character.
    pub fn display_name(&self) -> (r: Option<&String>)
        ensures
            name_opt(r) == shown_name(self@),
    {
        match self {
            Speaker::Narrator => None,
            Speaker::Character(alias, Some(name)) => Some(name),
            Speaker::Character(alias, None) => Some(&alias.0),
        }
    }
}

impl MenuOption {
    /// The section this option leads to.
    pub fn target(&self) -> (r: Option<String>)
        ensures
            crate::model::text_opt(r) == target_of(self@),
    {
        if self.args.len() == 0 {
            return None;
        }
        let s: &str = self.args[0].as_str();
        let n: usize = s.unicode_len();
        if n > 0 && s.get_char(0) == '#' {
            let rest: &str = s.substring_char(1, n);
            Some(rest.to_owned())
        } else {
            Some(s.to_owned())
        }
    }
}

impl Dialog {
    /// Index of the first section called `name`.
    pub fn find_section(&self, name: &String) -> (r: Option<usize>)
        ensures
            match r {
                Some(i) => first_named(self@.sections, name@, i as int) && self@.find(name@) == Some(
                    i as int,
                ),
                None => self@.find(name@).is_none(),
            },
    {
        let secs: &Vec<Section> = self.sections();
        let mut i: usize = 0;
        while i < secs.len()
            invariant
                i <= secs.len(),
                section_views(secs@) == self@.sections,
                forall|j: int| 0 <= j < i ==> (#[trigger] self@.sections[j]).name != name@,
            decreases secs.len() - i,
        {
            if secs[i].name == *name {
                proof {
                    lemma_find_first(self@, name@, i as int);
                }
                return Some(i);
            }
            i = i + 1;
        }
        None
    }

    /// The line at the cursor; none where its section is unknown or its
    /// line index is past the section's end. Never moves the cursor.
    pub fn get_line_by_cursor(&self, cursor: &Cursor) -> (r: Option<&Line>)
        ensures
            line_opt(r) == self@.line_at(cursor@),
            r.is_some() ==> cursor@.line_index < usize::MAX,
    {
        match self.find_section(cursor.section()) {
            Some(i) => {
                let secs: &Vec<Section> = self.sections();
                assert(section_views(secs@)[i as int] == secs@[i as int]@);
                let lines: &Vec<Line> = &secs[i].lines;
                let k: usize = cursor.line_index();
                if k < lines.len() {
                    Some(&lines[k])
                } else {
                    None
                }
            },
            None => None,
        }
    }

    /// The sub-line at the cursor. The cursor must stand on a phrase and
    /// inside it: a cursor off its phrase is an error of the caller.
    pub fn get_sub_line_by_cursor(&self, cursor: &Cursor) -> (r: &String)
        requires
            self@.sub_line_at(cursor@).is_some(),
        ensures
            Some(r@) == self@.sub_line_at(cursor@),
    {
        match self.get_line_by_cursor(cursor) {
            Some(Line::Phrase { speaker, lines }) => &lines[cursor.phrase_index()],
            _ => vstd::pervasive::unreached(),
        }
    }

    /// Whether the cursor stands on a sub-line of a phrase.
    pub fn has_sub_line(&self, cursor: &Cursor) -> (r: bool)
        ensures
            r == self@.sub_line_at(cursor@).is_some(),
    {
        match self.get_line_by_cursor(cursor) {
            Some(Line::Phrase { speaker, lines }) => cursor.phrase_index() < lines.len(),
            _ => false,
        }
    }

    /// One step forward from a phrase; says whether the cursor moved.
    pub fn advance(&self, cursor: &mut Cursor) -> (moved: bool)
        ensures
            final(cursor)@ == self@.advance(old(cursor)@),
            moved == (self@.line_at(old(cursor)@) matches Some(LineView::Phrase { .. })),
    {
        match self.get_line_by_cursor(cursor) {
            Some(Line::Phrase { speaker, lines }) => {
                if cursor.phrase_index() < lines.len() && cursor.phrase_index() + 1 < lines.len() {
                    cursor.next_phrase_index();
                } else {
                    cursor.next_line_index();
                }
                true
            },
            _ => false,
        }
    }

    /// Takes option `index` of the menu at the cursor: the cursor jumps
    /// to the start of the option's target. Says whether it jumped.
    pub fn select_option(&self, cursor: &mut Cursor, index: usize) -> (jumped: bool)
        ensures
            match self@.select(old(cursor)@, index as nat) {
                Some(c) => jumped && final(cursor)@ == c,
                None => !jumped && final(cursor)@ == old(cursor)@,
            },
    {
        let target: Option<String> = match self.get_line_by_cursor(cursor) {
            Some(Line::Menu(menu)) => {
                if index < menu.options.len() {
                    menu.options[index].target()
                } else {
                    None
                }
            },
            _ => None,
        };
        match target {
            Some(name) => {
                cursor.set_section(name);
                true
            },
            None => false,
        }
    }

    /// Performs one action; says whether the dialogue is over after it.
    pub fn dispatch(&self, cursor: &mut Cursor, action: Action) -> (finished: bool)
        ensures
            final(cursor)@ == self@.apply(old(cursor)@, action),
            finished == (action == Action::Exit || self@.line_at(final(cursor)@).is_none()),
    {
        match action {
            Action::Advance => {
                self.advance(cursor);
            },
            Action::SelectOption(i) => {
                self.select_option(cursor, i);
            },
            Action::Exit => {
                return true;
            },
        }
        self.get_line_by_cursor(cursor).is_none()
    }

    /// A cursor at the start of the entry section.
    pub fn start(&self) -> (c: Cursor)
        requires
            self.wf(),
        ensures
            c@ == CursorView::at(self@.entry()),
    {
        let secs: &Vec<Section> = self.sections();
        Cursor::new(secs[0].name.clone())
    }
}

} // verus!
