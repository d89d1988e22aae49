//! What holds of every document and every walk through it.

use vstd::prelude::*;
use crate::cursor::CursorView;
use crate::model::{first_named, lemma_find_first, DialogView, LineView};

verus! {

/// The cursor `c` moved to sub-line `k` of its line.
pub open spec fn at_phrase(c: CursorView, k: nat) -> CursorView {
    CursorView { phrase_index: k, ..c }
}

/// The cursor `c` moved `k` lines on, at the first sub-line.
pub open spec fn lines_on(c: CursorView, k: nat) -> CursorView {
    CursorView { line_index: c.line_index + k, phrase_index: 0, ..c }
}

/// The first line of a sequence of lines, if it has one.
pub open spec fn first_line(lines: Seq<LineView>) -> Option<LineView> {
    if lines.len() > 0 {
        Some(lines[0])
    } else {
        None
    }
}

/// In a document with distinct names, a section is found under its name.
pub proof fn lemma_find_section(d: DialogView, i: int)
    requires
        d.wf(),
        0 <= i < d.sections.len(),
    ensures
        d.find(d.sections[i].name) == Some(i),
        d.lines_of(d.sections[i].name) == Some(d.sections[i].lines),
{
    let name = d.sections[i].name;
    assert forall|j: int| 0 <= j < i implies (#[trigger] d.sections[j]).name != name by {
        assert(d.sections[j].name != d.sections[i].name);
    }
    assert(first_named(d.sections, name, i));
    lemma_find_first(d, name, i);
}

/// A cursor at the start of the entry section shows the first line of
/// the entry section, and, where that is a phrase, its first sub-line.
pub proof fn lemma_start_shows_first_line(d: DialogView)
    requires
        d.wf(),
    ensures
        d.line_at(CursorView::at(d.entry())) == first_line(d.sections[0].lines),
        match first_line(d.sections[0].lines) {
            Some(LineView::Phrase { lines, .. }) => d.sub_line_at(CursorView::at(d.entry()))
                == Some(lines[0]),
            _ => true,
        },
{
    lemma_find_section(d, 0);
    lemma_jump_shows_first_line(d, 0);
}

/// A cursor that jumped to an existing section shows the first line of
/// that section, and, where that is a phrase, its first sub-line.
pub proof fn lemma_jump_shows_first_line(d: DialogView, i: int)
    requires
        d.wf(),
        0 <= i < d.sections.len(),
    ensures
        d.line_at(CursorView::at(d.sections[i].name)) == first_line(d.sections[i].lines),
        match first_line(d.sections[i].lines) {
            Some(LineView::Phrase { lines, .. }) => d.sub_line_at(
                CursorView::at(d.sections[i].name),
            ) == Some(lines[0]),
            _ => true,
        },
{
    lemma_find_section(d, i);
    let lines = d.sections[i].lines;
    if lines.len() > 0 {
        assert(d.line_at(CursorView::at(d.sections[i].name)) == Some(lines[0]));
    }
}

/// A cursor that jumped to a name that no section has shows no line.
pub proof fn lemma_jump_to_unknown_shows_nothing(d: DialogView, name: Seq<char>)
    requires
        crate::model::lacks(d.sections, name),
    ensures
        d.line_at(CursorView::at(name)).is_none(),
{
}

/// From the first sub-line of a phrase, `k` steps lead to its sub-line
/// `k`, as long as the phrase has one.
pub proof fn lemma_steps_inside_phrase(d: DialogView, c: CursorView, k: nat)
    requires
        c.phrase_index == 0,
        match d.line_at(c) {
            Some(LineView::Phrase { lines, .. }) => k < lines.len(),
            _ => false,
        },
    ensures
        d.advance_n(c, k) == at_phrase(c, k),
    decreases k,
{
    if k > 0 {
        lemma_steps_inside_phrase(d, c, (k - 1) as nat);
        let b = at_phrase(c, (k - 1) as nat);
        assert(d.line_at(b) == d.line_at(c));
    }
}

/// From the first sub-line of a phrase with N sub-lines, N steps lead to
/// the start of the next line of the section.
pub proof fn lemma_phrase_takes_its_sub_lines(d: DialogView, c: CursorView)
    requires
        d.wf(),
        c.phrase_index == 0,
        d.line_at(c) matches Some(LineView::Phrase { .. }),
    ensures
        match d.line_at(c) {
            Some(LineView::Phrase { lines, .. }) => d.advance_n(c, lines.len()) == c.next_line(),
            _ => false,
        },
{
    lemma_line_at_is_filled(d, c);
    match d.line_at(c) {
        Some(LineView::Phrase { lines, .. }) => {
            let n: nat = lines.len();
            lemma_steps_inside_phrase(d, c, (n - 1) as nat);
            let b = at_phrase(c, (n - 1) as nat);
            assert(d.line_at(b) == d.line_at(c));
            assert(d.advance(b) == c.next_line());
        },
        _ => {},
    }
}

/// In a document, a phrase that a cursor shows has a sub-line.
pub proof fn lemma_line_at_is_filled(d: DialogView, c: CursorView)
    requires
        d.wf(),
    ensures
        match d.line_at(c) {
            Some(LineView::Phrase { lines, .. }) => lines.len() > 0,
            _ => true,
        },
{
    crate::model::lemma_find_is_first(d, c.section);
    match d.find(c.section) {
        Some(i) => {
            assert(first_named(d.sections, c.section, i));
            let lines = d.sections[i].lines;
            assert(crate::model::phrases_filled(lines));
            if c.line_index < lines.len() {
                let l = lines[c.line_index as int];
            }
        },
        None => {},
    }
}

/// Every line of `lines` from `from` on is a phrase of one sub-line.
pub open spec fn single_phrases_from(lines: Seq<LineView>, from: nat) -> bool {
    forall|j: int|
        from <= j < lines.len() ==> match #[trigger] lines[j] {
            LineView::Phrase { lines: subs, .. } => subs.len() == 1,
            LineView::Menu(_) => false,
        }
}

/// Where every line from the cursor's on is a phrase of one sub-line,
/// `k` steps lead `k` lines on, up to the end of the section.
pub proof fn lemma_steps_over_single_phrases(
    d: DialogView,
    c: CursorView,
    lines: Seq<LineView>,
    k: nat,
)
    requires
        d.lines_of(c.section) == Some(lines),
        c.phrase_index == 0,
        single_phrases_from(lines, c.line_index),
        c.line_index + k <= lines.len(),
    ensures
        d.advance_n(c, k) == lines_on(c, k),
    decreases k,
{
    if k > 0 {
        lemma_steps_over_single_phrases(d, c, lines, (k - 1) as nat);
        let b = lines_on(c, (k - 1) as nat);
        assert(d.line_at(b) == Some(lines[b.line_index as int]));
        assert(d.advance(b) == b.next_line());
    }
}

/// Where every line from the cursor's on is a phrase of one sub-line,
/// as many steps as lines are left lead past the end of the section,
/// where no line is shown.
pub proof fn lemma_single_phrases_reach_end(d: DialogView, c: CursorView, lines: Seq<LineView>)
    requires
        d.lines_of(c.section) == Some(lines),
        c.phrase_index == 0,
        c.line_index <= lines.len(),
        single_phrases_from(lines, c.line_index),
    ensures
        d.advance_n(c, (lines.len() - c.line_index) as nat) == lines_on(
            c,
            (lines.len() - c.line_index) as nat,
        ),
        d.line_at(d.advance_n(c, (lines.len() - c.line_index) as nat)).is_none(),
{
    lemma_steps_over_single_phrases(d, c, lines, (lines.len() - c.line_index) as nat);
}

} // verus!
