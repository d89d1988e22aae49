//! The dialogue document and its mathematical model.

use vstd::prelude::*;

verus! {

/// Identifier of a character, used for lookup and localisation.
#[derive(Clone, Debug, PartialEq, Eq)]
pub struct Alias(pub String);

/// Who utters a phrase.
#[derive(Clone, Debug, PartialEq, Eq)]
pub enum Speaker {
    Narrator,
    /// A character, by alias, with an optional name to display instead.
    Character(Alias, Option<String>),
}

/// One choice of a menu. The first argument is the link target.
#[derive(Clone, Debug, PartialEq, Eq)]
pub struct MenuOption {
    pub title: Option<String>,
    pub args: Vec<String>,
}

/// A branch point.
#[derive(Clone, Debug, PartialEq, Eq)]
pub struct Menu {
    pub title: Option<String>,
    pub options: Vec<MenuOption>,
}

/// One line of a section.
#[derive(Clone, Debug, PartialEq, Eq)]
pub enum Line {
    /// Consecutive sub-lines of one speaker, shown one at a time.
    Phrase { speaker: Speaker, lines: Vec<String> },
    Menu(Menu),
}

/// A named, ordered block of lines.
#[derive(Clone, Debug, PartialEq, Eq)]
pub struct Section {
    pub name: String,
    pub lines: Vec<Line>,
}

/// A parsed script: its sections in source order. The first is the entry.
#[derive(Clone, Debug, PartialEq, Eq)]
pub struct Dialog {
    pub(crate) sections: Vec<Section>,
}

/// Model of a speaker: alias and name as characters.
pub enum SpeakerView {
    Narrator,
    Character(Seq<char>, Option<Seq<char>>),
}

/// Model of a menu option.
pub struct MenuOptionView {
    pub title: Option<Seq<char>>,
    pub args: Seq<Seq<char>>,
}

/// Model of a menu.
pub struct MenuView {
    pub title: Option<Seq<char>>,
    pub options: Seq<MenuOptionView>,
}

/// Model of a line.
pub enum LineView {
    Phrase { speaker: SpeakerView, lines: Seq<Seq<char>> },
    Menu(MenuView),
}

/// Model of a section.
pub struct SectionView {
    pub name: Seq<char>,
    pub lines: Seq<LineView>,
}

/// Model of a document: its sections in source order.
pub struct DialogView {
    pub sections: Seq<SectionView>,
}

/// The characters of an optional string.
pub open spec fn text_opt(o: Option<String>) -> Option<Seq<char>> {
    match o {
        Some(s) => Some(s@),
        None => None,
    }
}

/// The characters of each string of a sequence.
pub open spec fn texts(v: Seq<String>) -> Seq<Seq<char>> {
    v.map_values(|s: String| s@)
}

/// The models of menu options.
pub open spec fn option_views(v: Seq<MenuOption>) -> Seq<MenuOptionView> {
    v.map_values(|o: MenuOption| o@)
}

/// The models of lines.
pub open spec fn line_views(v: Seq<Line>) -> Seq<LineView> {
    v.map_values(|l: Line| l@)
}

/// The models of sections.
pub open spec fn section_views(v: Seq<Section>) -> Seq<SectionView> {
    v.map_values(|s: Section| s@)
}

impl View for Speaker {
    type V = SpeakerView;

    open spec fn view(&self) -> SpeakerView {
        match *self {
            Speaker::Narrator => SpeakerView::Narrator,
            Speaker::Character(alias, name) => SpeakerView::Character(alias.0@, text_opt(name)),
        }
    }
}

impl View for MenuOption {
    type V = MenuOptionView;

    open spec fn view(&self) -> MenuOptionView {
        MenuOptionView { title: text_opt(self.title), args: texts(self.args@) }
    }
}

impl View for Menu {
    type V = MenuView;

    open spec fn view(&self) -> MenuView {
        MenuView { title: text_opt(self.title), options: option_views(self.options@) }
    }
}

impl View for Line {
    type V = LineView;

    open spec fn view(&self) -> LineView {
        match *self {
            Line::Phrase { speaker, lines } => LineView::Phrase {
                speaker: speaker@,
                lines: texts(lines@),
            },
            Line::Menu(menu) => LineView::Menu(menu@),
        }
    }
}

impl View for Section {
    type V = SectionView;

    open spec fn view(&self) -> SectionView {
        SectionView { name: self.name@, lines: line_views(self.lines@) }
    }
}

impl View for Dialog {
    type V = DialogView;

    closed spec fn view(&self) -> DialogView {
        DialogView { sections: section_views(self.sections@) }
    }
}

/// No section of `secs` is called `name`.
pub open spec fn lacks(secs: Seq<SectionView>, name: Seq<char>) -> bool {
    forall|j: int| 0 <= j < secs.len() ==> (#[trigger] secs[j]).name != name
}

/// `i` is the first section of `secs` called `name`.
pub open spec fn first_named(secs: Seq<SectionView>, name: Seq<char>, i: int) -> bool {
    &&& 0 <= i < secs.len()
    &&& secs[i].name == name
    &&& forall|j: int| 0 <= j < i ==> (#[trigger] secs[j]).name != name
}

/// Section names are pairwise different.
pub open spec fn distinct_names(secs: Seq<SectionView>) -> bool {
    forall|i: int, j: int|
        0 <= i < j < secs.len() ==> (#[trigger] secs[i]).name != (#[trigger] secs[j]).name
}

/// Every phrase of `lines` has at least one sub-line.
pub open spec fn phrases_filled(lines: Seq<LineView>) -> bool {
    forall|k: int|
        0 <= k < lines.len() ==> match #[trigger] lines[k] {
            LineView::Phrase { lines: subs, .. } => subs.len() > 0,
            LineView::Menu(_) => true,
        }
}

/// Names are distinct and no phrase is empty. This is what holds of a
/// document while it is being built, when it may still lack a section.
pub open spec fn sections_ok(secs: Seq<SectionView>) -> bool {
    &&& distinct_names(secs)
    &&& forall|i: int| 0 <= i < secs.len() ==> phrases_filled((#[trigger] secs[i]).lines)
}

impl DialogView {
    /// A document has a section, distinct section names and no empty phrase.
    pub open spec fn wf(self) -> bool {
        &&& self.sections.len() > 0
        &&& sections_ok(self.sections)
    }

    /// Index of the first section called `name`.
    pub open spec fn find(self, name: Seq<char>) -> Option<int> {
        if lacks(self.sections, name) {
            None
        } else {
            Some(choose|i: int| first_named(self.sections, name, i))
        }
    }

    /// The lines of the section called `name`.
    pub open spec fn lines_of(self, name: Seq<char>) -> Option<Seq<LineView>> {
        match self.find(name) {
            Some(i) => Some(self.sections[i].lines),
            None => None,
        }
    }

    /// Name of the section in which playback starts.
    pub open spec fn entry(self) -> Seq<char>
        recommends
            self.sections.len() > 0,
    {
        self.sections[0].name
    }
}

/// A first match is the one that `find` gives.
pub proof fn lemma_find_first(d: DialogView, name: Seq<char>, i: int)
    requires
        first_named(d.sections, name, i),
    ensures
        d.find(name) == Some(i),
{
    assert(!lacks(d.sections, name));
    let c = choose|c: int| first_named(d.sections, name, c);
    assert(first_named(d.sections, name, c));
    if c < i {
        assert(d.sections[c].name != name);
    }
    if i < c {
        assert(d.sections[i].name != name);
    }
}

/// Before a section called `name` there is a first one.
pub proof fn lemma_first_exists(secs: Seq<SectionView>, name: Seq<char>, j: int)
    requires
        0 <= j < secs.len(),
        secs[j].name == name,
    ensures
        exists|i: int| first_named(secs, name, i),
    decreases j,
{
    if forall|k: int| 0 <= k < j ==> (#[trigger] secs[k]).name != name {
        assert(first_named(secs, name, j));
    } else {
        let k = choose|k: int| 0 <= k < j && (#[trigger] secs[k]).name == name;
        lemma_first_exists(secs, name, k);
    }
}

/// What `find` gives is a first match, and it gives one where there is any.
pub proof fn lemma_find_is_first(d: DialogView, name: Seq<char>)
    ensures
        match d.find(name) {
            Some(i) => first_named(d.sections, name, i),
            None => lacks(d.sections, name),
        },
{
    if !lacks(d.sections, name) {
        let j = choose|j: int| 0 <= j < d.sections.len() && (#[trigger] d.sections[j]).name == name;
        lemma_first_exists(d.sections, name, j);
    }
}

/// Whether no phrase of `lines` is empty.
fn no_empty_phrase(lines: &Vec<Line>) -> (r: bool)
    ensures
        r == phrases_filled(line_views(lines@)),
{
    let ghost views = line_views(lines@);
    let mut k: usize = 0;
    while k < lines.len()
        invariant
            k <= lines.len(),
            views == line_views(lines@),
            forall|j: int|
                0 <= j < k ==> match #[trigger] views[j] {
                    LineView::Phrase { lines: subs, .. } => subs.len() > 0,
                    LineView::Menu(_) => true,
                },
        decreases lines.len() - k,
    {
        let empty: bool = match &lines[k] {
            Line::Phrase { speaker, lines: subs } => subs.len() == 0,
            Line::Menu(_) => false,
        };
        assert(views[k as int] == lines@[k as int]@);
        if empty {
            return false;
        }
        k = k + 1;
    }
    true
}

/// Whether no section before section `i` has its name.
fn name_is_new(secs: &Vec<Section>, i: usize) -> (r: bool)
    requires
        i < secs.len(),
    ensures
        r == forall|j: int|
            0 <= j < i ==> (#[trigger] section_views(secs@)[j]).name != section_views(
                secs@,
            )[i as int].name,
{
    let ghost views = section_views(secs@);
    let mut j: usize = 0;
    while j < i
        invariant
            j <= i < secs.len(),
            views == section_views(secs@),
            forall|a: int| 0 <= a < j ==> (#[trigger] views[a]).name != views[i as int].name,
        decreases i - j,
    {
        if secs[j].name == secs[i].name {
            assert(views[j as int].name == views[i as int].name);
            return false;
        }
        j = j + 1;
    }
    true
}

impl Dialog {
    /// The document has a section, distinct section names and no empty phrase.
    pub open spec fn wf(&self) -> bool {
        self@.wf()
    }

    /// A document of the given sections.
    pub(crate) fn assemble(sections: Vec<Section>) -> (d: Dialog)
        ensures
            d@.sections == section_views(sections@),
    {
        Dialog { sections }
    }

    /// A document of the given sections, where they make one: there is
    /// a section, no two have one name, and no phrase is empty.
    pub fn from_sections(sections: Vec<Section>) -> (r: Option<Dialog>)
        ensures
            match r {
                Some(d) => d@.sections == section_views(sections@) && d.wf(),
                None => !(DialogView { sections: section_views(sections@) }).wf(),
            },
    {
        let ghost views = section_views(sections@);
        if sections.len() == 0 {
            return None;
        }
        let mut i: usize = 0;
        while i < sections.len()
            invariant
                i <= sections.len(),
                views == section_views(sections@),
                forall|a: int, b: int|
                    0 <= a < b < i ==> (#[trigger] views[a]).name != (#[trigger] views[b]).name,
                forall|a: int| 0 <= a < i ==> phrases_filled((#[trigger] views[a]).lines),
            decreases sections.len() - i,
        {
            if !name_is_new(&sections, i) {
                return None;
            }
            if !no_empty_phrase(&sections[i].lines) {
                assert(!phrases_filled(views[i as int].lines));
                return None;
            }
            i = i + 1;
        }
        Some(Dialog { sections })
    }

    /// The sections in source order.
    pub fn sections(&self) -> (r: &Vec<Section>)
        ensures
            section_views(r@) == self@.sections,
    {
        &self.sections
    }
}

} // verus!
