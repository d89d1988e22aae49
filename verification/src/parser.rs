//! The script format and its parser.
//!
//! A script is read line by line; blanks at either end of a line do not
//! count. An empty line and a line that starts with `//` are skipped.
//!
//! - `# name` opens the section `name`.
//! - `speaker: text` is a sub-line said by `speaker`: `Narrator`, an
//!   alias, or `alias = name` with a name to display. It joins the phrase
//!   before it where that has the same speaker.
//! - A line without a colon continues the phrase before it.
//! - `? title` opens a menu with a title.
//! - `- title -> #target` is an option of the menu before it, or of a new
//!   menu without a title. The target is kept without its `#`.

use vstd::prelude::*;
use crate::model::{
    lacks, line_views, option_views, phrases_filled, section_views, sections_ok, text_opt, texts,
    Alias, Dialog, DialogView, Line, LineView, Menu, MenuOption, MenuOptionView, MenuView,
    Section, SectionView, Speaker, SpeakerView,
};
use crate::text::{
    arrow_pos, find_arrow, find_char, index_of, make_optional, make_string, non_empty,
    strip_anchor, to_chars, trim, trim_range,
};

verus! {

/// Why a script is refused.
#[derive(Clone, Copy, Debug, PartialEq, Eq, Structural)]
pub enum ParseErrorKind {
    /// The script opens no section.
    NoSections,
    /// A section header without a name.
    EmptySectionName,
    /// A section header with the name of an earlier section.
    DuplicateSection,
    /// A phrase or a menu before the first section header.
    OutsideSection,
    /// A phrase without a speaker: an empty tag before the colon, or a
    /// line without a colon that no phrase precedes.
    MissingSpeaker,
    /// A menu option without `->` or without a target after it.
    MissingLink,
}

/// A refusal and the line, counted from 0, that caused it.
#[derive(Clone, Copy, Debug, PartialEq, Eq)]
pub struct ParseError {
    pub kind: ParseErrorKind,
    pub line: usize,
}

/// What one line of a script says.
#[derive(Clone, Debug, PartialEq, Eq)]
pub enum Item {
    /// Nothing: an empty line or a comment.
    Skip,
    /// A section starts under this name.
    Header(String),
    /// A menu starts, with or without a title.
    MenuTitle(Option<String>),
    /// One more option of a menu.
    Choice(MenuOption),
    /// A sub-line with its speaker.
    Say(Speaker, String),
    /// A sub-line of the speaker before it.
    More(String),
    /// A line that is refused.
    Bad(ParseErrorKind),
}

pub enum ItemView {
    Skip,
    Header(Seq<char>),
    MenuTitle(Option<Seq<char>>),
    Choice(MenuOptionView),
    Say(SpeakerView, Seq<char>),
    More(Seq<char>),
    Bad(ParseErrorKind),
}

impl View for Item {
    type V = ItemView;

    open spec fn view(&self) -> ItemView {
        match *self {
            Item::Skip => ItemView::Skip,
            Item::Header(name) => ItemView::Header(name@),
            Item::MenuTitle(title) => ItemView::MenuTitle(text_opt(title)),
            Item::Choice(option) => ItemView::Choice(option@),
            Item::Say(speaker, text) => ItemView::Say(speaker@, text@),
            Item::More(text) => ItemView::More(text@),
            Item::Bad(kind) => ItemView::Bad(kind),
        }
    }
}

/// The tag of the narrator.
pub open spec fn narrator_tag() -> Seq<char> {
    seq!['N', 'a', 'r', 'r', 'a', 't', 'o', 'r']
}

/// The speaker that a tag names: an alias, or `alias = name` with a
/// name to display; the narrator where the alias is `Narrator` and no
/// name is given; none where the alias is empty.
pub open spec fn speaker_of(tag: Seq<char>) -> Option<SpeakerView> {
    let e = index_of(tag, '=');
    let alias = if e >= tag.len() {
        tag
    } else {
        trim(tag.take(e as int))
    };
    let name = if e >= tag.len() {
        None
    } else {
        non_empty(trim(tag.skip(e + 1 as int)))
    };
    if alias.len() == 0 {
        None
    } else if alias == narrator_tag() && name.is_none() {
        Some(SpeakerView::Narrator)
    } else {
        Some(SpeakerView::Character(alias, name))
    }
}

/// A trimmed line that is neither header nor menu: a tagged sub-line,
/// or without a colon a continuation.
pub open spec fn phrase_item(line: Seq<char>) -> ItemView {
    let c = index_of(line, ':');
    if c >= line.len() {
        ItemView::More(line)
    } else {
        match speaker_of(trim(line.take(c as int))) {
            Some(speaker) => ItemView::Say(speaker, trim(line.skip(c + 1 as int))),
            None => ItemView::Bad(ParseErrorKind::MissingSpeaker),
        }
    }
}

/// What follows the `-` of an option line: a title, `->`, a target.
pub open spec fn choice_item(body: Seq<char>) -> ItemView {
    let a = arrow_pos(body);
    if a >= body.len() {
        ItemView::Bad(ParseErrorKind::MissingLink)
    } else {
        let target = strip_anchor(trim(body.skip(a + 2 as int)));
        if target.len() == 0 {
            ItemView::Bad(ParseErrorKind::MissingLink)
        } else {
            ItemView::Choice(
                MenuOptionView { title: non_empty(trim(body.take(a as int))), args: seq![target] },
            )
        }
    }
}

/// What a line of a script says.
pub open spec fn item_of(raw: Seq<char>) -> ItemView {
    let line = trim(raw);
    if line.len() == 0 {
        ItemView::Skip
    } else if line.len() >= 2 && line[0] == '/' && line[1] == '/' {
        ItemView::Skip
    } else if line[0] == '#' {
        let name = trim(line.skip(1));
        if name.len() == 0 {
            ItemView::Bad(ParseErrorKind::EmptySectionName)
        } else {
            ItemView::Header(name)
        }
    } else if line[0] == '?' {
        ItemView::MenuTitle(non_empty(trim(line.skip(1))))
    } else if line[0] == '-' {
        choice_item(line.skip(1))
    } else {
        phrase_item(line)
    }
}

/// The lines of a section after one more item; none where a
/// continuation has no phrase before it.
pub open spec fn add_line(lines: Seq<LineView>, item: ItemView) -> Option<Seq<LineView>> {
    match item {
        ItemView::MenuTitle(title) => Some(
            lines.push(LineView::Menu(MenuView { title, options: Seq::empty() })),
        ),
        ItemView::Choice(option) => if lines.len() > 0 && lines.last() is Menu {
            let m = lines.last()->Menu_0;
            Some(
                lines.drop_last().push(
                    LineView::Menu(MenuView { title: m.title, options: m.options.push(option) }),
                ),
            )
        } else {
            Some(lines.push(LineView::Menu(MenuView { title: None, options: seq![option] })))
        },
        ItemView::Say(speaker, text) => if lines.len() > 0 && lines.last() is Phrase
            && lines.last()->speaker == speaker {
            Some(
                lines.drop_last().push(
                    LineView::Phrase { speaker, lines: lines.last()->lines.push(text) },
                ),
            )
        } else {
            Some(lines.push(LineView::Phrase { speaker, lines: seq![text] }))
        },
        ItemView::More(text) => if lines.len() > 0 && lines.last() is Phrase {
            Some(
                lines.drop_last().push(
                    LineView::Phrase {
                        speaker: lines.last()->speaker,
                        lines: lines.last()->lines.push(text),
                    },
                ),
            )
        } else {
            None
        },
        _ => Some(lines),
    }
}

/// The sections after one more item, or why the item is refused.
pub open spec fn feed(secs: Seq<SectionView>, item: ItemView) -> Result<
    Seq<SectionView>,
    ParseErrorKind,
> {
    match item {
        ItemView::Skip => Ok(secs),
        ItemView::Bad(kind) => Err(kind),
        ItemView::Header(name) => if lacks(secs, name) {
            Ok(secs.push(SectionView { name, lines: Seq::empty() }))
        } else {
            Err(ParseErrorKind::DuplicateSection)
        },
        _ => if secs.len() == 0 {
            Err(ParseErrorKind::OutsideSection)
        } else {
            match add_line(secs.last().lines, item) {
                Some(lines) => Ok(
                    secs.drop_last().push(SectionView { name: secs.last().name, lines }),
                ),
                None => Err(ParseErrorKind::MissingSpeaker),
            }
        },
    }
}

/// The sections after the lines of `src`, read in order from line
/// number `line_no` on; or the first refusal with its line number.
pub open spec fn run(src: Seq<char>, secs: Seq<SectionView>, line_no: nat) -> Result<
    Seq<SectionView>,
    (ParseErrorKind, nat),
>
    decreases src.len(),
{
    let n = index_of(src, '\n');
    match feed(secs, item_of(src.take(n as int))) {
        Err(kind) => Err((kind, line_no)),
        Ok(next) => if n >= src.len() {
            Ok(next)
        } else {
            run(src.skip(n + 1 as int), next, line_no + 1)
        },
    }
}

/// The document that a script describes, or the first refusal with its
/// line number. A script without a section is refused at line 0.
pub open spec fn parse_script(src: Seq<char>) -> Result<DialogView, (ParseErrorKind, nat)> {
    match run(src, Seq::empty(), 0) {
        Err(e) => Err(e),
        Ok(secs) => if secs.len() == 0 {
            Err((ParseErrorKind::NoSections, 0))
        } else {
            Ok(DialogView { sections: secs })
        },
    }
}

pub open spec fn speaker_opt(o: Option<Speaker>) -> Option<SpeakerView> {
    match o {
        Some(s) => Some(s@),
        None => None,
    }
}

/// Whether `lo..hi` spells the narrator's tag.
fn is_narrator(src: &Vec<char>, lo: usize, hi: usize) -> (r: bool)
    requires
        lo <= hi <= src.len(),
    ensures
        r == (src@.subrange(lo as int, hi as int) == narrator_tag()),
{
    let ghost tag = src@.subrange(lo as int, hi as int);
    if hi - lo != 8 {
        proof {
            assert(narrator_tag().len() == 8);
        }
        return false;
    }
    let r: bool = src[lo] == 'N' && src[lo + 1] == 'a' && src[lo + 2] == 'r' && src[lo + 3] == 'r'
        && src[lo + 4] == 'a' && src[lo + 5] == 't' && src[lo + 6] == 'o' && src[lo + 7] == 'r';
    proof {
        assert(tag[0] == src@[lo as int]);
        assert(tag[1] == src@[lo + 1]);
        assert(tag[2] == src@[lo + 2]);
        assert(tag[3] == src@[lo + 3]);
        assert(tag[4] == src@[lo + 4]);
        assert(tag[5] == src@[lo + 5]);
        assert(tag[6] == src@[lo + 6]);
        assert(tag[7] == src@[lo + 7]);
        if r {
            assert(tag =~= narrator_tag());
        }
    }
    r
}

/// The speaker that the tag in `lo..hi` names.
fn read_speaker(src: &Vec<char>, lo: usize, hi: usize) -> (r: Option<Speaker>)
    requires
        lo <= hi <= src.len(),
    ensures
        speaker_opt(r) == speaker_of(src@.subrange(lo as int, hi as int)),
{
    let ghost tag = src@.subrange(lo as int, hi as int);
    let e: usize = find_char(src, lo, hi, '=');
    let (aa, ab) = if e == hi {
        (lo, hi)
    } else {
        trim_range(src, lo, e)
    };
    let name: Option<String> = if e == hi {
        None
    } else {
        let (na, nb) = trim_range(src, e + 1, hi);
        make_optional(src, na, nb)
    };
    proof {
        if e < hi {
            assert(tag.take(e - lo) =~= src@.subrange(lo as int, e as int));
            assert(tag.skip(e - lo + 1) =~= src@.subrange(e + 1, hi as int));
        }
    }
    if aa == ab {
        None
    } else if name.is_none() && is_narrator(src, aa, ab) {
        Some(Speaker::Narrator)
    } else {
        Some(Speaker::Character(Alias(make_string(src, aa, ab)), name))
    }
}

/// Reads the trimmed line in `lo..hi` as a sub-line or a continuation.
fn read_phrase(src: &Vec<char>, lo: usize, hi: usize) -> (item: Item)
    requires
        lo <= hi <= src.len(),
    ensures
        item@ == phrase_item(src@.subrange(lo as int, hi as int)),
{
    let ghost line = src@.subrange(lo as int, hi as int);
    let c: usize = find_char(src, lo, hi, ':');
    if c == hi {
        return Item::More(make_string(src, lo, hi));
    }
    proof {
        assert(line.take(c - lo) =~= src@.subrange(lo as int, c as int));
        assert(line.skip(c - lo + 1) =~= src@.subrange(c + 1, hi as int));
    }
    let (ta, tb) = trim_range(src, lo, c);
    let (xa, xb) = trim_range(src, c + 1, hi);
    match read_speaker(src, ta, tb) {
        Some(speaker) => Item::Say(speaker, make_string(src, xa, xb)),
        None => Item::Bad(ParseErrorKind::MissingSpeaker),
    }
}

/// Reads what follows the `-` of an option line, in `lo..hi`.
fn read_choice(src: &Vec<char>, lo: usize, hi: usize) -> (item: Item)
    requires
        lo <= hi <= src.len(),
    ensures
        item@ == choice_item(src@.subrange(lo as int, hi as int)),
{
    let ghost body = src@.subrange(lo as int, hi as int);
    let p: usize = find_arrow(src, lo, hi);
    if p == hi {
        return Item::Bad(ParseErrorKind::MissingLink);
    }
    proof {
        assert(body.take(p - lo) =~= src@.subrange(lo as int, p as int));
        assert(body.skip(p - lo + 2) =~= src@.subrange(p + 2, hi as int));
    }
    let (ta, tb) = trim_range(src, lo, p);
    let (ga, gb) = trim_range(src, p + 2, hi);
    let from: usize = if ga < gb && src[ga] == '#' {
        ga + 1
    } else {
        ga
    };
    proof {
        let given = src@.subrange(ga as int, gb as int);
        if ga < gb {
            assert(given[0] == src@[ga as int]);
            assert(given.skip(1) =~= src@.subrange(ga + 1, gb as int));
        }
        assert(strip_anchor(given) == src@.subrange(from as int, gb as int));
    }
    if from == gb {
        return Item::Bad(ParseErrorKind::MissingLink);
    }
    let mut args: Vec<String> = Vec::new();
    args.push(make_string(src, from, gb));
    proof {
        assert(texts(args@) =~= seq![src@.subrange(from as int, gb as int)]);
    }
    Item::Choice(MenuOption { title: make_optional(src, ta, tb), args })
}

/// Reads the line in `lo..hi` of a script.
pub fn read_line(src: &Vec<char>, lo: usize, hi: usize) -> (item: Item)
    requires
        lo <= hi <= src.len(),
    ensures
        item@ == item_of(src@.subrange(lo as int, hi as int)),
{
    let (a, b) = trim_range(src, lo, hi);
    let ghost line = src@.subrange(a as int, b as int);
    if a == b {
        return Item::Skip;
    }
    proof {
        assert(line[0] == src@[a as int]);
        assert(line.skip(1) =~= src@.subrange(a + 1, b as int));
    }
    if b - a >= 2 && src[a] == '/' && src[a + 1] == '/' {
        proof {
            assert(line[1] == src@[a + 1]);
        }
        return Item::Skip;
    }
    proof {
        if b - a >= 2 {
            assert(line[1] == src@[a + 1]);
        }
    }
    let first: char = src[a];
    if first == '#' {
        let (na, nb) = trim_range(src, a + 1, b);
        if na == nb {
            Item::Bad(ParseErrorKind::EmptySectionName)
        } else {
            Item::Header(make_string(src, na, nb))
        }
    } else if first == '?' {
        let (ta, tb) = trim_range(src, a + 1, b);
        Item::MenuTitle(make_optional(src, ta, tb))
    } else if first == '-' {
        read_choice(src, a + 1, b)
    } else {
        read_phrase(src, a, b)
    }
}

/// Whether two speakers are the same.
pub fn same_speaker(a: &Speaker, b: &Speaker) -> (r: bool)
    ensures
        r == (a@ == b@),
{
    match (a, b) {
        (Speaker::Narrator, Speaker::Narrator) => true,
        (Speaker::Character(x, n), Speaker::Character(y, m)) => {
            let names: bool = match (n, m) {
                (Some(p), Some(q)) => *p == *q,
                (None, None) => true,
                _ => false,
            };
            x.0 == y.0 && names
        },
        _ => false,
    }
}

/// Whether a section of `secs` is called `name`.
fn has_name(secs: &Vec<Section>, name: &String) -> (r: bool)
    ensures
        r == !lacks(section_views(secs@), name@),
{
    let mut i: usize = 0;
    while i < secs.len()
        invariant
            i <= secs.len(),
            forall|j: int| 0 <= j < i ==> (#[trigger] section_views(secs@)[j]).name != name@,
        decreases secs.len() - i,
    {
        if secs[i].name == *name {
            assert(section_views(secs@)[i as int].name == name@);
            return true;
        }
        i = i + 1;
    }
    false
}

/// Adds an item to the lines of a section; says whether it could.
fn push_item(lines: &mut Vec<Line>, item: Item) -> (r: bool)
    ensures
        match add_line(line_views(old(lines)@), item@) {
            Some(next) => r && line_views(final(lines)@) == next,
            None => !r,
        },
{
    let ghost before = line_views(lines@);
    match item {
        Item::MenuTitle(title) => {
            lines.push(Line::Menu(Menu { title, options: Vec::new() }));
            proof {
                assert(option_views(Seq::<MenuOption>::empty()) =~= Seq::empty());
                assert(line_views(lines@) =~= add_line(before, item@).unwrap());
            }
            true
        },
        Item::Choice(option) => {
            match lines.pop() {
                Some(Line::Menu(menu)) => {
                    let Menu { title, options } = menu;
                    let mut options = options;
                    let ghost opts = options@;
                    options.push(option);
                    lines.push(Line::Menu(Menu { title, options }));
                    proof {
                        assert(option_views(opts.push(option)) =~= option_views(opts).push(
                            option@,
                        ));
                        assert(line_views(lines@) =~= add_line(before, item@).unwrap());
                    }
                },
                Some(other) => {
                    lines.push(other);
                    let mut options: Vec<MenuOption> = Vec::new();
                    options.push(option);
                    lines.push(Line::Menu(Menu { title: None, options }));
                    proof {
                        assert(option_views(options@) =~= seq![option@]);
                        assert(line_views(lines@) =~= add_line(before, item@).unwrap());
                    }
                },
                None => {
                    let mut options: Vec<MenuOption> = Vec::new();
                    options.push(option);
                    lines.push(Line::Menu(Menu { title: None, options }));
                    proof {
                        assert(option_views(options@) =~= seq![option@]);
                        assert(line_views(lines@) =~= add_line(before, item@).unwrap());
                    }
                },
            }
            true
        },
        Item::Say(speaker, text) => {
            match lines.pop() {
                Some(Line::Phrase { speaker: last, lines: subs }) => {
                    if same_speaker(&last, &speaker) {
                        let mut subs = subs;
                        let ghost had = subs@;
                        subs.push(text);
                        lines.push(Line::Phrase { speaker: last, lines: subs });
                        proof {
                            assert(texts(had.push(text)) =~= texts(had).push(text@));
                            assert(line_views(lines@) =~= add_line(before, item@).unwrap());
                        }
                    } else {
                        lines.push(Line::Phrase { speaker: last, lines: subs });
                        let mut fresh: Vec<String> = Vec::new();
                        fresh.push(text);
                        lines.push(Line::Phrase { speaker, lines: fresh });
                        proof {
                            assert(texts(fresh@) =~= seq![text@]);
                            assert(line_views(lines@) =~= add_line(before, item@).unwrap());
                        }
                    }
                },
                Some(other) => {
                    lines.push(other);
                    let mut fresh: Vec<String> = Vec::new();
                    fresh.push(text);
                    lines.push(Line::Phrase { speaker, lines: fresh });
                    proof {
                        assert(texts(fresh@) =~= seq![text@]);
                        assert(line_views(lines@) =~= add_line(before, item@).unwrap());
                    }
                },
                None => {
                    let mut fresh: Vec<String> = Vec::new();
                    fresh.push(text);
                    lines.push(Line::Phrase { speaker, lines: fresh });
                    proof {
                        assert(texts(fresh@) =~= seq![text@]);
                        assert(line_views(lines@) =~= add_line(before, item@).unwrap());
                    }
                },
            }
            true
        },
        Item::More(text) => {
            match lines.pop() {
                Some(Line::Phrase { speaker: last, lines: subs }) => {
                    let mut subs = subs;
                    let ghost had = subs@;
                    subs.push(text);
                    lines.push(Line::Phrase { speaker: last, lines: subs });
                    proof {
                        assert(texts(had.push(text)) =~= texts(had).push(text@));
                        assert(line_views(lines@) =~= add_line(before, item@).unwrap());
                    }
                    true
                },
                Some(other) => {
                    lines.push(other);
                    false
                },
                None => false,
            }
        },
        _ => {
            true
        },
    }
}

/// Adds an item to the sections read so far, or says why it is refused.
fn feed_item(secs: &mut Vec<Section>, item: Item) -> (r: Result<(), ParseErrorKind>)
    ensures
        match feed(section_views(old(secs)@), item@) {
            Ok(next) => r.is_ok() && section_views(final(secs)@) == next,
            Err(kind) => r == Err::<(), ParseErrorKind>(kind),
        },
{
    let ghost before = section_views(secs@);
    match item {
        Item::Skip => Ok(()),
        Item::Bad(kind) => Err(kind),
        Item::Header(name) => {
            if has_name(secs, &name) {
                Err(ParseErrorKind::DuplicateSection)
            } else {
                secs.push(Section { name, lines: Vec::new() });
                proof {
                    assert(line_views(Seq::<Line>::empty()) =~= Seq::empty());
                    assert(section_views(secs@) =~= feed(before, item@).unwrap());
                }
                Ok(())
            }
        },
        other => {
            match secs.pop() {
                None => Err(ParseErrorKind::OutsideSection),
                Some(section) => {
                    let Section { name, lines } = section;
                    let mut lines = lines;
                    assert(before.last() == section@);
                    if push_item(&mut lines, other) {
                        secs.push(Section { name, lines });
                        proof {
                            assert(section_views(secs@) =~= feed(before, item@).unwrap());
                        }
                        Ok(())
                    } else {
                        Err(ParseErrorKind::MissingSpeaker)
                    }
                },
            }
        },
    }
}

/// Adding an item to lines without an empty phrase leaves none empty.
pub proof fn lemma_add_line_filled(lines: Seq<LineView>, item: ItemView)
    requires
        phrases_filled(lines),
        add_line(lines, item).is_some(),
    ensures
        phrases_filled(add_line(lines, item).unwrap()),
{
    let next = add_line(lines, item).unwrap();
    assert forall|k: int| 0 <= k < next.len() implies match #[trigger] next[k] {
        LineView::Phrase { lines: subs, .. } => subs.len() > 0,
        LineView::Menu(_) => true,
    } by {
        if k < lines.len() {
            let l = lines[k];
        }
    }
}

/// Adding an item keeps section names distinct and phrases filled.
pub proof fn lemma_feed_keeps_ok(secs: Seq<SectionView>, item: ItemView)
    requires
        sections_ok(secs),
        feed(secs, item).is_ok(),
    ensures
        sections_ok(feed(secs, item).unwrap()),
{
    let next = feed(secs, item).unwrap();
    match item {
        ItemView::Skip => {},
        ItemView::Bad(_) => {},
        ItemView::Header(name) => {
            assert forall|i: int, j: int| 0 <= i < j < next.len() implies (#[trigger] next[i]).name
                != (#[trigger] next[j]).name by {
                if j == secs.len() {
                    assert(secs[i].name != name);
                } else {
                    assert(secs[i].name != secs[j].name);
                }
            }
            assert forall|i: int| 0 <= i < next.len() implies phrases_filled(
                (#[trigger] next[i]).lines,
            ) by {
                if i < secs.len() {
                    assert(phrases_filled(secs[i].lines));
                }
            }
        },
        _ => {
            let last = secs.len() - 1;
            assert(phrases_filled(secs[last].lines));
            lemma_add_line_filled(secs.last().lines, item);
            assert forall|i: int, j: int| 0 <= i < j < next.len() implies (#[trigger] next[i]).name
                != (#[trigger] next[j]).name by {
                assert(secs[i].name != secs[j].name);
            }
            assert forall|i: int| 0 <= i < next.len() implies phrases_filled(
                (#[trigger] next[i]).lines,
            ) by {
                if i < last {
                    assert(phrases_filled(secs[i].lines));
                }
            }
        },
    }
}

/// What `parse_script` accepts is a document.
pub proof fn lemma_run_keeps_ok(src: Seq<char>, secs: Seq<SectionView>, line_no: nat)
    requires
        sections_ok(secs),
        run(src, secs, line_no).is_ok(),
    ensures
        sections_ok(run(src, secs, line_no)->Ok_0),
    decreases src.len(),
{
    let n = index_of(src, '\n');
    let item = item_of(src.take(n as int));
    lemma_feed_keeps_ok(secs, item);
    if n < src.len() {
        lemma_run_keeps_ok(src.skip(n + 1 as int), feed(secs, item).unwrap(), line_no + 1);
    }
}

/// Every script that is accepted gives a document: it has a section,
/// its section names are distinct and none of its phrases is empty.
pub proof fn lemma_parsed_is_document(src: Seq<char>)
    requires
        parse_script(src).is_ok(),
    ensures
        parse_script(src)->Ok_0.wf(),
{
    lemma_run_keeps_ok(src, Seq::empty(), 0);
}

/// A line that starts with a colon, whatever stands before it but
/// blanks, is a phrase without a speaker.
pub proof fn lemma_bare_colon_is_bad(raw: Seq<char>)
    requires
        trim(raw).len() > 0,
        trim(raw)[0] == ':',
    ensures
        item_of(raw) == ItemView::Bad(ParseErrorKind::MissingSpeaker),
{
    let line = trim(raw);
    assert(index_of(line, ':') == 0);
    assert(line.take(0) =~= Seq::<char>::empty());
    assert(trim(Seq::<char>::empty()) == Seq::<char>::empty());
    assert(index_of(Seq::<char>::empty(), '=') == 0);
}

/// Line `k` of a script, counted from 0; no characters past its last line.
pub open spec fn line_of(src: Seq<char>, k: nat) -> Seq<char>
    decreases k,
{
    let n = index_of(src, '\n');
    if k == 0 {
        src.take(n as int)
    } else if n >= src.len() {
        Seq::empty()
    } else {
        line_of(src.skip(n + 1 as int), (k - 1) as nat)
    }
}

/// A script with a malformed line is refused, at that line or before
/// it: no such line is dropped. A phrase line with an empty tag before
/// its colon is such a line.
pub proof fn lemma_bad_line_is_refused(src: Seq<char>, k: nat)
    requires
        item_of(line_of(src, k)) is Bad,
    ensures
        match parse_script(src) {
            Ok(_) => false,
            Err((_, line)) => line <= k,
        },
{
    lemma_bad_line_stops_run(src, Seq::empty(), 0, k);
}

/// Reading stops with a refusal at a malformed line, or before it.
pub proof fn lemma_bad_line_stops_run(src: Seq<char>, secs: Seq<SectionView>, line_no: nat, k: nat)
    requires
        item_of(line_of(src, k)) is Bad,
    ensures
        match run(src, secs, line_no) {
            Ok(_) => false,
            Err((_, line)) => line_no <= line <= line_no + k,
        },
    decreases k,
{
    let n = index_of(src, '\n');
    let item = item_of(src.take(n as int));
    if k > 0 && feed(secs, item).is_ok() {
        if n >= src.len() {
            assert(item_of(Seq::empty()) == ItemView::Skip);
        } else {
            lemma_bad_line_stops_run(
                src.skip(n + 1 as int),
                feed(secs, item)->Ok_0,
                line_no + 1,
                (k - 1) as nat,
            );
        }
    }
}

/// Parses the characters of a script.
pub fn parse_chars(src: &Vec<char>) -> (r: Result<Dialog, ParseError>)
    ensures
        match parse_script(src@) {
            Ok(d) => r.is_ok() && r.unwrap()@ == d && r.unwrap().wf(),
            Err((kind, line)) => r.is_err() && r.unwrap_err().kind == kind && r.unwrap_err().line
                == line,
        },
{
    let len: usize = src.len();
    let mut secs: Vec<Section> = Vec::new();
    let mut pos: usize = 0;
    let mut line_no: usize = 0;
    let mut done: bool = false;
    proof {
        assert(section_views(secs@) =~= Seq::empty());
        assert(src@.skip(0) =~= src@);
        if parse_script(src@).is_ok() {
            lemma_parsed_is_document(src@);
        }
    }
    while !done
        invariant
            len == src.len(),
            pos <= len,
            line_no <= pos,
            !done ==> run(src@, Seq::empty(), 0) == run(
                src@.skip(pos as int),
                section_views(secs@),
                line_no as nat,
            ),
            done ==> run(src@, Seq::empty(), 0) == Ok::<Seq<SectionView>, (ParseErrorKind, nat)>(
                section_views(secs@),
            ),
        decreases
                if done {
                    0
                } else {
                    len - pos + 1
                },
    {
        let ghost rest = src@.skip(pos as int);
        let end: usize = find_char(src, pos, len, '\n');
        proof {
            assert(src@.subrange(pos as int, len as int) =~= rest);
            assert(rest.take(end - pos) =~= src@.subrange(pos as int, end as int));
            if end < len {
                assert(rest.skip(end - pos + 1) =~= src@.skip(end + 1));
            }
        }
        let item: Item = read_line(src, pos, end);
        match feed_item(&mut secs, item) {
            Err(kind) => {
                return Err(ParseError { kind, line: line_no });
            },
            Ok(()) => {},
        }
        if end >= len {
            done = true;
        } else {
            pos = end + 1;
            line_no = line_no + 1;
        }
    }
    if secs.len() == 0 {
        Err(ParseError { kind: ParseErrorKind::NoSections, line: 0 })
    } else {
        Ok(Dialog::assemble(secs))
    }
}

/// Parses a script into a document, or says which line is refused and
/// why. Reads nothing but its argument.
pub fn parse(source: &str) -> (r: Result<Dialog, ParseError>)
    ensures
        match parse_script(source@) {
            Ok(d) => r.is_ok() && r.unwrap()@ == d && r.unwrap().wf(),
            Err((kind, line)) => r.is_err() && r.unwrap_err().kind == kind && r.unwrap_err().line
                == line,
        },
{
    let src: Vec<char> = to_chars(source);
    parse_chars(&src)
}

} // verus!
