//! Writing a document back as a script.

use vstd::prelude::*;
use vstd::string::StringExecFns;
use crate::model::{
    line_views, option_views, section_views, texts, Dialog, DialogView, Line, LineView, Menu,
    MenuOption, MenuOptionView, MenuView, Section, SectionView, Speaker, SpeakerView,
};
use crate::parser::narrator_tag;
use crate::text::push_char;

verus! {

/// The text, or no characters where there is none.
pub open spec fn or_empty(o: Option<Seq<char>>) -> Seq<char> {
    match o {
        Some(s) => s,
        None => Seq::empty(),
    }
}

/// The tag that names a speaker.
pub open spec fn tag_text(speaker: SpeakerView) -> Seq<char> {
    match speaker {
        SpeakerView::Narrator => narrator_tag(),
        SpeakerView::Character(alias, None) => alias,
        SpeakerView::Character(alias, Some(name)) => alias + seq![' ', '=', ' '] + name,
    }
}

/// What is written for one sub-line: tag, colon, text.
pub open spec fn say_body(speaker: SpeakerView, text: Seq<char>) -> Seq<char> {
    tag_text(speaker) + seq![':', ' '] + text
}

/// The script line of one sub-line.
pub open spec fn say_line(speaker: SpeakerView, text: Seq<char>) -> Seq<char> {
    say_body(speaker, text) + seq!['\n']
}

/// The script lines of a phrase, one for each sub-line.
pub open spec fn phrase_text(speaker: SpeakerView, subs: Seq<Seq<char>>) -> Seq<char>
    decreases subs.len(),
{
    if subs.len() == 0 {
        Seq::empty()
    } else {
        phrase_text(speaker, subs.drop_last()) + say_line(speaker, subs.last())
    }
}

/// The first argument of an option, or no characters where it has none.
pub open spec fn link_text(option: MenuOptionView) -> Seq<char> {
    if option.args.len() > 0 {
        option.args[0]
    } else {
        Seq::empty()
    }
}

/// What is written for an option: title, arrow, anchor.
pub open spec fn choice_body(option: MenuOptionView) -> Seq<char> {
    seq!['-', ' '] + or_empty(option.title) + seq![' ', '-', '>', ' ', '#'] + link_text(option)
}

/// The script line of an option.
pub open spec fn choice_line(option: MenuOptionView) -> Seq<char> {
    choice_body(option) + seq!['\n']
}

/// The script lines of options, one for each.
pub open spec fn options_text(options: Seq<MenuOptionView>) -> Seq<char>
    decreases options.len(),
{
    if options.len() == 0 {
        Seq::empty()
    } else {
        options_text(options.drop_last()) + choice_line(options.last())
    }
}

/// What is written for the title of a menu.
pub open spec fn title_body(title: Option<Seq<char>>) -> Seq<char> {
    seq!['?', ' '] + or_empty(title)
}

/// The script lines of a menu: its title line, then its options.
pub open spec fn menu_text(menu: MenuView) -> Seq<char> {
    title_body(menu.title) + seq!['\n'] + options_text(menu.options)
}

/// The script lines of a line of a section.
pub open spec fn line_text(line: LineView) -> Seq<char> {
    match line {
        LineView::Phrase { speaker, lines } => phrase_text(speaker, lines),
        LineView::Menu(menu) => menu_text(menu),
    }
}

/// The script lines of the lines of a section, in order.
pub open spec fn lines_text(lines: Seq<LineView>) -> Seq<char>
    decreases lines.len(),
{
    if lines.len() == 0 {
        Seq::empty()
    } else {
        lines_text(lines.drop_last()) + line_text(lines.last())
    }
}

/// What is written for the header of a section.
pub open spec fn header_body(name: Seq<char>) -> Seq<char> {
    seq!['#', ' '] + name
}

/// The script lines of a section: its header, then its lines.
pub open spec fn section_text(section: SectionView) -> Seq<char> {
    header_body(section.name) + seq!['\n'] + lines_text(section.lines)
}

/// The script lines of sections, in order.
pub open spec fn sections_text(sections: Seq<SectionView>) -> Seq<char>
    decreases sections.len(),
{
    if sections.len() == 0 {
        Seq::empty()
    } else {
        sections_text(sections.drop_last()) + section_text(sections.last())
    }
}

/// The script of a document: its sections in order.
pub open spec fn script_of(d: DialogView) -> Seq<char> {
    sections_text(d.sections)
}

/// Appends a string.
fn put(out: &mut String, s: &String)
    ensures
        final(out)@ == old(out)@ + s@,
{
    out.append(s.as_str());
}

/// Appends a string where there is one.
fn put_optional(out: &mut String, s: &Option<String>)
    ensures
        final(out)@ == old(out)@ + or_empty(crate::model::text_opt(*s)),
{
    match s {
        Some(text) => {
            put(out, text);
        },
        None => {
            assert(out@ + Seq::<char>::empty() =~= out@);
        },
    }
}

/// Appends the tag of a speaker.
fn put_tag(out: &mut String, speaker: &Speaker)
    ensures
        final(out)@ == old(out)@ + tag_text(speaker@),
{
    let ghost before = out@;
    match speaker {
        Speaker::Narrator => {
            push_char(out, 'N');
            push_char(out, 'a');
            push_char(out, 'r');
            push_char(out, 'r');
            push_char(out, 'a');
            push_char(out, 't');
            push_char(out, 'o');
            push_char(out, 'r');
            assert(out@ =~= before + narrator_tag());
        },
        Speaker::Character(alias, None) => {
            put(out, &alias.0);
        },
        Speaker::Character(alias, Some(name)) => {
            put(out, &alias.0);
            push_char(out, ' ');
            push_char(out, '=');
            push_char(out, ' ');
            put(out, name);
            assert(out@ =~= before + (alias.0@ + seq![' ', '=', ' '] + name@));
        },
    }
}

/// Appends the script lines of a phrase.
fn put_phrase(out: &mut String, speaker: &Speaker, subs: &Vec<String>)
    ensures
        final(out)@ == old(out)@ + phrase_text(speaker@, texts(subs@)),
{
    let ghost before = out@;
    let mut i: usize = 0;
    assert(texts(subs@).take(0) =~= Seq::empty());
    assert(before + Seq::<char>::empty() =~= before);
    while i < subs.len()
        invariant
            i <= subs.len(),
            out@ == before + phrase_text(speaker@, texts(subs@).take(i as int)),
        decreases subs.len() - i,
    {
        let ghost had = out@;
        put_tag(out, speaker);
        push_char(out, ':');
        push_char(out, ' ');
        put(out, &subs[i]);
        push_char(out, '\n');
        proof {
            let done = texts(subs@).take(i as int);
            let next = texts(subs@).take(i + 1);
            assert(next.drop_last() =~= done);
            assert(next.last() == subs@[i as int]@);
            assert(out@ =~= had + say_line(speaker@, subs@[i as int]@));
            assert(out@ =~= before + phrase_text(speaker@, next));
        }
        i = i + 1;
    }
    assert(texts(subs@).take(subs.len() as int) =~= texts(subs@));
}

/// Appends the script lines of a menu.
fn put_menu(out: &mut String, menu: &Menu)
    ensures
        final(out)@ == old(out)@ + menu_text(menu@),
{
    let ghost before = out@;
    push_char(out, '?');
    push_char(out, ' ');
    put_optional(out, &menu.title);
    push_char(out, '\n');
    let ghost head = out@;
    let ghost views = option_views(menu.options@);
    assert(head =~= before + (seq!['?', ' '] + or_empty(menu@.title) + seq!['\n']));
    let mut i: usize = 0;
    assert(views.take(0) =~= Seq::empty());
    assert(head + Seq::<char>::empty() =~= head);
    while i < menu.options.len()
        invariant
            i <= menu.options.len(),
            views == option_views(menu.options@),
            out@ == head + options_text(views.take(i as int)),
        decreases menu.options.len() - i,
    {
        let ghost had = out@;
        let option: &MenuOption = &menu.options[i];
        push_char(out, '-');
        push_char(out, ' ');
        put_optional(out, &option.title);
        push_char(out, ' ');
        push_char(out, '-');
        push_char(out, '>');
        push_char(out, ' ');
        push_char(out, '#');
        if option.args.len() > 0 {
            put(out, &option.args[0]);
        }
        push_char(out, '\n');
        proof {
            let next = views.take(i + 1);
            assert(next.drop_last() =~= views.take(i as int));
            assert(next.last() == option@);
            if option.args.len() > 0 {
                assert(link_text(option@) == option.args@[0]@);
            }
            assert(out@ =~= had + choice_line(option@));
            assert(out@ =~= head + options_text(next));
        }
        i = i + 1;
    }
    proof {
        assert(views.take(menu.options.len() as int) =~= views);
        assert(out@ =~= before + menu_text(menu@));
    }
}

/// Appends the script lines of a section.
fn put_section(out: &mut String, section: &Section)
    ensures
        final(out)@ == old(out)@ + section_text(section@),
{
    let ghost before = out@;
    push_char(out, '#');
    push_char(out, ' ');
    put(out, &section.name);
    push_char(out, '\n');
    let ghost head = out@;
    let ghost views = line_views(section.lines@);
    assert(head =~= before + (seq!['#', ' '] + section.name@ + seq!['\n']));
    let mut i: usize = 0;
    assert(views.take(0) =~= Seq::empty());
    assert(head + Seq::<char>::empty() =~= head);
    while i < section.lines.len()
        invariant
            i <= section.lines.len(),
            views == line_views(section.lines@),
            out@ == head + lines_text(views.take(i as int)),
        decreases section.lines.len() - i,
    {
        let ghost had = out@;
        match &section.lines[i] {
            Line::Phrase { speaker, lines } => {
                put_phrase(out, speaker, lines);
            },
            Line::Menu(menu) => {
                put_menu(out, menu);
            },
        }
        proof {
            let next = views.take(i + 1);
            assert(next.drop_last() =~= views.take(i as int));
            assert(next.last() == section.lines@[i as int]@);
            assert(out@ =~= had + line_text(section.lines@[i as int]@));
            assert(out@ =~= head + lines_text(next));
        }
        i = i + 1;
    }
    proof {
        assert(views.take(section.lines.len() as int) =~= views);
        assert(out@ =~= before + section_text(section@));
    }
}

impl Dialog {
    /// The document written as a script.
    pub fn to_script(&self) -> (r: String)
        ensures
            r@ == script_of(self@),
    {
        let secs: &Vec<Section> = self.sections();
        let ghost views = section_views(secs@);
        let mut out: String = String::new();
        let mut i: usize = 0;
        assert(views.take(0) =~= Seq::empty());
        while i < secs.len()
            invariant
                i <= secs.len(),
                views == section_views(secs@),
                out@ == sections_text(views.take(i as int)),
            decreases secs.len() - i,
        {
            put_section(&mut out, &secs[i]);
            proof {
                let next = views.take(i + 1);
                assert(next.drop_last() =~= views.take(i as int));
                assert(next.last() == secs@[i as int]@);
            }
            i = i + 1;
        }
        proof {
            assert(views.take(secs.len() as int) =~= views);
        }
        out
    }
}

} // verus!
