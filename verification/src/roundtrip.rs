//! Writing a document and reading it back.

use vstd::prelude::*;
use crate::model::{
    distinct_names, lacks, DialogView, LineView, MenuOptionView, MenuView, SectionView,
    SpeakerView,
};
use crate::parser::{add_line, feed, item_of, parse_script, run, ItemView, ParseErrorKind};
use crate::printer::{
    choice_body, header_body, line_text, lines_text, menu_text, options_text, phrase_text,
    say_body, script_of, section_text, sections_text, title_body,
};
use crate::canonical::{
    all_sections_ok, canonical, lemma_parsed_is_canonical, lemma_say_reads, line_ok, lines_ok,
    reads_as, same_voice, section_ok, text_fine,
};
use crate::text::index_of;
use crate::text_laws::lemma_index_of_first;

verus! {

/// What reading `src` makes of the sections `secs`, whatever the line number.
pub open spec fn outcome(src: Seq<char>, secs: Seq<SectionView>) -> Option<Seq<SectionView>> {
    match run(src, secs, 0) {
        Ok(next) => Some(next),
        Err(_) => None,
    }
}

/// The line number at which reading starts changes only the line
/// number of a refusal.
pub proof fn lemma_run_shift(src: Seq<char>, secs: Seq<SectionView>, n: nat, m: nat)
    ensures
        match run(src, secs, n) {
            Ok(next) => run(src, secs, m) == Ok::<Seq<SectionView>, (ParseErrorKind, nat)>(next),
            Err(_) => run(src, secs, m).is_err(),
        },
    decreases src.len(),
{
    let k = index_of(src, '\n');
    let item = item_of(src.take(k as int));
    if feed(secs, item).is_ok() && k < src.len() {
        lemma_run_shift(src.skip(k + 1 as int), feed(secs, item)->Ok_0, n + 1, m + 1);
    }
}

/// Reading a line and what follows it: the line's item is fed, and
/// reading goes on behind the line.
pub proof fn lemma_read_line(body: Seq<char>, rest: Seq<char>, secs: Seq<SectionView>)
    requires
        !body.contains('\n'),
    ensures
        outcome(body + seq!['\n'] + rest, secs) == match feed(secs, item_of(body)) {
            Ok(next) => outcome(rest, next),
            Err(_) => None,
        },
{
    let src = body + seq!['\n'] + rest;
    lemma_index_of_first(body, '\n', rest);
    assert(src.take(body.len() as int) =~= body);
    assert(src.skip(body.len() + 1 as int) =~= rest);
    if feed(secs, item_of(body)).is_ok() {
        lemma_run_shift(rest, feed(secs, item_of(body))->Ok_0, 1, 0);
    }
}

/// The sections `secs` and behind them the section `name` with `lines`.
pub open spec fn with_lines(secs: Seq<SectionView>, name: Seq<char>, lines: Seq<LineView>) -> Seq<
    SectionView,
> {
    secs.push(SectionView { name, lines })
}

/// Reading a line of a section: its item is added to the last section.
pub proof fn lemma_read_item(
    secs: Seq<SectionView>,
    name: Seq<char>,
    lines: Seq<LineView>,
    body: Seq<char>,
    item: ItemView,
    rest: Seq<char>,
)
    requires
        reads_as(body, item),
        item is MenuTitle || item is Choice || item is Say,
    ensures
        outcome(body + seq!['\n'] + rest, with_lines(secs, name, lines)) == outcome(
            rest,
            with_lines(secs, name, add_line(lines, item)->Some_0),
        ),
{
    lemma_read_line(body, rest, with_lines(secs, name, lines));
    assert(with_lines(secs, name, lines).drop_last() =~= secs);
}

/// Reading the script lines of a phrase adds the phrase to the section.
pub proof fn lemma_read_phrase(
    secs: Seq<SectionView>,
    name: Seq<char>,
    lines: Seq<LineView>,
    speaker: SpeakerView,
    subs: Seq<Seq<char>>,
    rest: Seq<char>,
)
    requires
        line_ok(LineView::Phrase { speaker, lines: subs }),
        lines.len() == 0 || !same_voice(lines.last(), LineView::Phrase { speaker, lines: subs }),
    ensures
        outcome(phrase_text(speaker, subs) + rest, with_lines(secs, name, lines)) == outcome(
            rest,
            with_lines(secs, name, lines.push(LineView::Phrase { speaker, lines: subs })),
        ),
    decreases subs.len(),
{
    let last = subs.last();
    let front = subs.drop_last();
    let item = ItemView::Say(speaker, last);
    assert(text_fine(subs[subs.len() - 1]));
    lemma_say_reads(speaker, last);
    assert(phrase_text(speaker, subs) + rest =~= phrase_text(speaker, front) + (say_body(
        speaker,
        last,
    ) + seq!['\n'] + rest));
    if front.len() == 0 {
        assert(phrase_text(speaker, front) + (say_body(speaker, last) + seq!['\n'] + rest)
            =~= say_body(speaker, last) + seq!['\n'] + rest);
        lemma_read_item(secs, name, lines, say_body(speaker, last), item, rest);
        assert(seq![last] =~= subs);
    } else {
        assert forall|j: int| 0 <= j < front.len() implies text_fine(#[trigger] front[j]) by {
            assert(front[j] == subs[j]);
        }
        lemma_read_phrase(
            secs,
            name,
            lines,
            speaker,
            front,
            say_body(speaker, last) + seq!['\n'] + rest,
        );
        let mid = lines.push(LineView::Phrase { speaker, lines: front });
        lemma_read_item(secs, name, mid, say_body(speaker, last), item, rest);
        assert(mid.drop_last() =~= lines);
        assert(front.push(last) =~= subs);
    }
}

/// Reading the script lines of options adds them to the menu before them.
pub proof fn lemma_read_options(
    secs: Seq<SectionView>,
    name: Seq<char>,
    lines: Seq<LineView>,
    title: Option<Seq<char>>,
    done: Seq<MenuOptionView>,
    options: Seq<MenuOptionView>,
    rest: Seq<char>,
)
    requires
        forall|j: int|
            0 <= j < options.len() ==> reads_as(
                choice_body(#[trigger] options[j]),
                ItemView::Choice(options[j]),
            ),
    ensures
        outcome(
            options_text(options) + rest,
            with_lines(
                secs,
                name,
                lines.push(LineView::Menu(MenuView { title, options: done })),
            ),
        ) == outcome(
            rest,
            with_lines(
                secs,
                name,
                lines.push(LineView::Menu(MenuView { title, options: done + options })),
            ),
        ),
    decreases options.len(),
{
    if options.len() == 0 {
        assert(options_text(options) + rest =~= rest);
        assert(done + options =~= done);
    } else {
        let last = options.last();
        let front = options.drop_last();
        assert(reads_as(choice_body(options[options.len() - 1]), ItemView::Choice(last)));
        assert(options_text(options) + rest =~= options_text(front) + (choice_body(last)
            + seq!['\n'] + rest));
        assert forall|j: int| 0 <= j < front.len() implies reads_as(
            choice_body(#[trigger] front[j]),
            ItemView::Choice(front[j]),
        ) by {
            assert(front[j] == options[j]);
        }
        lemma_read_options(
            secs,
            name,
            lines,
            title,
            done,
            front,
            choice_body(last) + seq!['\n'] + rest,
        );
        let mid = lines.push(LineView::Menu(MenuView { title, options: done + front }));
        lemma_read_item(secs, name, mid, choice_body(last), ItemView::Choice(last), rest);
        assert(mid.drop_last() =~= lines);
        assert((done + front).push(last) =~= done + options);
    }
}

/// Reading the script lines of a line of a section adds that line.
pub proof fn lemma_read_one(
    secs: Seq<SectionView>,
    name: Seq<char>,
    lines: Seq<LineView>,
    line: LineView,
    rest: Seq<char>,
)
    requires
        line_ok(line),
        lines.len() == 0 || !same_voice(lines.last(), line),
    ensures
        outcome(line_text(line) + rest, with_lines(secs, name, lines)) == outcome(
            rest,
            with_lines(secs, name, lines.push(line)),
        ),
{
    match line {
        LineView::Phrase { speaker, lines: subs } => {
            lemma_read_phrase(secs, name, lines, speaker, subs, rest);
        },
        LineView::Menu(m) => {
            assert(menu_text(m) + rest =~= title_body(m.title) + seq!['\n'] + (options_text(
                m.options,
            ) + rest));
            lemma_read_item(
                secs,
                name,
                lines,
                title_body(m.title),
                ItemView::MenuTitle(m.title),
                options_text(m.options) + rest,
            );
            lemma_read_options(secs, name, lines, m.title, Seq::empty(), m.options, rest);
            assert(Seq::<MenuOptionView>::empty() + m.options =~= m.options);
        },
    }
}

/// Reading the script lines of the lines of a section adds them all.
pub proof fn lemma_read_lines(
    secs: Seq<SectionView>,
    name: Seq<char>,
    lines: Seq<LineView>,
    rest: Seq<char>,
)
    requires
        lines_ok(lines),
    ensures
        outcome(lines_text(lines) + rest, with_lines(secs, name, Seq::empty())) == outcome(
            rest,
            with_lines(secs, name, lines),
        ),
    decreases lines.len(),
{
    if lines.len() == 0 {
        assert(lines_text(lines) + rest =~= rest);
        assert(lines =~= Seq::empty());
    } else {
        let last = lines.last();
        let front = lines.drop_last();
        assert(lines_text(lines) + rest =~= lines_text(front) + (line_text(last) + rest));
        assert forall|k: int| 0 <= k < front.len() implies line_ok(#[trigger] front[k]) by {
            assert(front[k] == lines[k]);
        }
        assert forall|k: int| 0 < k < front.len() implies !same_voice(
            front[k - 1],
            #[trigger] front[k],
        ) by {
            assert(front[k] == lines[k]);
            assert(front[k - 1] == lines[k - 1]);
        }
        lemma_read_lines(secs, name, front, line_text(last) + rest);
        assert(line_ok(lines[lines.len() - 1]));
        if front.len() > 0 {
            assert(front.last() == lines[lines.len() - 2]);
            assert(!same_voice(lines[lines.len() - 1 - 1], lines[lines.len() - 1]));
        }
        lemma_read_one(secs, name, front, last, rest);
        assert(front.push(last) =~= lines);
    }
}

/// Reading the script of sections from nothing gives those sections.
pub proof fn lemma_read_sections(secs: Seq<SectionView>, rest: Seq<char>)
    requires
        distinct_names(secs),
        all_sections_ok(secs),
    ensures
        outcome(sections_text(secs) + rest, Seq::empty()) == outcome(rest, secs),
    decreases secs.len(),
{
    if secs.len() == 0 {
        assert(sections_text(secs) + rest =~= rest);
        assert(secs =~= Seq::empty());
    } else {
        let last = secs.last();
        let front = secs.drop_last();
        assert(section_ok(secs[secs.len() - 1]));
        assert(sections_text(secs) + rest =~= sections_text(front) + (section_text(last) + rest));
        assert forall|i: int| 0 <= i < front.len() implies section_ok(#[trigger] front[i]) by {
            assert(front[i] == secs[i]);
        }
        assert forall|i: int, j: int| 0 <= i < j < front.len() implies (#[trigger] front[i]).name
            != (#[trigger] front[j]).name by {
            assert(secs[i].name != secs[j].name);
        }
        lemma_read_sections(front, section_text(last) + rest);
        assert(section_text(last) + rest =~= header_body(last.name) + seq!['\n'] + (lines_text(
            last.lines,
        ) + rest));
        lemma_read_line(header_body(last.name), lines_text(last.lines) + rest, front);
        assert forall|j: int| 0 <= j < front.len() implies (#[trigger] front[j]).name
            != last.name by {
            assert(secs[j].name != secs[secs.len() - 1].name);
        }
        assert(lacks(front, last.name));
        lemma_read_lines(front, last.name, last.lines, rest);
        assert(with_lines(front, last.name, last.lines) =~= secs);
    }
}

/// Reading a script, writing the document and reading what was written
/// gives the same document.
pub proof fn lemma_round_trip(src: Seq<char>)
    requires
        parse_script(src).is_ok(),
    ensures
        parse_script(script_of(parse_script(src)->Ok_0)) == parse_script(src),
{
    lemma_parsed_is_canonical(src);
    lemma_written_script_is_read_back(parse_script(src)->Ok_0);
}

/// The script written for a canonical document is read as that document.
pub proof fn lemma_written_script_is_read_back(d: DialogView)
    requires
        canonical(d),
    ensures
        parse_script(script_of(d)) == Ok::<DialogView, (ParseErrorKind, nat)>(d),
{
    let none = Seq::<char>::empty();
    lemma_read_sections(d.sections, none);
    assert(script_of(d) + none =~= script_of(d));
    assert(none.take(0) =~= none);
    assert(run(none, d.sections, 0) == Ok::<Seq<SectionView>, (ParseErrorKind, nat)>(d.sections));
}

} // verus!
