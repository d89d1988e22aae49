//! The form in which the parser gives a document.

use vstd::prelude::*;
use crate::model::{DialogView, LineView, MenuOptionView, SectionView, SpeakerView};
use crate::parser::{
    add_line, choice_item, feed, item_of, lemma_parsed_is_document, narrator_tag, parse_script,
    phrase_item, run, speaker_of, ItemView,
};
use crate::printer::{choice_body, header_body, or_empty, say_body, tag_text, title_body};
use crate::text::{arrow_pos, index_of, is_blank, non_empty, strip_anchor, trim};
use crate::text_laws::{
    arrow_free, lead, lemma_arrow_first, lemma_arrow_pos_bound, lemma_concat_lacks,
    lemma_index_of_first, lemma_index_of_none, lemma_padded_arrow_free, lemma_part_arrow_free,
    lemma_part_lacks, lemma_take_arrow_free, lemma_take_lacks, lemma_trim_lacks,
    lemma_trim_pad_both, lemma_trim_pad_left, lemma_trim_pad_right, lemma_trim_shape,
    lemma_trimmed_fixed, trimmed,
};

verus! {

/// `body` is one line of a script and says `item`.
pub open spec fn reads_as(body: Seq<char>, item: ItemView) -> bool {
    !body.contains('\n') && item_of(body) == item
}

/// A sub-line: trimmed and within one line.
pub open spec fn text_fine(x: Seq<char>) -> bool {
    trimmed(x) && !x.contains('\n')
}

/// A speaker whose tag can stand at the start of a line and names it.
pub open spec fn tag_fine(speaker: SpeakerView) -> bool {
    let t = tag_text(speaker);
    &&& t.len() > 0
    &&& trimmed(t)
    &&& !t.contains('\n')
    &&& !t.contains(':')
    &&& t[0] != '#' && t[0] != '?' && t[0] != '-'
    &&& !(t.len() >= 2 && t[0] == '/' && t[1] == '/')
    &&& speaker_of(t) == Some(speaker)
}

/// A phrase has a sub-line, a speaker whose tag names it and sub-lines
/// that are trimmed and within one line. What is written for the title
/// and each option of a menu is read as that title or option.
pub open spec fn line_ok(line: LineView) -> bool {
    match line {
        LineView::Phrase { speaker, lines } => {
            &&& lines.len() > 0
            &&& tag_fine(speaker)
            &&& forall|j: int| 0 <= j < lines.len() ==> text_fine(#[trigger] lines[j])
        },
        LineView::Menu(m) => {
            &&& reads_as(title_body(m.title), ItemView::MenuTitle(m.title))
            &&& forall|j: int|
                0 <= j < m.options.len() ==> reads_as(
                    choice_body(#[trigger] m.options[j]),
                    ItemView::Choice(m.options[j]),
                )
        },
    }
}

/// Two phrases of one speaker.
pub open spec fn same_voice(a: LineView, b: LineView) -> bool {
    a is Phrase && b is Phrase && a->speaker == b->speaker
}

/// Every line is read as written, and no phrase follows a phrase of
/// the same speaker.
pub open spec fn lines_ok(lines: Seq<LineView>) -> bool {
    &&& forall|k: int| 0 <= k < lines.len() ==> line_ok(#[trigger] lines[k])
    &&& forall|k: int| 0 < k < lines.len() ==> !same_voice(lines[k - 1], #[trigger] lines[k])
}

/// The header of a section is read as written, and its lines are in form.
pub open spec fn section_ok(s: SectionView) -> bool {
    &&& reads_as(header_body(s.name), ItemView::Header(s.name))
    &&& lines_ok(s.lines)
}

/// Every section is in form.
pub open spec fn all_sections_ok(secs: Seq<SectionView>) -> bool {
    forall|i: int| 0 <= i < secs.len() ==> section_ok(#[trigger] secs[i])
}

/// A document in the form in which the parser gives it: each line of
/// its script is read as the header, sub-line, title or option that it
/// was written for, and no phrase follows a phrase of the same speaker.
pub open spec fn canonical(d: DialogView) -> bool {
    &&& d.wf()
    &&& all_sections_ok(d.sections)
}

/// A sub-line of a fine speaker is read as written.
pub proof fn lemma_say_reads(speaker: SpeakerView, x: Seq<char>)
    requires
        tag_fine(speaker),
        text_fine(x),
    ensures
        reads_as(say_body(speaker, x), ItemView::Say(speaker, x)),
{
    let t = tag_text(speaker);
    let b = say_body(speaker, x);
    let sep = seq![':', ' '];
    assert(!sep.contains('\n'));
    lemma_concat_lacks(t, sep, '\n');
    lemma_concat_lacks(t + sep, x, '\n');
    let head = t + seq![':'];
    let rest = if x.len() == 0 {
        Seq::<char>::empty()
    } else {
        seq![' '] + x
    };
    let line = head + rest;
    if x.len() == 0 {
        assert(b =~= head + seq![' ']);
        assert(head[0] == t[0]);
        assert(head.last() == ':');
        lemma_trim_pad_right(head);
        assert(line =~= head);
        assert(trim(rest) == rest);
    } else {
        assert(b =~= line);
        assert(b[0] == t[0]);
        assert(b.last() == x.last());
        lemma_trimmed_fixed(b);
        lemma_trim_pad_left(x);
    }
    assert(trim(b) == line);
    assert(line =~= t + seq![':'] + rest);
    assert(line[0] == t[0]);
    if t.len() >= 2 {
        assert(line[1] == t[1]);
    } else {
        assert(line[1] == ':');
    }
    lemma_index_of_first(t, ':', rest);
    assert(line.take(t.len() as int) =~= t);
    assert(line.skip(t.len() + 1 as int) =~= rest);
    lemma_trimmed_fixed(t);
    assert(index_of(line, ':') == t.len());
    assert(trim(line.take(t.len() as int)) == t);
    if x.len() == 0 {
        assert(x =~= rest);
    }
    assert(trim(rest) == x);
    assert(phrase_item(line) == ItemView::Say(speaker, x));
}

/// A section header is read as written.
pub proof fn lemma_header_reads(name: Seq<char>)
    requires
        name.len() > 0,
        text_fine(name),
    ensures
        reads_as(header_body(name), ItemView::Header(name)),
{
    let mark = seq!['#', ' '];
    let b = header_body(name);
    assert(!mark.contains('\n'));
    lemma_concat_lacks(mark, name, '\n');
    assert(b[0] == '#');
    assert(b.last() == name.last());
    lemma_trimmed_fixed(b);
    assert(b.skip(1) =~= seq![' '] + name);
    lemma_trim_pad_left(name);
}

/// The title line of a menu is read as written.
pub proof fn lemma_title_reads(title: Option<Seq<char>>)
    requires
        match title {
            Some(t) => t.len() > 0 && text_fine(t),
            None => true,
        },
    ensures
        reads_as(title_body(title), ItemView::MenuTitle(title)),
{
    let mark = seq!['?', ' '];
    let t = or_empty(title);
    let b = title_body(title);
    assert(!mark.contains('\n'));
    lemma_concat_lacks(mark, t, '\n');
    let q = seq!['?'];
    if t.len() == 0 {
        assert(b =~= q + seq![' ']);
        lemma_trim_pad_right(q);
        assert(trim(b) == q);
        assert(q.skip(1) =~= Seq::<char>::empty());
        assert(trim(q.skip(1)) == Seq::<char>::empty());
    } else {
        assert(b[0] == '?');
        assert(b.last() == t.last());
        lemma_trimmed_fixed(b);
        assert(b.skip(1) =~= seq![' '] + t);
        lemma_trim_pad_left(t);
    }
}

/// An option with one argument is read as written.
pub proof fn lemma_choice_reads(title: Option<Seq<char>>, g: Seq<char>)
    requires
        match title {
            Some(t) => t.len() > 0 && text_fine(t) && arrow_free(t),
            None => true,
        },
        g.len() > 0,
        !is_blank(g.last()),
        !g.contains('\n'),
    ensures
        reads_as(
            choice_body(MenuOptionView { title, args: seq![g] }),
            ItemView::Choice(MenuOptionView { title, args: seq![g] }),
        ),
{
    let o = MenuOptionView { title, args: seq![g] };
    let t = or_empty(title);
    let b = choice_body(o);
    let mark = seq!['-', ' '];
    let link = seq![' ', '-', '>', ' ', '#'];
    assert(!mark.contains('\n'));
    assert(!link.contains('\n'));
    lemma_concat_lacks(mark, t, '\n');
    lemma_concat_lacks(mark + t, link, '\n');
    lemma_concat_lacks(mark + t + link, g, '\n');
    assert(b[0] == '-');
    assert(b.last() == g.last());
    lemma_trimmed_fixed(b);
    let body = b.skip(1);
    let x = seq![' '] + t + seq![' '];
    let y = seq![' ', '#'] + g;
    assert(body =~= x + seq!['-', '>'] + y);
    assert(arrow_free(t));
    lemma_padded_arrow_free(t);
    lemma_arrow_first(x, y);
    assert(body.take(x.len() as int) =~= x);
    assert(body.skip(x.len() + 2 as int) =~= y);
    assert(trimmed(t));
    lemma_trim_pad_both(t);
    let anchored = seq!['#'] + g;
    assert(y =~= seq![' '] + anchored);
    assert(anchored[0] == '#');
    assert(anchored.last() == g.last());
    lemma_trim_pad_left(anchored);
    assert(anchored.skip(1) =~= g);
    assert(strip_anchor(anchored) == g);
    assert(choice_item(body) == ItemView::Choice(o));
}

/// What an item must be like for the document to stay canonical.
pub open spec fn item_fine(item: ItemView) -> bool {
    match item {
        ItemView::Header(name) => reads_as(header_body(name), item),
        ItemView::MenuTitle(title) => reads_as(title_body(title), item),
        ItemView::Choice(option) => reads_as(choice_body(option), item),
        ItemView::Say(speaker, x) => tag_fine(speaker) && text_fine(x),
        ItemView::More(x) => text_fine(x),
        _ => true,
    }
}

/// The speaker that a tag at the start of a line names has a fine tag.
pub proof fn lemma_speaker_fine(tag: Seq<char>)
    requires
        trimmed(tag),
        !tag.contains(':'),
        !tag.contains('\n'),
        tag.len() > 0 ==> tag[0] != '#' && tag[0] != '?' && tag[0] != '-',
        !(tag.len() >= 2 && tag[0] == '/' && tag[1] == '/'),
        speaker_of(tag).is_some(),
    ensures
        tag_fine(speaker_of(tag)->Some_0),
{
    let sp = speaker_of(tag)->Some_0;
    let e = index_of(tag, '=');
    lemma_take_lacks(tag, '=');
    let nt = narrator_tag();
    assert(nt.len() == 8);
    if e >= tag.len() {
        assert(tag_text(sp) == tag);
    } else {
        let front = tag.take(e as int);
        let back = tag.skip(e + 1 as int);
        let alias = trim(front);
        let nm = trim(back);
        lemma_trim_shape(front);
        lemma_trim_shape(back);
        lemma_part_lacks(tag, 0, e as int, ':');
        lemma_part_lacks(tag, 0, e as int, '\n');
        lemma_part_lacks(tag, e + 1 as int, tag.len() as int, ':');
        lemma_part_lacks(tag, e + 1 as int, tag.len() as int, '\n');
        lemma_trim_lacks(front, ':');
        lemma_trim_lacks(front, '\n');
        lemma_trim_lacks(front, '=');
        lemma_trim_lacks(back, ':');
        lemma_trim_lacks(back, '\n');
        assert(alias.len() > 0);
        assert(front.len() > 0);
        assert(front[0] == tag[0]);
        assert(lead(front) == 0);
        assert(alias[0] == front[0]);
        if alias.len() >= 2 {
            assert(alias[1] == front[1]);
            assert(front[1] == tag[1]);
        }
        if non_empty(nm).is_none() {
            assert(tag_text(sp) == alias);
            lemma_index_of_none(alias, '=');
        } else {
            let t = tag_text(sp);
            let left = alias + seq![' '];
            let right = seq![' '] + nm;
            assert(t =~= left + seq!['='] + right);
            let pad = seq![' '];
            assert(!pad.contains('='));
            assert(!pad.contains(':'));
            assert(!pad.contains('\n'));
            let eq = seq!['='];
            assert(!eq.contains(':'));
            assert(!eq.contains('\n'));
            lemma_concat_lacks(alias, pad, '=');
            lemma_concat_lacks(alias, pad, ':');
            lemma_concat_lacks(alias, pad, '\n');
            lemma_concat_lacks(pad, nm, ':');
            lemma_concat_lacks(pad, nm, '\n');
            lemma_concat_lacks(left, eq, ':');
            lemma_concat_lacks(left, eq, '\n');
            lemma_concat_lacks(left + eq, right, ':');
            lemma_concat_lacks(left + eq, right, '\n');
            lemma_index_of_first(left, '=', right);
            assert(t.take(left.len() as int) =~= left);
            assert(t.skip(left.len() + 1 as int) =~= right);
            lemma_trim_pad_right(alias);
            lemma_trim_pad_left(nm);
            assert(t[0] == alias[0]);
            assert(t.last() == nm.last());
            if alias.len() >= 2 {
                assert(t[1] == alias[1]);
            } else {
                assert(t[1] == ' ');
            }
            assert(speaker_of(t) == Some(sp));
        }
    }
}

/// Whatever a line says is fine.
pub proof fn lemma_item_fine(raw: Seq<char>)
    requires
        !raw.contains('\n'),
    ensures
        item_fine(item_of(raw)),
{
    let line = trim(raw);
    lemma_trim_shape(raw);
    lemma_trim_lacks(raw, '\n');
    if line.len() == 0 {
    } else if line.len() >= 2 && line[0] == '/' && line[1] == '/' {
    } else if line[0] == '#' || line[0] == '?' {
        let tail = line.skip(1);
        lemma_part_lacks(line, 1, line.len() as int, '\n');
        lemma_trim_shape(tail);
        lemma_trim_lacks(tail, '\n');
        let name = trim(tail);
        if line[0] == '#' {
            if name.len() > 0 {
                lemma_header_reads(name);
            }
        } else {
            lemma_title_reads(non_empty(name));
        }
    } else if line[0] == '-' {
        let body = line.skip(1);
        lemma_part_lacks(line, 1, line.len() as int, '\n');
        let a = arrow_pos(body);
        lemma_arrow_pos_bound(body);
        if a < body.len() {
            let front = body.take(a as int);
            let back = body.skip(a + 2 as int);
            lemma_take_arrow_free(body);
            lemma_part_lacks(body, 0, a as int, '\n');
            lemma_part_lacks(body, a + 2 as int, body.len() as int, '\n');
            lemma_trim_shape(front);
            lemma_trim_shape(back);
            lemma_trim_lacks(front, '\n');
            lemma_trim_lacks(back, '\n');
            let t = trim(front);
            lemma_part_arrow_free(front, lead(front), lead(front) + t.len());
            let given = trim(back);
            let g = strip_anchor(given);
            if g.len() > 0 {
                if given[0] == '#' {
                    lemma_part_lacks(given, 1, given.len() as int, '\n');
                    assert(g.last() == given.last());
                }
                lemma_choice_reads(non_empty(t), g);
            }
        }
    } else {
        let c = index_of(line, ':');
        lemma_take_lacks(line, ':');
        if c < line.len() {
            let front = line.take(c as int);
            let back = line.skip(c + 1 as int);
            lemma_part_lacks(line, 0, c as int, '\n');
            lemma_part_lacks(line, c + 1 as int, line.len() as int, '\n');
            lemma_trim_shape(front);
            lemma_trim_shape(back);
            lemma_trim_lacks(front, '\n');
            lemma_trim_lacks(front, ':');
            lemma_trim_lacks(back, '\n');
            let tag = trim(front);
            if speaker_of(tag).is_some() {
                if front.len() > 0 {
                    assert(front[0] == line[0]);
                    assert(lead(front) == 0);
                    assert(tag[0] == front[0]);
                    if tag.len() >= 2 {
                        assert(tag[1] == front[1]);
                        assert(front[1] == line[1]);
                    }
                }
                lemma_speaker_fine(tag);
            }
        }
    }
}

/// Adding a fine item to the lines of a section keeps them in form.
pub proof fn lemma_add_line_ok(lines: Seq<LineView>, item: ItemView)
    requires
        lines_ok(lines),
        item_fine(item),
        add_line(lines, item).is_some(),
    ensures
        lines_ok(add_line(lines, item)->Some_0),
{
    let next = add_line(lines, item)->Some_0;
    lemma_title_reads(None);
    assert forall|k: int| 0 <= k < next.len() implies line_ok(#[trigger] next[k]) by {
        if k < lines.len() {
            assert(line_ok(lines[k]));
        }
        if k == next.len() - 1 && lines.len() > 0 {
            let last = lines[lines.len() - 1];
            assert(line_ok(last));
            match next[k] {
                LineView::Phrase { speaker, lines: subs } => {
                    assert forall|j: int| 0 <= j < subs.len() implies text_fine(
                        #[trigger] subs[j],
                    ) by {
                        if last is Phrase && j < last->lines.len() {
                            assert(text_fine(last->lines[j]));
                        }
                    }
                },
                LineView::Menu(m) => {
                    assert forall|j: int| 0 <= j < m.options.len() implies reads_as(
                        choice_body(#[trigger] m.options[j]),
                        ItemView::Choice(m.options[j]),
                    ) by {
                        if last is Menu && j < last->Menu_0.options.len() {
                            assert(reads_as(
                                choice_body(last->Menu_0.options[j]),
                                ItemView::Choice(last->Menu_0.options[j]),
                            ));
                        }
                    }
                },
            }
        }
    }
    assert forall|k: int| 0 < k < next.len() implies !same_voice(
        next[k - 1],
        #[trigger] next[k],
    ) by {
        if k < lines.len() {
            assert(!same_voice(lines[k - 1], lines[k]));
        }
    }
}

/// Adding a fine item keeps every section in form.
pub proof fn lemma_feed_fine(secs: Seq<SectionView>, item: ItemView)
    requires
        all_sections_ok(secs),
        item_fine(item),
        feed(secs, item).is_ok(),
    ensures
        all_sections_ok(feed(secs, item)->Ok_0),
{
    let next = feed(secs, item)->Ok_0;
    match item {
        ItemView::Skip => {},
        ItemView::Bad(_) => {},
        ItemView::Header(name) => {
            assert forall|i: int| 0 <= i < next.len() implies section_ok(#[trigger] next[i]) by {
                if i < secs.len() {
                    assert(section_ok(secs[i]));
                }
            }
        },
        _ => {
            let last = secs.len() - 1;
            assert(section_ok(secs[last]));
            lemma_add_line_ok(secs.last().lines, item);
            assert forall|i: int| 0 <= i < next.len() implies section_ok(#[trigger] next[i]) by {
                if i < last {
                    assert(section_ok(secs[i]));
                }
            }
        },
    }
}

/// Reading a script keeps every section in form.
pub proof fn lemma_run_fine(src: Seq<char>, secs: Seq<SectionView>, line_no: nat)
    requires
        all_sections_ok(secs),
        run(src, secs, line_no).is_ok(),
    ensures
        all_sections_ok(run(src, secs, line_no)->Ok_0),
    decreases src.len(),
{
    let n = index_of(src, '\n');
    lemma_take_lacks(src, '\n');
    let item = item_of(src.take(n as int));
    lemma_item_fine(src.take(n as int));
    lemma_feed_fine(secs, item);
    if n < src.len() {
        lemma_run_fine(src.skip(n + 1 as int), feed(secs, item)->Ok_0, line_no + 1);
    }
}

/// Every document that the parser gives is canonical.
pub proof fn lemma_parsed_is_canonical(src: Seq<char>)
    requires
        parse_script(src).is_ok(),
    ensures
        canonical(parse_script(src)->Ok_0),
{
    lemma_parsed_is_document(src);
    lemma_run_fine(src, Seq::empty(), 0);
}

} // verus!
