use dialogue::model::{Alias, Line, Menu, MenuOption, Speaker};
use dialogue::parser::{
    parse, parse_chars, read_line, same_speaker, Item, ParseError, ParseErrorKind,
};
use dialogue::text::{find_arrow, find_char, make_string, to_chars, trim_range};

fn refusal(source: &str) -> ParseError {
    parse(source).unwrap_err()
}

#[test]
fn phrase_without_speaker_is_refused() {
    assert_eq!(
        refusal("# start\n: text\n"),
        ParseError { kind: ParseErrorKind::MissingSpeaker, line: 1 }
    );
}

#[test]
fn continuation_without_phrase_is_refused() {
    assert_eq!(
        refusal("# start\n\nno speaker here\n"),
        ParseError { kind: ParseErrorKind::MissingSpeaker, line: 2 }
    );
    assert_eq!(
        refusal("# start\n? menu\nloose text\n"),
        ParseError { kind: ParseErrorKind::MissingSpeaker, line: 2 }
    );
}

#[test]
fn script_without_sections_is_refused() {
    assert_eq!(refusal(""), ParseError { kind: ParseErrorKind::NoSections, line: 0 });
    assert_eq!(
        refusal("\n// nothing here\n   \n"),
        ParseError { kind: ParseErrorKind::NoSections, line: 0 }
    );
}

#[test]
fn content_before_first_section_is_refused() {
    assert_eq!(
        refusal("Narrator: early\n# s\n"),
        ParseError { kind: ParseErrorKind::OutsideSection, line: 0 }
    );
    assert_eq!(
        refusal("\n- go -> #s\n# s\n"),
        ParseError { kind: ParseErrorKind::OutsideSection, line: 1 }
    );
}

#[test]
fn section_header_needs_a_new_name() {
    assert_eq!(
        refusal("#\nNarrator: x\n"),
        ParseError { kind: ParseErrorKind::EmptySectionName, line: 0 }
    );
    assert_eq!(
        refusal("# a\n# b\n#   a \n"),
        ParseError { kind: ParseErrorKind::DuplicateSection, line: 2 }
    );
}

#[test]
fn option_needs_a_link() {
    assert_eq!(
        refusal("# a\n- stay here\n"),
        ParseError { kind: ParseErrorKind::MissingLink, line: 1 }
    );
    assert_eq!(
        refusal("# a\n- stay here ->  \n"),
        ParseError { kind: ParseErrorKind::MissingLink, line: 1 }
    );
    assert_eq!(
        refusal("# a\n-> cave\n"),
        ParseError { kind: ParseErrorKind::MissingLink, line: 1 }
    );
    assert_eq!(
        refusal("# a\n- stay here -> #\n"),
        ParseError { kind: ParseErrorKind::MissingLink, line: 1 }
    );
}

#[test]
fn option_target_may_be_a_forward_reference() {
    let dialog = parse("# a\n- leave -> #nowhere\n").unwrap();
    assert_eq!(
        dialog.sections()[0].lines,
        vec![Line::Menu(Menu {
            title: None,
            options: vec![MenuOption {
                title: Some("leave".to_string()),
                args: vec!["nowhere".to_string()],
            }],
        })]
    );
}

#[test]
fn blank_lines_and_comments_are_skipped() {
    let with = parse("// intro\n\n# a\r\n\n  // note\nNarrator: one\n\n// more\nNarrator: two\n").unwrap();
    let without = parse("# a\nNarrator: one\nNarrator: two").unwrap();
    assert_eq!(with, without);
    assert_eq!(
        with.sections()[0].lines,
        vec![Line::Phrase {
            speaker: Speaker::Narrator,
            lines: vec!["one".to_string(), "two".to_string()],
        }]
    );
}

#[test]
fn speakers_split_phrases() {
    let dialog = parse("# a\nann: hi\nbob = Bob the Great : hello\nbob: again\nstill bob\nNarrator:\n").unwrap();
    let bob = Speaker::Character(Alias("bob".to_string()), None);
    assert_eq!(
        dialog.sections()[0].lines,
        vec![
            Line::Phrase {
                speaker: Speaker::Character(Alias("ann".to_string()), None),
                lines: vec!["hi".to_string()],
            },
            Line::Phrase {
                speaker: Speaker::Character(
                    Alias("bob".to_string()),
                    Some("Bob the Great".to_string())
                ),
                lines: vec!["hello".to_string()],
            },
            Line::Phrase {
                speaker: bob,
                lines: vec!["again".to_string(), "still bob".to_string()],
            },
            Line::Phrase { speaker: Speaker::Narrator, lines: vec!["".to_string()] },
        ]
    );
}

#[test]
fn alias_before_equals_sign_is_needed() {
    assert_eq!(
        refusal("# a\n = Bob: hello\n"),
        ParseError { kind: ParseErrorKind::MissingSpeaker, line: 1 }
    );
    let dialog = parse("# a\nbob = : hello\n").unwrap();
    assert_eq!(
        dialog.sections()[0].lines,
        vec![Line::Phrase {
            speaker: Speaker::Character(Alias("bob".to_string()), None),
            lines: vec!["hello".to_string()],
        }]
    );
}

#[test]
fn narrator_tag_without_a_name_is_the_narrator() {
    let dialog = parse("# a\nNarrator = : one\nNarrator: two\nNarrator = Teller: three\n").unwrap();
    assert_eq!(
        dialog.sections()[0].lines,
        vec![
            Line::Phrase {
                speaker: Speaker::Narrator,
                lines: vec!["one".to_string(), "two".to_string()],
            },
            Line::Phrase {
                speaker: Speaker::Character(
                    Alias("Narrator".to_string()),
                    Some("Teller".to_string())
                ),
                lines: vec!["three".to_string()],
            },
        ]
    );
}

#[test]
fn menus_collect_their_options() {
    let dialog = parse("# a\n? Where to\n- Town -> #town\nNarrator: hm\n- Back -> a\n? \n").unwrap();
    assert_eq!(
        dialog.sections()[0].lines,
        vec![
            Line::Menu(Menu {
                title: Some("Where to".to_string()),
                options: vec![
                    MenuOption {
                        title: Some("Town".to_string()),
                        args: vec!["town".to_string()]
                    },
                ],
            }),
            Line::Phrase { speaker: Speaker::Narrator, lines: vec!["hm".to_string()] },
            Line::Menu(Menu {
                title: None,
                options: vec![MenuOption {
                    title: Some("Back".to_string()),
                    args: vec!["a".to_string()]
                }],
            }),
            Line::Menu(Menu { title: None, options: vec![] }),
        ]
    );
}

#[test]
fn option_without_title_has_none() {
    let dialog = parse("# a\n- -> #b\n-   Well-known -> # b c\n").unwrap();
    assert_eq!(
        dialog.sections()[0].lines,
        vec![Line::Menu(Menu {
            title: None,
            options: vec![
                MenuOption { title: None, args: vec!["b".to_string()] },
                MenuOption {
                    title: Some("Well-known".to_string()),
                    args: vec![" b c".to_string()]
                },
            ],
        })]
    );
}

#[test]
fn text_outside_ascii_is_kept() {
    let dialog = parse("# глава\nрассказчик: Привет → мир\n").unwrap();
    assert_eq!(dialog.sections()[0].name, "глава");
    assert_eq!(
        dialog.sections()[0].lines,
        vec![Line::Phrase {
            speaker: Speaker::Character(Alias("рассказчик".to_string()), None),
            lines: vec!["Привет → мир".to_string()],
        }]
    );
}

#[test]
fn parse_chars_agrees_with_parse() {
    let source = "# a\nNarrator: x\n- go -> #a\n";
    let chars: Vec<char> = source.chars().collect();
    assert_eq!(parse_chars(&chars), parse(source));
    assert_eq!(to_chars(source), chars);
}

#[test]
fn same_speaker_compares_alias_and_name() {
    let a = Speaker::Character(Alias("a".to_string()), None);
    let a2 = Speaker::Character(Alias("a".to_string()), Some("A".to_string()));
    let b = Speaker::Character(Alias("b".to_string()), None);
    assert!(same_speaker(&a, &a.clone()));
    assert!(!same_speaker(&a, &a2));
    assert!(!same_speaker(&a, &b));
    assert!(!same_speaker(&a, &Speaker::Narrator));
    assert!(same_speaker(&Speaker::Narrator, &Speaker::Narrator));
}

#[test]
fn ranges_of_characters() {
    let src: Vec<char> = " \t ab -> c \r".chars().collect();
    assert_eq!(trim_range(&src, 0, src.len()), (3, 10));
    assert_eq!(trim_range(&src, 0, 3), (3, 3));
    assert_eq!(find_char(&src, 0, src.len(), 'b'), 4);
    assert_eq!(find_char(&src, 0, src.len(), 'z'), src.len());
    assert_eq!(find_arrow(&src, 0, src.len()), 6);
    assert_eq!(find_arrow(&src, 7, src.len()), src.len());
    assert_eq!(make_string(&src, 3, 5), "ab");
}

fn item(line: &str) -> Item {
    let padded: Vec<char> = format!("xx{}yy", line).chars().collect();
    read_line(&padded, 2, padded.len() - 2)
}

#[test]
fn lines_are_read_one_by_one() {
    assert_eq!(item(""), Item::Skip);
    assert_eq!(item(" \t\r"), Item::Skip);
    assert_eq!(item("  // a: b"), Item::Skip);
    assert_eq!(item("/ a: b"), Item::Say(
        Speaker::Character(Alias("/ a".to_string()), None),
        "b".to_string()
    ));
    assert_eq!(item("#  start "), Item::Header("start".to_string()));
    assert_eq!(item("# "), Item::Bad(ParseErrorKind::EmptySectionName));
    assert_eq!(item("? Where to?"), Item::MenuTitle(Some("Where to?".to_string())));
    assert_eq!(item("?"), Item::MenuTitle(None));
    assert_eq!(
        item("- a -> b -> c"),
        Item::Choice(MenuOption { title: Some("a".to_string()), args: vec!["b -> c".to_string()] })
    );
    assert_eq!(item("- a > b"), Item::Bad(ParseErrorKind::MissingLink));
    assert_eq!(item("Narrator: a: b"), Item::Say(Speaker::Narrator, "a: b".to_string()));
    assert_eq!(item("narrator: a"), Item::Say(
        Speaker::Character(Alias("narrator".to_string()), None),
        "a".to_string()
    ));
    assert_eq!(item(" on and on "), Item::More("on and on".to_string()));
    assert_eq!(item(": text"), Item::Bad(ParseErrorKind::MissingSpeaker));
    assert_eq!(item("   :"), Item::Bad(ParseErrorKind::MissingSpeaker));
}
