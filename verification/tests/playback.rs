use dialogue::cursor::Cursor;
use dialogue::model::{Alias, Dialog, Line, Menu, MenuOption, Speaker};
use dialogue::parser::parse;
use dialogue::walker::Action;

const TOWN: &str = "# start\nNarrator: Hello.\nNarrator: Welcome.\n- Go to town -> #town\n# town\nNarrator: You are in town.\n";

fn town() -> Dialog {
    parse(TOWN).unwrap()
}

fn sub_line(dialog: &Dialog, cursor: &Cursor) -> String {
    assert!(dialog.has_sub_line(cursor));
    dialog.get_sub_line_by_cursor(cursor).clone()
}

#[test]
fn town_script_has_two_sections() {
    let dialog = town();
    let sections = dialog.sections();
    assert_eq!(sections.len(), 2);
    assert_eq!(sections[0].name, "start");
    assert_eq!(sections[1].name, "town");
    assert_eq!(sections[0].lines.len(), 2);
    assert_eq!(
        sections[0].lines[0],
        Line::Phrase {
            speaker: Speaker::Narrator,
            lines: vec!["Hello.".to_string(), "Welcome.".to_string()],
        }
    );
    assert_eq!(
        sections[0].lines[1],
        Line::Menu(Menu {
            title: None,
            options: vec![MenuOption {
                title: Some("Go to town".to_string()),
                args: vec!["town".to_string()],
            }],
        })
    );
    assert_eq!(
        sections[1].lines,
        vec![Line::Phrase {
            speaker: Speaker::Narrator,
            lines: vec!["You are in town.".to_string()],
        }]
    );
}

#[test]
fn town_script_plays_to_the_end() {
    let dialog = town();
    let mut cursor = dialog.start();
    assert_eq!(cursor.section(), "start");
    assert_eq!((cursor.line_index(), cursor.phrase_index()), (0, 0));
    assert_eq!(sub_line(&dialog, &cursor), "Hello.");

    assert!(dialog.advance(&mut cursor));
    assert_eq!((cursor.line_index(), cursor.phrase_index()), (0, 1));
    assert_eq!(sub_line(&dialog, &cursor), "Welcome.");

    assert!(dialog.advance(&mut cursor));
    assert_eq!((cursor.line_index(), cursor.phrase_index()), (1, 0));
    match dialog.get_line_by_cursor(&cursor) {
        Some(Line::Menu(menu)) => {
            assert_eq!(menu.options.len(), 1);
            assert_eq!(menu.options[0].target(), Some("town".to_string()));
        }
        other => panic!("expected a menu, found {:?}", other),
    }
    assert!(!dialog.has_sub_line(&cursor));

    assert!(dialog.select_option(&mut cursor, 0));
    assert_eq!(cursor.section(), "town");
    assert_eq!((cursor.line_index(), cursor.phrase_index()), (0, 0));
    assert_eq!(sub_line(&dialog, &cursor), "You are in town.");

    assert!(dialog.advance(&mut cursor));
    assert_eq!((cursor.line_index(), cursor.phrase_index()), (1, 0));
    assert_eq!(dialog.get_line_by_cursor(&cursor), None);
}

#[test]
fn fresh_cursor_shows_first_line_of_entry() {
    let dialog = parse("# a\nbob: one\n# b\nNarrator: two\n").unwrap();
    let cursor = dialog.start();
    assert_eq!(
        dialog.get_line_by_cursor(&cursor),
        Some(&Line::Phrase {
            speaker: Speaker::Character(Alias("bob".to_string()), None),
            lines: vec!["one".to_string()],
        })
    );
}

#[test]
fn set_section_shows_first_line_of_that_section() {
    let dialog = parse("# a\nbob: one\n# b\nNarrator: two\nNarrator: three\n").unwrap();
    let mut cursor = dialog.start();
    dialog.advance(&mut cursor);
    cursor.set_section("b".to_string());
    assert_eq!((cursor.line_index(), cursor.phrase_index()), (0, 0));
    assert_eq!(sub_line(&dialog, &cursor), "two");
    assert_eq!(dialog.get_line_by_cursor(&cursor), Some(&dialog.sections()[1].lines[0]));
}

#[test]
fn set_section_to_unknown_name_finishes_the_dialogue() {
    let dialog = town();
    let mut cursor = dialog.start();
    cursor.set_section("nowhere".to_string());
    assert_eq!(cursor.section(), "nowhere");
    assert_eq!(dialog.get_line_by_cursor(&cursor), None);
    assert!(!dialog.has_sub_line(&cursor));
    assert!(!dialog.advance(&mut cursor));
    assert_eq!(dialog.find_section(&"nowhere".to_string()), None);
    assert_eq!(dialog.find_section(&"town".to_string()), Some(1));
}

#[test]
fn phrase_of_three_sub_lines_takes_three_steps() {
    let dialog = parse("# s\nann: a\nb\nc\nNarrator: d\nann: e\n").unwrap();
    assert_eq!(dialog.sections()[0].lines.len(), 3);
    let mut cursor = dialog.start();
    for k in 0..3 {
        assert_eq!((cursor.line_index(), cursor.phrase_index()), (0, k));
        assert!(dialog.advance(&mut cursor));
    }
    assert_eq!((cursor.line_index(), cursor.phrase_index()), (1, 0));
    // two lines of one sub-line each are left
    assert!(dialog.advance(&mut cursor));
    assert!(dialog.advance(&mut cursor));
    assert_eq!((cursor.line_index(), cursor.phrase_index()), (3, 0));
    assert_eq!(dialog.get_line_by_cursor(&cursor), None);
}

#[test]
fn advance_does_not_leave_a_menu() {
    let dialog = town();
    let mut cursor = dialog.start();
    dialog.advance(&mut cursor);
    dialog.advance(&mut cursor);
    let before = cursor.clone();
    assert!(!dialog.advance(&mut cursor));
    assert_eq!(cursor, before);
}

#[test]
fn select_option_needs_a_menu_and_an_option() {
    let dialog = town();
    let mut cursor = dialog.start();
    let before = cursor.clone();
    assert!(!dialog.select_option(&mut cursor, 0));
    assert_eq!(cursor, before);
    dialog.advance(&mut cursor);
    dialog.advance(&mut cursor);
    let at_menu = cursor.clone();
    assert!(!dialog.select_option(&mut cursor, 1));
    assert_eq!(cursor, at_menu);
}

#[test]
fn dispatch_follows_actions() {
    let dialog = town();
    let mut cursor = dialog.start();
    assert!(!dialog.dispatch(&mut cursor, Action::Advance));
    assert!(!dialog.dispatch(&mut cursor, Action::Advance));
    assert!(!dialog.dispatch(&mut cursor, Action::SelectOption(0)));
    assert_eq!(cursor.section(), "town");
    let before = cursor.clone();
    assert!(dialog.dispatch(&mut cursor, Action::Exit));
    assert_eq!(cursor, before);
    assert!(dialog.dispatch(&mut cursor, Action::Advance));
    assert_eq!(cursor.line_index(), 1);
}

#[test]
fn cursor_moves_by_hand() {
    let mut cursor = Cursor::new("x".to_string());
    cursor.next_phrase_index();
    cursor.next_phrase_index();
    assert_eq!((cursor.line_index(), cursor.phrase_index()), (0, 2));
    cursor.next_line_index();
    assert_eq!((cursor.line_index(), cursor.phrase_index()), (1, 0));
    cursor.set_section("y".to_string());
    assert_eq!(cursor.section(), "y");
    assert_eq!((cursor.line_index(), cursor.phrase_index()), (0, 0));
}

#[test]
fn option_target_strips_one_anchor() {
    let plain = MenuOption { title: None, args: vec!["#town".to_string(), "x".to_string()] };
    assert_eq!(plain.target(), Some("town".to_string()));
    let bare = MenuOption { title: None, args: vec!["town".to_string()] };
    assert_eq!(bare.target(), Some("town".to_string()));
    let twice = MenuOption { title: None, args: vec!["##a".to_string()] };
    assert_eq!(twice.target(), Some("#a".to_string()));
    let none = MenuOption { title: None, args: vec![] };
    assert_eq!(none.target(), None);
}

#[test]
fn display_name_falls_back_to_alias() {
    let plain = Speaker::Character(Alias("hp".to_string()), None);
    assert_eq!(plain.display_name(), Some(&"hp".to_string()));
    let named = Speaker::Character(Alias("hp".to_string()), Some("Harry".to_string()));
    assert_eq!(named.display_name(), Some(&"Harry".to_string()));
    assert_eq!(Speaker::Narrator.display_name(), None);
}
