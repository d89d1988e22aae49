use dialogue::model::{Alias, Dialog, Line, Menu, MenuOption, Section, Speaker};
use dialogue::parser::parse;

fn phrase(speaker: Speaker, lines: &[&str]) -> Line {
    Line::Phrase { speaker, lines: lines.iter().map(|s| s.to_string()).collect() }
}

fn section(name: &str, lines: Vec<Line>) -> Section {
    Section { name: name.to_string(), lines }
}

#[test]
fn document_needs_a_section() {
    assert_eq!(Dialog::from_sections(vec![]), None);
}

#[test]
fn document_needs_distinct_names() {
    let twice = vec![section("a", vec![]), section("b", vec![]), section("a", vec![])];
    assert_eq!(Dialog::from_sections(twice), None);
}

#[test]
fn document_needs_filled_phrases() {
    let hollow = vec![
        section("a", vec![phrase(Speaker::Narrator, &["x"])]),
        section("b", vec![phrase(Speaker::Narrator, &["y"]), phrase(Speaker::Narrator, &[])]),
    ];
    assert_eq!(Dialog::from_sections(hollow), None);
}

#[test]
fn document_by_hand_equals_parsed_one() {
    let built = Dialog::from_sections(vec![
        section(
            "start",
            vec![
                phrase(Speaker::Narrator, &["Hello.", "Welcome."]),
                Line::Menu(Menu {
                    title: None,
                    options: vec![MenuOption {
                        title: Some("Go to town".to_string()),
                        args: vec!["town".to_string()],
                    }],
                }),
            ],
        ),
        section("town", vec![phrase(Speaker::Narrator, &["You are in town."])]),
    ])
    .unwrap();
    let parsed = parse(
        "# start\nNarrator: Hello.\nNarrator: Welcome.\n- Go to town -> #town\n# town\nNarrator: You are in town.\n",
    )
    .unwrap();
    assert_eq!(built, parsed);
    assert_eq!(built.sections().len(), 2);
}

#[test]
fn option_by_hand_may_keep_its_anchor_and_more_arguments() {
    let dialog = Dialog::from_sections(vec![
        section(
            "a",
            vec![Line::Menu(Menu {
                title: Some("Where".to_string()),
                options: vec![
                    MenuOption { title: None, args: vec![] },
                    MenuOption {
                        title: Some("b".to_string()),
                        args: vec!["#b".to_string(), "loud".to_string()],
                    },
                ],
            })],
        ),
        section("b", vec![phrase(Speaker::Character(Alias("x".to_string()), None), &["hi"])]),
    ])
    .unwrap();
    let mut cursor = dialog.start();
    assert!(!dialog.select_option(&mut cursor, 0));
    assert_eq!(cursor.section(), "a");
    assert!(dialog.select_option(&mut cursor, 1));
    assert_eq!(cursor.section(), "b");
    assert_eq!(dialog.get_sub_line_by_cursor(&cursor), "hi");
    assert_eq!(
        dialog.to_script(),
        "# a\n? Where\n-  -> #\n- b -> ##b\n# b\nx: hi\n"
    );
}
