use dialogue::model::Dialog;
use dialogue::parser::parse;

fn round_trip(source: &str) -> (Dialog, String) {
    let dialog = parse(source).unwrap();
    let script = dialog.to_script();
    assert_eq!(parse(&script), Ok(dialog.clone()));
    (dialog, script)
}

#[test]
fn town_script_is_written_line_by_line() {
    let (_, script) = round_trip(
        "# start\nNarrator: Hello.\nNarrator: Welcome.\n- Go to town -> #town\n# town\nNarrator: You are in town.\n",
    );
    assert_eq!(
        script,
        "# start\nNarrator: Hello.\nNarrator: Welcome.\n? \n- Go to town -> #town\n# town\nNarrator: You are in town.\n"
    );
}

#[test]
fn written_script_parses_to_the_same_document() {
    round_trip("# a\nann: hi\nthere: you\nbob = Bob the Great : hello\nbob: again\nstill bob\nNarrator:\n");
    round_trip("# a\n? Where to\n- Town -> #town\n- -> ##odd\n?\n? again\nNarrator: hm\n- Back - -> a\n# town\n");
    round_trip("  # глава  \n\n// note\nрассказчик = Он : Привет → мир\n\tи ещё\n- a->b -> c -> d\n");
    round_trip("# s\nNarrator = N: a\nNarrator: b\n/: c\n");
    round_trip("# s\nNarrator = : a\nbob =: b\n- x -> # far away\n");
}

#[test]
fn continuation_is_written_with_its_speaker() {
    let (dialog, script) = round_trip("# s\nann: a\nb\n");
    assert_eq!(script, "# s\nann: a\nann: b\n");
    assert_eq!(dialog.sections()[0].lines.len(), 1);
}
