use dialasm::{Dialogue, DialogueChoice, DialogueEntry, ParseError, Rule};

const SCRIPT: &str = "@m = \"Maria\";
@l = \"Leon\";
: \"This is a phrase told by... well, nobody.\";
@m: \"Hello, my name is Maria!\";
@l: \"Hello, my name is Leon.\";
(@m & @l): \"And we can talk together as well!\";
@m: \"Now, you pick where to go!\";
? (\"I pick A\": a | \"I pick B\": b);
a:
@m: \"Excellent choice!\";
jump last;
b:
@l: \"Certainly better choice.\";
last:
(@l & @m): \"Now, last choice... well, you only have one.\";
? \"Byeee!\": end;
end:
@m: \"Goodbye!\";
";

fn undefined_speaker(source: &str) -> String {
    match Dialogue::parse(source) {
        Err(ParseError::UndefinedSpeaker(name)) => name,
        other => panic!("expected an undefined speaker, got {:?}", other),
    }
}

fn undefined_label(source: &str) -> String {
    match Dialogue::parse(source) {
        Err(ParseError::UndefinedLabel(name)) => name,
        other => panic!("expected an undefined label, got {:?}", other),
    }
}

fn duplicate_label(source: &str) -> String {
    match Dialogue::parse(source) {
        Err(ParseError::DuplicateLabel(name)) => name,
        other => panic!("expected a duplicate label, got {:?}", other),
    }
}

fn syntax_error(source: &str) -> (Rule, usize, usize, usize) {
    match Dialogue::parse(source) {
        Err(ParseError::InvalidProgram(e)) => (e.rule, e.position, e.line, e.column),
        other => panic!("expected a syntax error, got {:?}", other),
    }
}

#[test]
fn script_without_statements_is_empty() {
    for source in ["", "  \n\t\r\n", "/* nothing */", " /* a */\n/* b\n */ "] {
        let dlg = Dialogue::parse(source).unwrap();
        assert_eq!(dlg.len(), 0);
        assert!(dlg.is_empty());
        assert_eq!(dlg.label_count(), 0);
        assert!(dlg.labels().is_empty());
        assert_eq!(dlg.get(0), None);
    }
}

#[test]
fn label_alone_stands_for_index_zero() {
    let dlg = Dialogue::parse("name:").unwrap();
    assert_eq!(dlg.len(), 0);
    assert_eq!(dlg.label_count(), 1);
    assert_eq!(dlg.label("name"), Some(0));
    assert_eq!(dlg.label("nam"), None);
    assert_eq!(dlg.label("name:"), None);
}

#[test]
fn labels_in_a_row_share_their_index() {
    let dlg = Dialogue::parse("a:\nb:").unwrap();
    assert_eq!(dlg.label("a"), Some(0));
    assert_eq!(dlg.label("b"), Some(0));
    let dlg = Dialogue::parse(": \"x\"; a: b: : \"y\"; c:").unwrap();
    assert_eq!(dlg.label("a"), Some(1));
    assert_eq!(dlg.label("b"), Some(1));
    assert_eq!(dlg.label("c"), Some(2));
    assert_eq!(dlg.len(), 2);
}

#[test]
fn phrase_without_speakers_keeps_its_text() {
    let dlg = Dialogue::parse(": \"Hi!\";").unwrap();
    assert_eq!(dlg.len(), 1);
    assert_eq!(
        dlg.get(0),
        Some(&DialogueEntry::Phrase(vec![], String::from("Hi!")))
    );
    assert_eq!(dlg[0], DialogueEntry::Phrase(vec![], String::from("Hi!")));
    assert_eq!(dlg.get(1), None);
}

#[test]
fn speaker_must_be_bound_before_the_phrase() {
    assert_eq!(undefined_speaker("@m: \"Hello!\";"), "m");
    let dlg = Dialogue::parse("@m = \"Maria\"; @m: \"Hello!\";").unwrap();
    assert_eq!(
        dlg.entries(),
        &[
            DialogueEntry::NameChange(String::from("m"), String::from("Maria")),
            DialogueEntry::Phrase(vec![String::from("m")], String::from("Hello!")),
        ]
    );
    // A binding that comes after the phrase does not count.
    assert_eq!(undefined_speaker("@m: \"Hello!\"; @m = \"Maria\";"), "m");
    // Handles are told apart by every character.
    assert_eq!(undefined_speaker("@m = \"Maria\"; @mm: \"Hello!\";"), "mm");
    assert_eq!(undefined_speaker("@mm = \"Maria\"; @m: \"Hello!\";"), "m");
}

#[test]
fn first_unbound_speaker_of_a_group_is_named() {
    assert_eq!(undefined_speaker("@a = \"A\"; (@a & @b & @c): \"x\";"), "b");
    assert_eq!(undefined_speaker("@b = \"B\"; (@a & @b & @c): \"x\";"), "a");
    assert_eq!(
        undefined_speaker("@a = \"A\"; @b = \"B\"; (@a & @b & @c): \"x\";"),
        "c"
    );
    let dlg = Dialogue::parse("@a = \"A\"; @b = \"B\"; (@b & @a & @b): \"x\";").unwrap();
    assert_eq!(
        dlg.get(2),
        Some(&DialogueEntry::Phrase(
            vec![String::from("b"), String::from("a"), String::from("b")],
            String::from("x")
        ))
    );
}

#[test]
fn target_must_be_a_label_of_the_script() {
    assert_eq!(undefined_label("jump x;"), "x");
    assert_eq!(undefined_label("? \"Go\": x;"), "x");
    assert_eq!(undefined_label("y: jump x;"), "x");
    // The label may stand before or after its use.
    let before = Dialogue::parse("x: jump x;").unwrap();
    assert_eq!(before.label("x"), Some(0));
    let after = Dialogue::parse("jump x; x:").unwrap();
    assert_eq!(after.label("x"), Some(1));
    assert_eq!(after.len(), 1);
    let chosen = Dialogue::parse("? \"Go\": x; : \"...\"; x:").unwrap();
    assert_eq!(chosen.label("x"), Some(2));
}

#[test]
fn first_undefined_target_in_source_order_is_named() {
    assert_eq!(undefined_label("? (\"A\": p | \"B\": q); jump r;"), "p");
    assert_eq!(undefined_label("p: ? (\"A\": p | \"B\": q); jump r;"), "q");
    assert_eq!(undefined_label("? (\"A\": p | \"B\": q); jump r; q: p:"), "r");
    assert_eq!(undefined_label("jump r; ? (\"A\": p | \"B\": q); p:"), "r");
    assert_eq!(undefined_label("jump r; ? (\"A\": p | \"B\": q); r: p:"), "q");
}

#[test]
fn label_defined_twice_is_refused() {
    assert_eq!(duplicate_label("a: a:"), "a");
    assert_eq!(duplicate_label("a: : \"x\"; b: : \"y\"; a:"), "a");
    assert_eq!(duplicate_label("a: b: b: a:"), "b");
    assert!(Dialogue::parse("a: A: _a: a1:").is_ok());
}

#[test]
fn first_statement_at_fault_decides_the_error() {
    assert_eq!(undefined_speaker("@m: \"x\"; a: a:"), "m");
    assert_eq!(duplicate_label("a: a: @m: \"x\";"), "a");
    // A missing label is looked for once all statements are seen.
    assert_eq!(duplicate_label("jump z; a: a:"), "a");
    assert_eq!(undefined_speaker("jump z; @m: \"x\";"), "m");
    // A text that is no program is refused before anything else.
    assert_eq!(syntax_error("a: a: @m: \"x\"; jump").0, Rule::statement);
}

#[test]
fn options_keep_order_text_and_target() {
    let dlg = Dialogue::parse("? (\"A!\": a | \"B!\": b | \"C!\": c);\na: b: c:").unwrap();
    assert_eq!(
        dlg.entries(),
        &[DialogueEntry::Choice(vec![
            DialogueChoice {
                text: String::from("A!"),
                label: String::from("a")
            },
            DialogueChoice {
                text: String::from("B!"),
                label: String::from("b")
            },
            DialogueChoice {
                text: String::from("C!"),
                label: String::from("c")
            }
        ])]
    );
    let reversed = Dialogue::parse("? (\"C!\": c | \"B!\": b | \"A!\": a);\na: b: c:").unwrap();
    assert_ne!(dlg, reversed);
}

#[test]
fn every_label_is_within_the_instructions() {
    let dlg = Dialogue::parse(SCRIPT).unwrap();
    assert_eq!(dlg.label_count(), 4);
    for (name, index) in dlg.labels().bindings() {
        assert_eq!(dlg.label(name), Some(*index));
        assert!(*index <= dlg.len());
    }
    // A label after the last instruction stands for the number of instructions.
    let ended = Dialogue::parse(": \"a\"; : \"b\"; end:").unwrap();
    assert_eq!(ended.label("end"), Some(2));
    assert_eq!(ended.len(), 2);
    assert_eq!(ended.get(2), None);
}

#[test]
fn compiling_twice_gives_equal_dialogues() {
    let first = Dialogue::parse(SCRIPT).unwrap();
    let second = Dialogue::parse(SCRIPT).unwrap();
    assert_eq!(first, second);
    assert_eq!(undefined_label("jump b; jump a;"), undefined_label("jump b; jump a;"));
    assert_eq!(syntax_error("a: ;"), syntax_error("a: ;"));
}

#[test]
fn example_is_what_its_script_compiles_to() {
    let example = Dialogue::example();
    assert_eq!(Dialogue::parse(SCRIPT).unwrap(), example);
    assert_eq!(example.len(), 14);
    assert_eq!(example.label_count(), 4);
    assert_eq!(example.label("a"), Some(8));
    assert_eq!(example.label("b"), Some(10));
    assert_eq!(example.label("last"), Some(11));
    assert_eq!(example.label("end"), Some(13));
    assert_eq!(example.label("start"), None);
    assert_eq!(
        example[5],
        DialogueEntry::Phrase(
            vec![String::from("m"), String::from("l")],
            String::from("And we can talk together as well!")
        )
    );
    assert_eq!(example[9], DialogueEntry::Jump(String::from("last")));
}

#[test]
fn dialogues_differ_by_instructions_and_by_labels() {
    let base = Dialogue::parse("a: : \"x\"; b:").unwrap();
    assert_eq!(base, Dialogue::parse("a:/* */: \"x\" ;\nb:").unwrap());
    assert_ne!(base, Dialogue::parse("a: : \"y\"; b:").unwrap());
    assert_ne!(base, Dialogue::parse("a: : \"x\"; c:").unwrap());
    assert_ne!(base, Dialogue::parse("a: b: : \"x\";").unwrap());
    assert_ne!(base, Dialogue::parse("a: : \"x\";").unwrap());
    assert_ne!(base, Dialogue::parse("a: : \"x\"; : \"x\"; b:").unwrap());
    // The order in which labels of one index are defined does not count.
    assert_eq!(
        Dialogue::parse("a: b: : \"x\";").unwrap(),
        Dialogue::parse("b: a: : \"x\";").unwrap()
    );
    let mut bindings = Dialogue::parse("b: : \"x\"; a:").unwrap().labels().bindings().clone();
    bindings.sort();
    assert_eq!(bindings, vec![(String::from("a"), 1), (String::from("b"), 0)]);
}

#[test]
fn text_is_carried_as_it_is_written() {
    let dlg = Dialogue::parse("@m = \"Ma\\\"ria\\n\"; @m: \"\"; : \"line\nbreak /* no comment */ ; @x\";").unwrap();
    assert_eq!(
        dlg.entries(),
        &[
            DialogueEntry::NameChange(String::from("m"), String::from("Ma\\\"ria\\n")),
            DialogueEntry::Phrase(vec![String::from("m")], String::from("")),
            DialogueEntry::Phrase(vec![], String::from("line\nbreak /* no comment */ ; @x")),
        ]
    );
    let dlg = Dialogue::parse("@ж_1: \"x\";");
    assert!(matches!(dlg, Err(ParseError::InvalidProgram(_))));
    let dlg = Dialogue::parse(": \"Привет, мир! ✓\";").unwrap();
    assert_eq!(
        dlg[0],
        DialogueEntry::Phrase(vec![], String::from("Привет, мир! ✓"))
    );
}

#[test]
fn syntax_error_tells_where_the_statements_end() {
    assert_eq!(syntax_error("?"), (Rule::statement, 0, 1, 1));
    assert_eq!(syntax_error("a:\n\n  b"), (Rule::statement, 6, 3, 3));
    assert_eq!(syntax_error("a: : \"x\" : \"y\";"), (Rule::statement, 3, 1, 4));
    assert_eq!(syntax_error("/* é */ ?"), (Rule::statement, 8, 1, 9));
    assert_eq!(syntax_error("a:\r\nb:\n/* c\n */\n\n jump  x ; /* open"), (Rule::statement, 28, 6, 12));
    assert_eq!(syntax_error("a: /* a /* b */ c */"), (Rule::statement, 16, 1, 17));
    assert_eq!(syntax_error(": \"a\\tb\";"), (Rule::statement, 0, 1, 1));
    assert_eq!(syntax_error("x:\n: \"never closed;"), (Rule::statement, 3, 2, 1));
}

#[test]
fn errors_say_what_is_wrong() {
    let say = |source: &str| Dialogue::parse(source).unwrap_err().message();
    assert_eq!(say("@m: \"x\";"), "Undefined speaker 'm'");
    assert_eq!(say("jump over_there;"), "Undefined label 'over_there'");
    assert_eq!(say("a: a:"), "Duplicate label 'a'");
    assert_eq!(say("a:\n\n  b"), "Invalid program: 3:3: expected statement");
    let long = format!("{}{}!", "\n".repeat(1204), " ".repeat(99));
    assert_eq!(say(&long), "Invalid program: 1205:100: expected statement");
}
