use dialasm::{DialasmParser, Dialogue, DialogueChoice, DialogueEntry, Pair, Rule, Statement};

fn only(rule: Rule, input: &str) -> Pair {
    let mut pairs = DialasmParser::parse(rule, input).unwrap();
    assert_eq!(pairs.len(), 1);
    pairs.pop().unwrap()
}

fn shape(pair: &Pair) -> String {
    let inner: Vec<String> = pair.inner().iter().map(shape).collect();
    format!(
        "{}[{}..{}]({})",
        pair.as_rule().name(),
        pair.start(),
        pair.end(),
        inner.join(" ")
    )
}

#[test]
fn a_rule_need_not_match_the_whole_input() {
    assert_eq!(only(Rule::identifier, "abc def").as_str(), "abc");
    assert_eq!(only(Rule::identifier, "a-b").as_str(), "a");
    assert_eq!(only(Rule::label, "a:b:").as_str(), "a:");
    assert_eq!(only(Rule::handle, "@a1@b").as_str(), "@a1");
    assert_eq!(only(Rule::string_literal, "\"a\"\"b\"").as_str(), "\"a\"");
    assert_eq!(only(Rule::statement, "jump a; jump b;").as_str(), "jump a;");
    assert!(DialasmParser::parse(Rule::program, "jump a; jump").is_err());
    assert_eq!(only(Rule::program, " a: ").as_str(), " a: ");
}

#[test]
fn a_rule_matches_at_the_start_of_the_input_only() {
    for rule in [
        Rule::identifier,
        Rule::label,
        Rule::handle,
        Rule::handle_group,
        Rule::choice,
        Rule::choice_group,
        Rule::string_literal,
        Rule::name_statement,
        Rule::choice_statement,
        Rule::jump_statement,
        Rule::comment,
    ] {
        let e = DialasmParser::parse(rule, " a: @a (@a) \"a\": a jump a /* */").unwrap_err();
        assert_eq!((e.rule, e.position, e.line, e.column), (rule, 0, 1, 1));
    }
    // Whitespace may stand before the colon of a phrase without speakers.
    assert_eq!(
        shape(&only(Rule::phrase_statement, " : \"a\"")),
        "phrase_statement[0..6](string_literal[3..6](string_content[4..5]()))"
    );
    assert_eq!(only(Rule::string_content, "a\\\"b\"c").as_str(), "a\\\"b");
    assert_eq!(only(Rule::string_content, "\"").as_str(), "");
}

#[test]
fn nodes_span_what_they_matched() {
    assert_eq!(
        shape(&only(Rule::program, "a:\n@m = \"M\";")),
        "program[0..12](statement[0..2](label[0..2](identifier[0..1]())) \
         statement[3..12](dialogue_statement[3..12](name_statement[3..11](\
         handle[3..5](identifier[4..5]()) \
         string_literal[8..11](string_content[9..10]())))))"
    );
    assert_eq!(
        shape(&only(Rule::statement, "( @a&@b ) /* */ : \"\" ;")),
        "statement[0..22](dialogue_statement[0..22](phrase_statement[0..20](\
         handle_group[0..9](handle[2..4](identifier[3..4]()) handle[5..7](identifier[6..7]())) \
         string_literal[18..20](string_content[19..19]()))))"
    );
    assert_eq!(
        shape(&only(Rule::choice_statement, "?(\"é\":a|\"\":b)")),
        "choice_statement[0..13](choice_group[1..13](\
         choice[2..7](string_literal[2..5](string_content[3..4]()) identifier[6..7]()) \
         choice[8..12](string_literal[8..10](string_content[9..9]()) identifier[11..12]())))"
    );
    assert_eq!(
        shape(&only(Rule::jump_statement, "jump \t\n to")),
        "jump_statement[0..10](identifier[8..10]())"
    );
    assert_eq!(DialasmParser::parse(Rule::comment, "/**/ a").unwrap().len(), 0);
}

#[test]
fn comments_and_whitespace_separate_tokens() {
    let dlg = Dialogue::parse(
        "/* who */ @m /* is */ = /* called */ \"M\" /* . */ ;\n\
         (/**/@m/**/&/**/@m/**/)/**/:/**/\"x\"/**/;/* end */\n\
         ?/**/(/**/\"a\"/**/:/**/l/**/|/**/\"b\"/**/:/**/l/**/)/**/;l:",
    )
    .unwrap();
    assert_eq!(dlg.len(), 3);
    assert_eq!(dlg.label("l"), Some(3));
    assert_eq!(
        dlg[1],
        DialogueEntry::Phrase(vec![String::from("m"), String::from("m")], String::from("x"))
    );
}

#[test]
fn comments_do_not_nest_and_must_be_closed() {
    assert!(DialasmParser::parse(Rule::comment, "/* a /* b */").is_ok());
    assert!(DialasmParser::parse(Rule::comment, "/*/").is_err());
    assert!(DialasmParser::parse(Rule::comment, "/* *").is_err());
    assert!(DialasmParser::parse(Rule::comment, "/**/").is_ok());
    assert!(DialasmParser::parse(Rule::comment, "/ * */").is_err());
    assert!(Dialogue::parse("a: /* open").is_err());
    assert!(Dialogue::parse("a: /* a */ */").is_err());
    assert!(Dialogue::parse("a: /* a **/").is_ok());
}

#[test]
fn tokens_that_must_touch() {
    // `@` and its identifier, an identifier and the `:` of its label.
    assert!(DialasmParser::parse(Rule::handle, "@ a").is_err());
    assert!(DialasmParser::parse(Rule::handle, "@/**/a").is_err());
    assert!(DialasmParser::parse(Rule::label, "a :").is_err());
    assert!(DialasmParser::parse(Rule::label, "a/**/:").is_err());
    // `jump` and its target are parted by whitespace, and by nothing else.
    assert!(DialasmParser::parse(Rule::jump_statement, "jumpa").is_err());
    assert!(DialasmParser::parse(Rule::jump_statement, "jump/**/a").is_err());
    assert!(DialasmParser::parse(Rule::jump_statement, "jump /**/a").is_err());
    assert!(DialasmParser::parse(Rule::jump_statement, "jump").is_err());
    assert!(DialasmParser::parse(Rule::jump_statement, "jump 1").is_err());
    assert!(DialasmParser::parse(Rule::jump_statement, "Jump a").is_err());
    assert!(DialasmParser::parse(Rule::jump_statement, "jump\ra").is_ok());
    // `jump` is a name like any other where a name is expected.
    let dlg = Dialogue::parse("jump: jump jump; @jump = \"J\"; jumpy:").unwrap();
    assert_eq!(dlg.label("jump"), Some(0));
    assert_eq!(dlg.label("jumpy"), Some(2));
    assert_eq!(dlg[0], DialogueEntry::Jump(String::from("jump")));
}

#[test]
fn string_literal_escapes() {
    assert_eq!(only(Rule::string_literal, "\"\"").as_str(), "\"\"");
    assert_eq!(only(Rule::string_literal, "\"\\n\\\"\"x").as_str(), "\"\\n\\\"\"");
    for refused in ["\"", "\"a", "\"a\\\"", "\"a\\b\"", "\"a\\\\\"", "\"\\", "'a'", "a\"\""] {
        assert!(
            DialasmParser::parse(Rule::string_literal, refused).is_err(),
            "{}",
            refused
        );
    }
}

#[test]
fn groups_hold_at_least_one_item() {
    assert!(DialasmParser::parse(Rule::handle_group, "()").is_err());
    assert!(DialasmParser::parse(Rule::handle_group, "(@a @b)").is_err());
    assert!(DialasmParser::parse(Rule::handle_group, "(& @a)").is_err());
    assert!(DialasmParser::parse(Rule::handle_group, "(@a").is_err());
    assert!(DialasmParser::parse(Rule::handle_group, "(@a | @b)").is_err());
    assert!(DialasmParser::parse(Rule::choice_group, "()").is_err());
    assert!(DialasmParser::parse(Rule::choice_group, "(\"a\": a & \"b\": b)").is_err());
    assert!(DialasmParser::parse(Rule::choice_group, "(\"a\": @a)").is_err());
    assert!(DialasmParser::parse(Rule::choice_statement, "? \"a\" a").is_err());
    assert!(DialasmParser::parse(Rule::choice_statement, "\"a\": a").is_err());
    assert!(DialasmParser::parse(Rule::dialogue_statement, "jump a").is_err());
    assert!(DialasmParser::parse(Rule::dialogue_statement, "a:").is_err());
    assert!(DialasmParser::parse(Rule::statement, ";").is_err());
}

#[test]
fn statement_nodes_become_statements() {
    let name = only(Rule::name_statement, "@m = \"Maria\"");
    assert_eq!(
        Dialogue::parse_name_statement(&name),
        DialogueEntry::NameChange(String::from("m"), String::from("Maria"))
    );
    let nobody = only(Rule::phrase_statement, ": \"Hi!\"");
    assert_eq!(
        Dialogue::parse_phrase_statement(&nobody),
        DialogueEntry::Phrase(vec![], String::from("Hi!"))
    );
    let one = only(Rule::phrase_statement, "@m: \"Hi!\"");
    assert_eq!(
        Dialogue::parse_phrase_statement(&one),
        DialogueEntry::Phrase(vec![String::from("m")], String::from("Hi!"))
    );
    let group = only(Rule::phrase_statement, "(@m & @d & @m): \"Hi!\"");
    assert_eq!(
        Dialogue::parse_phrase_statement(&group),
        DialogueEntry::Phrase(
            vec![String::from("m"), String::from("d"), String::from("m")],
            String::from("Hi!")
        )
    );
    let group_of_one = only(Rule::phrase_statement, "(@m): \"Hi!\"");
    assert_eq!(
        Dialogue::parse_phrase_statement(&group_of_one),
        DialogueEntry::Phrase(vec![String::from("m")], String::from("Hi!"))
    );
    let single = only(Rule::choice_statement, "? \"Go\" : there");
    let expected = DialogueEntry::Choice(vec![DialogueChoice {
        text: String::from("Go"),
        label: String::from("there"),
    }]);
    assert_eq!(Dialogue::parse_choice_statement(&single), expected);
    let group_of_one = only(Rule::choice_statement, "? (\"Go\" : there)");
    assert_eq!(Dialogue::parse_choice_statement(&group_of_one), expected);
    let jump = only(Rule::jump_statement, "jump  there");
    assert_eq!(
        Dialogue::parse_jump_statement(&jump),
        DialogueEntry::Jump(String::from("there"))
    );
}

#[test]
fn program_node_becomes_its_statements() {
    let program = only(Rule::program, "a: jump a; ? \"x\": a; b:");
    let statements = Statement::from_program(&program);
    assert_eq!(statements.len(), 4);
    assert!(matches!(&statements[0], Statement::Label(name) if name == "a"));
    assert!(matches!(&statements[1], Statement::Entry(DialogueEntry::Jump(name)) if name == "a"));
    assert!(matches!(&statements[2], Statement::Entry(DialogueEntry::Choice(options)) if options.len() == 1));
    assert!(matches!(&statements[3], Statement::Label(name) if name == "b"));
    let label = only(Rule::statement, "here:");
    assert!(matches!(Statement::from_pair(&label), Statement::Label(name) if name == "here"));
}

#[test]
fn rules_have_the_names_of_the_grammar() {
    assert_eq!(Rule::program.name(), "program");
    assert_eq!(Rule::dialogue_statement.name(), "dialogue_statement");
    assert_eq!(Rule::string_content.name(), "string_content");
    assert_eq!(Rule::comment.name(), "comment");
    let e = DialasmParser::parse(Rule::handle_group, "(@a &)").unwrap_err();
    assert_eq!(e.message(), "1:1: expected handle_group");
}
