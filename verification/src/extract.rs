//! From syntax tree to statements: what each statement node says.

use crate::dialogue::Dialogue;
use crate::grammar::{
    has_char, lemma_choice_bounds, lemma_handle_bounds, lemma_skip_trivia_bounds,
    lemma_statement_bounds, parse_choice, parse_choice_group, parse_handle, parse_handle_group,
    parse_more_choices, parse_more_handles, parse_program, parse_statement, parse_statements,
    skip_trivia,
};
use crate::model::{
    choices_view, statements_view, strings_view, ChoiceView, DialogueChoice, DialogueEntry,
    EntryView, Statement, StatementView,
};
use crate::tree::{trees_of, Pair, Rule, Tree};
use vstd::prelude::*;

verus! {

/// A string literal node: it holds its content.
pub open spec fn is_string_literal(t: Tree) -> bool {
    t.rule == Rule::string_literal && t.children.len() == 1
}

/// A handle node: it holds its identifier.
pub open spec fn is_handle(t: Tree) -> bool {
    t.rule == Rule::handle && t.children.len() == 1
}

/// A handle group node: it holds handles.
pub open spec fn is_handle_group(t: Tree) -> bool {
    &&& t.rule == Rule::handle_group
    &&& forall|k: int| 0 <= k < t.children.len() ==> is_handle(#[trigger] t.children[k])
}

/// A choice node: it holds a string literal and an identifier.
pub open spec fn is_choice(t: Tree) -> bool {
    t.rule == Rule::choice && t.children.len() == 2 && is_string_literal(t.children[0])
}

/// A choice group node: it holds choices.
pub open spec fn is_choice_group(t: Tree) -> bool {
    &&& t.rule == Rule::choice_group
    &&& forall|k: int| 0 <= k < t.children.len() ==> is_choice(#[trigger] t.children[k])
}

/// A label node: it holds its identifier.
pub open spec fn is_label(t: Tree) -> bool {
    t.rule == Rule::label && t.children.len() == 1
}

/// A name statement node: it holds a handle and a string literal.
pub open spec fn is_name_statement(t: Tree) -> bool {
    &&& t.rule == Rule::name_statement
    &&& t.children.len() == 2
    &&& is_handle(t.children[0])
    &&& is_string_literal(t.children[1])
}

/// A phrase statement node: it holds a string literal, after a handle or a
/// handle group if it has speakers.
pub open spec fn is_phrase_statement(t: Tree) -> bool {
    &&& t.rule == Rule::phrase_statement
    &&& if t.children.len() == 1 {
        is_string_literal(t.children[0])
    } else {
        &&& t.children.len() == 2
        &&& is_handle(t.children[0]) || is_handle_group(t.children[0])
        &&& is_string_literal(t.children[1])
    }
}

/// A choice statement node: it holds a choice or a choice group.
pub open spec fn is_choice_statement(t: Tree) -> bool {
    &&& t.rule == Rule::choice_statement
    &&& t.children.len() == 1
    &&& is_choice(t.children[0]) || is_choice_group(t.children[0])
}

/// A jump statement node: it holds the identifier of its target.
pub open spec fn is_jump_statement(t: Tree) -> bool {
    t.rule == Rule::jump_statement && t.children.len() == 1
}

/// A dialogue statement node: it holds a name, phrase, choice or jump
/// statement.
pub open spec fn is_dialogue_statement(t: Tree) -> bool {
    &&& t.rule == Rule::dialogue_statement
    &&& t.children.len() == 1
    &&& {
        ||| is_name_statement(t.children[0])
        ||| is_phrase_statement(t.children[0])
        ||| is_choice_statement(t.children[0])
        ||| is_jump_statement(t.children[0])
    }
}

/// A statement node: it holds a label or a dialogue statement.
pub open spec fn is_statement(t: Tree) -> bool {
    &&& t.rule == Rule::statement
    &&& t.children.len() == 1
    &&& is_label(t.children[0]) || is_dialogue_statement(t.children[0])
}

/// A program node: it holds statements.
pub open spec fn is_program(t: Tree) -> bool {
    &&& t.rule == Rule::program
    &&& forall|k: int| 0 <= k < t.children.len() ==> is_statement(#[trigger] t.children[k])
}

/// The text between the quotes of a string literal node.
pub open spec fn literal_text(t: Tree) -> Seq<char> {
    t.children[0].text
}

/// The identifier of a handle node, without the `@`.
pub open spec fn handle_name(t: Tree) -> Seq<char> {
    t.children[0].text
}

/// The identifiers of the handles of a handle group node, in order.
pub open spec fn group_names(t: Tree) -> Seq<Seq<char>> {
    Seq::new(t.children.len(), |k: int| handle_name(t.children[k]))
}

/// The option that a choice node stands for.
pub open spec fn choice_of(t: Tree) -> ChoiceView {
    ChoiceView { text: literal_text(t.children[0]), label: t.children[1].text }
}

/// The options of a choice group node, in order.
pub open spec fn group_choices(t: Tree) -> Seq<ChoiceView> {
    Seq::new(t.children.len(), |k: int| choice_of(t.children[k]))
}

/// The instruction that a name statement node stands for.
pub open spec fn name_change_of(t: Tree) -> EntryView {
    EntryView::NameChange(handle_name(t.children[0]), literal_text(t.children[1]))
}

/// The instruction that a phrase statement node stands for.
pub open spec fn phrase_of(t: Tree) -> EntryView {
    if t.children.len() == 1 {
        EntryView::Phrase(Seq::empty(), literal_text(t.children[0]))
    } else if t.children[0].rule == Rule::handle {
        EntryView::Phrase(seq![handle_name(t.children[0])], literal_text(t.children[1]))
    } else {
        EntryView::Phrase(group_names(t.children[0]), literal_text(t.children[1]))
    }
}

/// The instruction that a choice statement node stands for.
pub open spec fn choices_of(t: Tree) -> EntryView {
    if t.children[0].rule == Rule::choice_group {
        EntryView::Choice(group_choices(t.children[0]))
    } else {
        EntryView::Choice(seq![choice_of(t.children[0])])
    }
}

/// The instruction that a jump statement node stands for.
pub open spec fn jump_of(t: Tree) -> EntryView {
    EntryView::Jump(t.children[0].text)
}

/// The instruction that a name, phrase, choice or jump statement node stands
/// for.
pub open spec fn entry_of(t: Tree) -> EntryView {
    match t.rule {
        Rule::name_statement => name_change_of(t),
        Rule::phrase_statement => phrase_of(t),
        Rule::choice_statement => choices_of(t),
        _ => jump_of(t),
    }
}

/// The statement that a statement node stands for.
pub open spec fn statement_of(t: Tree) -> StatementView {
    let inner = t.children[0];
    if inner.rule == Rule::label {
        StatementView::Label(inner.children[0].text)
    } else {
        StatementView::Entry(entry_of(inner.children[0]))
    }
}

/// The statements that a program node stands for, in order.
pub open spec fn statements_of(t: Tree) -> Seq<StatementView> {
    Seq::new(t.children.len(), |k: int| statement_of(t.children[k]))
}

/// The handles that the grammar finds after the first of a group are handle
/// nodes.
pub proof fn lemma_more_handles_shape(s: Seq<char>, i: int)
    ensures
        forall|k: int|
            0 <= k < parse_more_handles(s, i).len() ==> is_handle(
                #[trigger] parse_more_handles(s, i)[k],
            ),
    decreases s.len() - i,
{
    let amp = skip_trivia(s, i);
    if 0 <= i <= s.len() && has_char(s, amp, '&') {
        match parse_handle(s, skip_trivia(s, amp + 1)) {
            Some(h) => {
                lemma_skip_trivia_bounds(s, i);
                lemma_skip_trivia_bounds(s, amp + 1);
                lemma_handle_bounds(s, skip_trivia(s, amp + 1));
                lemma_more_handles_shape(s, h.end);
                let rest = parse_more_handles(s, h.end);
                assert forall|k: int| 0 <= k < parse_more_handles(s, i).len() implies is_handle(
                    #[trigger] parse_more_handles(s, i)[k],
                ) by {
                    if k > 0 {
                        assert(parse_more_handles(s, i)[k] == rest[k - 1]);
                    }
                }
            },
            None => {},
        }
    }
}

/// The choices that the grammar finds after the first of a group are choice
/// nodes.
pub proof fn lemma_more_choices_shape(s: Seq<char>, i: int)
    ensures
        forall|k: int|
            0 <= k < parse_more_choices(s, i).len() ==> is_choice(
                #[trigger] parse_more_choices(s, i)[k],
            ),
    decreases s.len() - i,
{
    let bar = skip_trivia(s, i);
    if 0 <= i <= s.len() && has_char(s, bar, '|') {
        match parse_choice(s, skip_trivia(s, bar + 1)) {
            Some(c) => {
                lemma_skip_trivia_bounds(s, i);
                lemma_skip_trivia_bounds(s, bar + 1);
                lemma_choice_bounds(s, skip_trivia(s, bar + 1));
                lemma_more_choices_shape(s, c.end);
                let rest = parse_more_choices(s, c.end);
                assert forall|k: int| 0 <= k < parse_more_choices(s, i).len() implies is_choice(
                    #[trigger] parse_more_choices(s, i)[k],
                ) by {
                    if k > 0 {
                        assert(parse_more_choices(s, i)[k] == rest[k - 1]);
                    }
                }
            },
            None => {},
        }
    }
}

/// The node that the grammar finds for a statement is a statement node.
pub proof fn lemma_statement_shape(s: Seq<char>, i: int)
    ensures
        parse_statement(s, i) matches Some(t) ==> is_statement(t),
{
    match parse_handle_group(s, i) {
        Some(g) => {
            let first = parse_handle(s, skip_trivia(s, i + 1)).unwrap();
            lemma_more_handles_shape(s, first.end);
        },
        None => {},
    }
    if has_char(s, i, '?') {
        let at = skip_trivia(s, i + 1);
        match parse_choice_group(s, at) {
            Some(g) => {
                let first = parse_choice(s, skip_trivia(s, at + 1)).unwrap();
                lemma_more_choices_shape(s, first.end);
            },
            None => {},
        }
    }
}

/// The nodes that the grammar finds for the statements of a program are
/// statement nodes.
pub proof fn lemma_statements_shape(s: Seq<char>, i: int)
    ensures
        forall|k: int|
            0 <= k < parse_statements(s, i).0.len() ==> is_statement(
                #[trigger] parse_statements(s, i).0[k],
            ),
    decreases s.len() - i,
{
    match parse_statement(s, i) {
        Some(t) => {
            if 0 <= i <= s.len() {
                lemma_statement_shape(s, i);
                lemma_statement_bounds(s, i);
                lemma_skip_trivia_bounds(s, t.end);
                lemma_statements_shape(s, skip_trivia(s, t.end));
                let rest = parse_statements(s, skip_trivia(s, t.end)).0;
                assert forall|k: int| 0 <= k < parse_statements(s, i).0.len() implies is_statement(
                    #[trigger] parse_statements(s, i).0[k],
                ) by {
                    if k > 0 {
                        assert(parse_statements(s, i).0[k] == rest[k - 1]);
                    }
                }
            }
        },
        None => {},
    }
}

/// The node that the grammar finds for a program is a program node.
pub proof fn lemma_program_shape(s: Seq<char>)
    ensures
        parse_program(s) matches Some(t) ==> is_program(t),
{
    lemma_statements_shape(s, skip_trivia(s, 0));
}

fn literal_text_of(pair: &Pair) -> (r: String)
    requires
        is_string_literal(pair.tree()),
    ensures
        r@ == literal_text(pair.tree()),
{
    let inner = pair.inner();
    inner[0].as_str().to_owned()
}

fn handle_name_of(pair: &Pair) -> (r: String)
    requires
        is_handle(pair.tree()),
    ensures
        r@ == handle_name(pair.tree()),
{
    let inner = pair.inner();
    inner[0].as_str().to_owned()
}

fn group_names_of(pair: &Pair) -> (r: Vec<String>)
    requires
        is_handle_group(pair.tree()),
    ensures
        strings_view(r@) == group_names(pair.tree()),
{
    let inner = pair.inner();
    let mut names: Vec<String> = Vec::new();
    let mut k: usize = 0;
    while k < inner.len()
        invariant
            k <= inner.len(),
            trees_of(inner@) == pair.tree().children,
            is_handle_group(pair.tree()),
            names@.len() == k,
            forall|j: int|
                0 <= j < k ==> (#[trigger] names@[j])@ == handle_name(pair.tree().children[j]),
        decreases inner.len() - k,
    {
        assert(trees_of(inner@)[k as int] == inner@[k as int].tree());
        names.push(handle_name_of(&inner[k]));
        k = k + 1;
    }
    names
}

fn choice_of_pair(pair: &Pair) -> (r: DialogueChoice)
    requires
        is_choice(pair.tree()),
    ensures
        r@ == choice_of(pair.tree()),
{
    let inner = pair.inner();
    DialogueChoice { text: literal_text_of(&inner[0]), label: inner[1].as_str().to_owned() }
}

fn group_choices_of(pair: &Pair) -> (r: Vec<DialogueChoice>)
    requires
        is_choice_group(pair.tree()),
    ensures
        choices_view(r@) == group_choices(pair.tree()),
{
    let inner = pair.inner();
    let mut options: Vec<DialogueChoice> = Vec::new();
    let mut k: usize = 0;
    while k < inner.len()
        invariant
            k <= inner.len(),
            trees_of(inner@) == pair.tree().children,
            is_choice_group(pair.tree()),
            options@.len() == k,
            forall|j: int|
                0 <= j < k ==> (#[trigger] options@[j])@ == choice_of(pair.tree().children[j]),
        decreases inner.len() - k,
    {
        assert(trees_of(inner@)[k as int] == inner@[k as int].tree());
        options.push(choice_of_pair(&inner[k]));
        k = k + 1;
    }
    options
}

impl Dialogue {
    /// The instruction that a name statement node stands for: it binds the
    /// handle's identifier to the text of the string literal.
    pub fn parse_name_statement(pair: &Pair) -> (r: DialogueEntry)
        requires
            is_name_statement(pair.tree()),
        ensures
            r@ == name_change_of(pair.tree()),
    {
        let inner = pair.inner();
        DialogueEntry::NameChange(handle_name_of(&inner[0]), literal_text_of(&inner[1]))
    }

    /// The instruction that a phrase statement node stands for: the
    /// identifiers of its handles in source order, none where it has no
    /// speakers, and the text of the string literal.
    pub fn parse_phrase_statement(pair: &Pair) -> (r: DialogueEntry)
        requires
            is_phrase_statement(pair.tree()),
        ensures
            r@ == phrase_of(pair.tree()),
    {
        let inner = pair.inner();
        if inner.len() == 1 {
            let speakers: Vec<String> = Vec::new();
            assert(strings_view(speakers@) =~= Seq::empty());
            return DialogueEntry::Phrase(speakers, literal_text_of(&inner[0]));
        }
        let first = &inner[0];
        let speakers = if first.as_rule() == Rule::handle {
            let mut one: Vec<String> = Vec::new();
            one.push(handle_name_of(first));
            assert(strings_view(one@) =~= seq![handle_name(first.tree())]);
            one
        } else {
            group_names_of(first)
        };
        DialogueEntry::Phrase(speakers, literal_text_of(&inner[1]))
    }

    /// The instruction that a choice statement node stands for: its options in
    /// source order, each with the text of its string literal and the
    /// identifier of its target.
    pub fn parse_choice_statement(pair: &Pair) -> (r: DialogueEntry)
        requires
            is_choice_statement(pair.tree()),
        ensures
            r@ == choices_of(pair.tree()),
    {
        let inner = pair.inner();
        let first = &inner[0];
        let options = if first.as_rule() == Rule::choice_group {
            group_choices_of(first)
        } else {
            let mut one: Vec<DialogueChoice> = Vec::new();
            one.push(choice_of_pair(first));
            assert(choices_view(one@) =~= seq![choice_of(first.tree())]);
            one
        };
        DialogueEntry::Choice(options)
    }

    /// The instruction that a jump statement node stands for: a jump to the
    /// identifier it holds.
    pub fn parse_jump_statement(pair: &Pair) -> (r: DialogueEntry)
        requires
            is_jump_statement(pair.tree()),
        ensures
            r@ == jump_of(pair.tree()),
    {
        let inner = pair.inner();
        DialogueEntry::Jump(inner[0].as_str().to_owned())
    }
}

impl Statement {
    /// The statement that a statement node stands for: the label it names, or
    /// the instruction of its name, phrase, choice or jump statement.
    pub fn from_pair(pair: &Pair) -> (r: Statement)
        requires
            is_statement(pair.tree()),
        ensures
            r@ == statement_of(pair.tree()),
    {
        let inner = pair.inner();
        let first = &inner[0];
        let within = first.inner();
        if first.as_rule() == Rule::label {
            return Statement::Label(within[0].as_str().to_owned());
        }
        let body = &within[0];
        let entry = match body.as_rule() {
            Rule::name_statement => Dialogue::parse_name_statement(body),
            Rule::phrase_statement => Dialogue::parse_phrase_statement(body),
            Rule::choice_statement => Dialogue::parse_choice_statement(body),
            _ => Dialogue::parse_jump_statement(body),
        };
        Statement::Entry(entry)
    }

    /// The statements that a program node stands for, in order.
    pub fn from_program(pair: &Pair) -> (r: Vec<Statement>)
        requires
            is_program(pair.tree()),
        ensures
            statements_view(r@) == statements_of(pair.tree()),
    {
        let inner = pair.inner();
        let mut found: Vec<Statement> = Vec::new();
        let mut k: usize = 0;
        while k < inner.len()
            invariant
                k <= inner.len(),
                trees_of(inner@) == pair.tree().children,
                is_program(pair.tree()),
                found@.len() == k,
                forall|j: int|
                    0 <= j < k ==> (#[trigger] found@[j])@ == statement_of(pair.tree().children[j]),
            decreases inner.len() - k,
        {
            assert(trees_of(inner@)[k as int] == inner@[k as int].tree());
            found.push(Statement::from_pair(&inner[k]));
            k = k + 1;
        }
        found
    }
}

} // verus!
