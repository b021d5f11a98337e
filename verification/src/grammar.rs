//! The grammar of the scripting language, as functions from an input and a
//! position to the syntax tree that the rule produces there.
//!
//! The grammar is a parsing expression grammar: alternatives are tried in
//! order, repetitions take as many items as they can, and nothing is undone
//! once a rule has matched. Positions count characters.

use crate::tree::{Rule, Tree};
use vstd::prelude::*;

verus! {

/// Characters that may separate tokens.
pub open spec fn is_whitespace(c: char) -> bool {
    c == ' ' || c == '\t' || c == '\n' || c == '\r'
}

/// Characters that may start an identifier.
pub open spec fn is_identifier_start(c: char) -> bool {
    ('a' <= c && c <= 'z') || ('A' <= c && c <= 'Z') || c == '_'
}

/// Characters that may continue an identifier.
pub open spec fn is_identifier_part(c: char) -> bool {
    is_identifier_start(c) || ('0' <= c && c <= '9')
}

/// The input holds the character `c` at position `i`.
pub open spec fn has_char(s: Seq<char>, i: int, c: char) -> bool {
    0 <= i < s.len() && s[i] == c
}

/// The node of `rule` that spans `start..end` of the input.
pub open spec fn node(rule: Rule, s: Seq<char>, start: int, end: int, children: Seq<Tree>) -> Tree {
    Tree { rule, start, end, text: s.subrange(start, end), children }
}

/// Where the run of whitespace that starts at `i` ends.
pub open spec fn whitespace_end(s: Seq<char>, i: int) -> int
    decreases s.len() - i,
{
    if 0 <= i < s.len() && is_whitespace(s[i]) {
        whitespace_end(s, i + 1)
    } else {
        i
    }
}

/// Where the run of identifier characters that starts at `i` ends.
pub open spec fn identifier_end(s: Seq<char>, i: int) -> int
    decreases s.len() - i,
{
    if 0 <= i < s.len() && is_identifier_part(s[i]) {
        identifier_end(s, i + 1)
    } else {
        i
    }
}

/// Where the content of a string literal ends, if it starts at `i`: at the
/// first quote that is not escaped, at a backslash that starts neither `\"` nor
/// `\n`, or at the end of the input.
pub open spec fn string_content_end(s: Seq<char>, i: int) -> int
    decreases s.len() - i,
{
    if 0 <= i < s.len() {
        if s[i] == '"' {
            i
        } else if s[i] == '\\' {
            if i + 1 < s.len() && (s[i + 1] == '"' || s[i + 1] == 'n') {
                string_content_end(s, i + 2)
            } else {
                i
            }
        } else {
            string_content_end(s, i + 1)
        }
    } else {
        i
    }
}

/// The position just past the first `*/` that starts at or after `i`.
pub open spec fn comment_close(s: Seq<char>, i: int) -> Option<int>
    decreases s.len() - i,
{
    if 0 <= i && i + 1 < s.len() {
        if s[i] == '*' && s[i + 1] == '/' {
            Some(i + 2)
        } else {
            comment_close(s, i + 1)
        }
    } else {
        None
    }
}

/// `comment`: `/*`, then anything up to the first `*/`. Comments do not nest.
pub open spec fn comment_end(s: Seq<char>, i: int) -> Option<int> {
    if has_char(s, i, '/') && has_char(s, i + 1, '*') {
        comment_close(s, i + 2)
    } else {
        None
    }
}

/// Where the whitespace and comments that start at `i` end.
pub open spec fn skip_trivia(s: Seq<char>, i: int) -> int
    decreases s.len() - i,
{
    if 0 <= i < s.len() && is_whitespace(s[i]) {
        skip_trivia(s, i + 1)
    } else {
        match comment_end(s, i) {
            Some(e) => {
                proof {
                    lemma_comment_close_bounds(s, i + 2);
                }
                skip_trivia(s, e)
            },
            None => i,
        }
    }
}

/// A run of whitespace ends at or after its start, within the input.
pub proof fn lemma_whitespace_end_bounds(s: Seq<char>, i: int)
    requires
        0 <= i <= s.len(),
    ensures
        i <= whitespace_end(s, i) <= s.len(),
    decreases s.len() - i,
{
    if i < s.len() && is_whitespace(s[i]) {
        lemma_whitespace_end_bounds(s, i + 1);
    }
}

/// A run of identifier characters ends at or after its start, within the input.
pub proof fn lemma_identifier_end_bounds(s: Seq<char>, i: int)
    requires
        0 <= i <= s.len(),
    ensures
        i <= identifier_end(s, i) <= s.len(),
    decreases s.len() - i,
{
    if i < s.len() && is_identifier_part(s[i]) {
        lemma_identifier_end_bounds(s, i + 1);
    }
}

/// The content of a string literal ends at or after its start, within the input.
pub proof fn lemma_string_content_end_bounds(s: Seq<char>, i: int)
    requires
        0 <= i <= s.len(),
    ensures
        i <= string_content_end(s, i) <= s.len(),
    decreases s.len() - i,
{
    if i < s.len() {
        if s[i] == '"' {
        } else if s[i] == '\\' {
            if i + 1 < s.len() && (s[i + 1] == '"' || s[i + 1] == 'n') {
                lemma_string_content_end_bounds(s, i + 2);
            }
        } else {
            lemma_string_content_end_bounds(s, i + 1);
        }
    }
}

/// A `*/` that is found ends after where it was looked for, within the input.
pub proof fn lemma_comment_close_bounds(s: Seq<char>, i: int)
    ensures
        comment_close(s, i) matches Some(e) ==> i + 2 <= e <= s.len(),
    decreases s.len() - i,
{
    if 0 <= i && i + 1 < s.len() {
        if !(s[i] == '*' && s[i + 1] == '/') {
            lemma_comment_close_bounds(s, i + 1);
        }
    }
}

/// Whitespace and comments end at or after their start, within the input.
pub proof fn lemma_skip_trivia_bounds(s: Seq<char>, i: int)
    requires
        0 <= i <= s.len(),
    ensures
        i <= skip_trivia(s, i) <= s.len(),
    decreases s.len() - i,
{
    if i < s.len() && is_whitespace(s[i]) {
        lemma_skip_trivia_bounds(s, i + 1);
    } else {
        match comment_end(s, i) {
            Some(e) => {
                lemma_comment_close_bounds(s, i + 2);
                lemma_skip_trivia_bounds(s, e);
            },
            None => {},
        }
    }
}

/// `identifier`: a letter or underscore, then letters, digits and underscores.
pub open spec fn parse_identifier(s: Seq<char>, i: int) -> Option<Tree> {
    if 0 <= i < s.len() && is_identifier_start(s[i]) {
        Some(node(Rule::identifier, s, i, identifier_end(s, i + 1), Seq::empty()))
    } else {
        None
    }
}

/// `string_content`: the text between the quotes of a string literal, escapes
/// left as they are written.
pub open spec fn parse_string_content(s: Seq<char>, i: int) -> Tree {
    node(Rule::string_content, s, i, string_content_end(s, i), Seq::empty())
}

/// `string_literal`: a quote, the content, a quote.
pub open spec fn parse_string_literal(s: Seq<char>, i: int) -> Option<Tree> {
    if has_char(s, i, '"') {
        let content = parse_string_content(s, i + 1);
        if has_char(s, content.end, '"') {
            Some(node(Rule::string_literal, s, i, content.end + 1, seq![content]))
        } else {
            None
        }
    } else {
        None
    }
}

/// `handle`: `@`, directly followed by an identifier.
pub open spec fn parse_handle(s: Seq<char>, i: int) -> Option<Tree> {
    if has_char(s, i, '@') {
        match parse_identifier(s, i + 1) {
            Some(name) => Some(node(Rule::handle, s, i, name.end, seq![name])),
            None => None,
        }
    } else {
        None
    }
}

/// The handles that follow the first one of a handle group, each after `&`.
/// `i` is where the handle before them ended.
pub open spec fn parse_more_handles(s: Seq<char>, i: int) -> Seq<Tree>
    decreases s.len() - i,
{
    let amp = skip_trivia(s, i);
    if 0 <= i <= s.len() && has_char(s, amp, '&') {
        match parse_handle(s, skip_trivia(s, amp + 1)) {
            Some(h) => {
                proof {
                    lemma_skip_trivia_bounds(s, i);
                    lemma_skip_trivia_bounds(s, amp + 1);
                    lemma_handle_bounds(s, skip_trivia(s, amp + 1));
                }
                seq![h] + parse_more_handles(s, h.end)
            },
            None => Seq::empty(),
        }
    } else {
        Seq::empty()
    }
}

/// `handle_group`: `(`, handles separated by `&`, `)`.
pub open spec fn parse_handle_group(s: Seq<char>, i: int) -> Option<Tree> {
    if has_char(s, i, '(') {
        match parse_handle(s, skip_trivia(s, i + 1)) {
            Some(first) => {
                let handles = seq![first] + parse_more_handles(s, first.end);
                let close = skip_trivia(s, handles.last().end);
                if has_char(s, close, ')') {
                    Some(node(Rule::handle_group, s, i, close + 1, handles))
                } else {
                    None
                }
            },
            None => None,
        }
    } else {
        None
    }
}

/// `choice`: a string literal, `:`, the identifier of the target label.
pub open spec fn parse_choice(s: Seq<char>, i: int) -> Option<Tree> {
    match parse_string_literal(s, i) {
        Some(text) => {
            let colon = skip_trivia(s, text.end);
            if has_char(s, colon, ':') {
                match parse_identifier(s, skip_trivia(s, colon + 1)) {
                    Some(target) => Some(node(Rule::choice, s, i, target.end, seq![text, target])),
                    None => None,
                }
            } else {
                None
            }
        },
        None => None,
    }
}

/// The choices that follow the first one of a choice group, each after `|`.
/// `i` is where the choice before them ended.
pub open spec fn parse_more_choices(s: Seq<char>, i: int) -> Seq<Tree>
    decreases s.len() - i,
{
    let bar = skip_trivia(s, i);
    if 0 <= i <= s.len() && has_char(s, bar, '|') {
        match parse_choice(s, skip_trivia(s, bar + 1)) {
            Some(c) => {
                proof {
                    lemma_skip_trivia_bounds(s, i);
                    lemma_skip_trivia_bounds(s, bar + 1);
                    lemma_choice_bounds(s, skip_trivia(s, bar + 1));
                }
                seq![c] + parse_more_choices(s, c.end)
            },
            None => Seq::empty(),
        }
    } else {
        Seq::empty()
    }
}

/// `choice_group`: `(`, choices separated by `|`, `)`.
pub open spec fn parse_choice_group(s: Seq<char>, i: int) -> Option<Tree> {
    if has_char(s, i, '(') {
        match parse_choice(s, skip_trivia(s, i + 1)) {
            Some(first) => {
                let choices = seq![first] + parse_more_choices(s, first.end);
                let close = skip_trivia(s, choices.last().end);
                if has_char(s, close, ')') {
                    Some(node(Rule::choice_group, s, i, close + 1, choices))
                } else {
                    None
                }
            },
            None => None,
        }
    } else {
        None
    }
}

/// `label`: an identifier, directly followed by `:`.
pub open spec fn parse_label(s: Seq<char>, i: int) -> Option<Tree> {
    match parse_identifier(s, i) {
        Some(name) => if has_char(s, name.end, ':') {
            Some(node(Rule::label, s, i, name.end + 1, seq![name]))
        } else {
            None
        },
        None => None,
    }
}

/// `name_statement`: a handle, `=`, a string literal.
pub open spec fn parse_name_statement(s: Seq<char>, i: int) -> Option<Tree> {
    match parse_handle(s, i) {
        Some(handle) => {
            let equals = skip_trivia(s, handle.end);
            if has_char(s, equals, '=') {
                match parse_string_literal(s, skip_trivia(s, equals + 1)) {
                    Some(name) => Some(
                        node(Rule::name_statement, s, i, name.end, seq![handle, name]),
                    ),
                    None => None,
                }
            } else {
                None
            }
        },
        None => None,
    }
}

/// The speakers of a phrase statement: a handle, else a handle group, else
/// nothing.
pub open spec fn parse_speakers(s: Seq<char>, i: int) -> Option<Tree> {
    match parse_handle(s, i) {
        Some(handle) => Some(handle),
        None => parse_handle_group(s, i),
    }
}

/// `phrase_statement`: the speakers if there are any, `:`, a string literal.
pub open spec fn parse_phrase_statement(s: Seq<char>, i: int) -> Option<Tree> {
    let speakers = parse_speakers(s, i);
    let before = match speakers {
        Some(t) => seq![t],
        None => Seq::empty(),
    };
    let colon = skip_trivia(
        s,
        match speakers {
            Some(t) => t.end,
            None => i,
        },
    );
    if has_char(s, colon, ':') {
        match parse_string_literal(s, skip_trivia(s, colon + 1)) {
            Some(text) => Some(
                node(Rule::phrase_statement, s, i, text.end, before + seq![text]),
            ),
            None => None,
        }
    } else {
        None
    }
}

/// The options of a choice statement: one choice, else a choice group.
pub open spec fn parse_options(s: Seq<char>, i: int) -> Option<Tree> {
    match parse_choice(s, i) {
        Some(choice) => Some(choice),
        None => parse_choice_group(s, i),
    }
}

/// `choice_statement`: `?`, then one choice or a choice group.
pub open spec fn parse_choice_statement(s: Seq<char>, i: int) -> Option<Tree> {
    if has_char(s, i, '?') {
        match parse_options(s, skip_trivia(s, i + 1)) {
            Some(options) => Some(
                node(Rule::choice_statement, s, i, options.end, seq![options]),
            ),
            None => None,
        }
    } else {
        None
    }
}

/// The input holds the word `jump` at position `i`.
pub open spec fn has_jump(s: Seq<char>, i: int) -> bool {
    has_char(s, i, 'j') && has_char(s, i + 1, 'u') && has_char(s, i + 2, 'm') && has_char(
        s,
        i + 3,
        'p',
    )
}

/// `jump_statement`: `jump`, whitespace, the identifier of the target label.
pub open spec fn parse_jump_statement(s: Seq<char>, i: int) -> Option<Tree> {
    if has_jump(s, i) && whitespace_end(s, i + 4) > i + 4 {
        match parse_identifier(s, whitespace_end(s, i + 4)) {
            Some(target) => Some(node(Rule::jump_statement, s, i, target.end, seq![target])),
            None => None,
        }
    } else {
        None
    }
}

/// The first of name, phrase, choice and jump statement that matches at `i`.
pub open spec fn parse_dialogue_body(s: Seq<char>, i: int) -> Option<Tree> {
    match parse_name_statement(s, i) {
        Some(t) => Some(t),
        None => match parse_phrase_statement(s, i) {
            Some(t) => Some(t),
            None => match parse_choice_statement(s, i) {
                Some(t) => Some(t),
                None => parse_jump_statement(s, i),
            },
        },
    }
}

/// `dialogue_statement`: a name, phrase, choice or jump statement, then `;`.
pub open spec fn parse_dialogue_statement(s: Seq<char>, i: int) -> Option<Tree> {
    match parse_dialogue_body(s, i) {
        Some(body) => {
            let semicolon = skip_trivia(s, body.end);
            if has_char(s, semicolon, ';') {
                Some(node(Rule::dialogue_statement, s, i, semicolon + 1, seq![body]))
            } else {
                None
            }
        },
        None => None,
    }
}

/// `statement`: a label, else a dialogue statement.
pub open spec fn parse_statement(s: Seq<char>, i: int) -> Option<Tree> {
    let inner = match parse_label(s, i) {
        Some(t) => Some(t),
        None => parse_dialogue_statement(s, i),
    };
    match inner {
        Some(t) => Some(node(Rule::statement, s, i, t.end, seq![t])),
        None => None,
    }
}

/// The statements that follow one another from `i`, and where the whitespace
/// and comments after the last of them end.
pub open spec fn parse_statements(s: Seq<char>, i: int) -> (Seq<Tree>, int)
    decreases s.len() - i,
{
    match parse_statement(s, i) {
        Some(t) => {
            if 0 <= i <= s.len() {
                proof {
                    lemma_statement_bounds(s, i);
                    lemma_skip_trivia_bounds(s, t.end);
                }
                let rest = parse_statements(s, skip_trivia(s, t.end));
                (seq![t] + rest.0, rest.1)
            } else {
                (Seq::empty(), i)
            }
        },
        None => (Seq::empty(), i),
    }
}

/// Where the statements at the start of the input end: the end of the input
/// if it is a program, else where the first text is that is no statement.
pub open spec fn program_end(s: Seq<char>) -> int {
    parse_statements(s, skip_trivia(s, 0)).1
}

/// `program`: statements up to the end of the input.
pub open spec fn parse_program(s: Seq<char>) -> Option<Tree> {
    if program_end(s) == s.len() {
        Some(node(Rule::program, s, 0, s.len() as int, parse_statements(s, skip_trivia(s, 0)).0))
    } else {
        None
    }
}

/// What `rule` produces at the start of the input: its node, or no node for a
/// comment, which is matched but leaves nothing in the tree. `None` where the
/// rule does not match there. Only a program has to match the whole input.
pub open spec fn parse_rule(rule: Rule, s: Seq<char>) -> Option<Seq<Tree>> {
    let found = match rule {
        Rule::program => parse_program(s),
        Rule::statement => parse_statement(s, 0),
        Rule::label => parse_label(s, 0),
        Rule::dialogue_statement => parse_dialogue_statement(s, 0),
        Rule::name_statement => parse_name_statement(s, 0),
        Rule::phrase_statement => parse_phrase_statement(s, 0),
        Rule::choice_statement => parse_choice_statement(s, 0),
        Rule::jump_statement => parse_jump_statement(s, 0),
        Rule::handle => parse_handle(s, 0),
        Rule::handle_group => parse_handle_group(s, 0),
        Rule::choice => parse_choice(s, 0),
        Rule::choice_group => parse_choice_group(s, 0),
        Rule::string_literal => parse_string_literal(s, 0),
        Rule::string_content => Some(parse_string_content(s, 0)),
        Rule::identifier => parse_identifier(s, 0),
        Rule::comment => None,
    };
    if rule == Rule::comment {
        if comment_end(s, 0) is Some {
            Some(Seq::empty())
        } else {
            None
        }
    } else {
        match found {
            Some(t) => Some(seq![t]),
            None => None,
        }
    }
}

/// A node that starts at `i`, is not empty and ends within the input.
pub open spec fn spans(t: Tree, s: Seq<char>, i: int) -> bool {
    t.start == i && i < t.end <= s.len()
}

/// An identifier node starts where it was looked for, is not empty and ends
/// within the input.
pub proof fn lemma_identifier_bounds(s: Seq<char>, i: int)
    requires
        0 <= i <= s.len(),
    ensures
        parse_identifier(s, i) matches Some(t) ==> spans(t, s, i),
{
    if i < s.len() {
        lemma_identifier_end_bounds(s, i + 1);
    }
}

/// A string literal node starts where it was looked for, is not empty and
/// ends within the input.
pub proof fn lemma_string_literal_bounds(s: Seq<char>, i: int)
    requires
        0 <= i <= s.len(),
    ensures
        parse_string_literal(s, i) matches Some(t) ==> spans(t, s, i),
{
    if i < s.len() {
        lemma_string_content_end_bounds(s, i + 1);
    }
}

/// A handle node starts where it was looked for, is not empty and ends within
/// the input.
pub proof fn lemma_handle_bounds(s: Seq<char>, i: int)
    requires
        0 <= i <= s.len(),
    ensures
        parse_handle(s, i) matches Some(t) ==> spans(t, s, i),
{
    if i < s.len() {
        lemma_identifier_bounds(s, i + 1);
    }
}

/// The further handles of a group end after where they were looked for,
/// within the input.
pub proof fn lemma_more_handles_bounds(s: Seq<char>, i: int)
    requires
        0 <= i <= s.len(),
    ensures
        forall|k: int|
            0 <= k < parse_more_handles(s, i).len() ==> i < (#[trigger] parse_more_handles(
                s,
                i,
            )[k]).end <= s.len(),
    decreases s.len() - i,
{
    let amp = skip_trivia(s, i);
    lemma_skip_trivia_bounds(s, i);
    if has_char(s, amp, '&') {
        lemma_skip_trivia_bounds(s, amp + 1);
        lemma_handle_bounds(s, skip_trivia(s, amp + 1));
        match parse_handle(s, skip_trivia(s, amp + 1)) {
            Some(h) => {
                lemma_more_handles_bounds(s, h.end);
            },
            None => {},
        }
    }
}

/// A handle group node starts where it was looked for, is not empty and ends
/// within the input.
pub proof fn lemma_handle_group_bounds(s: Seq<char>, i: int)
    requires
        0 <= i <= s.len(),
    ensures
        parse_handle_group(s, i) matches Some(t) ==> spans(t, s, i),
{
    if has_char(s, i, '(') {
        lemma_skip_trivia_bounds(s, i + 1);
        lemma_handle_bounds(s, skip_trivia(s, i + 1));
        match parse_handle(s, skip_trivia(s, i + 1)) {
            Some(first) => {
                lemma_more_handles_bounds(s, first.end);
                let handles = seq![first] + parse_more_handles(s, first.end);
                lemma_skip_trivia_bounds(s, handles.last().end);
            },
            None => {},
        }
    }
}

/// A choice node starts where it was looked for, is not empty and ends within
/// the input.
pub proof fn lemma_choice_bounds(s: Seq<char>, i: int)
    requires
        0 <= i <= s.len(),
    ensures
        parse_choice(s, i) matches Some(t) ==> spans(t, s, i),
{
    lemma_string_literal_bounds(s, i);
    match parse_string_literal(s, i) {
        Some(text) => {
            lemma_skip_trivia_bounds(s, text.end);
            let colon = skip_trivia(s, text.end);
            if has_char(s, colon, ':') {
                lemma_skip_trivia_bounds(s, colon + 1);
                lemma_identifier_bounds(s, skip_trivia(s, colon + 1));
            }
        },
        None => {},
    }
}

/// The further choices of a group end after where they were looked for,
/// within the input.
pub proof fn lemma_more_choices_bounds(s: Seq<char>, i: int)
    requires
        0 <= i <= s.len(),
    ensures
        forall|k: int|
            0 <= k < parse_more_choices(s, i).len() ==> i < (#[trigger] parse_more_choices(
                s,
                i,
            )[k]).end <= s.len(),
    decreases s.len() - i,
{
    let bar = skip_trivia(s, i);
    lemma_skip_trivia_bounds(s, i);
    if has_char(s, bar, '|') {
        lemma_skip_trivia_bounds(s, bar + 1);
        lemma_choice_bounds(s, skip_trivia(s, bar + 1));
        match parse_choice(s, skip_trivia(s, bar + 1)) {
            Some(c) => {
                lemma_more_choices_bounds(s, c.end);
            },
            None => {},
        }
    }
}

/// A choice group node starts where it was looked for, is not empty and ends
/// within the input.
pub proof fn lemma_choice_group_bounds(s: Seq<char>, i: int)
    requires
        0 <= i <= s.len(),
    ensures
        parse_choice_group(s, i) matches Some(t) ==> spans(t, s, i),
{
    if has_char(s, i, '(') {
        lemma_skip_trivia_bounds(s, i + 1);
        lemma_choice_bounds(s, skip_trivia(s, i + 1));
        match parse_choice(s, skip_trivia(s, i + 1)) {
            Some(first) => {
                lemma_more_choices_bounds(s, first.end);
                let choices = seq![first] + parse_more_choices(s, first.end);
                lemma_skip_trivia_bounds(s, choices.last().end);
            },
            None => {},
        }
    }
}

/// A label node starts where it was looked for, is not empty and ends within
/// the input.
pub proof fn lemma_label_bounds(s: Seq<char>, i: int)
    requires
        0 <= i <= s.len(),
    ensures
        parse_label(s, i) matches Some(t) ==> spans(t, s, i),
{
    lemma_identifier_bounds(s, i);
}

/// A name statement node starts where it was looked for, is not empty and
/// ends within the input.
pub proof fn lemma_name_statement_bounds(s: Seq<char>, i: int)
    requires
        0 <= i <= s.len(),
    ensures
        parse_name_statement(s, i) matches Some(t) ==> spans(t, s, i),
{
    lemma_handle_bounds(s, i);
    match parse_handle(s, i) {
        Some(handle) => {
            lemma_skip_trivia_bounds(s, handle.end);
            let equals = skip_trivia(s, handle.end);
            if has_char(s, equals, '=') {
                lemma_skip_trivia_bounds(s, equals + 1);
                lemma_string_literal_bounds(s, skip_trivia(s, equals + 1));
            }
        },
        None => {},
    }
}

/// The node of the speakers of a phrase starts where it was looked for, is not
/// empty and ends within the input.
pub proof fn lemma_speakers_bounds(s: Seq<char>, i: int)
    requires
        0 <= i <= s.len(),
    ensures
        parse_speakers(s, i) matches Some(t) ==> spans(t, s, i),
{
    lemma_handle_bounds(s, i);
    lemma_handle_group_bounds(s, i);
}

/// A phrase statement node starts where it was looked for, is not empty and
/// ends within the input.
pub proof fn lemma_phrase_statement_bounds(s: Seq<char>, i: int)
    requires
        0 <= i <= s.len(),
    ensures
        parse_phrase_statement(s, i) matches Some(t) ==> spans(t, s, i),
{
    lemma_speakers_bounds(s, i);
    let after = match parse_speakers(s, i) {
        Some(t) => t.end,
        None => i,
    };
    lemma_skip_trivia_bounds(s, after);
    let colon = skip_trivia(s, after);
    if has_char(s, colon, ':') {
        lemma_skip_trivia_bounds(s, colon + 1);
        lemma_string_literal_bounds(s, skip_trivia(s, colon + 1));
    }
}

/// The node of the options of a choice statement starts where it was looked
/// for, is not empty and ends within the input.
pub proof fn lemma_options_bounds(s: Seq<char>, i: int)
    requires
        0 <= i <= s.len(),
    ensures
        parse_options(s, i) matches Some(t) ==> spans(t, s, i),
{
    lemma_choice_bounds(s, i);
    lemma_choice_group_bounds(s, i);
}

/// A choice statement node starts where it was looked for, is not empty and
/// ends within the input.
pub proof fn lemma_choice_statement_bounds(s: Seq<char>, i: int)
    requires
        0 <= i <= s.len(),
    ensures
        parse_choice_statement(s, i) matches Some(t) ==> spans(t, s, i),
{
    if has_char(s, i, '?') {
        lemma_skip_trivia_bounds(s, i + 1);
        lemma_options_bounds(s, skip_trivia(s, i + 1));
    }
}

/// A jump statement node starts where it was looked for, is not empty and
/// ends within the input.
pub proof fn lemma_jump_statement_bounds(s: Seq<char>, i: int)
    requires
        0 <= i <= s.len(),
    ensures
        parse_jump_statement(s, i) matches Some(t) ==> spans(t, s, i),
{
    if has_jump(s, i) {
        lemma_whitespace_end_bounds(s, i + 4);
        lemma_identifier_bounds(s, whitespace_end(s, i + 4));
    }
}

/// The node of a name, phrase, choice or jump statement starts where it was
/// looked for, is not empty and ends within the input.
pub proof fn lemma_dialogue_body_bounds(s: Seq<char>, i: int)
    requires
        0 <= i <= s.len(),
    ensures
        parse_dialogue_body(s, i) matches Some(t) ==> spans(t, s, i),
{
    lemma_name_statement_bounds(s, i);
    lemma_phrase_statement_bounds(s, i);
    lemma_choice_statement_bounds(s, i);
    lemma_jump_statement_bounds(s, i);
}

/// A dialogue statement node starts where it was looked for, is not empty
/// and ends within the input.
pub proof fn lemma_dialogue_statement_bounds(s: Seq<char>, i: int)
    requires
        0 <= i <= s.len(),
    ensures
        parse_dialogue_statement(s, i) matches Some(t) ==> spans(t, s, i),
{
    lemma_dialogue_body_bounds(s, i);
    match parse_dialogue_body(s, i) {
        Some(body) => {
            lemma_skip_trivia_bounds(s, body.end);
        },
        None => {},
    }
}

/// A statement node starts where it was looked for, is not empty and ends
/// within the input.
pub proof fn lemma_statement_bounds(s: Seq<char>, i: int)
    requires
        0 <= i <= s.len(),
    ensures
        parse_statement(s, i) matches Some(t) ==> spans(t, s, i),
{
    lemma_label_bounds(s, i);
    lemma_dialogue_statement_bounds(s, i);
}

} // verus!
