//! The parser: a recursive descent over the characters of the input that
//! builds the syntax tree the grammar defines.

use crate::grammar::{
    comment_close, comment_end, has_char, identifier_end, is_identifier_part,
    is_identifier_start, is_whitespace, lemma_choice_bounds, lemma_choice_group_bounds,
    lemma_comment_close_bounds, lemma_dialogue_body_bounds, lemma_handle_bounds,
    lemma_handle_group_bounds, lemma_identifier_bounds, lemma_statement_bounds,
    lemma_string_literal_bounds, node, parse_choice, parse_choice_group,
    parse_choice_statement, parse_dialogue_body, parse_dialogue_statement, parse_handle,
    parse_handle_group, parse_identifier, parse_jump_statement, parse_label,
    parse_more_choices, parse_more_handles, parse_name_statement, parse_options,
    parse_phrase_statement, parse_program, parse_rule, parse_speakers, parse_statement,
    parse_statements, parse_string_content, parse_string_literal, program_end, skip_trivia,
    string_content_end, whitespace_end,
};
use crate::text::{chars_of, decimal, push_decimal, text_of};
use crate::tree::{rule_name, trees_of, Pair, Rule, Tree};
use vstd::prelude::*;
use vstd::string::StringExecFns;

verus! {

/// Why an input is not what a rule asked for, and where.
#[derive(Clone, Copy, Debug, PartialEq, Eq, Structural)]
pub struct SyntaxError {
    /// The rule that did not match at `position`: for a program `statement`,
    /// as its statements end where no further statement matches, else the
    /// rule that was asked for.
    pub rule: Rule,
    /// The offset, in characters, at which matching stopped: for a program the
    /// start of the first text that is no statement, else the start of the
    /// input.
    pub position: usize,
    /// The line of `position`, counted from 1.
    pub line: usize,
    /// The column of `position` in its line, counted from 1 in characters.
    pub column: usize,
}

/// What a syntax error says: line and column, then the rule that was
/// expected there.
pub open spec fn syntax_message(e: SyntaxError) -> Seq<char> {
    decimal(e.line as nat) + ":"@ + decimal(e.column as nat) + ": expected "@ + rule_name(e.rule)
}

impl SyntaxError {
    /// The error in words: line and column, then the rule that was expected
    /// there.
    pub fn message(&self) -> (r: String)
        ensures
            r@ == syntax_message(*self),
    {
        let mut r = String::new();
        push_decimal(&mut r, self.line);
        r.append(":");
        push_decimal(&mut r, self.column);
        r.append(": expected ");
        r.append(self.rule.name());
        r
    }
}

/// The number of line feeds before `pos`.
pub open spec fn newlines_before(s: Seq<char>, pos: int) -> int
    decreases pos,
{
    if pos <= 0 {
        0
    } else {
        newlines_before(s, pos - 1) + if pos <= s.len() && s[pos - 1] == '\n' {
            1int
        } else {
            0int
        }
    }
}

/// The offset at which the line that holds `pos` starts.
pub open spec fn line_start(s: Seq<char>, pos: int) -> int
    decreases pos,
{
    if pos <= 0 {
        0
    } else if pos <= s.len() && s[pos - 1] == '\n' {
        pos
    } else {
        line_start(s, pos - 1)
    }
}

/// The offset at which matching `rule` against `s` stops.
pub open spec fn error_position(rule: Rule, s: Seq<char>) -> int {
    if rule == Rule::program {
        program_end(s)
    } else {
        0
    }
}

/// The rule that does not match where matching `rule` stops.
pub open spec fn failed_rule(rule: Rule) -> Rule {
    if rule == Rule::program {
        Rule::statement
    } else {
        rule
    }
}

/// The error that reports that `rule` does not match `s`.
pub open spec fn syntax_error(rule: Rule, s: Seq<char>) -> SyntaxError {
    let pos = error_position(rule, s);
    SyntaxError {
        rule: failed_rule(rule),
        position: pos as usize,
        line: (newlines_before(s, pos) + 1) as usize,
        column: (pos - line_start(s, pos) + 1) as usize,
    }
}

/// `found` is the node `expected`, or both are absent.
pub open spec fn agrees(found: Option<Pair>, expected: Option<Tree>) -> bool {
    match expected {
        Some(t) => found is Some && found.unwrap().tree() == t,
        None => found is None,
    }
}

fn is_whitespace_char(c: char) -> (r: bool)
    ensures
        r == is_whitespace(c),
{
    c == ' ' || c == '\t' || c == '\n' || c == '\r'
}

fn is_identifier_start_char(c: char) -> (r: bool)
    ensures
        r == is_identifier_start(c),
{
    ('a' <= c && c <= 'z') || ('A' <= c && c <= 'Z') || c == '_'
}

fn is_identifier_part_char(c: char) -> (r: bool)
    ensures
        r == is_identifier_part(c),
{
    is_identifier_start_char(c) || ('0' <= c && c <= '9')
}

fn at(chars: &Vec<char>, i: usize, c: char) -> (r: bool)
    ensures
        r == has_char(chars@, i as int, c),
{
    i < chars.len() && chars[i] == c
}

fn make(rule: Rule, chars: &Vec<char>, start: usize, end: usize, inner: Vec<Pair>) -> (p: Pair)
    requires
        start <= end <= chars.len(),
    ensures
        p.tree() == node(rule, chars@, start as int, end as int, trees_of(inner@)),
{
    Pair::new(rule, start, end, text_of(chars, start, end), inner)
}

fn push_pair(v: &mut Vec<Pair>, p: Pair)
    ensures
        trees_of(final(v)@) == trees_of(old(v)@).push(p.tree()),
{
    v.push(p);
}

fn no_pairs() -> (v: Vec<Pair>)
    ensures
        trees_of(v@) == Seq::<Tree>::empty(),
{
    let v: Vec<Pair> = Vec::new();
    v
}

fn one_pair(a: Pair) -> (v: Vec<Pair>)
    ensures
        trees_of(v@) == seq![a.tree()],
{
    let mut v = no_pairs();
    push_pair(&mut v, a);
    v
}

fn two_pairs(a: Pair, b: Pair) -> (v: Vec<Pair>)
    ensures
        trees_of(v@) == seq![a.tree(), b.tree()],
{
    let mut v = one_pair(a);
    push_pair(&mut v, b);
    v
}

fn scan_whitespace(chars: &Vec<char>, i: usize) -> (e: usize)
    requires
        i <= chars.len(),
    ensures
        e == whitespace_end(chars@, i as int),
        i <= e <= chars.len(),
{
    let mut j: usize = i;
    while j < chars.len() && is_whitespace_char(chars[j])
        invariant
            i <= j <= chars.len(),
            whitespace_end(chars@, i as int) == whitespace_end(chars@, j as int),
        decreases chars.len() - j,
    {
        j = j + 1;
    }
    j
}

fn scan_identifier(chars: &Vec<char>, i: usize) -> (e: usize)
    requires
        i <= chars.len(),
    ensures
        e == identifier_end(chars@, i as int),
        i <= e <= chars.len(),
{
    let mut j: usize = i;
    while j < chars.len() && is_identifier_part_char(chars[j])
        invariant
            i <= j <= chars.len(),
            identifier_end(chars@, i as int) == identifier_end(chars@, j as int),
        decreases chars.len() - j,
    {
        j = j + 1;
    }
    j
}

fn scan_string_content(chars: &Vec<char>, i: usize) -> (e: usize)
    requires
        i <= chars.len(),
    ensures
        e == string_content_end(chars@, i as int),
        i <= e <= chars.len(),
{
    let mut j: usize = i;
    loop
        invariant
            i <= j <= chars.len(),
            string_content_end(chars@, i as int) == string_content_end(chars@, j as int),
        ensures
            j == string_content_end(chars@, i as int),
        decreases chars.len() - j,
    {
        if j >= chars.len() {
            break ;
        }
        let c = chars[j];
        if c == '"' {
            break ;
        } else if c == '\\' {
            if j + 1 < chars.len() && (chars[j + 1] == '"' || chars[j + 1] == 'n') {
                j = j + 2;
            } else {
                break ;
            }
        } else {
            j = j + 1;
        }
    }
    j
}

fn scan_comment(chars: &Vec<char>, i: usize) -> (r: Option<usize>)
    requires
        i <= chars.len(),
    ensures
        match comment_end(chars@, i as int) {
            Some(e) => r == Some(e as usize) && i + 2 <= e <= chars.len(),
            None => r is None,
        },
{
    if !(at(chars, i, '/') && at(chars, i + 1, '*')) {
        return None;
    }
    let mut j: usize = i + 2;
    proof {
        lemma_comment_close_bounds(chars@, i + 2);
    }
    while chars.len() - j >= 2
        invariant
            i + 2 <= j <= chars.len(),
            comment_close(chars@, i + 2) == comment_close(chars@, j as int),
            comment_end(chars@, i as int) == comment_close(chars@, i + 2),
        decreases chars.len() - j,
    {
        if chars[j] == '*' && chars[j + 1] == '/' {
            return Some(j + 2);
        }
        j = j + 1;
    }
    None
}

fn scan_trivia(chars: &Vec<char>, i: usize) -> (e: usize)
    requires
        i <= chars.len(),
    ensures
        e == skip_trivia(chars@, i as int),
        i <= e <= chars.len(),
{
    let mut j: usize = i;
    loop
        invariant
            i <= j <= chars.len(),
            skip_trivia(chars@, i as int) == skip_trivia(chars@, j as int),
        ensures
            i <= j <= chars.len(),
            j == skip_trivia(chars@, i as int),
        decreases chars.len() - j,
    {
        if j < chars.len() && is_whitespace_char(chars[j]) {
            j = j + 1;
        } else {
            match scan_comment(chars, j) {
                Some(e) => {
                    j = e;
                },
                None => {
                    break ;
                },
            }
        }
    }
    j
}

fn identifier(chars: &Vec<char>, i: usize) -> (r: Option<Pair>)
    requires
        i <= chars.len(),
    ensures
        agrees(r, parse_identifier(chars@, i as int)),
{
    if i < chars.len() && is_identifier_start_char(chars[i]) {
        let end = scan_identifier(chars, i + 1);
        Some(make(Rule::identifier, chars, i, end, no_pairs()))
    } else {
        None
    }
}

fn string_content(chars: &Vec<char>, i: usize) -> (r: Pair)
    requires
        i <= chars.len(),
    ensures
        r.tree() == parse_string_content(chars@, i as int),
        i <= r.tree().end <= chars.len(),
{
    let end = scan_string_content(chars, i);
    make(Rule::string_content, chars, i, end, no_pairs())
}

fn string_literal(chars: &Vec<char>, i: usize) -> (r: Option<Pair>)
    requires
        i <= chars.len(),
    ensures
        agrees(r, parse_string_literal(chars@, i as int)),
{
    if !at(chars, i, '"') {
        return None;
    }
    let content = string_content(chars, i + 1);
    let end = content.end();
    if !at(chars, end, '"') {
        return None;
    }
    Some(make(Rule::string_literal, chars, i, end + 1, one_pair(content)))
}

fn handle(chars: &Vec<char>, i: usize) -> (r: Option<Pair>)
    requires
        i <= chars.len(),
    ensures
        agrees(r, parse_handle(chars@, i as int)),
{
    if !at(chars, i, '@') {
        return None;
    }
    proof {
        lemma_identifier_bounds(chars@, i + 1);
    }
    match identifier(chars, i + 1) {
        Some(name) => {
            let end = name.end();
            Some(make(Rule::handle, chars, i, end, one_pair(name)))
        },
        None => None,
    }
}

fn handle_group(chars: &Vec<char>, i: usize) -> (r: Option<Pair>)
    requires
        i <= chars.len(),
    ensures
        agrees(r, parse_handle_group(chars@, i as int)),
{
    if !at(chars, i, '(') {
        return None;
    }
    let start = scan_trivia(chars, i + 1);
    proof {
        lemma_handle_bounds(chars@, start as int);
    }
    let first = match handle(chars, start) {
        Some(h) => h,
        None => {
            return None;
        },
    };
    let ghost first_tree = first.tree();
    let mut end: usize = first.end();
    let mut handles = one_pair(first);
    loop
        invariant
            i < end <= chars.len(),
            handles@.len() > 0,
            trees_of(handles@).last().end == end,
            seq![first_tree] + parse_more_handles(chars@, first_tree.end) == trees_of(handles@)
                + parse_more_handles(chars@, end as int),
        ensures
            i < end <= chars.len(),
            trees_of(handles@) == seq![first_tree] + parse_more_handles(chars@, first_tree.end),
            trees_of(handles@).last().end == end,
        decreases chars.len() - end,
    {
        let amp = scan_trivia(chars, end);
        if !at(chars, amp, '&') {
            break ;
        }
        let next = scan_trivia(chars, amp + 1);
        proof {
            lemma_handle_bounds(chars@, next as int);
        }
        match handle(chars, next) {
            Some(h) => {
                let ghost before = trees_of(handles@);
                assert(before + (seq![h.tree()] + parse_more_handles(chars@, h.tree().end))
                    =~= before.push(h.tree()) + parse_more_handles(chars@, h.tree().end));
                end = h.end();
                push_pair(&mut handles, h);
            },
            None => {
                break ;
            },
        }
    }
    let close = scan_trivia(chars, end);
    if !at(chars, close, ')') {
        return None;
    }
    Some(make(Rule::handle_group, chars, i, close + 1, handles))
}

fn choice(chars: &Vec<char>, i: usize) -> (r: Option<Pair>)
    requires
        i <= chars.len(),
    ensures
        agrees(r, parse_choice(chars@, i as int)),
{
    proof {
        lemma_string_literal_bounds(chars@, i as int);
    }
    let text = match string_literal(chars, i) {
        Some(t) => t,
        None => {
            return None;
        },
    };
    let colon = scan_trivia(chars, text.end());
    if !at(chars, colon, ':') {
        return None;
    }
    let start = scan_trivia(chars, colon + 1);
    proof {
        lemma_identifier_bounds(chars@, start as int);
    }
    match identifier(chars, start) {
        Some(target) => {
            let end = target.end();
            Some(make(Rule::choice, chars, i, end, two_pairs(text, target)))
        },
        None => None,
    }
}

fn choice_group(chars: &Vec<char>, i: usize) -> (r: Option<Pair>)
    requires
        i <= chars.len(),
    ensures
        agrees(r, parse_choice_group(chars@, i as int)),
{
    if !at(chars, i, '(') {
        return None;
    }
    let start = scan_trivia(chars, i + 1);
    proof {
        lemma_choice_bounds(chars@, start as int);
    }
    let first = match choice(chars, start) {
        Some(c) => c,
        None => {
            return None;
        },
    };
    let ghost first_tree = first.tree();
    let mut end: usize = first.end();
    let mut choices = one_pair(first);
    loop
        invariant
            i < end <= chars.len(),
            choices@.len() > 0,
            trees_of(choices@).last().end == end,
            seq![first_tree] + parse_more_choices(chars@, first_tree.end) == trees_of(choices@)
                + parse_more_choices(chars@, end as int),
        ensures
            i < end <= chars.len(),
            trees_of(choices@) == seq![first_tree] + parse_more_choices(chars@, first_tree.end),
            trees_of(choices@).last().end == end,
        decreases chars.len() - end,
    {
        let bar = scan_trivia(chars, end);
        if !at(chars, bar, '|') {
            break ;
        }
        let next = scan_trivia(chars, bar + 1);
        proof {
            lemma_choice_bounds(chars@, next as int);
        }
        match choice(chars, next) {
            Some(c) => {
                let ghost before = trees_of(choices@);
                assert(before + (seq![c.tree()] + parse_more_choices(chars@, c.tree().end))
                    =~= before.push(c.tree()) + parse_more_choices(chars@, c.tree().end));
                end = c.end();
                push_pair(&mut choices, c);
            },
            None => {
                break ;
            },
        }
    }
    let close = scan_trivia(chars, end);
    if !at(chars, close, ')') {
        return None;
    }
    Some(make(Rule::choice_group, chars, i, close + 1, choices))
}

fn label(chars: &Vec<char>, i: usize) -> (r: Option<Pair>)
    requires
        i <= chars.len(),
    ensures
        agrees(r, parse_label(chars@, i as int)),
{
    proof {
        lemma_identifier_bounds(chars@, i as int);
    }
    match identifier(chars, i) {
        Some(name) => {
            let end = name.end();
            if at(chars, end, ':') {
                Some(make(Rule::label, chars, i, end + 1, one_pair(name)))
            } else {
                None
            }
        },
        None => None,
    }
}

fn name_statement(chars: &Vec<char>, i: usize) -> (r: Option<Pair>)
    requires
        i <= chars.len(),
    ensures
        agrees(r, parse_name_statement(chars@, i as int)),
{
    proof {
        lemma_handle_bounds(chars@, i as int);
    }
    let speaker = match handle(chars, i) {
        Some(h) => h,
        None => {
            return None;
        },
    };
    let equals = scan_trivia(chars, speaker.end());
    if !at(chars, equals, '=') {
        return None;
    }
    let start = scan_trivia(chars, equals + 1);
    proof {
        lemma_string_literal_bounds(chars@, start as int);
    }
    match string_literal(chars, start) {
        Some(name) => {
            let end = name.end();
            Some(make(Rule::name_statement, chars, i, end, two_pairs(speaker, name)))
        },
        None => None,
    }
}

fn speakers(chars: &Vec<char>, i: usize) -> (r: Option<Pair>)
    requires
        i <= chars.len(),
    ensures
        agrees(r, parse_speakers(chars@, i as int)),
{
    match handle(chars, i) {
        Some(h) => Some(h),
        None => handle_group(chars, i),
    }
}

fn phrase_statement(chars: &Vec<char>, i: usize) -> (r: Option<Pair>)
    requires
        i <= chars.len(),
    ensures
        agrees(r, parse_phrase_statement(chars@, i as int)),
{
    proof {
        lemma_handle_bounds(chars@, i as int);
        lemma_handle_group_bounds(chars@, i as int);
    }
    let mut inner = no_pairs();
    let mut after: usize = i;
    match speakers(chars, i) {
        Some(who) => {
            after = who.end();
            push_pair(&mut inner, who);
        },
        None => {},
    }
    let colon = scan_trivia(chars, after);
    if !at(chars, colon, ':') {
        return None;
    }
    let start = scan_trivia(chars, colon + 1);
    proof {
        lemma_string_literal_bounds(chars@, start as int);
    }
    match string_literal(chars, start) {
        Some(text) => {
            let end = text.end();
            let ghost before = trees_of(inner@);
            push_pair(&mut inner, text);
            assert(trees_of(inner@) =~= before + seq![text.tree()]);
            assert(before =~= match parse_speakers(chars@, i as int) {
                Some(t) => seq![t],
                None => Seq::empty(),
            });
            Some(make(Rule::phrase_statement, chars, i, end, inner))
        },
        None => None,
    }
}

fn options(chars: &Vec<char>, i: usize) -> (r: Option<Pair>)
    requires
        i <= chars.len(),
    ensures
        agrees(r, parse_options(chars@, i as int)),
{
    match choice(chars, i) {
        Some(c) => Some(c),
        None => choice_group(chars, i),
    }
}

fn choice_statement(chars: &Vec<char>, i: usize) -> (r: Option<Pair>)
    requires
        i <= chars.len(),
    ensures
        agrees(r, parse_choice_statement(chars@, i as int)),
{
    if !at(chars, i, '?') {
        return None;
    }
    let start = scan_trivia(chars, i + 1);
    proof {
        lemma_choice_bounds(chars@, start as int);
        lemma_choice_group_bounds(chars@, start as int);
    }
    match options(chars, start) {
        Some(found) => {
            let end = found.end();
            Some(make(Rule::choice_statement, chars, i, end, one_pair(found)))
        },
        None => None,
    }
}

fn jump_statement(chars: &Vec<char>, i: usize) -> (r: Option<Pair>)
    requires
        i <= chars.len(),
    ensures
        agrees(r, parse_jump_statement(chars@, i as int)),
{
    if !(at(chars, i, 'j') && at(chars, i + 1, 'u') && at(chars, i + 2, 'm') && at(
        chars,
        i + 3,
        'p',
    )) {
        return None;
    }
    let start = scan_whitespace(chars, i + 4);
    if start == i + 4 {
        return None;
    }
    proof {
        lemma_identifier_bounds(chars@, start as int);
    }
    match identifier(chars, start) {
        Some(target) => {
            let end = target.end();
            Some(make(Rule::jump_statement, chars, i, end, one_pair(target)))
        },
        None => None,
    }
}

fn dialogue_body(chars: &Vec<char>, i: usize) -> (r: Option<Pair>)
    requires
        i <= chars.len(),
    ensures
        agrees(r, parse_dialogue_body(chars@, i as int)),
{
    match name_statement(chars, i) {
        Some(t) => Some(t),
        None => match phrase_statement(chars, i) {
            Some(t) => Some(t),
            None => match choice_statement(chars, i) {
                Some(t) => Some(t),
                None => jump_statement(chars, i),
            },
        },
    }
}

fn dialogue_statement(chars: &Vec<char>, i: usize) -> (r: Option<Pair>)
    requires
        i <= chars.len(),
    ensures
        agrees(r, parse_dialogue_statement(chars@, i as int)),
{
    proof {
        lemma_dialogue_body_bounds(chars@, i as int);
    }
    match dialogue_body(chars, i) {
        Some(body) => {
            let semicolon = scan_trivia(chars, body.end());
            if at(chars, semicolon, ';') {
                Some(make(Rule::dialogue_statement, chars, i, semicolon + 1, one_pair(body)))
            } else {
                None
            }
        },
        None => None,
    }
}

fn statement(chars: &Vec<char>, i: usize) -> (r: Option<Pair>)
    requires
        i <= chars.len(),
    ensures
        agrees(r, parse_statement(chars@, i as int)),
{
    proof {
        lemma_statement_bounds(chars@, i as int);
    }
    let inner = match label(chars, i) {
        Some(t) => Some(t),
        None => dialogue_statement(chars, i),
    };
    match inner {
        Some(t) => {
            let end = t.end();
            Some(make(Rule::statement, chars, i, end, one_pair(t)))
        },
        None => None,
    }
}

/// The statements from `i` on, and where the whitespace and comments after
/// the last of them end.
fn statements(chars: &Vec<char>, i: usize) -> (r: (Vec<Pair>, usize))
    requires
        i <= chars.len(),
    ensures
        trees_of(r.0@) == parse_statements(chars@, i as int).0,
        r.1 == parse_statements(chars@, i as int).1,
        i <= r.1 <= chars.len(),
{
    let mut found = no_pairs();
    let mut pos: usize = i;
    loop
        invariant
            i <= pos <= chars.len(),
            parse_statements(chars@, i as int).0 == trees_of(found@) + parse_statements(
                chars@,
                pos as int,
            ).0,
            parse_statements(chars@, i as int).1 == parse_statements(chars@, pos as int).1,
        ensures
            i <= pos <= chars.len(),
            trees_of(found@) == parse_statements(chars@, i as int).0,
            pos == parse_statements(chars@, i as int).1,
        decreases chars.len() - pos,
    {
        proof {
            lemma_statement_bounds(chars@, pos as int);
        }
        match statement(chars, pos) {
            Some(t) => {
                let ghost before = trees_of(found@);
                let next = scan_trivia(chars, t.end());
                assert(before + (seq![t.tree()] + parse_statements(chars@, next as int).0)
                    =~= before.push(t.tree()) + parse_statements(chars@, next as int).0);
                pos = next;
                push_pair(&mut found, t);
            },
            None => {
                break ;
            },
        }
    }
    (found, pos)
}

/// The program that `chars` holds, or where its statements end before the
/// input does.
fn program(chars: &Vec<char>) -> (r: Result<Pair, usize>)
    ensures
        match parse_program(chars@) {
            Some(t) => r is Ok && r.unwrap().tree() == t,
            None => r is Err && r.unwrap_err() == program_end(chars@) && program_end(chars@)
                < chars.len(),
        },
{
    let start = scan_trivia(chars, 0);
    let (found, end) = statements(chars, start);
    if end == chars.len() {
        Ok(make(Rule::program, chars, 0, end, found))
    } else {
        Err(end)
    }
}

/// The error that reports that `rule` stopped matching at `pos`.
fn locate(rule: Rule, chars: &Vec<char>, pos: usize) -> (e: SyntaxError)
    requires
        pos < chars.len() || pos == 0,
    ensures
        e == (SyntaxError {
            rule,
            position: pos,
            line: (newlines_before(chars@, pos as int) + 1) as usize,
            column: (pos - line_start(chars@, pos as int) + 1) as usize,
        }),
{
    let mut lines: usize = 0;
    let mut start: usize = 0;
    let mut k: usize = 0;
    while k < pos
        invariant
            k <= pos,
            pos < chars.len() || pos == 0,
            lines == newlines_before(chars@, k as int),
            start == line_start(chars@, k as int),
            lines <= k,
            start <= k,
        decreases pos - k,
    {
        if chars[k] == '\n' {
            lines = lines + 1;
            start = k + 1;
        }
        k = k + 1;
    }
    SyntaxError { rule, position: pos, line: lines + 1, column: pos - start + 1 }
}

/// The parser of the scripting language.
pub struct DialasmParser;

impl DialasmParser {
    /// Matches `rule` against the start of `input` and returns the node it
    /// produces, in a vector of one; a comment produces no node, so the vector
    /// is then empty. Only `Rule::program` has to match the whole input.
    ///
    /// Fails where the rule does not match, with the place where matching
    /// stopped.
    pub fn parse(rule: Rule, input: &str) -> (r: Result<Vec<Pair>, SyntaxError>)
        ensures
            match parse_rule(rule, input@) {
                Some(trees) => r is Ok && trees_of(r.unwrap()@) == trees,
                None => r == Err::<Vec<Pair>, SyntaxError>(syntax_error(rule, input@)),
            },
    {
        let chars = chars_of(input);
        let found = match rule {
            Rule::program => match program(&chars) {
                Ok(t) => Some(t),
                Err(pos) => {
                    return Err(locate(Rule::statement, &chars, pos));
                },
            },
            Rule::statement => statement(&chars, 0),
            Rule::label => label(&chars, 0),
            Rule::dialogue_statement => dialogue_statement(&chars, 0),
            Rule::name_statement => name_statement(&chars, 0),
            Rule::phrase_statement => phrase_statement(&chars, 0),
            Rule::choice_statement => choice_statement(&chars, 0),
            Rule::jump_statement => jump_statement(&chars, 0),
            Rule::handle => handle(&chars, 0),
            Rule::handle_group => handle_group(&chars, 0),
            Rule::choice => choice(&chars, 0),
            Rule::choice_group => choice_group(&chars, 0),
            Rule::string_literal => string_literal(&chars, 0),
            Rule::string_content => Some(string_content(&chars, 0)),
            Rule::identifier => identifier(&chars, 0),
            Rule::comment => {
                return match scan_comment(&chars, 0) {
                    Some(_) => Ok(no_pairs()),
                    None => Err(locate(rule, &chars, 0)),
                };
            },
        };
        match found {
            Some(t) => Ok(one_pair(t)),
            None => Err(locate(rule, &chars, 0)),
        }
    }
}

} // verus!
