//! The syntax tree: nodes tagged with the grammar rule that produced them.

use vstd::prelude::*;

verus! {

/// The grammar rules that tag syntax tree nodes.
///
/// `comment` is a rule of the grammar but never produces a node: comments and
/// whitespace are skipped between tokens.
#[allow(non_camel_case_types)]
#[derive(Clone, Copy, Debug, PartialEq, Eq, Structural, PartialOrd, Ord, Hash)]
pub enum Rule {
    program,
    statement,
    label,
    dialogue_statement,
    name_statement,
    phrase_statement,
    choice_statement,
    jump_statement,
    handle,
    handle_group,
    choice,
    choice_group,
    string_literal,
    string_content,
    identifier,
    comment,
}

/// The name of a rule, as the grammar writes it.
pub open spec fn rule_name(rule: Rule) -> Seq<char> {
    match rule {
        Rule::program => "program"@,
        Rule::statement => "statement"@,
        Rule::label => "label"@,
        Rule::dialogue_statement => "dialogue_statement"@,
        Rule::name_statement => "name_statement"@,
        Rule::phrase_statement => "phrase_statement"@,
        Rule::choice_statement => "choice_statement"@,
        Rule::jump_statement => "jump_statement"@,
        Rule::handle => "handle"@,
        Rule::handle_group => "handle_group"@,
        Rule::choice => "choice"@,
        Rule::choice_group => "choice_group"@,
        Rule::string_literal => "string_literal"@,
        Rule::string_content => "string_content"@,
        Rule::identifier => "identifier"@,
        Rule::comment => "comment"@,
    }
}

impl Rule {
    /// The name of the rule, as the grammar writes it.
    pub fn name(self) -> (r: &'static str)
        ensures
            r@ == rule_name(self),
    {
        match self {
            Rule::program => "program",
            Rule::statement => "statement",
            Rule::label => "label",
            Rule::dialogue_statement => "dialogue_statement",
            Rule::name_statement => "name_statement",
            Rule::phrase_statement => "phrase_statement",
            Rule::choice_statement => "choice_statement",
            Rule::jump_statement => "jump_statement",
            Rule::handle => "handle",
            Rule::handle_group => "handle_group",
            Rule::choice => "choice",
            Rule::choice_group => "choice_group",
            Rule::string_literal => "string_literal",
            Rule::string_content => "string_content",
            Rule::identifier => "identifier",
            Rule::comment => "comment",
        }
    }
}

/// The mathematical model of a syntax tree node: the rule that matched, the
/// span `start..end` of the input it matched (in characters), the matched text,
/// and the nodes of the rules matched inside it, in source order.
pub struct Tree {
    pub rule: Rule,
    pub start: int,
    pub end: int,
    pub text: Seq<char>,
    pub children: Seq<Tree>,
}

/// A syntax tree node.
#[derive(Debug)]
pub struct Pair {
    rule: Rule,
    start: usize,
    end: usize,
    text: String,
    inner: Vec<Pair>,
}

/// The models of a sequence of nodes.
pub open spec fn trees_of(pairs: Seq<Pair>) -> Seq<Tree> {
    Seq::new(pairs.len(), |i: int| pairs[i].tree())
}

impl Pair {
    /// The model of this node.
    pub closed spec fn tree(&self) -> Tree
        decreases self,
    {
        Tree {
            rule: self.rule,
            start: self.start as int,
            end: self.end as int,
            text: self.text@,
            children: Seq::new(
                self.inner.len() as nat,
                |i: int|
                    if 0 <= i < self.inner.len() {
                        self.inner[i].tree()
                    } else {
                        arbitrary()
                    },
            ),
        }
    }

    /// Builds a node from its parts.
    pub fn new(rule: Rule, start: usize, end: usize, text: String, inner: Vec<Pair>) -> (p: Pair)
        ensures
            p.tree() == (Tree {
                rule,
                start: start as int,
                end: end as int,
                text: text@,
                children: trees_of(inner@),
            }),
    {
        let p = Pair { rule, start, end, text, inner };
        assert(p.tree().children =~= trees_of(inner@));
        p
    }

    /// The rule that produced this node.
    pub fn as_rule(&self) -> (r: Rule)
        ensures
            r == self.tree().rule,
    {
        self.rule
    }

    /// The text this node matched.
    pub fn as_str(&self) -> (r: &str)
        ensures
            r@ == self.tree().text,
    {
        self.text.as_str()
    }

    /// The offset of the first character this node matched.
    pub fn start(&self) -> (r: usize)
        ensures
            r == self.tree().start,
    {
        self.start
    }

    /// The offset just past the last character this node matched.
    pub fn end(&self) -> (r: usize)
        ensures
            r == self.tree().end,
    {
        self.end
    }

    /// The nodes matched inside this node, in source order.
    pub fn inner(&self) -> (r: &Vec<Pair>)
        ensures
            trees_of(r@) == self.tree().children,
    {
        &self.inner
    }
}

} // verus!
