//! From source text to dialogue.

use crate::dialogue::{consistent, Dialogue, DialogueView};
use crate::error::{ErrorView, ParseError};
use crate::extract::{lemma_program_shape, statements_of};
use crate::grammar::parse_program;
use crate::model::Statement;
use crate::parser::{syntax_error, DialasmParser};
use crate::resolve::{lemma_resolved_consistent, resolve, resolved};
use crate::tree::{trees_of, Rule};
use vstd::prelude::*;

verus! {

/// What a script compiles to: the dialogue that its statements resolve to, or
/// why there is none. A text that is no program is refused before anything
/// else is looked at.
pub open spec fn compiled(s: Seq<char>) -> Result<DialogueView, ErrorView> {
    match parse_program(s) {
        Some(program) => resolved(statements_of(program)),
        None => Err(ErrorView::InvalidProgram(syntax_error(Rule::program, s))),
    }
}

/// `found` is what `expected` says: the dialogue, or the error.
pub open spec fn is_outcome(
    found: Result<Dialogue, ParseError>,
    expected: Result<DialogueView, ErrorView>,
) -> bool {
    match expected {
        Ok(d) => found is Ok && found.unwrap()@ == d,
        Err(e) => found is Err && found.unwrap_err()@ == e,
    }
}

impl Dialogue {
    /// Compiles a script.
    pub fn parse(src: &str) -> (r: Result<Dialogue, ParseError>)
        ensures
            is_outcome(r, compiled(src@)),
            r matches Ok(d) ==> consistent(d@),
    {
        let pairs = match DialasmParser::parse(Rule::program, src) {
            Ok(pairs) => pairs,
            Err(e) => {
                return Err(ParseError::InvalidProgram(e));
            },
        };
        proof {
            lemma_program_shape(src@);
            lemma_resolved_consistent(statements_of(parse_program(src@).unwrap()));
            assert(trees_of(pairs@)[0] == pairs@[0].tree());
        }
        resolve(Statement::from_program(&pairs[0]))
    }
}

} // verus!
