//! Why a script does not compile.

use crate::parser::{syntax_message, SyntaxError};
use vstd::prelude::*;
use vstd::string::StringExecFns;

verus! {

/// The reason a script is refused.
#[derive(Debug)]
pub enum ParseError {
    /// The text is no program of the grammar.
    InvalidProgram(SyntaxError),
    /// A phrase names a speaker handle that no earlier statement binds.
    UndefinedSpeaker(String),
    /// A jump or a choice names a label that the script does not define.
    UndefinedLabel(String),
    /// The script defines a label twice.
    DuplicateLabel(String),
}

/// The model of a [`ParseError`].
pub enum ErrorView {
    InvalidProgram(SyntaxError),
    UndefinedSpeaker(Seq<char>),
    UndefinedLabel(Seq<char>),
    DuplicateLabel(Seq<char>),
}

impl View for ParseError {
    type V = ErrorView;

    open spec fn view(&self) -> ErrorView {
        match self {
            ParseError::InvalidProgram(e) => ErrorView::InvalidProgram(*e),
            ParseError::UndefinedSpeaker(name) => ErrorView::UndefinedSpeaker(name@),
            ParseError::UndefinedLabel(name) => ErrorView::UndefinedLabel(name@),
            ParseError::DuplicateLabel(name) => ErrorView::DuplicateLabel(name@),
        }
    }
}

/// What an error says.
pub open spec fn error_message(e: ErrorView) -> Seq<char> {
    match e {
        ErrorView::InvalidProgram(e) => "Invalid program: "@ + syntax_message(e),
        ErrorView::UndefinedSpeaker(name) => "Undefined speaker '"@ + name + "'"@,
        ErrorView::UndefinedLabel(name) => "Undefined label '"@ + name + "'"@,
        ErrorView::DuplicateLabel(name) => "Duplicate label '"@ + name + "'"@,
    }
}

impl ParseError {
    /// The error in one line of words, with the name it is about.
    pub fn message(&self) -> (r: String)
        ensures
            r@ == error_message(self@),
    {
        match self {
            ParseError::InvalidProgram(e) => {
                let said = e.message();
                "Invalid program: ".to_owned().concat(said.as_str())
            },
            ParseError::UndefinedSpeaker(name) => "Undefined speaker '".to_owned().concat(
                name.as_str(),
            ).concat("'"),
            ParseError::UndefinedLabel(name) => "Undefined label '".to_owned().concat(
                name.as_str(),
            ).concat("'"),
            ParseError::DuplicateLabel(name) => "Duplicate label '".to_owned().concat(
                name.as_str(),
            ).concat("'"),
        }
    }
}

} // verus!
