//! Compiler for a small dialogue-scripting language.
//!
//! A script is parsed into a syntax tree ([`DialasmParser`]), each statement of
//! the tree is turned into a label or an instruction, and the statements are
//! resolved into a [`Dialogue`]: an ordered list of instructions and a table
//! from label names to instruction indices.

pub mod compile;
pub mod dialogue;
pub mod error;
pub mod example;
pub mod extract;
pub mod grammar;
pub mod labels;
pub mod laws;
pub mod model;
pub mod parser;
pub mod player;
pub mod resolve;
pub mod text;
pub mod tree;

pub use dialogue::{Dialogue, DialogueView};
pub use error::{ErrorView, ParseError};
pub use labels::LabelTable;
pub use model::{
    ChoiceView, DialogueChoice, DialogueEntry, EntryView, Statement, StatementView,
};
pub use parser::{DialasmParser, SyntaxError};
pub use player::{Player, PlayerView, Step};
pub use tree::{Pair, Rule, Tree};
