//! The table-driven LR parser and its semantic actions.
pub mod error;
pub mod semantic_actions;
pub mod action_rules;
pub mod parser;
pub mod driver;
pub mod operator_laws;

pub use error::ParseError;
pub use parser::Parser;
pub use driver::ParserDriver;
