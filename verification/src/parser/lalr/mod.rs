//! Construction of the LALR(1) parse table.
pub mod first_follow;
pub mod item;
pub mod automaton;
pub mod parse_table;
pub mod table_builder;
pub mod listing;

pub use first_follow::FirstFollow;
pub use parse_table::{Action, ParseTable};
pub use table_builder::TableBuilder;
