pub mod ast;
pub mod grammar;
pub mod lalr;
pub mod engine;
