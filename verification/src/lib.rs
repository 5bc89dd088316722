//! Front end of the HULK compiler: LALR(1) parser generator, parser engine,
//! abstract syntax tree and the two-pass semantic checker.
use vstd::prelude::*;

pub mod lexer;
pub mod text;
pub mod seqs;
pub mod parser;
pub mod semantic;

verus! {

} // verus!
