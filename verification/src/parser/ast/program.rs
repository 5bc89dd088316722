//! The root of the tree.
use vstd::prelude::*;
use crate::parser::ast::decl::Decl;
use crate::parser::ast::expr::Expr;
use crate::parser::ast::span::Span;

verus! {

/// A HULK program: top-level declarations followed by one global entry expression.
#[derive(Debug, PartialEq)]
pub struct Program {
    /// Top-level declarations in order of appearance.
    pub declarations: Vec<Decl>,
    /// The global entry expression.
    pub entry: Box<Expr>,
    pub span: Span,
}

impl Program {
    pub fn new(declarations: Vec<Decl>, entry: Expr, span: Span) -> (p: Self)
        ensures
            p.declarations@ == declarations@,
            *p.entry == entry,
            p.span == span,
    {
        Program { declarations, entry: Box::new(entry), span }
    }
}

} // verus!
