//! Source positions.
use vstd::prelude::*;
use crate::text::{decimal, push_decimal};

verus! {

/// Line and column of a node in the source, so that errors can point at it.
#[derive(Debug, Clone, Copy, PartialEq, Eq, Default, Hash, Structural)]
pub struct Span {
    pub line: usize,
    pub column: usize,
}

/// Display text of a span: `line:column`.
pub open spec fn span_text(s: Span) -> Seq<char> {
    decimal(s.line as nat) + ":"@ + decimal(s.column as nat)
}

impl Span {
    pub fn new(line: usize, column: usize) -> (s: Self)
        ensures
            s.line == line,
            s.column == column,
    {
        Span { line, column }
    }

    /// The span used where the position does not matter (tests, synthetic nodes).
    pub fn dummy() -> (s: Self)
        ensures
            s.line == 0,
            s.column == 0,
    {
        Span { line: 0, column: 0 }
    }

    /// Display text: `line:column`.
    pub fn display(&self) -> (s: String)
        ensures
            s@ == span_text(*self),
    {
        let mut s = String::new();
        push_decimal(&mut s, self.line);
        s.append(":");
        push_decimal(&mut s, self.column);
        assert(s@ =~= span_text(*self));
        s
    }
}

} // verus!
