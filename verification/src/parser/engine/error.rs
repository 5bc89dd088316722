//! Errors of the LR parser.
use vstd::prelude::*;
use crate::parser::grammar::symbol::{Terminal, terminal_text, terminal_name};
use crate::parser::ast::Span;
use crate::parser::ast::span::span_text;

verus! {

/// A parse error: what went wrong, where, and optionally in which context.
#[derive(Debug, Clone)]
pub struct ParseError {
    pub kind: ParseErrorKind,
    pub span: Span,
    pub context: Option<String>,
}

#[derive(Debug, Clone)]
pub enum ParseErrorKind {
    /// A token that no entry of the table accepts in the current state.
    UnexpectedToken { found: Terminal, lexeme: String, expected: Vec<Terminal> },
    /// The input ended where the table expected more tokens.
    UnexpectedEof { expected: Vec<Terminal> },
    /// A state of the parser that a consistent table never reaches.
    InternalError(String),
}

/// `t1 | t2 | …`, the display texts of the terminals.
pub open spec fn expected_text(ts: Seq<Terminal>) -> Seq<char>
    decreases ts.len(),
{
    if ts.len() == 0 {
        Seq::empty()
    } else if ts.len() == 1 {
        terminal_text(ts[0])
    } else {
        expected_text(ts.drop_last()) + " | "@ + terminal_text(ts.last())
    }
}

/// `, se esperaba: …` when something was expected, nothing otherwise.
pub open spec fn expected_suffix(ts: Seq<Terminal>) -> Seq<char> {
    if ts.len() == 0 { Seq::empty() } else { ", se esperaba: "@ + expected_text(ts) }
}

/// The message of an error kind.
pub open spec fn kind_text(k: ParseErrorKind) -> Seq<char> {
    match k {
        ParseErrorKind::UnexpectedToken { found, lexeme, expected } =>
            "token inesperado '"@ + lexeme@ + "' ("@ + terminal_name(found) + ")"@ + expected_suffix(expected@),
        ParseErrorKind::UnexpectedEof { expected } =>
            "fin de archivo inesperado"@ + expected_suffix(expected@),
        ParseErrorKind::InternalError(msg) => "error interno del parser: "@ + msg@,
    }
}

/// The display text of an error: `[line:column] message`, then ` (en context)`.
pub open spec fn parse_error_text(e: ParseError) -> Seq<char> {
    "["@ + span_text(e.span) + "] "@ + kind_text(e.kind) + match e.context {
        Some(c) => " (en "@ + c@ + ")"@,
        None => Seq::empty(),
    }
}

impl ParseError {
    pub fn unexpected_token(found: Terminal, lexeme: String, expected: Vec<Terminal>, span: Span) -> (e: Self)
        ensures
            e.kind == (ParseErrorKind::UnexpectedToken { found, lexeme, expected }),
            e.span == span,
            e.context is None,
    {
        ParseError { kind: ParseErrorKind::UnexpectedToken { found, lexeme, expected }, span, context: None }
    }

    pub fn unexpected_eof(expected: Vec<Terminal>, span: Span) -> (e: Self)
        ensures
            e.kind == (ParseErrorKind::UnexpectedEof { expected }),
            e.span == span,
            e.context is None,
    {
        ParseError { kind: ParseErrorKind::UnexpectedEof { expected }, span, context: None }
    }

    pub fn internal(msg: &str, span: Span) -> (e: Self)
        ensures
            e.kind is InternalError,
            e.kind->InternalError_0@ == msg@,
            e.span == span,
            e.context is None,
    {
        ParseError { kind: ParseErrorKind::InternalError(msg.to_owned()), span, context: None }
    }

    /// The same error with a description of where it happened.
    pub fn with_context(self, ctx: &str) -> (e: Self)
        ensures
            e.kind == self.kind,
            e.span == self.span,
            e.context matches Some(c) && c@ == ctx@,
    {
        ParseError { kind: self.kind, span: self.span, context: Some(ctx.to_owned()) }
    }

    /// The display text of the error.
    pub fn display(&self) -> (s: String)
        ensures
            s@ == parse_error_text(*self),
    {
        let mut s = String::new();
        s.append("[");
        let sp = self.span.display();
        s.append(sp.as_str());
        s.append("] ");
        match &self.kind {
            ParseErrorKind::UnexpectedToken { found, lexeme, expected } => {
                s.append("token inesperado '");
                s.append(lexeme.as_str());
                s.append("' (");
                s.append(found.name());
                s.append(")");
                append_expected(&mut s, expected);
            }
            ParseErrorKind::UnexpectedEof { expected } => {
                s.append("fin de archivo inesperado");
                append_expected(&mut s, expected);
            }
            ParseErrorKind::InternalError(msg) => {
                s.append("error interno del parser: ");
                s.append(msg.as_str());
            }
        }
        match &self.context {
            Some(c) => {
                s.append(" (en ");
                s.append(c.as_str());
                s.append(")");
            }
            None => {}
        }
        proof {
            reveal_strlit("[");
            reveal_strlit("] ");
            reveal_strlit("token inesperado '");
            reveal_strlit("' (");
            reveal_strlit(")");
            reveal_strlit("fin de archivo inesperado");
            reveal_strlit("error interno del parser: ");
            reveal_strlit(" (en ");
        }
        assert(s@ =~= parse_error_text(*self));
        s
    }
}

/// Appends `, se esperaba: t1 | t2 …` when `expected` is not empty.
fn append_expected(s: &mut String, expected: &Vec<Terminal>)
    ensures
        final(s)@ == old(s)@ + expected_suffix(expected@),
{
    if expected.len() == 0 {
        assert(old(s)@ + expected_suffix(expected@) =~= old(s)@);
        return;
    }
    s.append(", se esperaba: ");
    let ghost base = s@;
    let mut k: usize = 0;
    while k < expected.len()
        invariant
            expected@.len() > 0,
            k <= expected@.len(),
            s@ == base + expected_text(expected@.subrange(0, k as int)),
        decreases expected@.len() - k,
    {
        if k > 0 {
            s.append(" | ");
        }
        s.append(expected[k].text());
        proof {
            reveal_strlit(" | ");
            let pre = expected@.subrange(0, k as int);
            let next = expected@.subrange(0, k + 1);
            assert(next.drop_last() =~= pre);
            if k == 0 {
                assert(pre =~= Seq::<Terminal>::empty());
            }
        }
        k = k + 1;
    }
    proof {
        reveal_strlit(", se esperaba: ");
        assert(expected@.subrange(0, expected@.len() as int) =~= expected@);
    }
}

} // verus!
