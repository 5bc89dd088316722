//! Productions `head → body[0] … body[n-1]` of a context-free grammar.
use vstd::prelude::*;
use crate::parser::grammar::symbol::{NonTerminal, Symbol, nonterminal_name, symbol_text};
use crate::text::{decimal, push_decimal};

verus! {

/// A grammar rule. The `id` is assigned when the rule is added to a `Grammar`
/// and is what REDUCE cells of the LALR table refer to.
#[derive(Debug, Clone)]
pub struct Production {
    pub id: usize,
    pub head: NonTerminal,
    pub body: Vec<Symbol>,
}

/// Display text of a production body: each symbol preceded by a blank.
pub open spec fn body_text(b: Seq<Symbol>) -> Seq<char>
    decreases b.len(),
{
    if b.len() == 0 {
        Seq::empty()
    } else {
        body_text(b.drop_last()) + " "@ + symbol_text(b.last())
    }
}

/// Display text of a production: `[id] Head → body` or `[id] Head → ε`.
pub open spec fn production_text(id: usize, head: NonTerminal, body: Seq<Symbol>) -> Seq<char> {
    "["@ + decimal(id as nat) + "] "@ + nonterminal_name(head) + " →"@
        + if body.len() == 0 { " ε"@ } else { body_text(body) }
}

impl Production {
    /// A production without an id yet (the grammar assigns it).
    pub fn new(head: NonTerminal, body: Vec<Symbol>) -> (p: Self)
        ensures
            p.id == 0,
            p.head == head,
            p.body@ == body@,
    {
        Production { id: 0, head, body }
    }

    /// The empty production `head → ε`.
    pub fn epsilon(head: NonTerminal) -> (p: Self)
        ensures
            p.id == 0,
            p.head == head,
            p.body@.len() == 0,
    {
        Production { id: 0, head, body: Vec::new() }
    }

    /// Whether the body is empty.
    pub fn is_epsilon(&self) -> (b: bool)
        ensures
            b == (self.body@.len() == 0),
    {
        self.body.len() == 0
    }

    /// Length of the body: how many stack entries a REDUCE pops.
    pub fn body_len(&self) -> (n: usize)
        ensures
            n == self.body@.len(),
    {
        self.body.len()
    }

    /// Symbol at position `pos` of the body, if there is one.
    pub fn symbol_at(&self, pos: usize) -> (r: Option<&Symbol>)
        ensures
            pos < self.body@.len() ==> r == Some(&self.body@[pos as int]),
            pos >= self.body@.len() ==> r is None,
    {
        if pos < self.body.len() {
            Some(&self.body[pos])
        } else {
            None
        }
    }

    /// A copy of the production with the same id, head and body.
    pub fn copy(&self) -> (p: Production)
        ensures
            p.id == self.id,
            p.head == self.head,
            p.body@ == self.body@,
    {
        let body = self.body.clone();
        assert(body@ =~= self.body@);
        Production { id: self.id, head: self.head, body }
    }

    /// Display text: `[id] Head → s1 s2 …`, or `[id] Head → ε` for the empty body.
    pub fn display(&self) -> (s: String)
        ensures
            s@ == production_text(self.id, self.head, self.body@),
    {
        let mut s = String::from_str("[");
        push_decimal(&mut s, self.id);
        s.append("] ");
        s.append(self.head.name());
        s.append(" →");
        if self.body.len() == 0 {
            s.append(" ε");
        } else {
            let ghost start = s@;
            let mut i: usize = 0;
            while i < self.body.len()
                invariant
                    i <= self.body@.len(),
                    s@ == start + body_text(self.body@.take(i as int)),
                decreases self.body@.len() - i,
            {
                assert(self.body@.take(i + 1).drop_last() =~= self.body@.take(i as int));
                s.append(" ");
                s.append(self.body[i].text());
                i = i + 1;
            }
            assert(self.body@.take(i as int) =~= self.body@);
        }
        proof { reveal_strlit("["); }
        assert(s@ =~= production_text(self.id, self.head, self.body@));
        s
    }
}

} // verus!
