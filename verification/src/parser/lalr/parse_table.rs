//! The LALR(1) ACTION and GOTO tables, with the rules that settle conflicts.
use vstd::prelude::*;
use crate::parser::grammar::symbol::{
    NonTerminal, Terminal, NUM_NONTERMINALS, NUM_TERMINALS, nonterminal_index, terminal_index,
    lemma_terminal_index, lemma_nonterminal_index, terminal_text, nonterminal_name,
    terminal_by_rank, terminals_by_name, lemma_terminal_name_rank, terminal_name_rank,
};

use crate::parser::grammar::Grammar;
use crate::parser::grammar::production::Production;
use crate::parser::lalr::table_builder::table_valid;
use crate::text::{decimal, push_decimal, texts, lemma_texts_push};

verus! {

/// An entry of the ACTION table.
#[derive(Debug, Clone, Copy, PartialEq, Eq, Hash, Structural)]
pub enum Action {
    /// Push the lookahead and go to the state.
    Shift(usize),
    /// Reduce by the production with this id.
    Reduce(usize),
    /// The input is a sentence of the grammar.
    Accept,
}

/// A conflict met while the table was filled.
#[derive(Debug, Clone, Copy, PartialEq, Eq, Structural)]
pub enum ConflictKind {
    ShiftReduce { state: usize, terminal: Terminal, shift_to: usize, reduce_prod: usize },
    ReduceReduce { state: usize, terminal: Terminal, prod1: usize, prod2: usize },
    /// Any other pair of different entries (one of them an accept, or two
    /// shifts to different states): the new entry replaces the old one.
    Overwrite { state: usize, terminal: Terminal },
}

/// The entry kept when `incoming` is written over `existing`: a shift beats a
/// reduce, and of two reduces the production declared first wins; in every
/// other case the new entry replaces the old one.
pub open spec fn resolve(existing: Option<Action>, incoming: Action) -> Action {
    match existing {
        None => incoming,
        Some(e) => if e == incoming {
            e
        } else {
            match (e, incoming) {
                (Action::Shift(_), Action::Reduce(_)) => e,
                (Action::Reduce(_), Action::Shift(_)) => incoming,
                (Action::Reduce(p1), Action::Reduce(p2)) => if p2 < p1 { incoming } else { e },
                _ => incoming,
            }
        },
    }
}

/// The conflict recorded when `incoming` is written over `existing`, if any.
pub open spec fn conflict_of(state: usize, terminal: Terminal, existing: Option<Action>, incoming: Action) -> Seq<ConflictKind> {
    match (existing, incoming) {
        (Some(Action::Shift(s)), Action::Reduce(p)) =>
            seq![ConflictKind::ShiftReduce { state, terminal, shift_to: s, reduce_prod: p }],
        (Some(Action::Reduce(p)), Action::Shift(s)) =>
            seq![ConflictKind::ShiftReduce { state, terminal, shift_to: s, reduce_prod: p }],
        (Some(Action::Reduce(p1)), Action::Reduce(p2)) => if p1 != p2 {
            seq![ConflictKind::ReduceReduce { state, terminal, prod1: p1, prod2: p2 }]
        } else {
            Seq::empty()
        },
        (Some(e), a) => if e != a {
            seq![ConflictKind::Overwrite { state, terminal }]
        } else {
            Seq::empty()
        },
        (None, _) => Seq::empty(),
    }
}

/// The ACTION and GOTO tables of an LALR(1) parser.
pub struct ParseTable {
    /// `action[s][index(t)]`: what to do in state `s` on lookahead `t`.
    pub action: Vec<Vec<Option<Action>>>,
    /// `goto[s][index(n)]`: the state to enter after reducing to `n` in state `s`.
    pub goto: Vec<Vec<Option<usize>>>,
    /// The conflicts met while filling ACTION, in order.
    pub conflicts: Vec<ConflictKind>,
    /// Number of states.
    pub num_states: usize,
}

impl ParseTable {
    /// One row per state, one cell per symbol.
    pub open spec fn wf(&self) -> bool {
        &&& self.action@.len() == self.num_states
        &&& self.goto@.len() == self.num_states
        &&& forall|s: int| 0 <= s < self.num_states ==> (#[trigger] self.action@[s])@.len() == NUM_TERMINALS
        &&& forall|s: int| 0 <= s < self.num_states ==> (#[trigger] self.goto@[s])@.len() == NUM_NONTERMINALS
    }

    /// ACTION[state][t].
    pub open spec fn spec_action(&self, state: int, t: Terminal) -> Option<Action> {
        if 0 <= state < self.num_states { self.action@[state]@[terminal_index(t) as int] } else { None }
    }

    /// GOTO[state][n].
    pub open spec fn spec_goto(&self, state: int, n: NonTerminal) -> Option<usize> {
        if 0 <= state < self.num_states { self.goto@[state]@[nonterminal_index(n) as int] } else { None }
    }

    /// Empty tables for the given number of states.
    pub fn new(num_states: usize) -> (t: Self)
        ensures
            t.wf(),
            t.num_states == num_states,
            t.conflicts@.len() == 0,
            forall|s: int, x: Terminal| #[trigger] t.spec_action(s, x) is None,
            forall|s: int, n: NonTerminal| #[trigger] t.spec_goto(s, n) is None,
    {
        let mut action: Vec<Vec<Option<Action>>> = Vec::new();
        let mut goto: Vec<Vec<Option<usize>>> = Vec::new();
        let mut k: usize = 0;
        while k < num_states
            invariant
                k <= num_states,
                action@.len() == k,
                goto@.len() == k,
                forall|i: int| 0 <= i < k ==> (#[trigger] action@[i])@.len() == NUM_TERMINALS,
                forall|i: int| 0 <= i < k ==> (#[trigger] goto@[i])@.len() == NUM_NONTERMINALS,
                forall|i: int, j: int| 0 <= i < k && 0 <= j < NUM_TERMINALS ==> (#[trigger] action@[i]@[j]) is None,
                forall|i: int, j: int| 0 <= i < k && 0 <= j < NUM_NONTERMINALS ==> (#[trigger] goto@[i]@[j]) is None,
            decreases num_states - k,
        {
            let mut arow: Vec<Option<Action>> = Vec::new();
            let mut j: usize = 0;
            while j < NUM_TERMINALS
                invariant
                    j <= NUM_TERMINALS,
                    arow@.len() == j,
                    forall|i: int| 0 <= i < j ==> (#[trigger] arow@[i]) is None,
                decreases NUM_TERMINALS - j,
            {
                arow.push(None);
                j = j + 1;
            }
            let mut grow: Vec<Option<usize>> = Vec::new();
            let mut j: usize = 0;
            while j < NUM_NONTERMINALS
                invariant
                    j <= NUM_NONTERMINALS,
                    grow@.len() == j,
                    forall|i: int| 0 <= i < j ==> (#[trigger] grow@[i]) is None,
                decreases NUM_NONTERMINALS - j,
            {
                grow.push(None);
                j = j + 1;
            }
            action.push(arow);
            goto.push(grow);
            k = k + 1;
        }
        let t = ParseTable { action, goto, conflicts: Vec::new(), num_states };
        proof {
            assert forall|s: int, x: Terminal| #[trigger] t.spec_action(s, x) is None by {
                lemma_terminal_index(x);
            }
            assert forall|s: int, n: NonTerminal| #[trigger] t.spec_goto(s, n) is None by {
                lemma_nonterminal_index(n);
            }
        }
        t
    }

    /// Writes an ACTION entry, settling a conflict with the entry already
    /// there by `resolve` and recording it by `conflict_of`.
    pub fn set_action(&mut self, state: usize, terminal: Terminal, action: Action)
        requires
            old(self).wf(),
            state < old(self).num_states,
        ensures
            final(self).wf(),
            final(self).num_states == old(self).num_states,
            final(self).goto@ == old(self).goto@,
            final(self).spec_action(state as int, terminal)
                == Some(resolve(old(self).spec_action(state as int, terminal), action)),
            forall|s: int, t: Terminal| !(s == state && t == terminal)
                ==> #[trigger] final(self).spec_action(s, t) == old(self).spec_action(s, t),
            final(self).conflicts@ == old(self).conflicts@
                + conflict_of(state, terminal, old(self).spec_action(state as int, terminal), action),
    {
        proof { lemma_terminal_index(terminal); }
        let c = terminal.index();
        let existing = self.action[state][c];
        let mut write = false;
        match existing {
            None => {
                write = true;
            }
            Some(e) => {
                if e != action {
                    match (e, action) {
                        (Action::Shift(s), Action::Reduce(p)) => {
                            self.conflicts.push(ConflictKind::ShiftReduce { state, terminal, shift_to: s, reduce_prod: p });
                        }
                        (Action::Reduce(p), Action::Shift(s)) => {
                            self.conflicts.push(ConflictKind::ShiftReduce { state, terminal, shift_to: s, reduce_prod: p });
                            write = true;
                        }
                        (Action::Reduce(p1), Action::Reduce(p2)) => {
                            self.conflicts.push(ConflictKind::ReduceReduce { state, terminal, prod1: p1, prod2: p2 });
                            write = p2 < p1;
                        }
                        _ => {
                            self.conflicts.push(ConflictKind::Overwrite { state, terminal });
                            write = true;
                        }
                    }
                }
            }
        }
        if write {
            self.action[state].set(c, Some(action));
        }
        proof {
            assert forall|s: int, t: Terminal| !(s == state && t == terminal)
                implies #[trigger] self.spec_action(s, t) == old(self).spec_action(s, t) by {
                lemma_terminal_index(t);
                crate::parser::grammar::symbol::lemma_terminal_index_injective(t, terminal);
            }
        }
    }

    /// Writes a GOTO entry.
    pub fn set_goto(&mut self, state: usize, nt: NonTerminal, target: usize)
        requires
            old(self).wf(),
            state < old(self).num_states,
        ensures
            final(self).wf(),
            final(self).num_states == old(self).num_states,
            final(self).action@ == old(self).action@,
            final(self).conflicts@ == old(self).conflicts@,
            final(self).spec_goto(state as int, nt) == Some(target),
            forall|s: int, n: NonTerminal| !(s == state && n == nt)
                ==> #[trigger] final(self).spec_goto(s, n) == old(self).spec_goto(s, n),
    {
        proof { lemma_nonterminal_index(nt); }
        let c = nt.index();
        self.goto[state].set(c, Some(target));
        proof {
            assert forall|s: int, n: NonTerminal| !(s == state && n == nt)
                implies #[trigger] self.spec_goto(s, n) == old(self).spec_goto(s, n) by {
                lemma_nonterminal_index(n);
                crate::parser::grammar::symbol::lemma_nonterminal_index_injective(n, nt);
            }
        }
    }

    /// ACTION[state][terminal], if the cell is filled.
    pub fn get_action(&self, state: usize, terminal: &Terminal) -> (r: Option<&Action>)
        requires
            self.wf(),
        ensures
            r matches Some(a) ==> self.spec_action(state as int, *terminal) == Some(*a),
            r is None ==> self.spec_action(state as int, *terminal) is None,
    {
        if state >= self.num_states {
            return None;
        }
        proof { lemma_terminal_index(*terminal); }
        match &self.action[state][terminal.index()] {
            Some(a) => Some(a),
            None => None,
        }
    }

    /// GOTO[state][nt], if the cell is filled.
    pub fn get_goto(&self, state: usize, nt: &NonTerminal) -> (r: Option<usize>)
        requires
            self.wf(),
        ensures
            r == self.spec_goto(state as int, *nt),
    {
        if state >= self.num_states {
            return None;
        }
        proof { lemma_nonterminal_index(*nt); }
        self.goto[state][nt.index()]
    }

    /// Whether filling the table met a conflict.
    pub fn has_conflicts(&self) -> (b: bool)
        ensures
            b == (self.conflicts@.len() > 0),
    {
        self.conflicts.len() > 0
    }
}

/// The report line of a conflict.
pub open spec fn conflict_text(c: ConflictKind) -> Seq<char> {
    match c {
        ConflictKind::ShiftReduce { state, terminal, shift_to, reduce_prod } =>
            "  [S/R] Estado "@ + decimal(state as nat) + ", token '"@ + terminal_text(terminal) + "': Shift→"@
                + decimal(shift_to as nat) + " vs Reduce(prod "@ + decimal(reduce_prod as nat) + ")"@,
        ConflictKind::ReduceReduce { state, terminal, prod1, prod2 } =>
            "  [R/R] Estado "@ + decimal(state as nat) + ", token '"@ + terminal_text(terminal) + "': Reduce("@
                + decimal(prod1 as nat) + ") vs Reduce("@ + decimal(prod2 as nat) + ")"@,
        ConflictKind::Overwrite { state, terminal } =>
            "  [otro] Estado "@ + decimal(state as nat) + ", token '"@ + terminal_text(terminal) + "': entrada reemplazada"@,
    }
}

/// An ACTION entry as listed: `Shift(s)`, `Reduce(p: Head → n)` with the
/// production's head and body length, or `Accept`.
pub open spec fn action_entry_text(a: Action, prods: Seq<Production>) -> Seq<char> {
    match a {
        Action::Shift(x) => "Shift("@ + decimal(x as nat) + ")"@,
        Action::Reduce(p) => "Reduce("@ + decimal(p as nat) + ": "@ + nonterminal_name(prods[p as int].head)
            + " → "@ + decimal(prods[p as int].body@.len()) + ")"@,
        Action::Accept => "Accept"@,
    }
}

/// The listing line of the entry `ACTION[state][t] = a`.
pub open spec fn action_line(state: nat, t: Terminal, a: Action, prods: Seq<Production>) -> Seq<char> {
    "  ACTION["@ + decimal(state) + "]["@ + terminal_text(t) + "] = "@ + action_entry_text(a, prods)
}

/// The lines of a row's filled cells, for the first `q` terminals in the
/// order of their names.
pub open spec fn row_lines(row: Seq<Option<Action>>, state: nat, prods: Seq<Production>, q: nat) -> Seq<Seq<char>>
    decreases q,
{
    if q == 0 {
        Seq::empty()
    } else {
        let t = terminal_by_rank((q - 1) as nat);
        let rest = row_lines(row, state, prods, (q - 1) as nat);
        match row[terminal_index(t) as int] {
            Some(a) => rest.push(action_line(state, t, a, prods)),
            None => rest,
        }
    }
}

/// The lines of the filled cells of the first `s` states, state by state.
pub open spec fn table_lines(action: Seq<Vec<Option<Action>>>, prods: Seq<Production>, s: nat) -> Seq<Seq<char>>
    decreases s,
{
    if s == 0 {
        Seq::empty()
    } else {
        table_lines(action, prods, (s - 1) as nat) + row_lines(action[s - 1]@, (s - 1) as nat, prods, NUM_TERMINALS as nat)
    }
}

/// The heading of the ACTION listing.
pub open spec fn action_header(n: nat) -> Seq<char> {
    "=== ACTION table ("@ + decimal(n) + " entradas) ==="@
}

/// Appends `piece` to `s`.
fn push_str(s: &mut String, piece: &str)
    ensures
        final(s)@ == old(s)@ + piece@,
{
    s.append(piece);
}

impl ParseTable {
    /// The conflict report: a line saying there is none, or a count and one
    /// line per conflict, in the order met.
    pub fn conflict_report(&self) -> (lines: Vec<String>)
        ensures
            self.conflicts@.len() == 0 ==> texts(lines@) == seq!["Sin conflictos — gramática LALR(1) limpia."@],
            self.conflicts@.len() > 0 ==> texts(lines@) == seq![decimal(self.conflicts@.len()) + " conflicto(s):"@]
                + self.conflicts@.map_values(|c: ConflictKind| conflict_text(c)),
    {
        let mut lines: Vec<String> = Vec::new();
        if self.conflicts.len() == 0 {
            lines.push(String::from_str("Sin conflictos — gramática LALR(1) limpia."));
            proof { lemma_texts_push(Seq::empty(), lines@[0]); }
            assert(texts(lines@) =~= seq!["Sin conflictos — gramática LALR(1) limpia."@]);
            return lines;
        }
        let mut head = String::new();
        push_decimal(&mut head, self.conflicts.len());
        push_str(&mut head, " conflicto(s):");
        lines.push(head);
        proof { lemma_texts_push(Seq::empty(), lines@[0]); }
        let ghost first = seq![decimal(self.conflicts@.len()) + " conflicto(s):"@];
        assert(texts(lines@) =~= first);
        let mut k: usize = 0;
        while k < self.conflicts.len()
            invariant
                k <= self.conflicts@.len(),
                texts(lines@) == first + self.conflicts@.take(k as int).map_values(|c: ConflictKind| conflict_text(c)),
            decreases self.conflicts@.len() - k,
        {
            let mut line = String::new();
            match self.conflicts[k] {
                ConflictKind::ShiftReduce { state, terminal, shift_to, reduce_prod } => {
                    push_str(&mut line, "  [S/R] Estado ");
                    push_decimal(&mut line, state);
                    push_str(&mut line, ", token '");
                    push_str(&mut line, terminal.text());
                    push_str(&mut line, "': Shift→");
                    push_decimal(&mut line, shift_to);
                    push_str(&mut line, " vs Reduce(prod ");
                    push_decimal(&mut line, reduce_prod);
                    push_str(&mut line, ")");
                    proof {
                        reveal_strlit("  [S/R] Estado "); reveal_strlit(", token '"); reveal_strlit("': Shift→");
                        reveal_strlit(" vs Reduce(prod "); reveal_strlit(")");
                    }
                }
                ConflictKind::ReduceReduce { state, terminal, prod1, prod2 } => {
                    push_str(&mut line, "  [R/R] Estado ");
                    push_decimal(&mut line, state);
                    push_str(&mut line, ", token '");
                    push_str(&mut line, terminal.text());
                    push_str(&mut line, "': Reduce(");
                    push_decimal(&mut line, prod1);
                    push_str(&mut line, ") vs Reduce(");
                    push_decimal(&mut line, prod2);
                    push_str(&mut line, ")");
                    proof {
                        reveal_strlit("  [R/R] Estado "); reveal_strlit(", token '"); reveal_strlit("': Reduce(");
                        reveal_strlit(") vs Reduce("); reveal_strlit(")");
                    }
                }
                ConflictKind::Overwrite { state, terminal } => {
                    push_str(&mut line, "  [otro] Estado ");
                    push_decimal(&mut line, state);
                    push_str(&mut line, ", token '");
                    push_str(&mut line, terminal.text());
                    push_str(&mut line, "': entrada reemplazada");
                    proof {
                        reveal_strlit("  [otro] Estado "); reveal_strlit(", token '"); reveal_strlit("': entrada reemplazada");
                    }
                }
            }
            assert(line@ =~= conflict_text(self.conflicts@[k as int]));
            let ghost before = lines@;
            lines.push(line);
            proof {
                lemma_texts_push(before, line);
                assert(self.conflicts@.take(k + 1) =~= self.conflicts@.take(k as int).push(self.conflicts@[k as int]));
                assert(texts(lines@) =~= first + self.conflicts@.take(k + 1).map_values(|c: ConflictKind| conflict_text(c)));
            }
            k = k + 1;
        }
        assert(self.conflicts@.take(k as int) =~= self.conflicts@);
        lines
    }

    /// The listing of every filled ACTION cell, state by state and, within
    /// a state, by terminal name, under a heading that counts them.
    pub fn action_report(&self, grammar: &Grammar) -> (lines: Vec<String>)
        requires
            table_valid(*self, grammar.productions@),
        ensures
            texts(lines@) == seq![action_header(table_lines(self.action@, grammar.productions@, self.num_states as nat).len())]
                + table_lines(self.action@, grammar.productions@, self.num_states as nat),
    {
        let ghost prods = grammar.productions@;
        let order = terminals_by_name();
        let mut body: Vec<String> = Vec::new();
        let mut s: usize = 0;
        while s < self.num_states
            invariant
                table_valid(*self, prods),
                prods == grammar.productions@,
                s <= self.num_states,
                order@.len() == NUM_TERMINALS,
                forall|q: int| 0 <= q < NUM_TERMINALS ==> terminal_name_rank(#[trigger] order@[q]) == q,
                texts(body@) == table_lines(self.action@, prods, s as nat),
            decreases self.num_states - s,
        {
            let ghost base = texts(body@);
            let mut q: usize = 0;
            while q < NUM_TERMINALS
                invariant
                    table_valid(*self, prods),
                    prods == grammar.productions@,
                    s < self.num_states,
                    q <= NUM_TERMINALS,
                    order@.len() == NUM_TERMINALS,
                    forall|r: int| 0 <= r < NUM_TERMINALS ==> terminal_name_rank(#[trigger] order@[r]) == r,
                    base == table_lines(self.action@, prods, s as nat),
                    texts(body@) == base + row_lines(self.action@[s as int]@, s as nat, prods, q as nat),
                decreases NUM_TERMINALS - q,
            {
                let t = order[q];
                proof {
                    lemma_terminal_name_rank(t);
                    lemma_terminal_index(t);
                }
                let ti = t.index();
                match self.action[s][ti] {
                    Some(a) => {
                        proof {
                            assert(self.spec_action(s as int, t) == Some(a));
                        }
                        let line = self.action_line_of(s, t, a, grammar);
                        let ghost before = body@;
                        body.push(line);
                        proof {
                            lemma_texts_push(before, line);
                        }
                    }
                    None => {}
                }
                assert(texts(body@) =~= base + row_lines(self.action@[s as int]@, s as nat, prods, (q + 1) as nat));
                q = q + 1;
            }
            assert(texts(body@) =~= table_lines(self.action@, prods, (s + 1) as nat));
            s = s + 1;
        }
        let mut head = String::new();
        push_str(&mut head, "=== ACTION table (");
        push_decimal(&mut head, body.len());
        push_str(&mut head, " entradas) ===");
        proof { reveal_strlit("=== ACTION table ("); reveal_strlit(" entradas) ==="); }
        let mut lines: Vec<String> = Vec::new();
        lines.push(head);
        proof { lemma_texts_push(Seq::empty(), lines@[0]); }
        let ghost hl = lines@;
        let ghost bl = body@;
        lines.append(&mut body);
        assert(texts(lines@) =~= texts(hl) + texts(bl));
        lines
    }

    /// The listing line of one filled cell.
    fn action_line_of(&self, state: usize, t: Terminal, a: Action, grammar: &Grammar) -> (line: String)
        requires
            table_valid(*self, grammar.productions@),
            self.spec_action(state as int, t) == Some(a),
        ensures
            line@ == action_line(state as nat, t, a, grammar.productions@),
    {
        let mut line = String::new();
        push_str(&mut line, "  ACTION[");
        push_decimal(&mut line, state);
        push_str(&mut line, "][");
        push_str(&mut line, t.text());
        push_str(&mut line, "] = ");
        match a {
            Action::Shift(x) => {
                push_str(&mut line, "Shift(");
                push_decimal(&mut line, x);
                push_str(&mut line, ")");
            }
            Action::Reduce(p) => {
                let prod = &grammar.productions[p];
                push_str(&mut line, "Reduce(");
                push_decimal(&mut line, p);
                push_str(&mut line, ": ");
                push_str(&mut line, prod.head.name());
                push_str(&mut line, " → ");
                push_decimal(&mut line, prod.body.len());
                push_str(&mut line, ")");
            }
            Action::Accept => {
                push_str(&mut line, "Accept");
            }
        }
        proof {
            reveal_strlit("  ACTION["); reveal_strlit("]["); reveal_strlit("] = "); reveal_strlit("Shift(");
            reveal_strlit(")"); reveal_strlit("Reduce("); reveal_strlit(": "); reveal_strlit(" → "); reveal_strlit("Accept");
        }
        assert(line@ =~= action_line(state as nat, t, a, grammar.productions@));
        line
    }
}

} // verus!
