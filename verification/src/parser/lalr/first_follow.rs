//! FIRST and FOLLOW sets of a grammar.
//!
//! FIRST(α) holds the terminals that can begin a string derived from α;
//! FOLLOW(A) holds the terminals that can appear right after A in some
//! sentential form. Sets are stored as tables of booleans indexed by
//! non-terminal and terminal.
use vstd::prelude::*;
use crate::parser::grammar::Grammar;
use crate::parser::grammar::production::Production;
use crate::parser::grammar::symbol::{
    NonTerminal, Symbol, Terminal, NUM_NONTERMINALS, NUM_TERMINALS, nonterminal_index,
    terminal_index, terminal_at, lemma_terminal_index, lemma_terminal_at, lemma_nonterminal_index,
};
use crate::seqs::{count_true, falses, lemma_count_true_le, lemma_count_true_set, lemma_push_contains};
use crate::parser::grammar::symbol::{
    terminal_text, nonterminal_name, terminal_by_text_rank, terminal_text_rank, terminals_by_text,
    lemma_terminal_text_rank, nonterminal_by_name_rank, nonterminal_name_rank, nonterminals_by_name,
    lemma_nonterminal_name_rank,
};
use crate::text::{texts, lemma_texts_push};

verus! {

/// An element of a FIRST set: a terminal or ε.
#[derive(Debug, Clone, Copy, PartialEq, Eq, Hash, Structural)]
pub enum FirstElem {
    Token(Terminal),
    Epsilon,
}

/// Position of the cell for `(n, t)` in a table indexed by non-terminal then terminal.
pub open spec fn cell(n: NonTerminal, t: Terminal) -> int {
    nonterminal_index(n) * NUM_TERMINALS + terminal_index(t)
}

/// Cells of distinct pairs are distinct and lie inside the table.
pub proof fn lemma_cell(n: NonTerminal, t: Terminal)
    ensures
        0 <= cell(n, t) < NUM_NONTERMINALS * NUM_TERMINALS,
{
    lemma_nonterminal_index(n);
    lemma_terminal_index(t);
    assert(nonterminal_index(n) * NUM_TERMINALS + terminal_index(t) < NUM_NONTERMINALS * NUM_TERMINALS) by (nonlinear_arith)
        requires nonterminal_index(n) < NUM_NONTERMINALS, terminal_index(t) < NUM_TERMINALS;
}

/// `t` is in FIRST of a single symbol, read from a FIRST table.
pub open spec fn sym_first(first: Seq<bool>, s: Symbol, t: Terminal) -> bool {
    match s {
        Symbol::T(u) => u == t,
        Symbol::NT(n) => first[cell(n, t)],
    }
}

/// A single symbol can derive ε, read from a nullable table.
pub open spec fn sym_nullable(nullable: Seq<bool>, s: Symbol) -> bool {
    match s {
        Symbol::T(_) => false,
        Symbol::NT(n) => nullable[nonterminal_index(n) as int],
    }
}

/// `t` is in FIRST of the first `n` symbols of `syms`: it begins one of them
/// that only nullable symbols precede.
pub open spec fn first_upto(first: Seq<bool>, nullable: Seq<bool>, syms: Seq<Symbol>, n: int, t: Terminal) -> bool {
    exists|i: int| 0 <= i < n
        && (forall|j: int| 0 <= j < i ==> sym_nullable(nullable, #[trigger] syms[j]))
        && #[trigger] sym_first(first, syms[i], t)
}

/// `t` is in FIRST of a string of symbols.
pub open spec fn str_first(first: Seq<bool>, nullable: Seq<bool>, syms: Seq<Symbol>, t: Terminal) -> bool {
    first_upto(first, nullable, syms, syms.len() as int, t)
}

/// The string of symbols can derive ε (every symbol can).
pub open spec fn str_nullable(nullable: Seq<bool>, syms: Seq<Symbol>) -> bool {
    forall|i: int| 0 <= i < syms.len() ==> sym_nullable(nullable, #[trigger] syms[i])
}

/// FIRST(head) ⊇ FIRST(body), and head is nullable when body is.
pub open spec fn closed_at(first: Seq<bool>, nullable: Seq<bool>, prod: Production) -> bool {
    &&& forall|t: Terminal| str_first(first, nullable, prod.body@, t) ==> first[cell(prod.head, t)]
    &&& str_nullable(nullable, prod.body@) ==> nullable[nonterminal_index(prod.head) as int]
}

/// The FOLLOW condition at position `i` of a production `A → α B β`:
/// FIRST(β) ⊆ FOLLOW(B), and FOLLOW(A) ⊆ FOLLOW(B) when β is nullable.
pub open spec fn follow_closed_at(first: Seq<bool>, nullable: Seq<bool>, follow: Seq<bool>, prod: Production, i: int) -> bool {
    prod.body@[i] matches Symbol::NT(b) ==> {
        &&& forall|t: Terminal| str_first(first, nullable, prod.body@.skip(i + 1), t) ==> follow[cell(b, t)]
        &&& str_nullable(nullable, prod.body@.skip(i + 1)) ==>
                forall|t: Terminal| follow[cell(prod.head, t)] ==> follow[cell(b, t)]
    }
}

/// Every cell marked in `a` is marked in `b`.
pub open spec fn marks_within(a: Seq<bool>, b: Seq<bool>) -> bool {
    &&& a.len() == b.len()
    &&& forall|x: int| 0 <= x < a.len() && a[x] ==> b[x]
}

/// FIRST and nullable tables closed under every production.
pub open spec fn first_model(first: Seq<bool>, nullable: Seq<bool>, prods: Seq<Production>) -> bool {
    &&& first.len() == NUM_NONTERMINALS * NUM_TERMINALS
    &&& nullable.len() == NUM_NONTERMINALS
    &&& forall|p: int| 0 <= p < prods.len() ==> closed_at(first, nullable, #[trigger] prods[p])
}

/// The tables mark nothing that some closed pair of tables leaves out: they
/// are the least tables closed under the productions.
pub open spec fn first_least(first: Seq<bool>, nullable: Seq<bool>, prods: Seq<Production>) -> bool {
    forall|gf: Seq<bool>, gn: Seq<bool>| #[trigger] first_model(gf, gn, prods)
        ==> marks_within(first, gf) && marks_within(nullable, gn)
}

/// A FOLLOW table closed under the rules, for given FIRST and nullable tables.
pub open spec fn follow_model(first: Seq<bool>, nullable: Seq<bool>, follow: Seq<bool>, prods: Seq<Production>, start: NonTerminal) -> bool {
    &&& follow.len() == NUM_NONTERMINALS * NUM_TERMINALS
    &&& follow[cell(start, Terminal::Eof)]
    &&& forall|p: int, i: int| 0 <= p < prods.len() && 0 <= i < prods[p].body@.len()
            ==> #[trigger] follow_closed_at(first, nullable, follow, prods[p], i)
}

/// The FOLLOW table marks nothing that some closed FOLLOW table leaves out.
pub open spec fn follow_least(first: Seq<bool>, nullable: Seq<bool>, follow: Seq<bool>, prods: Seq<Production>, start: NonTerminal) -> bool {
    forall|g: Seq<bool>| #[trigger] follow_model(first, nullable, g, prods, start) ==> marks_within(follow, g)
}

/// FIRST of a string only grows with the tables it is read from.
pub proof fn lemma_str_first_mono(f1: Seq<bool>, n1: Seq<bool>, f2: Seq<bool>, n2: Seq<bool>, s: Seq<Symbol>, t: Terminal)
    requires
        marks_within(f1, f2),
        marks_within(n1, n2),
        f1.len() == NUM_NONTERMINALS * NUM_TERMINALS,
        n1.len() == NUM_NONTERMINALS,
        str_first(f1, n1, s, t),
    ensures
        str_first(f2, n2, s, t),
{
    let i = choose|i: int| 0 <= i < s.len()
        && (forall|j: int| 0 <= j < i ==> sym_nullable(n1, #[trigger] s[j]))
        && #[trigger] sym_first(f1, s[i], t);
    assert forall|j: int| 0 <= j < i implies sym_nullable(n2, #[trigger] s[j]) by {
        assert(sym_nullable(n1, s[j]));
        if let Symbol::NT(n) = s[j] {
            lemma_nonterminal_index(n);
        }
    }
    if let Symbol::NT(n) = s[i] {
        lemma_cell(n, t);
    }
    assert(sym_first(f2, s[i], t));
}

/// Nullability of a string only grows with the table it is read from.
pub proof fn lemma_str_nullable_mono(n1: Seq<bool>, n2: Seq<bool>, s: Seq<Symbol>)
    requires
        marks_within(n1, n2),
        n1.len() == NUM_NONTERMINALS,
        str_nullable(n1, s),
    ensures
        str_nullable(n2, s),
{
    assert forall|j: int| 0 <= j < s.len() implies sym_nullable(n2, #[trigger] s[j]) by {
        assert(sym_nullable(n1, s[j]));
        if let Symbol::NT(n) = s[j] {
            lemma_nonterminal_index(n);
        }
    }
}

/// Tables with nothing marked lie within any tables of the same size.
pub proof fn lemma_falses_least(prods: Seq<Production>, first: Seq<bool>, nullable: Seq<bool>)
    requires
        first.len() == NUM_NONTERMINALS * NUM_TERMINALS,
        nullable.len() == NUM_NONTERMINALS,
        forall|x: int| 0 <= x < first.len() ==> !(#[trigger] first[x]),
        forall|x: int| 0 <= x < nullable.len() ==> !(#[trigger] nullable[x]),
    ensures
        first_least(first, nullable, prods),
{
}

/// Adding to FIRST(head) only what FIRST of a production's body gives, and
/// marking head nullable only for a nullable body, keeps the tables least.
pub proof fn lemma_absorb_first_least(f0: Seq<bool>, n0: Seq<bool>, f1: Seq<bool>, n1: Seq<bool>, prods: Seq<Production>, p: int)
    requires
        0 <= p < prods.len(),
        f0.len() == NUM_NONTERMINALS * NUM_TERMINALS,
        n0.len() == NUM_NONTERMINALS,
        f1.len() == f0.len(),
        n1.len() == n0.len(),
        first_least(f0, n0, prods),
        forall|x: int| 0 <= x < f1.len() && #[trigger] f1[x] ==> f0[x]
            || exists|t: Terminal| x == cell(prods[p].head, t) && str_first(f0, n0, prods[p].body@, t),
        forall|x: int| 0 <= x < n1.len() && #[trigger] n1[x] ==> n0[x]
            || (x == nonterminal_index(prods[p].head) && str_nullable(n0, prods[p].body@)),
    ensures
        first_least(f1, n1, prods),
{
    assert forall|gf: Seq<bool>, gn: Seq<bool>| #[trigger] first_model(gf, gn, prods)
        implies marks_within(f1, gf) && marks_within(n1, gn) by {
        assert(marks_within(f0, gf) && marks_within(n0, gn));
        assert(closed_at(gf, gn, prods[p]));
        assert forall|x: int| 0 <= x < f1.len() && f1[x] implies gf[x] by {
            if !f0[x] {
                let t = choose|t: Terminal| x == cell(prods[p].head, t) && str_first(f0, n0, prods[p].body@, t);
                lemma_str_first_mono(f0, n0, gf, gn, prods[p].body@, t);
            }
        }
        assert forall|x: int| 0 <= x < n1.len() && n1[x] implies gn[x] by {
            if !n0[x] {
                lemma_str_nullable_mono(n0, gn, prods[p].body@);
            }
        }
    }
}

/// Adding to FOLLOW(B), at `A → α B β`, only FIRST(β) and, when β is
/// nullable, FOLLOW(A), keeps the FOLLOW table least.
pub proof fn lemma_absorb_follow_least(first: Seq<bool>, nullable: Seq<bool>, f0: Seq<bool>, f1: Seq<bool>,
    prods: Seq<Production>, start: NonTerminal, p: int, i: int)
    requires
        0 <= p < prods.len(),
        0 <= i < prods[p].body@.len(),
        f0.len() == NUM_NONTERMINALS * NUM_TERMINALS,
        f1.len() == f0.len(),
        follow_least(first, nullable, f0, prods, start),
        forall|x: int| 0 <= x < f1.len() && #[trigger] f1[x] ==> f0[x]
            || (prods[p].body@[i] matches Symbol::NT(b) && exists|t: Terminal| x == cell(b, t)
                && (str_first(first, nullable, prods[p].body@.skip(i + 1), t)
                    || (str_nullable(nullable, prods[p].body@.skip(i + 1)) && f0[cell(prods[p].head, t)]))),
    ensures
        follow_least(first, nullable, f1, prods, start),
{
    assert forall|g: Seq<bool>| #[trigger] follow_model(first, nullable, g, prods, start) implies marks_within(f1, g) by {
        assert(marks_within(f0, g));
        assert(follow_closed_at(first, nullable, g, prods[p], i));
        assert forall|x: int| 0 <= x < f1.len() && f1[x] implies g[x] by {
            if !f0[x] {
                if let Symbol::NT(b) = prods[p].body@[i] {
                    let t = choose|t: Terminal| x == cell(b, t)
                        && (str_first(first, nullable, prods[p].body@.skip(i + 1), t)
                            || (str_nullable(nullable, prods[p].body@.skip(i + 1)) && f0[cell(prods[p].head, t)]));
                    lemma_cell(prods[p].head, t);
                }
            }
        }
    }
}

impl FirstFollow {
    pub open spec fn wf(&self) -> bool {
        &&& self.first@.len() == NUM_NONTERMINALS * NUM_TERMINALS
        &&& self.follow@.len() == NUM_NONTERMINALS * NUM_TERMINALS
        &&& self.nullable@.len() == NUM_NONTERMINALS
    }

    /// `t` is in FIRST(n).
    #[verifier::inline]
    pub open spec fn in_first(&self, n: NonTerminal, t: Terminal) -> bool {
        self.first@[cell(n, t)]
    }

    /// ε is in FIRST(n).
    #[verifier::inline]
    pub open spec fn nullable_nt(&self, n: NonTerminal) -> bool {
        self.nullable@[nonterminal_index(n) as int]
    }

    /// `t` is in FOLLOW(n).
    #[verifier::inline]
    pub open spec fn in_follow(&self, n: NonTerminal, t: Terminal) -> bool {
        self.follow@[cell(n, t)]
    }

    #[verifier::inline]
    pub open spec fn sym_first(&self, s: Symbol, t: Terminal) -> bool {
        sym_first(self.first@, s, t)
    }

    #[verifier::inline]
    pub open spec fn sym_nullable(&self, s: Symbol) -> bool {
        sym_nullable(self.nullable@, s)
    }

    #[verifier::inline]
    pub open spec fn str_first(&self, syms: Seq<Symbol>, t: Terminal) -> bool {
        str_first(self.first@, self.nullable@, syms, t)
    }

    #[verifier::inline]
    pub open spec fn str_nullable(&self, syms: Seq<Symbol>) -> bool {
        str_nullable(self.nullable@, syms)
    }

    /// `t` is in FIRST(syms · a): FIRST of the string, and `a` when the string is nullable.
    pub open spec fn str_first_la(&self, syms: Seq<Symbol>, a: Terminal, t: Terminal) -> bool {
        self.str_first(syms, t) || (self.str_nullable(syms) && t == a)
    }

    #[verifier::inline]
    pub open spec fn closed_at(&self, prod: Production) -> bool {
        closed_at(self.first@, self.nullable@, prod)
    }

    /// The FIRST sets are closed under every production `A → X1 … Xn`:
    /// FIRST(X1 … Xn) ⊆ FIRST(A), and A is nullable when X1 … Xn is.
    pub open spec fn first_closed(&self, prods: Seq<Production>) -> bool {
        forall|p: int| 0 <= p < prods.len() ==> self.closed_at(#[trigger] prods[p])
    }

    #[verifier::inline]
    pub open spec fn follow_closed_at(&self, prod: Production, i: int) -> bool {
        follow_closed_at(self.first@, self.nullable@, self.follow@, prod, i)
    }

    /// The FOLLOW sets are closed: `$` follows the start symbol, and for every
    /// `A → α B β`, FIRST(β) ⊆ FOLLOW(B) and FOLLOW(A) ⊆ FOLLOW(B) when β is nullable.
    pub open spec fn follow_closed(&self, prods: Seq<Production>, start: NonTerminal) -> bool {
        &&& self.in_follow(start, Terminal::Eof)
        &&& forall|p: int, i: int| 0 <= p < prods.len() && 0 <= i < prods[p].body@.len()
                ==> #[trigger] self.follow_closed_at(prods[p], i)
    }
}

/// The FIRST and FOLLOW sets of every non-terminal.
pub struct FirstFollow {
    /// `first[cell(n, t)]`: `t` is in FIRST(n).
    pub first: Vec<bool>,
    /// `nullable[index(n)]`: ε is in FIRST(n).
    pub nullable: Vec<bool>,
    /// `follow[cell(n, t)]`: `t` is in FOLLOW(n).
    pub follow: Vec<bool>,
}

/// Extending the prefix by one symbol adds that symbol's FIRST set, provided
/// the prefix is nullable.
pub proof fn lemma_first_upto_step(first: Seq<bool>, nullable: Seq<bool>, s: Seq<Symbol>, n: int, t: Terminal)
    requires
        0 <= n < s.len(),
        forall|j: int| 0 <= j < n ==> sym_nullable(nullable, #[trigger] s[j]),
    ensures
        first_upto(first, nullable, s, n + 1, t) == (first_upto(first, nullable, s, n, t) || sym_first(first, s[n], t)),
{
    if first_upto(first, nullable, s, n + 1, t) {
        let q = choose|q: int| 0 <= q < n + 1
            && (forall|j: int| 0 <= j < q ==> sym_nullable(nullable, #[trigger] s[j]))
            && #[trigger] sym_first(first, s[q], t);
        if q < n {
            assert(first_upto(first, nullable, s, n, t));
        }
    }
    if first_upto(first, nullable, s, n, t) {
        let q = choose|q: int| 0 <= q < n
            && (forall|j: int| 0 <= j < q ==> sym_nullable(nullable, #[trigger] s[j]))
            && #[trigger] sym_first(first, s[q], t);
        assert(first_upto(first, nullable, s, n + 1, t));
    }
    if sym_first(first, s[n], t) {
        assert(first_upto(first, nullable, s, n + 1, t));
    }
}

/// A symbol that cannot derive ε hides everything after it from FIRST.
pub proof fn lemma_first_upto_stop(first: Seq<bool>, nullable: Seq<bool>, s: Seq<Symbol>, n: int, t: Terminal)
    requires
        0 <= n < s.len(),
        !sym_nullable(nullable, s[n]),
    ensures
        str_first(first, nullable, s, t) == first_upto(first, nullable, s, n + 1, t),
{
    if str_first(first, nullable, s, t) {
        let q = choose|q: int| 0 <= q < s.len()
            && (forall|j: int| 0 <= j < q ==> sym_nullable(nullable, #[trigger] s[j]))
            && #[trigger] sym_first(first, s[q], t);
        if q > n {
            assert(sym_nullable(nullable, s[n]));
        }
        assert(first_upto(first, nullable, s, n + 1, t));
    }
    if first_upto(first, nullable, s, n + 1, t) {
        let q = choose|q: int| 0 <= q < n + 1
            && (forall|j: int| 0 <= j < q ==> sym_nullable(nullable, #[trigger] s[j]))
            && #[trigger] sym_first(first, s[q], t);
        assert(str_first(first, nullable, s, t));
    }
}

/// Marks `table[base + t]` for every `t` marked in `row`, and tells whether a
/// cell was newly marked.
fn union_row(table: &mut Vec<bool>, base: usize, row: &Vec<bool>) -> (changed: bool)
    requires
        row@.len() == NUM_TERMINALS,
        base + NUM_TERMINALS <= old(table)@.len(),
    ensures
        final(table)@.len() == old(table)@.len(),
        forall|x: int| 0 <= x < old(table)@.len() ==> #[trigger] final(table)@[x]
            == (old(table)@[x] || (base <= x < base + NUM_TERMINALS && row@[x - base])),
        count_true(final(table)@) >= count_true(old(table)@),
        changed ==> count_true(final(table)@) > count_true(old(table)@),
        !changed ==> final(table)@ == old(table)@,
{
    let ghost t0 = table@;
    let n = table.len();
    let mut changed = false;
    let mut t: usize = 0;
    while t < NUM_TERMINALS
        invariant
            row@.len() == NUM_TERMINALS,
            base + NUM_TERMINALS <= t0.len(),
            n == t0.len(),
            table@.len() == t0.len(),
            t <= NUM_TERMINALS,
            forall|x: int| 0 <= x < t0.len() ==> #[trigger] table@[x]
                == (t0[x] || (base <= x < base + t && row@[x - base])),
            count_true(table@) >= count_true(t0),
            changed ==> count_true(table@) > count_true(t0),
            !changed ==> table@ == t0,
        decreases NUM_TERMINALS - t,
    {
        if row[t] && !table[base + t] {
            proof { lemma_count_true_set(table@, (base + t) as int); }
            table.set(base + t, true);
            changed = true;
        }
        t = t + 1;
    }
    changed
}

impl FirstFollow {
    /// Computes FIRST and FOLLOW for the whole grammar.
    pub fn compute(grammar: &Grammar) -> (ff: Self)
        ensures
            ff.wf(),
            ff.first_closed(grammar.productions@),
            ff.follow_closed(grammar.productions@, grammar.start),
            first_least(ff.first@, ff.nullable@, grammar.productions@),
            follow_least(ff.first@, ff.nullable@, ff.follow@, grammar.productions@, grammar.start),
    {
        let mut ff = FirstFollow {
            first: falses(NUM_NONTERMINALS * NUM_TERMINALS),
            nullable: falses(NUM_NONTERMINALS),
            follow: falses(NUM_NONTERMINALS * NUM_TERMINALS),
        };
        proof { lemma_falses_least(grammar.productions@, ff.first@, ff.nullable@); }
        ff.compute_first(grammar);
        ff.compute_follow(grammar);
        ff
    }

    /// Iterates over the productions until no FIRST set changes.
    fn compute_first(&mut self, grammar: &Grammar)
        requires
            old(self).wf(),
            first_least(old(self).first@, old(self).nullable@, grammar.productions@),
        ensures
            final(self).wf(),
            final(self).follow@ == old(self).follow@,
            final(self).first_closed(grammar.productions@),
            first_least(final(self).first@, final(self).nullable@, grammar.productions@),
    {
        let ghost cap: int = (NUM_NONTERMINALS * NUM_TERMINALS + NUM_NONTERMINALS) as int;
        proof {
            lemma_count_true_le(self.first@);
            lemma_count_true_le(self.nullable@);
        }
        let prods = &grammar.productions;
        loop
            invariant
                self.wf(),
                self.follow@ == old(self).follow@,
                count_true(self.first@) + count_true(self.nullable@) <= cap,
                cap == NUM_NONTERMINALS * NUM_TERMINALS + NUM_NONTERMINALS,
                prods@ == grammar.productions@,
                first_least(self.first@, self.nullable@, grammar.productions@),
            ensures
                self.wf(),
                self.follow@ == old(self).follow@,
                self.first_closed(grammar.productions@),
                first_least(self.first@, self.nullable@, grammar.productions@),
            decreases cap - count_true(self.first@) - count_true(self.nullable@),
        {
            let ghost start_filled = count_true(self.first@) + count_true(self.nullable@);
            let ghost start_first = self.first@;
            let ghost start_nullable = self.nullable@;
            let mut changed = false;
            let mut i: usize = 0;
            while i < prods.len()
                invariant
                    self.wf(),
                    self.follow@ == old(self).follow@,
                    count_true(self.first@) + count_true(self.nullable@) <= cap,
                    cap == NUM_NONTERMINALS * NUM_TERMINALS + NUM_NONTERMINALS,
                    prods@ == grammar.productions@,
                    i <= prods@.len(),
                    first_least(self.first@, self.nullable@, grammar.productions@),
                    count_true(self.first@) + count_true(self.nullable@) >= start_filled,
                    changed ==> count_true(self.first@) + count_true(self.nullable@) > start_filled,
                    !changed ==> self.first@ == start_first && self.nullable@ == start_nullable,
                    !changed ==> forall|j: int| 0 <= j < i ==> closed_at(start_first, start_nullable, #[trigger] prods@[j]),
                decreases prods@.len() - i,
            {
                let ghost f0 = self.first@;
                let ghost n0 = self.nullable@;
                let c = self.absorb_first(&prods[i]);
                proof {
                    lemma_absorb_first_least(f0, n0, self.first@, self.nullable@, grammar.productions@, i as int);
                    lemma_count_true_le(self.first@);
                    lemma_count_true_le(self.nullable@);
                }
                changed = changed || c;
                i = i + 1;
            }
            if !changed {
                proof {
                    assert forall|p: int| 0 <= p < grammar.productions@.len() implies
                        self.closed_at(#[trigger] grammar.productions@[p]) by {
                        assert(closed_at(start_first, start_nullable, prods@[p]));
                    }
                }
                break;
            }
        }
    }

    /// Adds FIRST(body) to FIRST(head) for one production, and ε when the body is nullable.
    fn absorb_first(&mut self, prod: &Production) -> (changed: bool)
        requires
            old(self).wf(),
        ensures
            final(self).wf(),
            final(self).follow@ == old(self).follow@,
            count_true(final(self).first@) + count_true(final(self).nullable@)
                >= count_true(old(self).first@) + count_true(old(self).nullable@),
            changed ==> count_true(final(self).first@) + count_true(final(self).nullable@)
                > count_true(old(self).first@) + count_true(old(self).nullable@),
            !changed ==> final(self).first@ == old(self).first@ && final(self).nullable@ == old(self).nullable@,
            !changed ==> closed_at(old(self).first@, old(self).nullable@, *prod),
            forall|x: int| 0 <= x < final(self).first@.len() && #[trigger] final(self).first@[x] ==> old(self).first@[x]
                || exists|t: Terminal| x == cell(prod.head, t) && str_first(old(self).first@, old(self).nullable@, prod.body@, t),
            forall|x: int| 0 <= x < final(self).nullable@.len() && #[trigger] final(self).nullable@[x] ==> old(self).nullable@[x]
                || (x == nonterminal_index(prod.head) && str_nullable(old(self).nullable@, prod.body@)),
    {
        let ghost first0 = self.first@;
        let ghost nullable0 = self.nullable@;
        proof { lemma_nonterminal_index(prod.head); }
        let hi = prod.head.index();
        let row = self.first_table_of_str(prod.body.as_slice(), 0);
        let body_nullable = self.str_is_nullable(prod.body.as_slice(), 0);
        proof {
            assert(prod.body@.skip(0) =~= prod.body@);
            assert(hi * NUM_TERMINALS + NUM_TERMINALS <= NUM_NONTERMINALS * NUM_TERMINALS) by (nonlinear_arith)
                requires hi < NUM_NONTERMINALS;
        }
        let mut changed = union_row(&mut self.first, hi * NUM_TERMINALS, &row);
        proof {
            assert forall|x: int| 0 <= x < self.first@.len() && #[trigger] self.first@[x] implies first0[x]
                || exists|t: Terminal| x == cell(prod.head, t) && str_first(first0, nullable0, prod.body@, t) by {
                if !first0[x] {
                    let k = x - hi * NUM_TERMINALS;
                    lemma_terminal_at(k as nat);
                    let t = terminal_at(k as nat);
                    assert(x == cell(prod.head, t));
                    assert(row@[terminal_index(t) as int]);
                }
            }
        }
        if body_nullable && !self.nullable[hi] {
            proof { lemma_count_true_set(self.nullable@, hi as int); }
            self.nullable.set(hi, true);
            changed = true;
        }
        proof {
            if !changed {
                assert forall|t: Terminal| str_first(first0, nullable0, prod.body@, t) implies first0[cell(prod.head, t)] by {
                    lemma_terminal_index(t);
                    lemma_cell(prod.head, t);
                    assert(row@[terminal_index(t) as int]);
                    assert(self.first@[hi * NUM_TERMINALS + terminal_index(t)]);
                }
            }
        }
        changed
    }

    /// FIRST of a single symbol, as a table over terminals.
    fn first_of_symbol(&self, sym: &Symbol) -> (r: Vec<bool>)
        requires
            self.wf(),
        ensures
            r@.len() == NUM_TERMINALS,
            forall|t: Terminal| r@[terminal_index(t) as int] == self.sym_first(*sym, t),
    {
        let mut r: Vec<bool> = Vec::new();
        let mut t: usize = 0;
        while t < NUM_TERMINALS
            invariant
                self.wf(),
                t <= NUM_TERMINALS,
                r@.len() == t,
                forall|u: Terminal| terminal_index(u) < t ==> r@[terminal_index(u) as int] == self.sym_first(*sym, u),
            decreases NUM_TERMINALS - t,
        {
            let term = Terminal::from_index(t);
            proof { lemma_terminal_at(t as nat); }
            let b = match sym {
                Symbol::T(u) => {
                    proof {
                        lemma_terminal_index(*u);
                        lemma_terminal_index(term);
                    }
                    u.index() == t
                }
                Symbol::NT(n) => {
                    proof { lemma_cell(*n, term); }
                    self.first[n.index() * NUM_TERMINALS + t]
                }
            };
            r.push(b);
            proof {
                assert forall|u: Terminal| terminal_index(u) < t + 1 implies r@[terminal_index(u) as int] == self.sym_first(*sym, u) by {
                    lemma_terminal_index(u);
                    if terminal_index(u) == t {
                        assert(u == term);
                    }
                }
            }
            t = t + 1;
        }
        proof {
            assert forall|u: Terminal| r@[terminal_index(u) as int] == self.sym_first(*sym, u) by {
                lemma_terminal_index(u);
            }
        }
        r
    }

    /// Whether a single symbol can derive ε.
    fn symbol_nullable(&self, sym: &Symbol) -> (b: bool)
        requires
            self.wf(),
        ensures
            b == self.sym_nullable(*sym),
    {
        match sym {
            Symbol::T(_) => false,
            Symbol::NT(n) => {
                proof { lemma_nonterminal_index(*n); }
                self.nullable[n.index()]
            }
        }
    }

    /// FIRST of `syms[from..]` as a table over terminals.
    pub fn first_table_of_str(&self, syms: &[Symbol], from: usize) -> (r: Vec<bool>)
        requires
            self.wf(),
            from <= syms@.len(),
        ensures
            r@.len() == NUM_TERMINALS,
            forall|t: Terminal| r@[terminal_index(t) as int] == self.str_first(syms@.skip(from as int), t),
    {
        let ghost s = syms@.skip(from as int);
        let mut r = falses(NUM_TERMINALS);
        let mut k: usize = from;
        while k < syms.len()
            invariant
                self.wf(),
                from <= k <= syms@.len(),
                s == syms@.skip(from as int),
                r@.len() == NUM_TERMINALS,
                forall|j: int| 0 <= j < k - from ==> self.sym_nullable(#[trigger] s[j]),
                forall|t: Terminal| r@[terminal_index(t) as int] == first_upto(self.first@, self.nullable@, s, k - from, t),
            decreases syms@.len() - k,
        {
            let f = self.first_of_symbol(&syms[k]);
            let ghost r0 = r@;
            union_row(&mut r, 0, &f);
            proof {
                assert(s[k - from] == syms@[k as int]);
                assert forall|u: Terminal| r@[terminal_index(u) as int] == first_upto(self.first@, self.nullable@, s, k + 1 - from, u) by {
                    lemma_terminal_index(u);
                    lemma_first_upto_step(self.first@, self.nullable@, s, k - from, u);
                }
            }
            if !self.symbol_nullable(&syms[k]) {
                proof {
                    assert forall|u: Terminal| r@[terminal_index(u) as int] == self.str_first(s, u) by {
                        lemma_first_upto_stop(self.first@, self.nullable@, s, k - from, u);
                    }
                }
                return r;
            }
            k = k + 1;
        }
        r
    }

    /// Whether `syms[from..]` can derive ε.
    pub fn str_is_nullable(&self, syms: &[Symbol], from: usize) -> (b: bool)
        requires
            self.wf(),
            from <= syms@.len(),
        ensures
            b == self.str_nullable(syms@.skip(from as int)),
    {
        let mut k: usize = from;
        while k < syms.len()
            invariant
                self.wf(),
                from <= k <= syms@.len(),
                forall|j: int| from <= j < k ==> self.sym_nullable(#[trigger] syms@[j]),
            decreases syms@.len() - k,
        {
            if !self.symbol_nullable(&syms[k]) {
                assert(syms@.skip(from as int)[k - from] == syms@[k as int]);
                return false;
            }
            k = k + 1;
        }
        assert forall|i: int| 0 <= i < syms@.skip(from as int).len() implies
            self.sym_nullable(#[trigger] syms@.skip(from as int)[i]) by {
            assert(syms@.skip(from as int)[i] == syms@[from + i]);
        }
        true
    }

    /// FOLLOW by fixed point over the productions.
    fn compute_follow(&mut self, grammar: &Grammar)
        requires
            old(self).wf(),
            forall|x: int| 0 <= x < old(self).follow@.len() ==> !(#[trigger] old(self).follow@[x]),
        ensures
            final(self).wf(),
            final(self).first@ == old(self).first@,
            final(self).nullable@ == old(self).nullable@,
            final(self).follow_closed(grammar.productions@, grammar.start),
            follow_least(final(self).first@, final(self).nullable@, final(self).follow@, grammar.productions@, grammar.start),
    {
        let ghost cap: int = (NUM_NONTERMINALS * NUM_TERMINALS) as int;
        proof {
            lemma_cell(grammar.start, Terminal::Eof);
            lemma_nonterminal_index(grammar.start);
            lemma_terminal_index(Terminal::Eof);
        }
        let sc = grammar.start.index() * NUM_TERMINALS + Terminal::Eof.index();
        proof { lemma_count_true_le(self.follow@); }
        if !self.follow[sc] {
            proof {
                lemma_count_true_set(self.follow@, sc as int);
                lemma_count_true_le(self.follow@.update(sc as int, true));
            }
            self.follow.set(sc, true);
        }
        proof {
            assert forall|g: Seq<bool>| #[trigger] follow_model(self.first@, self.nullable@, g, grammar.productions@, grammar.start)
                implies marks_within(self.follow@, g) by {
                assert forall|x: int| 0 <= x < self.follow@.len() && self.follow@[x] implies g[x] by {
                    assert(x == sc);
                }
            }
        }
        let prods = &grammar.productions;
        loop
            invariant
                self.wf(),
                self.first@ == old(self).first@,
                self.nullable@ == old(self).nullable@,
                count_true(self.follow@) <= cap,
                cap == NUM_NONTERMINALS * NUM_TERMINALS,
                prods@ == grammar.productions@,
                self.in_follow(grammar.start, Terminal::Eof),
                follow_least(self.first@, self.nullable@, self.follow@, grammar.productions@, grammar.start),
            ensures
                self.wf(),
                self.first@ == old(self).first@,
                self.nullable@ == old(self).nullable@,
                self.follow_closed(grammar.productions@, grammar.start),
                follow_least(self.first@, self.nullable@, self.follow@, grammar.productions@, grammar.start),
            decreases cap - count_true(self.follow@),
        {
            let ghost start_filled = count_true(self.follow@);
            let ghost start_follow = self.follow@;
            let mut changed = false;
            let mut p: usize = 0;
            while p < prods.len()
                invariant
                    self.wf(),
                    self.first@ == old(self).first@,
                    self.nullable@ == old(self).nullable@,
                    count_true(self.follow@) <= cap,
                    cap == NUM_NONTERMINALS * NUM_TERMINALS,
                    prods@ == grammar.productions@,
                    self.in_follow(grammar.start, Terminal::Eof),
                    follow_least(self.first@, self.nullable@, self.follow@, grammar.productions@, grammar.start),
                    p <= prods@.len(),
                    count_true(self.follow@) >= start_filled,
                    changed ==> count_true(self.follow@) > start_filled,
                    !changed ==> self.follow@ == start_follow,
                    !changed ==> forall|q: int, j: int| 0 <= q < p && 0 <= j < prods@[q].body@.len()
                        ==> #[trigger] follow_closed_at(self.first@, self.nullable@, start_follow, prods@[q], j),
                decreases prods@.len() - p,
            {
                let prod = &prods[p];
                let mut i: usize = 0;
                while i < prod.body.len()
                    invariant
                        self.wf(),
                        self.first@ == old(self).first@,
                        self.nullable@ == old(self).nullable@,
                        count_true(self.follow@) <= cap,
                        cap == NUM_NONTERMINALS * NUM_TERMINALS,
                        *prod == prods@[p as int],
                        p < prods@.len(),
                        self.in_follow(grammar.start, Terminal::Eof),
                        follow_least(self.first@, self.nullable@, self.follow@, grammar.productions@, grammar.start),
                        prods@ == grammar.productions@,
                        i <= prod.body@.len(),
                        count_true(self.follow@) >= start_filled,
                        changed ==> count_true(self.follow@) > start_filled,
                        !changed ==> self.follow@ == start_follow,
                        !changed ==> forall|q: int, j: int| 0 <= q < p && 0 <= j < prods@[q].body@.len()
                            ==> #[trigger] follow_closed_at(self.first@, self.nullable@, start_follow, prods@[q], j),
                        !changed ==> forall|j: int| 0 <= j < i
                            ==> #[trigger] follow_closed_at(self.first@, self.nullable@, start_follow, *prod, j),
                    decreases prod.body@.len() - i,
                {
                    let ghost f0 = self.follow@;
                    let c = self.absorb_follow(prod, i);
                    proof {
                        lemma_absorb_follow_least(self.first@, self.nullable@, f0, self.follow@,
                            grammar.productions@, grammar.start, p as int, i as int);
                        lemma_count_true_le(self.follow@);
                        lemma_cell(grammar.start, Terminal::Eof);
                    }
                    changed = changed || c;
                    i = i + 1;
                }
                p = p + 1;
            }
            if !changed {
                break;
            }
        }
    }

    /// Applies the FOLLOW rule at position `i` of a production.
    fn absorb_follow(&mut self, prod: &Production, i: usize) -> (changed: bool)
        requires
            old(self).wf(),
            i < prod.body@.len(),
        ensures
            final(self).wf(),
            final(self).first@ == old(self).first@,
            final(self).nullable@ == old(self).nullable@,
            forall|x: int| 0 <= x < old(self).follow@.len() && old(self).follow@[x] ==> #[trigger] final(self).follow@[x],
            count_true(final(self).follow@) >= count_true(old(self).follow@),
            changed ==> count_true(final(self).follow@) > count_true(old(self).follow@),
            !changed ==> final(self).follow@ == old(self).follow@,
            !changed ==> old(self).follow_closed_at(*prod, i as int),
            forall|x: int| 0 <= x < final(self).follow@.len() && #[trigger] final(self).follow@[x] ==> old(self).follow@[x]
                || (prod.body@[i as int] matches Symbol::NT(b) && exists|t: Terminal| x == cell(b, t)
                    && (str_first(old(self).first@, old(self).nullable@, prod.body@.skip(i + 1), t)
                        || (str_nullable(old(self).nullable@, prod.body@.skip(i + 1)) && old(self).follow@[cell(prod.head, t)]))),
    {
        match prod.body[i] {
            Symbol::T(_) => false,
            Symbol::NT(b) => {
                let ghost follow0 = self.follow@;
                let _len = prod.body.len();
                let fb = self.first_table_of_str(prod.body.as_slice(), i + 1);
                let beta_nullable = self.str_is_nullable(prod.body.as_slice(), i + 1);
                let mut row = fb;
                if beta_nullable {
                    let hrow = self.row(&self.follow, &prod.head);
                    union_row(&mut row, 0, &hrow);
                }
                proof {
                    lemma_nonterminal_index(b);
                    assert(nonterminal_index(b) * NUM_TERMINALS + NUM_TERMINALS <= NUM_NONTERMINALS * NUM_TERMINALS) by (nonlinear_arith)
                        requires nonterminal_index(b) < NUM_NONTERMINALS;
                }
                let bi = b.index();
                let changed = union_row(&mut self.follow, bi * NUM_TERMINALS, &row);
                proof {
                    assert forall|x: int| 0 <= x < self.follow@.len() && #[trigger] self.follow@[x] implies follow0[x]
                        || exists|t: Terminal| x == cell(b, t)
                            && (str_first(self.first@, self.nullable@, prod.body@.skip(i + 1), t)
                                || (str_nullable(self.nullable@, prod.body@.skip(i + 1)) && follow0[cell(prod.head, t)])) by {
                        if !follow0[x] {
                            let k = x - bi * NUM_TERMINALS;
                            lemma_terminal_at(k as nat);
                            let t = terminal_at(k as nat);
                            assert(x == cell(b, t));
                            assert(row@[terminal_index(t) as int]);
                        }
                    }
                }
                proof {
                    if !changed {
                        assert forall|t: Terminal| str_first(self.first@, self.nullable@, prod.body@.skip(i + 1), t)
                            implies follow0[cell(b, t)] by {
                            lemma_terminal_index(t);
                            lemma_cell(b, t);
                            assert(row@[terminal_index(t) as int]);
                            assert(self.follow@[bi * NUM_TERMINALS + terminal_index(t)]);
                        }
                        if beta_nullable {
                            assert forall|t: Terminal| follow0[cell(prod.head, t)] implies follow0[cell(b, t)] by {
                                lemma_terminal_index(t);
                                lemma_cell(b, t);
                                assert(row@[terminal_index(t) as int]);
                                assert(self.follow@[bi * NUM_TERMINALS + terminal_index(t)]);
                            }
                        }
                    }
                }
                changed
            }
        }
    }

    /// FIRST of a string of symbols (ε is never part of the result).
    pub fn first_of_str(&self, symbols: &[Symbol]) -> (ts: Vec<Terminal>)
        requires
            self.wf(),
        ensures
            forall|t: Terminal| ts@.contains(t) <==> self.str_first(symbols@, t),
    {
        let r = self.first_table_of_str(symbols, 0);
        assert(symbols@.skip(0) =~= symbols@);
        terminals_of_table(&r)
    }

    /// FIRST(symbols · lookahead): FIRST of the string, plus `lookahead` when the
    /// string can derive ε. This is the lookahead set of LR(1) closure items.
    pub fn first_of_str_with_lookahead(&self, symbols: &[Symbol], lookahead: &Terminal) -> (ts: Vec<Terminal>)
        requires
            self.wf(),
        ensures
            forall|t: Terminal| ts@.contains(t) <==> self.str_first_la(symbols@, *lookahead, t),
    {
        let mut r = self.first_table_of_str(symbols, 0);
        assert(symbols@.skip(0) =~= symbols@);
        proof { lemma_terminal_index(*lookahead); }
        if self.str_is_nullable(symbols, 0) {
            r.set(lookahead.index(), true);
        }
        let ts = terminals_of_table(&r);
        proof {
            assert forall|t: Terminal| ts@.contains(t) <==> self.str_first_la(symbols@, *lookahead, t) by {
                lemma_terminal_index(t);
                lemma_terminal_index_eq(t, *lookahead);
            }
        }
        ts
    }

    /// Whether ε is in FIRST(nt).
    pub fn is_nullable(&self, nt: &NonTerminal) -> (b: bool)
        requires
            self.wf(),
        ensures
            b == self.nullable_nt(*nt),
    {
        proof { lemma_nonterminal_index(*nt); }
        self.nullable[nt.index()]
    }

    /// The terminals of FIRST(nt), without ε.
    pub fn first_terminals(&self, nt: &NonTerminal) -> (ts: Vec<Terminal>)
        requires
            self.wf(),
        ensures
            forall|t: Terminal| ts@.contains(t) <==> self.in_first(*nt, t),
    {
        let row = self.row(&self.first, nt);
        terminals_of_table(&row)
    }

    /// FOLLOW(nt).
    pub fn follow_of(&self, nt: &NonTerminal) -> (ts: Vec<Terminal>)
        requires
            self.wf(),
        ensures
            forall|t: Terminal| ts@.contains(t) <==> self.in_follow(*nt, t),
    {
        let row = self.row(&self.follow, nt);
        terminals_of_table(&row)
    }

    /// The row of `nt` in a table indexed by non-terminal then terminal.
    fn row(&self, table: &Vec<bool>, nt: &NonTerminal) -> (r: Vec<bool>)
        requires
            table@.len() == NUM_NONTERMINALS * NUM_TERMINALS,
        ensures
            r@.len() == NUM_TERMINALS,
            forall|t: Terminal| r@[terminal_index(t) as int] == table@[cell(*nt, t)],
    {
        let mut r: Vec<bool> = Vec::new();
        let mut t: usize = 0;
        while t < NUM_TERMINALS
            invariant
                table@.len() == NUM_NONTERMINALS * NUM_TERMINALS,
                t <= NUM_TERMINALS,
                r@.len() == t,
                forall|u: Terminal| terminal_index(u) < t ==> r@[terminal_index(u) as int] == table@[cell(*nt, u)],
            decreases NUM_TERMINALS - t,
        {
            let term = Terminal::from_index(t);
            proof {
                lemma_terminal_at(t as nat);
                lemma_cell(*nt, term);
            }
            r.push(table[nt.index() * NUM_TERMINALS + t]);
            proof {
                assert forall|u: Terminal| terminal_index(u) < t + 1 implies r@[terminal_index(u) as int] == table@[cell(*nt, u)] by {
                    lemma_terminal_index(u);
                    if terminal_index(u) == t { assert(u == term); }
                }
            }
            t = t + 1;
        }
        proof {
            assert forall|u: Terminal| r@[terminal_index(u) as int] == table@[cell(*nt, u)] by {
                lemma_terminal_index(u);
            }
        }
        r
    }
}

/// Two terminals with equal indices are equal, and conversely.
pub proof fn lemma_terminal_index_eq(a: Terminal, b: Terminal)
    ensures
        (terminal_index(a) == terminal_index(b)) == (a == b),
{
    lemma_terminal_index(a);
    lemma_terminal_index(b);
}

/// The terminals marked in a table over terminals, in index order.
pub fn terminals_of_table(table: &Vec<bool>) -> (ts: Vec<Terminal>)
    requires
        table@.len() == NUM_TERMINALS,
    ensures
        forall|t: Terminal| ts@.contains(t) <==> table@[terminal_index(t) as int],
        forall|a: int, b: int| 0 <= a < b < ts@.len() ==> terminal_index(ts@[a]) < terminal_index(ts@[b]),
{
    let mut ts: Vec<Terminal> = Vec::new();
    let mut t: usize = 0;
    while t < NUM_TERMINALS
        invariant
            table@.len() == NUM_TERMINALS,
            t <= NUM_TERMINALS,
            forall|u: Terminal| ts@.contains(u) <==> (terminal_index(u) < t && table@[terminal_index(u) as int]),
            forall|a: int| 0 <= a < ts@.len() ==> terminal_index(#[trigger] ts@[a]) < t,
            forall|a: int, b: int| 0 <= a < b < ts@.len() ==> terminal_index(ts@[a]) < terminal_index(ts@[b]),
        decreases NUM_TERMINALS - t,
    {
        let term = Terminal::from_index(t);
        let ghost old_ts = ts@;
        if table[t] {
            ts.push(term);
        }
        proof {
            lemma_terminal_at(t as nat);
            assert forall|u: Terminal| ts@.contains(u) <==> (terminal_index(u) < t + 1 && table@[terminal_index(u) as int]) by {
                lemma_push_contains(old_ts, term, u);
                lemma_terminal_index_eq(u, term);
            }
        }
        t = t + 1;
    }
    proof {
        assert forall|u: Terminal| ts@.contains(u) <==> table@[terminal_index(u) as int] by {
            lemma_terminal_index(u);
        }
    }
    ts
}

/// The texts joined by ", ".
pub open spec fn comma_join(elems: Seq<Seq<char>>) -> Seq<char>
    decreases elems.len(),
{
    if elems.len() == 0 {
        Seq::empty()
    } else if elems.len() == 1 {
        elems[0]
    } else {
        comma_join(elems.drop_last()) + ", "@ + elems.last()
    }
}

/// The display texts of the terminals marked in the row of `n`, for the
/// first `q` terminals in display-text order.
pub open spec fn marked_texts(table: Seq<bool>, n: NonTerminal, q: nat) -> Seq<Seq<char>>
    decreases q,
{
    if q == 0 {
        Seq::empty()
    } else {
        let t = terminal_by_text_rank((q - 1) as nat);
        let rest = marked_texts(table, n, (q - 1) as nat);
        if table[cell(n, t)] { rest.push(terminal_text(t)) } else { rest }
    }
}

/// A listed set: `<label><Name>) = { e1, e2 }`.
pub open spec fn set_line(label: Seq<char>, n: NonTerminal, elems: Seq<Seq<char>>) -> Seq<char> {
    label + nonterminal_name(n) + ") = { "@ + comma_join(elems) + " }"@
}

/// The elements of FIRST(n) as listed: terminals in text order, then ε.
pub open spec fn first_elems(first: Seq<bool>, nullable: Seq<bool>, n: NonTerminal) -> Seq<Seq<char>> {
    marked_texts(first, n, NUM_TERMINALS as nat)
        + if nullable[nonterminal_index(n) as int] { seq!["ε"@] } else { Seq::<Seq<char>>::empty() }
}

/// The FIRST lines of the first `q` non-terminals in name order.
pub open spec fn first_lines(first: Seq<bool>, nullable: Seq<bool>, q: nat) -> Seq<Seq<char>>
    decreases q,
{
    if q == 0 {
        Seq::empty()
    } else {
        let n = nonterminal_by_name_rank((q - 1) as nat);
        first_lines(first, nullable, (q - 1) as nat).push(set_line("  FIRST("@, n, first_elems(first, nullable, n)))
    }
}

/// The FOLLOW lines of the first `q` non-terminals in name order.
pub open spec fn follow_lines(follow: Seq<bool>, q: nat) -> Seq<Seq<char>>
    decreases q,
{
    if q == 0 {
        Seq::empty()
    } else {
        let n = nonterminal_by_name_rank((q - 1) as nat);
        follow_lines(follow, (q - 1) as nat).push(set_line("  FOLLOW("@, n, marked_texts(follow, n, NUM_TERMINALS as nat)))
    }
}

/// Appends `piece` to `s`.
fn push_str(s: &mut String, piece: &str)
    ensures
        final(s)@ == old(s)@ + piece@,
{
    s.append(piece);
}

impl FirstFollow {
    /// The listing of every FIRST and FOLLOW set: non-terminals in name
    /// order, terminals in text order, ε last.
    pub fn report(&self) -> (lines: Vec<String>)
        requires
            self.wf(),
        ensures
            texts(lines@) == seq!["=== FIRST ==="@] + first_lines(self.first@, self.nullable@, NUM_NONTERMINALS as nat)
                + seq!["=== FOLLOW ==="@] + follow_lines(self.follow@, NUM_NONTERMINALS as nat),
    {
        let nts = nonterminals_by_name();
        let mut lines: Vec<String> = Vec::new();
        lines.push(String::from_str("=== FIRST ==="));
        proof { lemma_texts_push(Seq::empty(), lines@[0]); }
        let ghost head1 = seq!["=== FIRST ==="@];
        assert(texts(lines@) =~= head1);
        let mut q: usize = 0;
        while q < NUM_NONTERMINALS
            invariant
                self.wf(),
                q <= NUM_NONTERMINALS,
                nts@.len() == NUM_NONTERMINALS,
                forall|r: int| 0 <= r < NUM_NONTERMINALS ==> nonterminal_name_rank(#[trigger] nts@[r]) == r,
                texts(lines@) == head1 + first_lines(self.first@, self.nullable@, q as nat),
            decreases NUM_NONTERMINALS - q,
        {
            let n = nts[q];
            proof {
                lemma_nonterminal_name_rank(n);
                lemma_nonterminal_index(n);
            }
            let eps = self.nullable[n.index()];
            let line = self.set_text("  FIRST(", &self.first, n, eps);
            let ghost before = lines@;
            lines.push(line);
            proof {
                lemma_texts_push(before, line);
                assert(texts(lines@) =~= head1 + first_lines(self.first@, self.nullable@, (q + 1) as nat));
            }
            q = q + 1;
        }
        let ghost mid = texts(lines@);
        let ghost before2 = lines@;
        let follow_head = String::from_str("=== FOLLOW ===");
        lines.push(follow_head);
        proof { lemma_texts_push(before2, follow_head); }
        let ghost head2 = mid + seq!["=== FOLLOW ==="@];
        assert(texts(lines@) =~= head2);
        let mut q: usize = 0;
        while q < NUM_NONTERMINALS
            invariant
                self.wf(),
                q <= NUM_NONTERMINALS,
                nts@.len() == NUM_NONTERMINALS,
                forall|r: int| 0 <= r < NUM_NONTERMINALS ==> nonterminal_name_rank(#[trigger] nts@[r]) == r,
                texts(lines@) == head2 + follow_lines(self.follow@, q as nat),
            decreases NUM_NONTERMINALS - q,
        {
            let n = nts[q];
            proof {
                lemma_nonterminal_name_rank(n);
            }
            let line = self.set_text("  FOLLOW(", &self.follow, n, false);
            let ghost before = lines@;
            lines.push(line);
            proof {
                lemma_texts_push(before, line);
                assert(marked_texts(self.follow@, n, NUM_TERMINALS as nat)
                    =~= marked_texts(self.follow@, n, NUM_TERMINALS as nat) + Seq::<Seq<char>>::empty());
                assert(texts(lines@) =~= head2 + follow_lines(self.follow@, (q + 1) as nat));
            }
            q = q + 1;
        }
        lines
    }

    /// One listed set: the terminals marked in the row of `n`, in text
    /// order, and `ε` after them when `eps` holds.
    fn set_text(&self, label: &str, table: &Vec<bool>, n: NonTerminal, eps: bool) -> (s: String)
        requires
            table@.len() == NUM_NONTERMINALS * NUM_TERMINALS,
        ensures
            s@ == set_line(label@, n, marked_texts(table@, n, NUM_TERMINALS as nat)
                + if eps { seq!["ε"@] } else { Seq::<Seq<char>>::empty() }),
    {
        let order = terminals_by_text();
        let mut s = String::new();
        push_str(&mut s, label);
        push_str(&mut s, n.name());
        push_str(&mut s, ") = { ");
        let ghost prefix = s@;
        let mut any = false;
        let mut q: usize = 0;
        while q < NUM_TERMINALS
            invariant
                table@.len() == NUM_NONTERMINALS * NUM_TERMINALS,
                q <= NUM_TERMINALS,
                order@.len() == NUM_TERMINALS,
                forall|r: int| 0 <= r < NUM_TERMINALS ==> terminal_text_rank(#[trigger] order@[r]) == r,
                s@ == prefix + comma_join(marked_texts(table@, n, q as nat)),
                any == (marked_texts(table@, n, q as nat).len() > 0),
            decreases NUM_TERMINALS - q,
        {
            let t = order[q];
            proof {
                lemma_terminal_text_rank(t);
                lemma_cell(n, t);
                lemma_nonterminal_index(n);
                lemma_terminal_index(t);
            }
            let ghost e = marked_texts(table@, n, q as nat);
            assert(t == terminal_by_text_rank(q as nat));
            if table[n.index() * NUM_TERMINALS + t.index()] {
                if any {
                    push_str(&mut s, ", ");
                }
                push_str(&mut s, t.text());
                any = true;
                proof {
                    assert(marked_texts(table@, n, (q + 1) as nat) == e.push(terminal_text(t)));
                    assert(e.push(terminal_text(t)).drop_last() =~= e);
                    assert(s@ =~= prefix + comma_join(e.push(terminal_text(t))));
                }
            } else {
                assert(marked_texts(table@, n, (q + 1) as nat) == e);
            }
            q = q + 1;
        }
        let ghost elems = marked_texts(table@, n, NUM_TERMINALS as nat);
        if eps {
            if any {
                push_str(&mut s, ", ");
            }
            push_str(&mut s, "ε");
            proof {
                assert((elems + seq!["ε"@]).drop_last() =~= elems);
            }
        } else {
            assert(elems + Seq::<Seq<char>>::empty() =~= elems);
        }
        push_str(&mut s, " }");
        proof {
            reveal_strlit(") = { "); reveal_strlit(", "); reveal_strlit(" }");
        }
        s
    }
}

} // verus!
