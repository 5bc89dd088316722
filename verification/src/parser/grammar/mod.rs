//! The grammar: its productions, indexed by head.
pub mod symbol;
pub mod production;
pub mod hulk_grammar;
pub mod token_translator;

use vstd::prelude::*;
use crate::parser::grammar::symbol::{
    NonTerminal, Symbol, Terminal, NUM_NONTERMINALS, NUM_TERMINALS, nonterminal_at,
    nonterminal_index, terminal_at, terminal_index, terminal_name_rank,
    lemma_nonterminal_index, lemma_terminal_index, lemma_terminal_at,
    lemma_terminal_name_rank, terminals_by_name,
};
use crate::parser::grammar::production::{Production, production_text};
use crate::seqs::lemma_push_contains;

verus! {

/// Ids of the productions of `prods` whose head is `nt`, in increasing order.
pub open spec fn ids_with_head(prods: Seq<Production>, nt: NonTerminal) -> Seq<usize>
    decreases prods.len(),
{
    if prods.len() == 0 {
        Seq::empty()
    } else {
        let r = ids_with_head(prods.drop_last(), nt);
        if prods.last().head == nt { r.push((prods.len() - 1) as usize) } else { r }
    }
}

/// `ids_with_head` lists exactly the positions whose production has the head.
pub proof fn lemma_ids_with_head(prods: Seq<Production>, nt: NonTerminal)
    requires
        prods.len() <= usize::MAX,
    ensures
        forall|k: int| 0 <= k < ids_with_head(prods, nt).len() ==> {
            &&& (#[trigger] ids_with_head(prods, nt)[k]) < prods.len()
            &&& prods[ids_with_head(prods, nt)[k] as int].head == nt
        },
        forall|i: int| 0 <= i < prods.len() && prods[i].head == nt
            ==> ids_with_head(prods, nt).contains(i as usize),
        forall|a: int, b: int| 0 <= a < b < ids_with_head(prods, nt).len()
            ==> ids_with_head(prods, nt)[a] < ids_with_head(prods, nt)[b],
    decreases prods.len(),
{
    if prods.len() > 0 {
        let pre = prods.drop_last();
        lemma_ids_with_head(pre, nt);
        let r = ids_with_head(pre, nt);
        let ids = ids_with_head(prods, nt);
        assert forall|k: int| 0 <= k < ids.len() implies {
            &&& (#[trigger] ids[k]) < prods.len()
            &&& prods[ids[k] as int].head == nt
        } by {
            if k < r.len() {
                assert(ids[k] == r[k]);
                assert(prods[r[k] as int] == pre[r[k] as int]);
            }
        }
        assert forall|a: int, b: int| 0 <= a < b < ids.len() implies ids[a] < ids[b] by {
            if b < r.len() {
                assert(ids[a] == r[a] && ids[b] == r[b]);
            } else {
                assert(ids[a] == r[a]);
            }
        }
        assert forall|i: int| 0 <= i < prods.len() && prods[i].head == nt
            implies ids.contains(i as usize) by {
            if i < prods.len() - 1 {
                assert(pre[i] == prods[i]);
                let k = choose|k: int| 0 <= k < r.len() && r[k] == i as usize;
                assert(ids[k] == i as usize);
            } else {
                assert(ids.last() == i as usize);
            }
        }
    }
}

/// Terminals that occur in some production body.
pub open spec fn occurs_in_bodies(prods: Seq<Production>, t: Terminal) -> bool {
    exists|i: int, j: int| 0 <= i < prods.len() && 0 <= j < prods[i].body@.len()
        && prods[i].body@[j] == Symbol::T(t)
}

/// The grammar with its augmented start symbol and an index from heads to productions.
#[derive(Debug)]
pub struct Grammar {
    /// All productions; the production with id `i` is at position `i`.
    pub productions: Vec<Production>,
    /// Start symbol of the augmented grammar.
    pub start: NonTerminal,
    /// For each non-terminal (by index), the ids of its productions.
    pub index: Vec<Vec<usize>>,
}

impl Grammar {
    /// Well-formedness: ids are positions and the index lists, for each head,
    /// exactly its productions in increasing order.
    pub open spec fn wf(&self) -> bool {
        &&& forall|i: int| 0 <= i < self.productions@.len() ==> (#[trigger] self.productions@[i]).id == i
        &&& self.index@.len() == NUM_NONTERMINALS
        &&& forall|k: int| 0 <= k < NUM_NONTERMINALS ==>
                (#[trigger] self.index@[k])@ == ids_with_head(self.productions@, nonterminal_at(k as nat))
    }

    /// Ids of the productions of `nt`, in increasing order.
    pub open spec fn spec_productions_for(&self, nt: NonTerminal) -> Seq<usize> {
        ids_with_head(self.productions@, nt)
    }

    /// An empty grammar with the given start symbol.
    pub fn new(start: NonTerminal) -> (g: Self)
        ensures
            g.wf(),
            g.productions@.len() == 0,
            g.start == start,
    {
        let mut index: Vec<Vec<usize>> = Vec::new();
        let mut k: usize = 0;
        while k < NUM_NONTERMINALS
            invariant
                k <= NUM_NONTERMINALS,
                index@.len() == k,
                forall|j: int| 0 <= j < k ==> (#[trigger] index@[j])@.len() == 0,
            decreases NUM_NONTERMINALS - k,
        {
            index.push(Vec::new());
            k = k + 1;
        }
        let g = Grammar { productions: Vec::new(), start, index };
        assert forall|k: int| 0 <= k < NUM_NONTERMINALS implies
            (#[trigger] g.index@[k])@ == ids_with_head(g.productions@, nonterminal_at(k as nat)) by {
            assert(g.index@[k]@ =~= Seq::<usize>::empty());
        }
        g
    }

    /// Registers a production, assigns it the next id and indexes it by head.
    pub fn add(&mut self, prod: Production) -> (id: usize)
        requires
            old(self).wf(),
            old(self).productions@.len() < usize::MAX,
        ensures
            final(self).wf(),
            id == old(self).productions@.len(),
            final(self).start == old(self).start,
            final(self).productions@.len() == old(self).productions@.len() + 1,
            final(self).productions@.take(id as int) == old(self).productions@,
            final(self).productions@[id as int].id == id,
            final(self).productions@[id as int].head == prod.head,
            final(self).productions@[id as int].body@ == prod.body@,
    {
        let id = self.productions.len();
        let mut prod = prod;
        prod.id = id;
        let h = prod.head.index();
        let ghost old_prods = self.productions@;
        self.index[h].push(id);
        self.productions.push(prod);
        proof {
            let prods = self.productions@;
            assert(prods.drop_last() =~= old_prods);
            assert(prods.take(id as int) =~= old_prods);
            assert forall|k: int| 0 <= k < NUM_NONTERMINALS implies
                (#[trigger] self.index@[k])@ == ids_with_head(self.productions@, nonterminal_at(k as nat)) by {
                lemma_nonterminal_index(prods.last().head);
            }
        }
        id
    }

    /// Adds several productions, in order.
    pub fn add_all(&mut self, prods: Vec<Production>)
        requires
            old(self).wf(),
            old(self).productions@.len() + prods@.len() < usize::MAX,
        ensures
            final(self).wf(),
            final(self).start == old(self).start,
            final(self).productions@.len() == old(self).productions@.len() + prods@.len(),
            final(self).productions@.take(old(self).productions@.len() as int) == old(self).productions@,
            forall|j: int| 0 <= j < prods@.len() ==> {
                &&& (#[trigger] final(self).productions@[old(self).productions@.len() + j]).head == prods@[j].head
                &&& final(self).productions@[old(self).productions@.len() + j].body@ == prods@[j].body@
            },
    {
        let ghost n0 = self.productions@.len();
        let ghost p0 = self.productions@;
        let mut rest = prods;
        let ghost all = rest@;
        let mut i: usize = 0;
        let len = rest.len();
        let mut queue: Vec<Production> = Vec::new();
        // reverse so that `pop` hands them out in the original order
        while rest.len() > 0
            invariant
                queue@.len() + rest@.len() == all.len(),
                rest@ == all.take(rest@.len() as int),
                forall|j: int| 0 <= j < queue@.len() ==> #[trigger] queue@[j] == all[all.len() - 1 - j],
            decreases rest@.len(),
        {
            let p = rest.pop().unwrap();
            queue.push(p);
            assert(rest@ =~= all.take(rest@.len() as int));
        }
        while queue.len() > 0
            invariant
                self.wf(),
                self.start == old(self).start,
                i + queue@.len() == all.len(),
                len == all.len(),
                n0 + all.len() < usize::MAX,
                self.productions@.len() == n0 + i,
                self.productions@.take(n0 as int) == p0,
                forall|j: int| 0 <= j < queue@.len() ==> #[trigger] queue@[j] == all[all.len() - 1 - j],
                forall|j: int| 0 <= j < i ==> {
                    &&& (#[trigger] self.productions@[n0 + j]).head == all[j].head
                    &&& self.productions@[n0 + j].body@ == all[j].body@
                },
            decreases queue@.len(),
        {
            let p = queue.pop().unwrap();
            let ghost before = self.productions@;
            self.add(p);
            proof {
                assert(self.productions@.take(before.len() as int) == before);
                assert forall|j: int| 0 <= j < i + 1 implies {
                    &&& (#[trigger] self.productions@[n0 + j]).head == all[j].head
                    &&& self.productions@[n0 + j].body@ == all[j].body@
                } by {
                    if j < i {
                        assert(self.productions@[n0 + j] == before[n0 + j]);
                    }
                }
                assert(self.productions@.take(n0 as int) =~= p0) by {
                    assert forall|j: int| 0 <= j < n0 implies self.productions@[j] == p0[j] by {
                        assert(self.productions@[j] == before[j]);
                        assert(before.take(n0 as int)[j] == p0[j]);
                    }
                }
            }
            i = i + 1;
        }
    }

    /// Ids of all productions whose head is `nt`, in increasing order.
    pub fn productions_for(&self, nt: &NonTerminal) -> (ids: &[usize])
        requires
            self.wf(),
        ensures
            ids@ == self.spec_productions_for(*nt),
    {
        let k = nt.index();
        proof { lemma_nonterminal_index(*nt); }
        self.index[k].as_slice()
    }

    /// The production with the given id.
    pub fn production(&self, id: usize) -> (p: &Production)
        requires
            id < self.productions@.len(),
        ensures
            *p == self.productions@[id as int],
    {
        &self.productions[id]
    }

    /// Every non-terminal that heads some production, in declaration order.
    pub fn nonterminals(&self) -> (nts: Vec<NonTerminal>)
        requires
            self.wf(),
        ensures
            forall|n: NonTerminal| nts@.contains(n) <==>
                exists|i: int| 0 <= i < self.productions@.len() && (#[trigger] self.productions@[i]).head == n,
            forall|a: int, b: int| 0 <= a < b < nts@.len() ==>
                nonterminal_index(nts@[a]) < nonterminal_index(nts@[b]),
    {
        let mut nts: Vec<NonTerminal> = Vec::new();
        let mut k: usize = 0;
        while k < NUM_NONTERMINALS
            invariant
                self.wf(),
                k <= NUM_NONTERMINALS,
                forall|j: int| 0 <= j < nts@.len() ==> nonterminal_index(#[trigger] nts@[j]) < k,
                forall|n: NonTerminal| nonterminal_index(n) < k ==> (nts@.contains(n) <==>
                    exists|i: int| 0 <= i < self.productions@.len() && (#[trigger] self.productions@[i]).head == n),
                forall|n: NonTerminal| nonterminal_index(n) >= k ==> !nts@.contains(n),
                forall|a: int, b: int| 0 <= a < b < nts@.len() ==>
                    nonterminal_index(nts@[a]) < nonterminal_index(nts@[b]),
            decreases NUM_NONTERMINALS - k,
        {
            let nt = NonTerminal::from_index(k);
            let _n = self.productions.len();
            proof { lemma_ids_with_head(self.productions@, nt); }
            if self.index[k].len() > 0 {
                let ghost old_nts = nts@;
                nts.push(nt);
                proof {
                    assert forall|n: NonTerminal| nonterminal_index(n) < k + 1 implies (nts@.contains(n) <==>
                        exists|i: int| 0 <= i < self.productions@.len() && (#[trigger] self.productions@[i]).head == n) by {
                        lemma_nonterminal_index(n);
                        if nonterminal_index(n) == k {
                            assert(n == nt);
                            lemma_push_contains(old_nts, nt, n);
                            let id = self.index@[k as int]@[0];
                            assert(self.productions@[id as int].head == n);
                        } else {
                            lemma_push_contains(old_nts, nt, n);
                        }
                    }
                    assert forall|n: NonTerminal| nonterminal_index(n) >= k + 1 implies !nts@.contains(n) by {
                        lemma_push_contains(old_nts, nt, n);
                    }
                }
            } else {
                proof {
                    assert forall|n: NonTerminal| nonterminal_index(n) < k + 1 implies (nts@.contains(n) <==>
                        exists|i: int| 0 <= i < self.productions@.len() && (#[trigger] self.productions@[i]).head == n) by {
                        lemma_nonterminal_index(n);
                        if nonterminal_index(n) == k {
                            assert(n == nt);
                            if exists|i: int| 0 <= i < self.productions@.len() && (#[trigger] self.productions@[i]).head == n {
                                let i = choose|i: int| 0 <= i < self.productions@.len() && (#[trigger] self.productions@[i]).head == n;
                                assert(ids_with_head(self.productions@, nt).contains(i as usize));
                            }
                        }
                    }
                }
            }
            k = k + 1;
        }
        nts
    }

    /// Every terminal that occurs in some production body, and `Eof` always,
    /// ordered by variant name so that the order is reproducible.
    pub fn terminals(&self) -> (ts: Vec<Terminal>)
        ensures
            forall|t: Terminal| ts@.contains(t) <==> (t == Terminal::Eof || occurs_in_bodies(self.productions@, t)),
            forall|a: int, b: int| 0 <= a < b < ts@.len() ==>
                terminal_name_rank(ts@[a]) < terminal_name_rank(ts@[b]),
    {
        // seen[k]: terminal with index k occurs
        let mut seen: Vec<bool> = Vec::new();
        let mut k: usize = 0;
        while k < NUM_TERMINALS
            invariant
                k <= NUM_TERMINALS,
                seen@.len() == k,
                forall|j: int| 0 <= j < k ==> !(#[trigger] seen@[j]),
            decreases NUM_TERMINALS - k,
        {
            seen.push(false);
            k = k + 1;
        }
        let mut i: usize = 0;
        while i < self.productions.len()
            invariant
                i <= self.productions@.len(),
                seen@.len() == NUM_TERMINALS,
                forall|t: Terminal| #[trigger] seen@[terminal_index(t) as int] <==>
                    exists|p: int, j: int| 0 <= p < i && 0 <= j < self.productions@[p].body@.len()
                        && self.productions@[p].body@[j] == Symbol::T(t),
            decreases self.productions@.len() - i,
        {
            let body = &self.productions[i].body;
            let mut j: usize = 0;
            while j < body.len()
                invariant
                    i < self.productions@.len(),
                    *body == self.productions@[i as int].body,
                    j <= body@.len(),
                    seen@.len() == NUM_TERMINALS,
                    forall|t: Terminal| #[trigger] seen@[terminal_index(t) as int] <==> (
                        (exists|p: int, q: int| 0 <= p < i && 0 <= q < self.productions@[p].body@.len()
                            && self.productions@[p].body@[q] == Symbol::T(t))
                        || (exists|q: int| 0 <= q < j && body@[q] == Symbol::T(t))),
                decreases body@.len() - j,
            {
                if let Symbol::T(t) = &body[j] {
                    let ti = t.index();
                    seen.set(ti, true);
                    proof {
                        assert forall|u: Terminal| #[trigger] seen@[terminal_index(u) as int] <==> (
                            (exists|p: int, q: int| 0 <= p < i && 0 <= q < self.productions@[p].body@.len()
                                && self.productions@[p].body@[q] == Symbol::T(u))
                            || (exists|q: int| 0 <= q < j + 1 && body@[q] == Symbol::T(u))) by {
                            lemma_terminal_index(u);
                            lemma_terminal_index(*t);
                            if terminal_index(u) == terminal_index(*t) {
                                assert(terminal_at(terminal_index(u)) == terminal_at(terminal_index(*t)));
                                assert(body@[j as int] == Symbol::T(u));
                            }
                        }
                    }
                }
                j = j + 1;
            }
            i = i + 1;
        }
        seen.set(Terminal::Eof.index(), true);
        // emit in name order
        let order = terminals_by_name();
        let mut ts: Vec<Terminal> = Vec::new();
        let mut r: usize = 0;
        while r < order.len()
            invariant
                order@.len() == NUM_TERMINALS,
                forall|q: int| 0 <= q < NUM_TERMINALS ==> terminal_name_rank(#[trigger] order@[q]) == q,
                r <= NUM_TERMINALS,
                seen@.len() == NUM_TERMINALS,
                forall|t: Terminal| ts@.contains(t) <==> (terminal_name_rank(t) < r && seen@[terminal_index(t) as int]),
                forall|a: int| 0 <= a < ts@.len() ==> terminal_name_rank(#[trigger] ts@[a]) < r,
                forall|a: int, b: int| 0 <= a < b < ts@.len() ==>
                    terminal_name_rank(ts@[a]) < terminal_name_rank(ts@[b]),
            decreases NUM_TERMINALS - r,
        {
            let t = order[r];
            let ghost old_ts = ts@;
            if seen[t.index()] {
                ts.push(t);
            }
            proof {
                assert forall|u: Terminal| ts@.contains(u) <==> (terminal_name_rank(u) < r + 1 && seen@[terminal_index(u) as int]) by {
                    lemma_name_rank_injective(u, t);
                    lemma_push_contains(old_ts, t, u);
                }
            }
            r = r + 1;
        }
        proof {
            assert forall|t: Terminal| ts@.contains(t) <==> (t == Terminal::Eof || occurs_in_bodies(self.productions@, t)) by {
                lemma_terminal_name_rank(t);
                lemma_terminal_index(t);
            }
        }
        ts
    }

    /// Number of productions.
    pub fn len(&self) -> (n: usize)
        ensures
            n == self.productions@.len(),
    {
        self.productions.len()
    }

    /// Whether the grammar has no production.
    pub fn is_empty(&self) -> (b: bool)
        ensures
            b == (self.productions@.len() == 0),
    {
        self.productions.len() == 0
    }

    /// The productions as display lines, in order.
    pub fn listing(&self) -> (lines: Vec<String>)
        ensures
            lines@.len() == self.productions@.len(),
            forall|i: int| 0 <= i < lines@.len() ==> (#[trigger] lines@[i])@
                == production_text(self.productions@[i].id, self.productions@[i].head, self.productions@[i].body@),
    {
        let mut lines: Vec<String> = Vec::new();
        let mut k: usize = 0;
        while k < self.productions.len()
            invariant
                k <= self.productions@.len(),
                lines@.len() == k,
                forall|i: int| 0 <= i < k ==> (#[trigger] lines@[i])@
                    == production_text(self.productions@[i].id, self.productions@[i].head, self.productions@[i].body@),
            decreases self.productions@.len() - k,
        {
            lines.push(self.productions[k].display());
            k = k + 1;
        }
        lines
    }
}

/// Distinct terminals have distinct name ranks.
pub proof fn lemma_name_rank_injective(a: Terminal, b: Terminal)
    ensures
        terminal_name_rank(a) == terminal_name_rank(b) ==> a == b,
{
    lemma_terminal_name_rank(a);
    lemma_terminal_name_rank(b);
}

} // verus!
