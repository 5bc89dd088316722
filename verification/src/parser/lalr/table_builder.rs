//! From a grammar to its LALR(1) table: the LR(1) states with the same core
//! (the same productions and dot positions) are merged, their lookaheads
//! united, and ACTION and GOTO are filled from the merged items.
use vstd::prelude::*;
use crate::parser::grammar::Grammar;
use crate::parser::grammar::production::Production;
use crate::parser::grammar::symbol::{NonTerminal, Symbol, Terminal, NUM_TERMINALS, NUM_NONTERMINALS, terminal_index,
    nonterminal_index, lemma_terminal_at, lemma_terminal_index, lemma_nonterminal_index};
use crate::parser::lalr::automaton::{
    lookaheads_follow, item_follows, some_cell, start_item,
    Automaton, NUM_SYMBOLS, core_base, core_of, item_cell, num_cells, symbol_index, sym_index,
    lemma_item_cell, lemma_core_base_nonneg, lemma_item_cell_injective,
};
use crate::parser::lalr::first_follow::{FirstFollow, first_least, follow_least};
use crate::parser::lalr::item::{Item, ItemSet, item_valid, after_dot};
use crate::parser::lalr::parse_table::{Action, ParseTable};
use crate::seqs::{falses, lemma_sorted_unique};

verus! {

/// Every entry of the table names a state of the table or a production of
/// the grammar: shifts and gotos lead to states, reduces use productions
/// other than the start production, and accept sits on end of input.
pub open spec fn table_valid(table: ParseTable, prods: Seq<Production>) -> bool {
    &&& table.wf()
    &&& forall|s: int, t: Terminal| #[trigger] table.spec_action(s, t) is Some
            ==> action_valid(table.spec_action(s, t)->0, t, table.num_states as int, prods)
    &&& forall|s: int, n: NonTerminal| #[trigger] table.spec_goto(s, n) is Some ==> table.spec_goto(s, n)->0 < table.num_states
}

/// An action that may be written in a valid table.
pub open spec fn action_valid(a: Action, t: Terminal, num_states: int, prods: Seq<Production>) -> bool {
    match a {
        Action::Shift(x) => x < num_states,
        Action::Reduce(p) => p < prods.len() && prods[p as int].head != NonTerminal::Start,
        Action::Accept => t == Terminal::Eof,
    }
}

/// Whether every entry of a table refers to the grammar (see `table_valid`).
pub fn check_table(table: &ParseTable, grammar: &Grammar) -> (b: bool)
    ensures
        b == table_valid(*table, grammar.productions@),
{
    let ghost prods = grammar.productions@;
    let ns = table.num_states;
    if table.action.len() != ns || table.goto.len() != ns {
        return false;
    }
    let mut s: usize = 0;
    while s < ns
        invariant
            prods == grammar.productions@,
            ns == table.num_states,
            table.action@.len() == ns,
            table.goto@.len() == ns,
            s <= ns,
            forall|s2: int| 0 <= s2 < s ==> (#[trigger] table.action@[s2])@.len() == NUM_TERMINALS,
            forall|s2: int| 0 <= s2 < s ==> (#[trigger] table.goto@[s2])@.len() == NUM_NONTERMINALS,
            forall|s2: int, t: Terminal| 0 <= s2 < s && #[trigger] table.action@[s2]@[terminal_index(t) as int] is Some
                ==> action_valid(table.action@[s2]@[terminal_index(t) as int]->0, t, ns as int, prods),
            forall|s2: int, n: NonTerminal| 0 <= s2 < s && #[trigger] table.goto@[s2]@[nonterminal_index(n) as int] is Some
                ==> table.goto@[s2]@[nonterminal_index(n) as int]->0 < ns,
        decreases ns - s,
    {
        if table.action[s].len() != NUM_TERMINALS || table.goto[s].len() != NUM_NONTERMINALS {
            return false;
        }
        let mut k: usize = 0;
        while k < NUM_TERMINALS
            invariant
                prods == grammar.productions@,
                ns == table.num_states,
                s < ns,
                table.action@.len() == ns,
                table.action@[s as int]@.len() == NUM_TERMINALS,
                k <= NUM_TERMINALS,
                forall|t: Terminal| terminal_index(t) < k && #[trigger] table.action@[s as int]@[terminal_index(t) as int] is Some
                    ==> action_valid(table.action@[s as int]@[terminal_index(t) as int]->0, t, ns as int, prods),
            decreases NUM_TERMINALS - k,
        {
            let t = Terminal::from_index(k);
            proof { lemma_terminal_at(k as nat); }
            match table.action[s][k] {
                Some(a) => {
                    let ok = match a {
                        Action::Shift(x) => x < ns,
                        Action::Reduce(p) => p < grammar.productions.len() && grammar.productions[p].head != NonTerminal::Start,
                        Action::Accept => t == Terminal::Eof,
                    };
                    if !ok {
                        proof {
                            assert(table.spec_action(s as int, t) == Some(a));
                        }
                        return false;
                    }
                }
                None => {}
            }
            proof {
                assert forall|u: Terminal| terminal_index(u) < k + 1 && #[trigger] table.action@[s as int]@[terminal_index(u) as int] is Some
                    implies action_valid(table.action@[s as int]@[terminal_index(u) as int]->0, u, ns as int, prods) by {
                    crate::parser::lalr::first_follow::lemma_terminal_index_eq(u, t);
                }
            }
            k = k + 1;
        }
        let mut k: usize = 0;
        while k < NUM_NONTERMINALS
            invariant
                ns == table.num_states,
                s < ns,
                table.goto@.len() == ns,
                table.goto@[s as int]@.len() == NUM_NONTERMINALS,
                k <= NUM_NONTERMINALS,
                forall|n: NonTerminal| nonterminal_index(n) < k && #[trigger] table.goto@[s as int]@[nonterminal_index(n) as int] is Some
                    ==> table.goto@[s as int]@[nonterminal_index(n) as int]->0 < ns,
            decreases NUM_NONTERMINALS - k,
        {
            let n = NonTerminal::from_index(k);
            match table.goto[s][k] {
                Some(x) => {
                    if x >= ns {
                        proof {
                            assert(table.spec_goto(s as int, n) == Some(x));
                        }
                        return false;
                    }
                }
                None => {}
            }
            proof {
                assert forall|m: NonTerminal| nonterminal_index(m) < k + 1 && #[trigger] table.goto@[s as int]@[nonterminal_index(m) as int] is Some
                    implies table.goto@[s as int]@[nonterminal_index(m) as int]->0 < ns by {
                    lemma_nonterminal_index(m);
                    crate::parser::grammar::symbol::lemma_nonterminal_index_injective(m, n);
                }
            }
            k = k + 1;
        }
        proof {
            assert forall|s2: int, t: Terminal| 0 <= s2 < s + 1 && #[trigger] table.action@[s2]@[terminal_index(t) as int] is Some
                implies action_valid(table.action@[s2]@[terminal_index(t) as int]->0, t, ns as int, prods) by {
                lemma_terminal_index(t);
            }
            assert forall|s2: int, n: NonTerminal| 0 <= s2 < s + 1 && #[trigger] table.goto@[s2]@[nonterminal_index(n) as int] is Some
                implies table.goto@[s2]@[nonterminal_index(n) as int]->0 < ns by {
                lemma_nonterminal_index(n);
            }
        }
        s = s + 1;
    }
    proof {
        assert forall|s2: int, t: Terminal| #[trigger] table.spec_action(s2, t) is Some
            implies action_valid(table.spec_action(s2, t)->0, t, table.num_states as int, prods) by {}
        assert forall|s2: int, n: NonTerminal| #[trigger] table.spec_goto(s2, n) is Some
            implies table.spec_goto(s2, n)->0 < table.num_states by {}
    }
    true
}

/// The table is the LALR(1) table of the LR(1) automaton `a`, whose states
/// all hold different items: `remap`
/// sends each LR(1) state to its merged state, two states going to the same
/// one exactly when they have the same cores, and every merged state is
/// reached; each merged state holds the items of its LR(1) states and no
/// others; `rows` gives the transitions of each merged state, with an entry
/// exactly where one of its LR(1) states has an edge, leading to the merged
/// state of that edge's target; and ACTION and GOTO of each merged state
/// are what its items write into empty rows.
pub open spec fn lalr_table(table: ParseTable, prods: Seq<Production>, ff: FirstFollow, a: Automaton,
    remap: Seq<usize>, merged: Seq<ItemSet>, rows: Seq<Vec<Option<usize>>>) -> bool {
    &&& a.wf(prods, ff)
    &&& a.states@[0].items@.contains(start_item())
    &&& forall|t1: int, t2: int| 0 <= t1 < t2 < a.states@.len()
            ==> #[trigger] a.states@[t1].items@ != #[trigger] a.states@[t2].items@
    &&& remap.len() == a.states@.len()
    &&& merged.len() == table.num_states
    &&& rows.len() == merged.len()
    &&& remap[0] == 0
    &&& forall|s: int| 0 <= s < remap.len() ==> #[trigger] remap[s] < merged.len()
    &&& forall|k: int| 0 <= k < merged.len() ==> #[trigger] reached(remap, remap.len() as int, k)
    &&& forall|s1: int, s2: int| 0 <= s1 < remap.len() && 0 <= s2 < remap.len()
            ==> (#[trigger] remap[s1] == #[trigger] remap[s2] <==> same_core(prods, a.states@[s1].items@, a.states@[s2].items@))
    &&& forall|s: int| 0 <= s < remap.len() ==> holds_all(merged, #[trigger] remap[s] as int, a.states@[s].items@)
    &&& forall|k: int, i: int| 0 <= k < merged.len() && 0 <= i < merged[k].items@.len()
            ==> drawn_from(a.states@, remap, remap.len() as int, k, #[trigger] merged[k].items@[i])
    &&& forall|k: int| 0 <= k < rows.len() ==> (#[trigger] rows[k])@.len() == NUM_SYMBOLS
    &&& forall|k: int, i: int| 0 <= k < rows.len() && 0 <= i < NUM_SYMBOLS ==> (#[trigger] rows[k]@[i] matches Some(j)
            ==> merged_edge(a.transitions@, remap, k, i, j as int))
    &&& forall|s: int, e: int| 0 <= s < remap.len() && 0 <= e < a.transitions@[s]@.len()
            ==> rows[remap[s] as int]@[symbol_index(#[trigger] a.transitions@[s]@[e].0) as int] is Some
    &&& forall|k: int, t: Terminal| 0 <= k < merged.len() ==> #[trigger] table.spec_action(k, t)
            == actions_written(prods, merged[k].items@, rows[k]@, t, None)
    &&& forall|k: int, n: NonTerminal| 0 <= k < merged.len() ==> #[trigger] table.spec_goto(k, n)
            == gotos_written(prods, merged[k].items@, rows[k]@, n, None)
}

/// Builds the LALR(1) table of a grammar.
pub struct TableBuilder<'g> {
    grammar: &'g Grammar,
}

impl<'g> TableBuilder<'g> {
    pub fn new(grammar: &'g Grammar) -> (b: Self)
        ensures
            b.grammar() == grammar,
    {
        TableBuilder { grammar }
    }

    pub closed spec fn grammar(&self) -> &'g Grammar {
        self.grammar
    }

    /// The LALR(1) table: LR(1) automaton, merge by core, then ACTION and GOTO.
    pub fn build(&self) -> (table: ParseTable)
        requires
            self.grammar().wf(),
            self.grammar().productions@.len() > 0,
            num_cells(self.grammar().productions@) <= usize::MAX,
        ensures
            table_valid(table, self.grammar().productions@),
            table.num_states >= 1,
            exists|ff: FirstFollow, a: Automaton, remap: Seq<usize>, merged: Seq<ItemSet>, rows: Seq<Vec<Option<usize>>>| {
                &&& ff.wf()
                &&& ff.first_closed(self.grammar().productions@)
                &&& ff.follow_closed(self.grammar().productions@, self.grammar().start)
                &&& first_least(ff.first@, ff.nullable@, self.grammar().productions@)
                &&& follow_least(ff.first@, ff.nullable@, ff.follow@, self.grammar().productions@, self.grammar().start)
                &&& #[trigger] lalr_table(table, self.grammar().productions@, ff, a, remap, merged, rows)
                &&& self.grammar().productions@[0].head == self.grammar().start
                    ==> reduces_on_follow(table, self.grammar().productions@, ff)
            },
    {
        let grammar = self.grammar;
        let ghost prods = grammar.productions@;
        let ff = FirstFollow::compute(grammar);
        let automaton = Automaton::build(grammar, &ff);
        let (merged, remap) = merge_states(grammar, &automaton, Ghost(ff));
        let transitions = remap_transitions(&automaton, &remap, merged.len(), Ghost(prods), Ghost(ff));
        let nm = merged.len();
        let ghost cond = prods[0].head == grammar.start;
        let mut table = ParseTable::new(nm);
        let mut m: usize = 0;
        while m < nm
            invariant
                prods == grammar.productions@,
                nm == merged@.len(),
                nm >= 1,
                transitions@.len() == nm,
                forall|k: int| 0 <= k < nm ==> (#[trigger] transitions@[k])@.len() == NUM_SYMBOLS,
                forall|k: int, i: int| 0 <= k < nm && 0 <= i < NUM_SYMBOLS ==> (#[trigger] transitions@[k]@[i] matches Some(x) ==> x < nm),
                forall|k: int, i: int| 0 <= k < nm && 0 <= i < merged@[k].items@.len()
                    ==> item_valid(prods, #[trigger] merged@[k].items@[i]),
                forall|k: int| 0 <= k < nm ==> #[trigger] merged@[k].id == k,
                table.num_states == nm,
                table_valid(table, prods),
                m <= nm,
                cond == (prods[0].head == grammar.start),
                cond ==> lookaheads_follow(prods, ff, merged@),
                cond ==> reduces_on_follow(table, prods, ff),
                forall|k: int, t: Terminal| 0 <= k < m ==> #[trigger] table.spec_action(k, t)
                    == actions_written(prods, merged@[k].items@, transitions@[k]@, t, None),
                forall|k: int, n: NonTerminal| 0 <= k < m ==> #[trigger] table.spec_goto(k, n)
                    == gotos_written(prods, merged@[k].items@, transitions@[k]@, n, None),
                forall|k: int, t: Terminal| m <= k ==> #[trigger] table.spec_action(k, t) is None,
                forall|k: int, n: NonTerminal| m <= k ==> #[trigger] table.spec_goto(k, n) is None,
            decreases nm - m,
        {
            proof {
                if cond {
                    assert forall|i: int| 0 <= i < merged@[m as int].items@.len()
                        implies item_follows(prods, ff, #[trigger] merged@[m as int].items@[i]) by {}
                }
            }
            let ghost t0 = table;
            fill_actions(grammar, &merged[m], &transitions, &mut table, Ghost(ff));
            proof {
                assert forall|k: int, t: Terminal| 0 <= k < m + 1 implies #[trigger] table.spec_action(k, t)
                    == actions_written(prods, merged@[k].items@, transitions@[k]@, t, None) by {
                    if k < m {
                        assert(table.spec_action(k, t) == t0.spec_action(k, t));
                    } else {
                        assert(t0.spec_action(k, t) is None);
                    }
                }
                assert forall|k: int, n: NonTerminal| 0 <= k < m + 1 implies #[trigger] table.spec_goto(k, n)
                    == gotos_written(prods, merged@[k].items@, transitions@[k]@, n, None) by {
                    if k < m {
                        assert(table.spec_goto(k, n) == t0.spec_goto(k, n));
                    } else {
                        assert(t0.spec_goto(k, n) is None);
                    }
                }
                assert forall|k: int, t: Terminal| m + 1 <= k implies #[trigger] table.spec_action(k, t) is None by {
                    assert(table.spec_action(k, t) == t0.spec_action(k, t));
                }
                assert forall|k: int, n: NonTerminal| m + 1 <= k implies #[trigger] table.spec_goto(k, n) is None by {
                    assert(table.spec_goto(k, n) == t0.spec_goto(k, n));
                }
            }
            m = m + 1;
        }
        proof {
            assert(automaton.states@[0].items@.contains(start_item()));
            assert(lalr_table(table, prods, ff, automaton, remap@, merged@, transitions@));
        }
        table
    }
}

/// Some item of `items` has the core (production and dot position) `c`.
pub open spec fn has_core(prods: Seq<Production>, items: Seq<Item>, c: usize) -> bool {
    exists|i: int| 0 <= i < items.len() && core_of(prods, #[trigger] items[i].prod_id as int, items[i].dot as int) == c as int
}

/// Two item lists with the same cores.
pub open spec fn same_core(prods: Seq<Production>, a: Seq<Item>, b: Seq<Item>) -> bool {
    forall|c: usize| has_core(prods, a, c) <==> #[trigger] has_core(prods, b, c)
}

/// Merged state `k` holds every item of `items`.
pub open spec fn holds_all(merged: Seq<ItemSet>, k: int, items: Seq<Item>) -> bool {
    forall|i: int| 0 <= i < items.len() ==> merged[k].items@.contains(#[trigger] items[i])
}

/// The item belongs to one of the first `n` LR(1) states that went to merged state `k`.
pub open spec fn drawn_from(states: Seq<ItemSet>, remap: Seq<usize>, n: int, k: int, it: Item) -> bool {
    exists|s: int| 0 <= s < n && remap[s] == k && #[trigger] states[s].items@.contains(it)
}

/// One of the first `n` LR(1) states went to merged state `k`.
pub open spec fn reached(remap: Seq<usize>, n: int, k: int) -> bool {
    exists|s: int| 0 <= s < n && remap[s] == k
}

/// Groups the LR(1) states by core. Returns the merged states, whose items
/// are the union of the items of the states in the group, and for every
/// LR(1) state the merged state it went to: two states go to the same
/// merged state exactly when they have the same cores.
#[verifier::rlimit(100)]
fn merge_states(grammar: &Grammar, automaton: &Automaton, Ghost(ff): Ghost<FirstFollow>) -> (r: (Vec<ItemSet>, Vec<usize>))
    requires
        automaton.wf(grammar.productions@, ff),
        num_cells(grammar.productions@) <= usize::MAX,
    ensures
        r.0@.len() >= 1,
        r.0@.len() <= automaton.states@.len(),
        r.1@.len() == automaton.states@.len(),
        forall|s: int| 0 <= s < r.1@.len() ==> #[trigger] r.1@[s] < r.0@.len(),
        forall|k: int| 0 <= k < r.0@.len() ==> #[trigger] r.0@[k].id == k,
        forall|k: int, i: int| 0 <= k < r.0@.len() && 0 <= i < r.0@[k].items@.len()
            ==> item_valid(grammar.productions@, #[trigger] r.0@[k].items@[i]),
        r.1@.len() > 0 ==> r.1@[0] == 0,
        lookaheads_follow(grammar.productions@, ff, automaton.states@) ==> lookaheads_follow(grammar.productions@, ff, r.0@),
        forall|s: int| 0 <= s < r.1@.len() ==> holds_all(r.0@, #[trigger] r.1@[s] as int, automaton.states@[s].items@),
        forall|k: int, i: int| 0 <= k < r.0@.len() && 0 <= i < r.0@[k].items@.len()
            ==> drawn_from(automaton.states@, r.1@, r.1@.len() as int, k, #[trigger] r.0@[k].items@[i]),
        forall|k: int| 0 <= k < r.0@.len() ==> #[trigger] reached(r.1@, r.1@.len() as int, k),
        forall|s1: int, s2: int| 0 <= s1 < r.1@.len() && 0 <= s2 < r.1@.len()
            ==> (#[trigger] r.1@[s1] == #[trigger] r.1@[s2]
                <==> same_core(grammar.productions@, automaton.states@[s1].items@, automaton.states@[s2].items@)),
{
    let ghost prods = grammar.productions@;
    let ghost states = automaton.states@;
    let np = grammar.productions.len();
    proof { lemma_core_base_nonneg(prods, np as int); }
    let bases = production_bases(grammar);
    let ncores = bases[np];
    let ncells = ncores * NUM_TERMINALS;
    let mut keys: Vec<Vec<usize>> = Vec::new();
    let mut marks: Vec<Vec<bool>> = Vec::new();
    let mut merged: Vec<ItemSet> = Vec::new();
    let mut remap: Vec<usize> = Vec::new();
    let mut s: usize = 0;
    while s < automaton.states.len()
        invariant
            automaton.wf(prods, ff),
            prods == grammar.productions@,
            states == automaton.states@,
            np == prods.len(),
            bases@.len() == np + 1,
            forall|p: int| 0 <= p <= np ==> #[trigger] bases@[p] == core_base(prods, p),
            ncores == core_base(prods, np as int),
            ncells == num_cells(prods),
            ncells <= usize::MAX,
            s <= automaton.states@.len(),
            remap@.len() == s,
            keys@.len() == merged@.len(),
            marks@.len() == merged@.len(),
            merged@.len() <= s,
            s > 0 ==> merged@.len() >= 1,
            s > 0 ==> remap@[0] == 0,
            forall|k: int| 0 <= k < s ==> #[trigger] remap@[k] < merged@.len(),
            forall|k: int| 0 <= k < merged@.len() ==> #[trigger] merged@[k].id == k,
            forall|k: int| 0 <= k < merged@.len() ==> (#[trigger] marks@[k])@.len() == ncells,
            forall|k: int, i: int| 0 <= k < merged@.len() && 0 <= i < merged@[k].items@.len()
                ==> item_valid(prods, #[trigger] merged@[k].items@[i]),
            lookaheads_follow(prods, ff, automaton.states@) ==> lookaheads_follow(prods, ff, merged@),
            forall|k: int, c: int| 0 <= k < merged@.len() && 0 <= c < ncells
                ==> (#[trigger] marks@[k]@[c] <==> some_cell(prods, merged@[k].items@, merged@[k].items@.len() as int, c)),
            forall|s2: int| 0 <= s2 < s ==> holds_all(merged@, #[trigger] remap@[s2] as int, states[s2].items@),
            forall|k: int, i: int| 0 <= k < merged@.len() && 0 <= i < merged@[k].items@.len()
                ==> drawn_from(states, remap@, s as int, k, #[trigger] merged@[k].items@[i]),
            forall|k: int| 0 <= k < merged@.len() ==> #[trigger] reached(remap@, s as int, k),
            forall|k: int, a: int, b: int| 0 <= k < keys@.len() && 0 <= a < b < keys@[k]@.len()
                ==> #[trigger] keys@[k]@[a] < #[trigger] keys@[k]@[b],
            forall|k1: int, k2: int| 0 <= k1 < k2 < keys@.len() ==> #[trigger] keys@[k1]@ != #[trigger] keys@[k2]@,
            forall|s2: int, c: usize| 0 <= s2 < s
                ==> (#[trigger] keys@[remap@[s2] as int]@.contains(c) <==> has_core(prods, states[s2].items@, c)),
        decreases automaton.states@.len() - s,
    {
        let items = &automaton.states[s].items;
        let key = core_key(grammar, &bases, items, ncores);
        let mut found = false;
        let mut target: usize = 0;
        let mut k: usize = 0;
        while k < keys.len()
            invariant
                k <= keys@.len(),
                found ==> target < keys@.len() && keys@[target as int]@ == key@,
                !found ==> forall|j: int| 0 <= j < k ==> keys@[j]@ != key@,
            decreases keys@.len() - k,
        {
            if !found && same_seq(&keys[k], &key) {
                found = true;
                target = k;
            }
            k = k + 1;
        }
        let ghost m0 = merged@;
        let ghost keys0 = keys@;
        if !found {
            target = merged.len();
            keys.push(key);
            marks.push(falses(ncells));
            merged.push(ItemSet { id: target, items: Vec::new() });
            proof {
                assert forall|k1: int, k2: int| 0 <= k1 < k2 < keys@.len() implies #[trigger] keys@[k1]@ != #[trigger] keys@[k2]@ by {
                    if k2 < keys0.len() {
                        assert(keys@[k1] == keys0[k1] && keys@[k2] == keys0[k2]);
                    }
                }
                assert forall|s2: int, c: usize| 0 <= s2 < s
                    implies (#[trigger] keys@[remap@[s2] as int]@.contains(c) <==> has_core(prods, states[s2].items@, c)) by {
                    assert(keys@[remap@[s2] as int] == keys0[remap@[s2] as int]);
                }
                assert forall|s2: int| 0 <= s2 < s implies holds_all(merged@, #[trigger] remap@[s2] as int, states[s2].items@) by {
                    assert(merged@[remap@[s2] as int] == m0[remap@[s2] as int]);
                }
                assert forall|k2: int, c: int| 0 <= k2 < merged@.len() && 0 <= c < ncells
                    implies (#[trigger] marks@[k2]@[c] <==> some_cell(prods, merged@[k2].items@, merged@[k2].items@.len() as int, c)) by {
                    if k2 < m0.len() {
                        assert(merged@[k2] == m0[k2]);
                    }
                }
            }
        }
        proof {
            assert forall|c: usize| #[trigger] keys@[target as int]@.contains(c) <==> has_core(prods, items@, c) by {
                if has_core(prods, items@, c) {
                    let i = choose|i: int| 0 <= i < items@.len() && core_of(prods, #[trigger] items@[i].prod_id as int, items@[i].dot as int) == c as int;
                    assert(core_of(prods, items@[i].prod_id as int, items@[i].dot as int) == c);
                }
            }
        }
        let ghost m1 = merged@;
        // add the items of state s to the merged state, once each
        let mut i: usize = 0;
        while i < items.len()
            invariant
                automaton.wf(prods, ff),
                prods == grammar.productions@,
                states == automaton.states@,
                np == prods.len(),
                bases@.len() == np + 1,
                forall|p: int| 0 <= p <= np ==> #[trigger] bases@[p] == core_base(prods, p),
                ncells == num_cells(prods),
                *items == automaton.states@[s as int].items,
                s < automaton.states@.len(),
                remap@.len() == s,
                target < merged@.len(),
                keys@.len() == merged@.len(),
                marks@.len() == merged@.len(),
                merged@.len() <= s + 1,
                merged@.len() == m1.len(),
                forall|k2: int| 0 <= k2 < merged@.len() ==> #[trigger] merged@[k2].id == k2,
                forall|k2: int| 0 <= k2 < merged@.len() ==> (#[trigger] marks@[k2])@.len() == ncells,
                forall|k2: int, i2: int| 0 <= k2 < merged@.len() && 0 <= i2 < merged@[k2].items@.len()
                    ==> item_valid(prods, #[trigger] merged@[k2].items@[i2]),
                lookaheads_follow(prods, ff, automaton.states@) ==> lookaheads_follow(prods, ff, merged@),
                i <= items@.len(),
                forall|k2: int, c: int| 0 <= k2 < merged@.len() && 0 <= c < ncells
                    ==> (#[trigger] marks@[k2]@[c] <==> some_cell(prods, merged@[k2].items@, merged@[k2].items@.len() as int, c)),
                forall|k2: int, j: int| 0 <= k2 < merged@.len() && 0 <= j < m1[k2].items@.len()
                    ==> #[trigger] merged@[k2].items@[j] == m1[k2].items@[j],
                forall|k2: int| 0 <= k2 < merged@.len() ==> m1[k2].items@.len() <= (#[trigger] merged@[k2]).items@.len(),
                forall|k2: int| 0 <= k2 < merged@.len() && k2 != target ==> #[trigger] merged@[k2] == m1[k2],
                forall|i2: int| 0 <= i2 < i ==> merged@[target as int].items@.contains(#[trigger] items@[i2]),
                forall|k2: int, i2: int| 0 <= k2 < merged@.len() && 0 <= i2 < merged@[k2].items@.len()
                    ==> drawn_from(states, remap@, s as int, k2, #[trigger] merged@[k2].items@[i2])
                        || (k2 == target && items@.contains(merged@[k2].items@[i2])),
            decreases items@.len() - i,
        {
            let it = items[i];
            proof { lemma_item_cell(prods, it); }
            let c = (bases[it.prod_id] + it.dot) * NUM_TERMINALS + it.lookahead.index();
            proof { assert(c == item_cell(prods, it)); }
            if !marks[target][c] {
                let ghost before = merged@;
                let ghost mbefore = marks@;
                marks[target].set(c, true);
                merged[target].items.push(it);
                proof {
                    if lookaheads_follow(prods, ff, automaton.states@) {
                        assert(item_follows(prods, ff, automaton.states@[s as int].items@[i as int]));
                        assert forall|k2: int, i2: int| 0 <= k2 < merged@.len() && 0 <= i2 < merged@[k2].items@.len()
                            implies item_follows(prods, ff, #[trigger] merged@[k2].items@[i2]) by {
                            if k2 != target || i2 < before[k2].items@.len() {
                                assert(merged@[k2].items@[i2] == before[k2].items@[i2]);
                            }
                        }
                    }
                    let tgt = target as int;
                    assert forall|k2: int, c2: int| 0 <= k2 < merged@.len() && 0 <= c2 < ncells
                        implies (#[trigger] marks@[k2]@[c2] <==> some_cell(prods, merged@[k2].items@, merged@[k2].items@.len() as int, c2)) by {
                        if k2 != tgt {
                            assert(marks@[k2] == mbefore[k2]);
                            assert(merged@[k2] == before[k2]);
                        } else {
                            let old_items = before[k2].items@;
                            let new_items = merged@[k2].items@;
                            assert(new_items == old_items.push(it));
                            if some_cell(prods, old_items, old_items.len() as int, c2) {
                                let j = choose|j: int| 0 <= j < old_items.len() && item_cell(prods, #[trigger] old_items[j]) == c2;
                                assert(new_items[j] == old_items[j]);
                            }
                            if some_cell(prods, new_items, new_items.len() as int, c2) {
                                let j = choose|j: int| 0 <= j < new_items.len() && item_cell(prods, #[trigger] new_items[j]) == c2;
                                if j < old_items.len() {
                                    assert(new_items[j] == old_items[j]);
                                }
                            }
                            if c2 == c {
                                assert(new_items[old_items.len() as int] == it);
                            }
                        }
                    }
                    assert forall|i2: int| 0 <= i2 < i + 1 implies merged@[tgt].items@.contains(#[trigger] items@[i2]) by {
                        if i2 < i {
                            let j = choose|j: int| 0 <= j < before[tgt].items@.len() && before[tgt].items@[j] == items@[i2];
                            assert(merged@[tgt].items@[j] == before[tgt].items@[j]);
                        } else {
                            assert(merged@[tgt].items@[before[tgt].items@.len() as int] == it);
                        }
                    }
                    assert forall|k2: int, i2: int| 0 <= k2 < merged@.len() && 0 <= i2 < merged@[k2].items@.len()
                        implies drawn_from(states, remap@, s as int, k2, #[trigger] merged@[k2].items@[i2])
                            || (k2 == target && items@.contains(merged@[k2].items@[i2])) by {
                        if k2 != tgt || i2 < before[k2].items@.len() {
                            assert(merged@[k2].items@[i2] == before[k2].items@[i2]);
                        } else {
                            assert(items@[i as int] == it);
                        }
                    }
                    assert forall|k2: int, j: int| 0 <= k2 < merged@.len() && 0 <= j < m1[k2].items@.len()
                        implies #[trigger] merged@[k2].items@[j] == m1[k2].items@[j] by {
                        assert(merged@[k2].items@[j] == before[k2].items@[j]);
                    }
                }
            } else {
                proof {
                    let tgt = target as int;
                    let its = merged@[tgt].items@;
                    let j = choose|j: int| 0 <= j < its.len() && item_cell(prods, #[trigger] its[j]) == c as int;
                    lemma_item_cell_injective(prods, its[j], it);
                    assert(its.contains(it));
                    assert forall|i2: int| 0 <= i2 < i + 1 implies merged@[tgt].items@.contains(#[trigger] items@[i2]) by {
                        if i2 == i {
                            assert(items@[i2] == it);
                        }
                    }
                }
            }
            i = i + 1;
        }
        let ghost m2 = merged@;
        let ghost r0 = remap@;
        remap.push(target);
        proof {
            let tgt = target as int;
            assert(remap@[s as int] == target);
            assert forall|s2: int| 0 <= s2 < s + 1 implies holds_all(merged@, #[trigger] remap@[s2] as int, states[s2].items@) by {
                if s2 < s {
                    assert(remap@[s2] == r0[s2]);
                    let k2 = r0[s2] as int;
                    assert(holds_all(m1, k2, states[s2].items@));
                    assert forall|i2: int| 0 <= i2 < states[s2].items@.len() implies merged@[k2].items@.contains(#[trigger] states[s2].items@[i2]) by {
                        let j = choose|j: int| 0 <= j < m1[k2].items@.len() && m1[k2].items@[j] == states[s2].items@[i2];
                        assert(merged@[k2].items@[j] == m1[k2].items@[j]);
                    }
                } else {
                    assert forall|i2: int| 0 <= i2 < states[s2].items@.len() implies merged@[tgt].items@.contains(#[trigger] states[s2].items@[i2]) by {
                        assert(items@[i2] == states[s2].items@[i2]);
                    }
                }
            }
            assert forall|k2: int, i2: int| 0 <= k2 < merged@.len() && 0 <= i2 < merged@[k2].items@.len()
                implies drawn_from(states, remap@, s + 1, k2, #[trigger] merged@[k2].items@[i2]) by {
                let x = merged@[k2].items@[i2];
                if drawn_from(states, r0, s as int, k2, x) {
                    let s3 = choose|s3: int| 0 <= s3 < s && r0[s3] == k2 && #[trigger] states[s3].items@.contains(x);
                    assert(remap@[s3] == r0[s3]);
                } else {
                    assert(states[s as int].items@.contains(x));
                }
            }
            assert forall|k2: int| 0 <= k2 < merged@.len() implies #[trigger] reached(remap@, s + 1, k2) by {
                if k2 < m0.len() {
                    assert(reached(r0, s as int, k2));
                    let s3 = choose|s3: int| 0 <= s3 < s && r0[s3] == k2;
                    assert(remap@[s3] == r0[s3]);
                } else {
                    assert(remap@[s as int] == k2);
                }
            }
            assert forall|s2: int, c: usize| 0 <= s2 < s + 1
                implies (#[trigger] keys@[remap@[s2] as int]@.contains(c) <==> has_core(prods, states[s2].items@, c)) by {
                if s2 < s {
                    assert(remap@[s2] == r0[s2]);
                }
            }
            assert forall|k2: int| 0 <= k2 < s + 1 implies #[trigger] remap@[k2] < merged@.len() by {
                if k2 < s { assert(remap@[k2] == r0[k2]); }
            }
        }
        s = s + 1;
    }
    proof {
        assert forall|s1: int, s2: int| 0 <= s1 < remap@.len() && 0 <= s2 < remap@.len()
            implies (#[trigger] remap@[s1] == #[trigger] remap@[s2]
                <==> same_core(prods, states[s1].items@, states[s2].items@)) by {
            let k1 = remap@[s1] as int;
            let k2 = remap@[s2] as int;
            if same_core(prods, states[s1].items@, states[s2].items@) {
                assert forall|c: usize| keys@[k1]@.contains(c) <==> keys@[k2]@.contains(c) by {
                    assert(keys@[remap@[s1] as int]@.contains(c) <==> has_core(prods, states[s1].items@, c));
                    assert(keys@[remap@[s2] as int]@.contains(c) <==> has_core(prods, states[s2].items@, c));
                }
                lemma_sorted_unique(keys@[k1]@, keys@[k2]@);
                if k1 < k2 {
                    assert(keys@[k1]@ != keys@[k2]@);
                }
                if k2 < k1 {
                    assert(keys@[k2]@ != keys@[k1]@);
                }
            }
            if k1 == k2 {
                assert forall|c: usize| has_core(prods, states[s1].items@, c) <==> #[trigger] has_core(prods, states[s2].items@, c) by {
                    assert(keys@[remap@[s1] as int]@.contains(c) <==> has_core(prods, states[s1].items@, c));
                    assert(keys@[remap@[s2] as int]@.contains(c) <==> has_core(prods, states[s2].items@, c));
                }
            }
        }
    }
    (merged, remap)
}

/// Where the cells of each production start, plus the total count at the end.
fn production_bases(grammar: &Grammar) -> (bases: Vec<usize>)
    requires
        num_cells(grammar.productions@) <= usize::MAX,
    ensures
        bases@.len() == grammar.productions@.len() + 1,
        forall|p: int| 0 <= p <= grammar.productions@.len() ==> #[trigger] bases@[p] == core_base(grammar.productions@, p),
{
    let ghost prods = grammar.productions@;
    let n = grammar.productions.len();
    proof { lemma_core_base_nonneg(prods, n as int); }
    let mut bases: Vec<usize> = Vec::new();
    let mut cur: usize = 0;
    let mut p: usize = 0;
    while p < n
        invariant
            prods == grammar.productions@,
            n == prods.len(),
            num_cells(prods) <= usize::MAX,
            core_base(prods, n as int) >= 0,
            p <= n,
            cur == core_base(prods, p as int),
            bases@.len() == p,
            forall|q: int| 0 <= q < p ==> #[trigger] bases@[q] == core_base(prods, q),
        decreases n - p,
    {
        bases.push(cur);
        proof {
            if p + 1 < n {
                crate::parser::lalr::automaton::lemma_core_base_mono(prods, p + 1, n as int);
            }
        }
        cur = cur + grammar.productions[p].body.len() + 1;
        p = p + 1;
    }
    bases.push(cur);
    bases
}

/// The (production, dot) pairs of a state as sorted pair indices, once each.
fn core_key(grammar: &Grammar, bases: &Vec<usize>, items: &Vec<Item>, ncores: usize) -> (key: Vec<usize>)
    requires
        bases@.len() == grammar.productions@.len() + 1,
        forall|p: int| 0 <= p <= grammar.productions@.len() ==> #[trigger] bases@[p] == core_base(grammar.productions@, p),
        ncores == core_base(grammar.productions@, grammar.productions@.len() as int),
        forall|i: int| 0 <= i < items@.len() ==> item_valid(grammar.productions@, #[trigger] items@[i]),
    ensures
        forall|a: int, b: int| 0 <= a < b < key@.len() ==> key@[a] < key@[b],
        forall|c: usize| key@.contains(c) <==> exists|i: int| 0 <= i < items@.len()
            && core_of(grammar.productions@, #[trigger] items@[i].prod_id as int, items@[i].dot as int) == c,
{
    let ghost prods = grammar.productions@;
    let mut seen = falses(ncores);
    let mut i: usize = 0;
    while i < items.len()
        invariant
            prods == grammar.productions@,
            bases@.len() == prods.len() + 1,
            forall|p: int| 0 <= p <= prods.len() ==> #[trigger] bases@[p] == core_base(prods, p),
            ncores == core_base(prods, prods.len() as int),
            forall|i2: int| 0 <= i2 < items@.len() ==> item_valid(prods, #[trigger] items@[i2]),
            seen@.len() == ncores,
            i <= items@.len(),
            forall|c: int| 0 <= c < ncores ==> (#[trigger] seen@[c] <==> exists|i2: int| 0 <= i2 < i
                && core_of(prods, #[trigger] items@[i2].prod_id as int, items@[i2].dot as int) == c),
        decreases items@.len() - i,
    {
        let it = items[i];
        proof { lemma_item_cell(prods, it); }
        let c = bases[it.prod_id] + it.dot;
        seen.set(c, true);
        proof {
            assert forall|c2: int| 0 <= c2 < ncores implies (#[trigger] seen@[c2] <==> exists|i2: int| 0 <= i2 < i + 1
                && core_of(prods, #[trigger] items@[i2].prod_id as int, items@[i2].dot as int) == c2) by {
                if c2 == c {
                    assert(core_of(prods, items@[i as int].prod_id as int, items@[i as int].dot as int) == c2);
                } else {
                    if exists|i2: int| 0 <= i2 < i + 1
                        && core_of(prods, #[trigger] items@[i2].prod_id as int, items@[i2].dot as int) == c2 {
                        let i2 = choose|i2: int| 0 <= i2 < i + 1
                            && core_of(prods, #[trigger] items@[i2].prod_id as int, items@[i2].dot as int) == c2;
                        assert(i2 < i);
                    }
                }
            }
        }
        i = i + 1;
    }
    let mut key: Vec<usize> = Vec::new();
    let mut c: usize = 0;
    while c < ncores
        invariant
            seen@.len() == ncores,
            c <= ncores,
            forall|a: int, b: int| 0 <= a < b < key@.len() ==> key@[a] < key@[b],
            forall|a: int| 0 <= a < key@.len() ==> key@[a] < c,
            forall|x: usize| key@.contains(x) <==> x < c && seen@[x as int],
        decreases ncores - c,
    {
        let ghost k0 = key@;
        if seen[c] {
            key.push(c);
        }
        proof {
            assert forall|x: usize| key@.contains(x) <==> x < c + 1 && seen@[x as int] by {
                if seen@[c as int] {
                    assert(key@ == k0.push(c));
                    if key@.contains(x) {
                        let a = choose|a: int| 0 <= a < key@.len() && key@[a] == x;
                        if a < k0.len() {
                            assert(k0[a] == x);
                            assert(k0.contains(x));
                        }
                    }
                    if x < c && seen@[x as int] {
                        assert(k0.contains(x));
                        let a = choose|a: int| 0 <= a < k0.len() && k0[a] == x;
                        assert(key@[a] == x);
                    }
                    if x == c {
                        assert(key@[k0.len() as int] == x);
                    }
                }
            }
        }
        c = c + 1;
    }
    proof {
        assert forall|x: usize| key@.contains(x) <==> exists|i: int| 0 <= i < items@.len()
            && core_of(prods, #[trigger] items@[i].prod_id as int, items@[i].dot as int) == x by {
            if exists|i: int| 0 <= i < items@.len()
                && core_of(prods, #[trigger] items@[i].prod_id as int, items@[i].dot as int) == x {
                let i = choose|i: int| 0 <= i < items@.len()
                    && core_of(prods, #[trigger] items@[i].prod_id as int, items@[i].dot as int) == x;
                lemma_item_cell(prods, items@[i]);
            }
        }
    }
    key
}

/// Whether two sequences of numbers are equal.
fn same_seq(a: &Vec<usize>, b: &Vec<usize>) -> (r: bool)
    ensures
        r == (a@ == b@),
{
    if a.len() != b.len() {
        return false;
    }
    let mut k: usize = 0;
    while k < a.len()
        invariant
            a@.len() == b@.len(),
            k <= a@.len(),
            forall|j: int| 0 <= j < k ==> a@[j] == b@[j],
        decreases a@.len() - k,
    {
        if a[k] != b[k] {
            return false;
        }
        k = k + 1;
    }
    assert(a@ =~= b@);
    true
}

/// Some LR(1) state that went to merged state `m` has an edge labelled by
/// the symbol of index `i` to a state that went to merged state `j`.
pub open spec fn merged_edge(trans: Seq<Vec<(Symbol, usize)>>, remap: Seq<usize>, m: int, i: int, j: int) -> bool {
    exists|s: int, e: int| 0 <= s < trans.len() && 0 <= e < trans[s]@.len() && remap[s] == m
        && symbol_index(#[trigger] trans[s]@[e].0) == i && remap[trans[s]@[e].1 as int] == j
}

/// The transitions of the merged states: `r[m][symbol_index(x)]` is the
/// merged state reached from `m` by `x`.
fn remap_transitions(automaton: &Automaton, remap: &Vec<usize>, nm: usize,
    Ghost(prods): Ghost<Seq<Production>>, Ghost(ff): Ghost<FirstFollow>) -> (r: Vec<Vec<Option<usize>>>)
    requires
        automaton.wf(prods, ff),
        remap@.len() == automaton.states@.len(),
        forall|s: int| 0 <= s < remap@.len() ==> #[trigger] remap@[s] < nm,
    ensures
        r@.len() == nm,
        forall|k: int| 0 <= k < nm ==> (#[trigger] r@[k])@.len() == NUM_SYMBOLS,
        forall|k: int, i: int| 0 <= k < nm && 0 <= i < NUM_SYMBOLS ==> (#[trigger] r@[k]@[i] matches Some(x) ==> x < nm),
        forall|k: int, i: int| 0 <= k < nm && 0 <= i < NUM_SYMBOLS ==> (#[trigger] r@[k]@[i] matches Some(j)
            ==> merged_edge(automaton.transitions@, remap@, k, i, j as int)),
        forall|s: int, e: int| 0 <= s < remap@.len() && 0 <= e < automaton.transitions@[s]@.len()
            ==> r@[remap@[s] as int]@[symbol_index(#[trigger] automaton.transitions@[s]@[e].0) as int] is Some,
{
    let mut r: Vec<Vec<Option<usize>>> = Vec::new();
    let mut k: usize = 0;
    while k < nm
        invariant
            k <= nm,
            r@.len() == k,
            forall|i: int| 0 <= i < k ==> (#[trigger] r@[i])@.len() == NUM_SYMBOLS,
            forall|i: int, j: int| 0 <= i < k && 0 <= j < NUM_SYMBOLS ==> (#[trigger] r@[i]@[j]) is None,
        decreases nm - k,
    {
        let mut row: Vec<Option<usize>> = Vec::new();
        let mut j: usize = 0;
        while j < NUM_SYMBOLS
            invariant
                j <= NUM_SYMBOLS,
                row@.len() == j,
                forall|i: int| 0 <= i < j ==> (#[trigger] row@[i]) is None,
            decreases NUM_SYMBOLS - j,
        {
            row.push(None);
            j = j + 1;
        }
        r.push(row);
        k = k + 1;
    }
    let mut s: usize = 0;
    while s < automaton.transitions.len()
        invariant
            automaton.wf(prods, ff),
            remap@.len() == automaton.states@.len(),
            forall|s2: int| 0 <= s2 < remap@.len() ==> #[trigger] remap@[s2] < nm,
            r@.len() == nm,
            forall|k2: int| 0 <= k2 < nm ==> (#[trigger] r@[k2])@.len() == NUM_SYMBOLS,
            forall|k2: int, i: int| 0 <= k2 < nm && 0 <= i < NUM_SYMBOLS ==> (#[trigger] r@[k2]@[i] matches Some(x) ==> x < nm),
            forall|k2: int, i: int| 0 <= k2 < nm && 0 <= i < NUM_SYMBOLS ==> (#[trigger] r@[k2]@[i] matches Some(j)
                ==> merged_edge(automaton.transitions@, remap@, k2, i, j as int)),
            forall|s2: int, e: int| 0 <= s2 < s && 0 <= e < automaton.transitions@[s2]@.len()
                ==> r@[remap@[s2] as int]@[symbol_index(#[trigger] automaton.transitions@[s2]@[e].0) as int] is Some,
            s <= automaton.transitions@.len(),
        decreases automaton.transitions@.len() - s,
    {
        let row = &automaton.transitions[s];
        let from = remap[s];
        let mut k: usize = 0;
        while k < row.len()
            invariant
                automaton.wf(prods, ff),
                *row == automaton.transitions@[s as int],
                s < automaton.transitions@.len(),
                remap@.len() == automaton.states@.len(),
                forall|s2: int| 0 <= s2 < remap@.len() ==> #[trigger] remap@[s2] < nm,
                from < nm,
                r@.len() == nm,
                forall|k2: int| 0 <= k2 < nm ==> (#[trigger] r@[k2])@.len() == NUM_SYMBOLS,
                forall|k2: int, i: int| 0 <= k2 < nm && 0 <= i < NUM_SYMBOLS ==> (#[trigger] r@[k2]@[i] matches Some(x) ==> x < nm),
                forall|k2: int, i: int| 0 <= k2 < nm && 0 <= i < NUM_SYMBOLS ==> (#[trigger] r@[k2]@[i] matches Some(j)
                    ==> merged_edge(automaton.transitions@, remap@, k2, i, j as int)),
                forall|s2: int, e: int| 0 <= s2 < s && 0 <= e < automaton.transitions@[s2]@.len()
                    ==> r@[remap@[s2] as int]@[symbol_index(#[trigger] automaton.transitions@[s2]@[e].0) as int] is Some,
                forall|e: int| 0 <= e < k
                    ==> r@[from as int]@[symbol_index(#[trigger] automaton.transitions@[s as int]@[e].0) as int] is Some,
                from == remap@[s as int],
                k <= row@.len(),
            decreases row@.len() - k,
        {
            let (x, to) = row[k];
            assert(automaton.transitions@[s as int]@[k as int].1 < automaton.states@.len());
            let xi = sym_index(&x);
            let ghost r0 = r@;
            r[from].set(xi, Some(remap[to]));
            proof {
                assert forall|k2: int, i: int| 0 <= k2 < nm && 0 <= i < NUM_SYMBOLS implies (#[trigger] r@[k2]@[i] matches Some(y) ==> y < nm) by {
                    if k2 != from {
                        assert(r@[k2] == r0[k2]);
                    }
                }
                assert forall|k2: int| 0 <= k2 < nm implies (#[trigger] r@[k2])@.len() == NUM_SYMBOLS by {
                    if k2 != from {
                        assert(r@[k2] == r0[k2]);
                    }
                }
                let tr = automaton.transitions@;
                assert forall|k2: int, i: int| 0 <= k2 < nm && 0 <= i < NUM_SYMBOLS implies (#[trigger] r@[k2]@[i] matches Some(j)
                    ==> merged_edge(tr, remap@, k2, i, j as int)) by {
                    if k2 == from && i == xi {
                        assert(symbol_index(tr[s as int]@[k as int].0) == i);
                    } else {
                        assert(r@[k2]@[i] == r0[k2]@[i]);
                    }
                }
                assert forall|s2: int, e: int| 0 <= s2 < s && 0 <= e < tr[s2]@.len()
                    implies r@[remap@[s2] as int]@[symbol_index(#[trigger] tr[s2]@[e].0) as int] is Some by {
                    let k2 = remap@[s2] as int;
                    let i = symbol_index(tr[s2]@[e].0) as int;
                    assert(r0[k2]@[i] is Some);
                    if !(k2 == from && i == xi) {
                        assert(r@[k2]@[i] == r0[k2]@[i]);
                    }
                }
                assert forall|e: int| 0 <= e < k + 1
                    implies r@[from as int]@[symbol_index(#[trigger] tr[s as int]@[e].0) as int] is Some by {
                    let i = symbol_index(tr[s as int]@[e].0) as int;
                    if e < k && i != xi {
                        assert(r0[from as int]@[i] is Some);
                    }
                }
            }
            k = k + 1;
        }
        s = s + 1;
    }
    r
}

/// The ACTION entry an item writes in its state, given the state's row of
/// transitions: a shift on the terminal after the dot (where there is a
/// transition on it), acceptance of end of input for a complete start item,
/// a reduction on its lookahead for any other complete item.
pub open spec fn item_action(prods: Seq<Production>, it: Item, row: Seq<Option<usize>>) -> Option<(Terminal, Action)> {
    match after_dot(prods, it) {
        Some(Symbol::T(t)) => match row[symbol_index(Symbol::T(t)) as int] {
            Some(x) => Some((t, Action::Shift(x))),
            None => None,
        },
        Some(Symbol::NT(_)) => None,
        None => if prods[it.prod_id as int].head == NonTerminal::Start {
            Some((Terminal::Eof, Action::Accept))
        } else {
            Some((it.lookahead, Action::Reduce(it.prod_id)))
        },
    }
}

/// The GOTO entry an item writes: the transition on the nonterminal after
/// its dot, where there is one.
pub open spec fn item_goto(prods: Seq<Production>, it: Item, row: Seq<Option<usize>>) -> Option<(NonTerminal, usize)> {
    match after_dot(prods, it) {
        Some(Symbol::NT(n)) => match row[symbol_index(Symbol::NT(n)) as int] {
            Some(x) => Some((n, x)),
            None => None,
        },
        _ => None,
    }
}

/// The ACTION entry on `t` once the items have written theirs in order,
/// from `a0`, each write resolved against what is there.
pub open spec fn actions_written(prods: Seq<Production>, items: Seq<Item>, row: Seq<Option<usize>>, t: Terminal,
    a0: Option<Action>) -> Option<Action>
    decreases items.len(),
{
    if items.len() == 0 {
        a0
    } else {
        let prev = actions_written(prods, items.drop_last(), row, t, a0);
        match item_action(prods, items.last(), row) {
            Some((u, a)) => if u == t { Some(crate::parser::lalr::parse_table::resolve(prev, a)) } else { prev },
            None => prev,
        }
    }
}

/// The GOTO entry on `n` once the items have written theirs in order, from
/// `g0`: the last write stands.
pub open spec fn gotos_written(prods: Seq<Production>, items: Seq<Item>, row: Seq<Option<usize>>, n: NonTerminal,
    g0: Option<usize>) -> Option<usize>
    decreases items.len(),
{
    if items.len() == 0 {
        g0
    } else {
        let prev = gotos_written(prods, items.drop_last(), row, n, g0);
        match item_goto(prods, items.last(), row) {
            Some((u, x)) => if u == n { Some(x) } else { prev },
            None => prev,
        }
    }
}

/// Fills ACTION and GOTO from the items of one merged state.
fn fill_actions(grammar: &Grammar, state: &ItemSet, transitions: &Vec<Vec<Option<usize>>>, table: &mut ParseTable,
    Ghost(ff): Ghost<FirstFollow>)
    requires
        state.id < old(table).num_states,
        transitions@.len() == old(table).num_states,
        forall|k: int| 0 <= k < old(table).num_states ==> (#[trigger] transitions@[k])@.len() == NUM_SYMBOLS,
        forall|k: int, i: int| 0 <= k < old(table).num_states && 0 <= i < NUM_SYMBOLS
            ==> (#[trigger] transitions@[k]@[i] matches Some(x) ==> x < old(table).num_states),
        forall|i: int| 0 <= i < state.items@.len() ==> item_valid(grammar.productions@, #[trigger] state.items@[i]),
        table_valid(*old(table), grammar.productions@),
    ensures
        final(table).num_states == old(table).num_states,
        table_valid(*final(table), grammar.productions@),
        (forall|i: int| 0 <= i < state.items@.len() ==> item_follows(grammar.productions@, ff, #[trigger] state.items@[i]))
            && reduces_on_follow(*old(table), grammar.productions@, ff)
            ==> reduces_on_follow(*final(table), grammar.productions@, ff),
        forall|t: Terminal| #[trigger] final(table).spec_action(state.id as int, t) == actions_written(grammar.productions@,
            state.items@, transitions@[state.id as int]@, t, old(table).spec_action(state.id as int, t)),
        forall|n: NonTerminal| #[trigger] final(table).spec_goto(state.id as int, n) == gotos_written(grammar.productions@,
            state.items@, transitions@[state.id as int]@, n, old(table).spec_goto(state.id as int, n)),
        forall|s: int, t: Terminal| s != state.id ==> #[trigger] final(table).spec_action(s, t) == old(table).spec_action(s, t),
        forall|s: int, n: NonTerminal| s != state.id ==> #[trigger] final(table).spec_goto(s, n) == old(table).spec_goto(s, n),
{
    let ghost prods = grammar.productions@;
    let ghost ok = (forall|i: int| 0 <= i < state.items@.len() ==> item_follows(prods, ff, #[trigger] state.items@[i]))
        && reduces_on_follow(*table, prods, ff);
    let ns = table.num_states;
    let m = state.id;
    let mut i: usize = 0;
    while i < state.items.len()
        invariant
            prods == grammar.productions@,
            table.num_states == ns,
            m == state.id,
            m < ns,
            transitions@.len() == ns,
            forall|k: int| 0 <= k < ns ==> (#[trigger] transitions@[k])@.len() == NUM_SYMBOLS,
            forall|k: int, i2: int| 0 <= k < ns && 0 <= i2 < NUM_SYMBOLS ==> (#[trigger] transitions@[k]@[i2] matches Some(x) ==> x < ns),
            forall|i2: int| 0 <= i2 < state.items@.len() ==> item_valid(prods, #[trigger] state.items@[i2]),
            table_valid(*table, prods),
            i <= state.items@.len(),
            ok == ((forall|i2: int| 0 <= i2 < state.items@.len() ==> item_follows(prods, ff, #[trigger] state.items@[i2]))
                && reduces_on_follow(*old(table), prods, ff)),
            ok ==> reduces_on_follow(*table, prods, ff),
            forall|t: Terminal| #[trigger] table.spec_action(m as int, t) == actions_written(prods,
                state.items@.take(i as int), transitions@[m as int]@, t, old(table).spec_action(m as int, t)),
            forall|n: NonTerminal| #[trigger] table.spec_goto(m as int, n) == gotos_written(prods,
                state.items@.take(i as int), transitions@[m as int]@, n, old(table).spec_goto(m as int, n)),
            forall|s: int, t: Terminal| s != m ==> #[trigger] table.spec_action(s, t) == old(table).spec_action(s, t),
            forall|s: int, n: NonTerminal| s != m ==> #[trigger] table.spec_goto(s, n) == old(table).spec_goto(s, n),
        decreases state.items@.len() - i,
    {
        let it = state.items[i];
        let ghost before_item = *table;
        let ghost row = transitions@[m as int]@;
        let ghost pre = state.items@.take(i as int);
        let ghost post = state.items@.take(i + 1);
        proof {
            assert(post.drop_last() =~= pre);
            assert(post.last() == it);
        }
        let prod = grammar.production(it.prod_id);
        match prod.symbol_at(it.dot) {
            Some(sym) => {
                let xi = sym_index(sym);
                match transitions[m][xi] {
                    Some(target) => {
                        match sym {
                            Symbol::T(t) => {
                                let ghost before = *table;
                                table.set_action(m, *t, Action::Shift(target));
                                proof {
                                    lemma_set_action_valid(before, *table, m, *t, Action::Shift(target), prods);
                                    if ok {
                                        lemma_set_action_follows(before, *table, m, *t, Action::Shift(target), prods, ff);
                                    }
                                }
                            }
                            Symbol::NT(n) => {
                                let ghost before = *table;
                                table.set_goto(m, *n, target);
                                proof {
                                    assert forall|s: int, n2: NonTerminal| #[trigger] table.spec_goto(s, n2) is Some implies table.spec_goto(s, n2)->0 < table.num_states by {
                                        if !(s == m && n2 == *n) {
                                            assert(table.spec_goto(s, n2) == before.spec_goto(s, n2));
                                        }
                                    }
                                    assert forall|s: int, t: Terminal| #[trigger] table.spec_action(s, t) == before.spec_action(s, t) by {}
                                    if ok {
                                        assert forall|s: int, t: Terminal| reduce_follows(prods, ff, #[trigger] table.spec_action(s, t), t) by {
                                            assert(table.spec_action(s, t) == before.spec_action(s, t));
                                        }
                                    }
                                }
                            }
                        }
                    }
                    None => {}
                }
            }
            None => {
                let ghost before = *table;
                if prod.head == NonTerminal::Start {
                    table.set_action(m, Terminal::Eof, Action::Accept);
                    proof {
                        lemma_set_action_valid(before, *table, m, Terminal::Eof, Action::Accept, prods);
                        if ok {
                            lemma_set_action_follows(before, *table, m, Terminal::Eof, Action::Accept, prods, ff);
                        }
                    }
                } else {
                    table.set_action(m, it.lookahead, Action::Reduce(it.prod_id));
                    proof {
                        lemma_set_action_valid(before, *table, m, it.lookahead, Action::Reduce(it.prod_id), prods);
                        if ok {
                            assert(item_follows(prods, ff, state.items@[i as int]));
                            lemma_set_action_follows(before, *table, m, it.lookahead, Action::Reduce(it.prod_id), prods, ff);
                        }
                    }
                }
            }
        }
        proof {
            assert(row == transitions@[m as int]@);
            assert forall|t: Terminal| #[trigger] table.spec_action(m as int, t) == actions_written(prods,
                post, row, t, old(table).spec_action(m as int, t)) by {
                assert(actions_written(prods, post, row, t, old(table).spec_action(m as int, t))
                    == match item_action(prods, it, row) {
                        Some((u, a)) => if u == t { Some(crate::parser::lalr::parse_table::resolve(
                            actions_written(prods, pre, row, t, old(table).spec_action(m as int, t)), a)) }
                            else { actions_written(prods, pre, row, t, old(table).spec_action(m as int, t)) },
                        None => actions_written(prods, pre, row, t, old(table).spec_action(m as int, t)),
                    });
                assert(before_item.spec_action(m as int, t) == actions_written(prods, pre, row, t, old(table).spec_action(m as int, t)));
            }
            assert forall|n: NonTerminal| #[trigger] table.spec_goto(m as int, n) == gotos_written(prods,
                post, row, n, old(table).spec_goto(m as int, n)) by {
                assert(before_item.spec_goto(m as int, n) == gotos_written(prods, pre, row, n, old(table).spec_goto(m as int, n)));
            }
            assert forall|s: int, t: Terminal| s != m implies #[trigger] table.spec_action(s, t) == old(table).spec_action(s, t) by {
                assert(before_item.spec_action(s, t) == old(table).spec_action(s, t));
            }
            assert forall|s: int, n: NonTerminal| s != m implies #[trigger] table.spec_goto(s, n) == old(table).spec_goto(s, n) by {
                assert(before_item.spec_goto(s, n) == old(table).spec_goto(s, n));
            }
        }
        i = i + 1;
    }
    proof {
        assert(state.items@.take(state.items@.len() as int) =~= state.items@);
    }
}

/// A reduction by `p` written for terminal `t` has `t` in FOLLOW of `p`'s head.
pub open spec fn reduce_follows(prods: Seq<Production>, ff: FirstFollow, a: Option<Action>, t: Terminal) -> bool {
    match a {
        Some(Action::Reduce(p)) => ff.in_follow(prods[p as int].head, t),
        _ => true,
    }
}

/// Every reduction of the table, in every state and on every terminal, is
/// on a terminal in FOLLOW of the reduced production's head.
pub open spec fn reduces_on_follow(table: ParseTable, prods: Seq<Production>, ff: FirstFollow) -> bool {
    forall|s: int, t: Terminal| reduce_follows(prods, ff, #[trigger] table.spec_action(s, t), t)
}

/// Writing an action whose reduction (if it is one) is on a terminal in
/// FOLLOW keeps every reduction of the table on such terminals.
proof fn lemma_set_action_follows(before: ParseTable, after: ParseTable, m: usize, t: Terminal, a: Action,
    prods: Seq<Production>, ff: FirstFollow)
    requires
        reduces_on_follow(before, prods, ff),
        after.spec_action(m as int, t) == Some(crate::parser::lalr::parse_table::resolve(before.spec_action(m as int, t), a)),
        forall|s: int, t2: Terminal| !(s == m && t2 == t) ==> #[trigger] after.spec_action(s, t2) == before.spec_action(s, t2),
        reduce_follows(prods, ff, Some(a), t),
    ensures
        reduces_on_follow(after, prods, ff),
{
    assert forall|s: int, t2: Terminal| reduce_follows(prods, ff, #[trigger] after.spec_action(s, t2), t2) by {
        if s == m && t2 == t {
            assert(reduce_follows(prods, ff, before.spec_action(m as int, t), t));
        } else {
            assert(after.spec_action(s, t2) == before.spec_action(s, t2));
        }
    }
}

/// Writing a valid action into a valid table keeps it valid.
proof fn lemma_set_action_valid(before: ParseTable, after: ParseTable, m: usize, t: Terminal, a: Action, prods: Seq<Production>)
    requires
        table_valid(before, prods),
        m < before.num_states,
        after.wf(),
        after.num_states == before.num_states,
        after.goto@ == before.goto@,
        after.spec_action(m as int, t) == Some(crate::parser::lalr::parse_table::resolve(before.spec_action(m as int, t), a)),
        forall|s: int, t2: Terminal| !(s == m && t2 == t) ==> #[trigger] after.spec_action(s, t2) == before.spec_action(s, t2),
        action_valid(a, t, before.num_states as int, prods),
    ensures
        table_valid(after, prods),
{
    assert forall|s: int, t2: Terminal| #[trigger] after.spec_action(s, t2) is Some implies
        action_valid(after.spec_action(s, t2)->0, t2, after.num_states as int, prods) by {
        if s == m && t2 == t {
            assert(before.spec_action(s, t2) == before.spec_action(m as int, t));
        } else {
            assert(after.spec_action(s, t2) == before.spec_action(s, t2));
        }
    }
    assert forall|s: int, n: NonTerminal| #[trigger] after.spec_goto(s, n) is Some implies after.spec_goto(s, n)->0 < after.num_states by {
        assert(after.spec_goto(s, n) == before.spec_goto(s, n));
    }
}

} // verus!
