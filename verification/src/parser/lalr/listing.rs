//! The text listing of an LR(1) automaton: every state with its items in
//! order and its transitions.
use vstd::prelude::*;
use crate::parser::grammar::Grammar;
use crate::parser::grammar::production::Production;
use crate::parser::grammar::symbol::{
    NonTerminal, Symbol, Terminal, NUM_NONTERMINALS, NUM_TERMINALS, nonterminal_name, terminal_name,
    symbol_text, terminal_name_rank, terminal_by_rank, terminals_by_name, lemma_terminal_name_rank,
    nonterminal_by_name_rank, nonterminal_name_rank, nonterminals_by_name, lemma_nonterminal_name_rank,
};
use crate::parser::lalr::automaton::{Automaton, NUM_SYMBOLS};
use crate::parser::lalr::item::{Item, ItemSet, item_valid, distinct};
use crate::text::{decimal, push_decimal, texts, lemma_texts_push};

verus! {

/// The texts joined by single spaces.
pub open spec fn space_join(parts: Seq<Seq<char>>) -> Seq<char>
    decreases parts.len(),
{
    if parts.len() == 0 {
        Seq::empty()
    } else if parts.len() == 1 {
        parts[0]
    } else {
        space_join(parts.drop_last()) + " "@ + parts.last()
    }
}

/// The display texts of the symbols.
pub open spec fn symbol_texts(syms: Seq<Symbol>) -> Seq<Seq<char>> {
    syms.map_values(|s: Symbol| symbol_text(s))
}

/// The body's symbol texts with the dot `•` inserted at position `dot`.
pub open spec fn dotted_parts(body: Seq<Symbol>, dot: int) -> Seq<Seq<char>> {
    symbol_texts(body.take(dot)) + seq!["•"@] + symbol_texts(body.skip(dot))
}

/// The listing line of an item: `[Head → α • β, Lookahead]`.
pub open spec fn item_line(prods: Seq<Production>, it: Item) -> Seq<char> {
    "  ["@ + nonterminal_name(prods[it.prod_id as int].head) + " → "@
        + space_join(dotted_parts(prods[it.prod_id as int].body@, it.dot as int))
        + ", "@ + terminal_name(it.lookahead) + "]"@
}

/// The listing order of items: by production, then dot, then lookahead name.
pub open spec fn item_before(a: Item, b: Item) -> bool {
    ||| a.prod_id < b.prod_id
    ||| a.prod_id == b.prod_id && a.dot < b.dot
    ||| a.prod_id == b.prod_id && a.dot == b.dot && terminal_name_rank(a.lookahead) < terminal_name_rank(b.lookahead)
}

/// `sorted` lists the items of `items`, each once, in listing order.
pub open spec fn sorts(sorted: Seq<Item>, items: Seq<Item>) -> bool {
    &&& sorted.len() == items.len()
    &&& forall|x: Item| sorted.contains(x) <==> items.contains(x)
    &&& forall|i: int, j: int| 0 <= i < j < sorted.len() ==> item_before(#[trigger] sorted[i], #[trigger] sorted[j])
}

/// Symbols in the order of their debug text: non-terminals by name, then
/// terminals by name.
pub open spec fn symbol_by_debug_rank(r: nat) -> Symbol {
    if r < NUM_NONTERMINALS {
        Symbol::NT(nonterminal_by_name_rank(r))
    } else {
        Symbol::T(terminal_by_rank((r - NUM_NONTERMINALS) as nat))
    }
}

/// The position of the first transition of `row` labelled `x`.
pub open spec fn first_edge(row: Seq<(Symbol, usize)>, x: Symbol) -> Option<int> {
    if exists|k: int| 0 <= k < row.len() && row[k].0 == x {
        Some(choose|k: int| 0 <= k < row.len() && row[k].0 == x && forall|j: int| 0 <= j < k ==> row[j].0 != x)
    } else {
        None
    }
}

/// The listing line of a transition.
pub open spec fn trans_line(state: nat, x: Symbol, dst: nat) -> Seq<char> {
    "  → "@ + decimal(state) + "  ──"@ + symbol_text(x) + "──>  Estado "@ + decimal(dst)
}

/// The transition lines of a state, for the first `q` symbols in debug order.
pub open spec fn trans_lines(state: nat, row: Seq<(Symbol, usize)>, q: nat) -> Seq<Seq<char>>
    decreases q,
{
    if q == 0 {
        Seq::empty()
    } else {
        let x = symbol_by_debug_rank((q - 1) as nat);
        let rest = trans_lines(state, row, (q - 1) as nat);
        match first_edge(row, x) {
            Some(k) => rest.push(trans_line(state, x, row[k].1 as nat)),
            None => rest,
        }
    }
}

/// The lines of one state: heading, items in the given order, transitions.
pub open spec fn state_block(prods: Seq<Production>, state: nat, order: Seq<Item>, row: Seq<(Symbol, usize)>) -> Seq<Seq<char>> {
    seq!["=== Estado "@ + decimal(state) + " ==="@] + order.map_values(|it: Item| item_line(prods, it))
        + trans_lines(state, row, NUM_SYMBOLS as nat)
}

/// The lines of the first `k` states, each with its items in `orders[s]`.
pub open spec fn automaton_lines(prods: Seq<Production>, ids: Seq<usize>, orders: Seq<Seq<Item>>,
    rows: Seq<Vec<(Symbol, usize)>>, k: nat) -> Seq<Seq<char>>
    decreases k,
{
    if k == 0 {
        Seq::empty()
    } else {
        automaton_lines(prods, ids, orders, rows, (k - 1) as nat)
            + state_block(prods, ids[k - 1] as nat, orders[k - 1], rows[k - 1]@)
    }
}

/// The ids of the states, in order.
pub open spec fn state_ids(states: Seq<ItemSet>) -> Seq<usize> {
    states.map_values(|st: ItemSet| st.id)
}

/// The first edge of a row is the one a scan from the front finds.
proof fn lemma_first_edge(row: Seq<(Symbol, usize)>, x: Symbol, k: int)
    requires
        0 <= k < row.len(),
        row[k].0 == x,
        forall|j: int| 0 <= j < k ==> row[j].0 != x,
    ensures
        first_edge(row, x) == Some(k),
{
    let i = choose|i: int| 0 <= i < row.len() && row[i].0 == x && forall|j: int| 0 <= j < i ==> row[j].0 != x;
    assert(0 <= i < row.len() && row[i].0 == x);
    if i < k {
        assert(row[i].0 != x);
    }
    if i > k {
        assert(row[k].0 != x);
    }
}

/// The listing order is a strict total order on items.
proof fn lemma_item_order(a: Item, b: Item, c: Item)
    ensures
        !item_before(a, a),
        a != b ==> item_before(a, b) || item_before(b, a),
        item_before(a, b) && item_before(b, c) ==> item_before(a, c),
        item_before(a, b) ==> !item_before(b, a),
{
    lemma_terminal_name_rank(a.lookahead);
    lemma_terminal_name_rank(b.lookahead);
}

/// Whether `a` comes before `b` in listing order.
fn item_before_exec(a: &Item, b: &Item) -> (r: bool)
    ensures
        r == item_before(*a, *b),
{
    if a.prod_id != b.prod_id {
        return a.prod_id < b.prod_id;
    }
    if a.dot != b.dot {
        return a.dot < b.dot;
    }
    a.lookahead.name_rank() < b.lookahead.name_rank()
}

/// The items, each once, in listing order.
fn sort_items(items: &Vec<Item>) -> (r: Vec<Item>)
    requires
        distinct(items@),
    ensures
        sorts(r@, items@),
{
    let mut out: Vec<Item> = Vec::new();
    let mut k: usize = 0;
    while k < items.len()
        invariant
            distinct(items@),
            k <= items@.len(),
            out@.len() == k,
            forall|x: Item| out@.contains(x) <==> items@.take(k as int).contains(x),
            forall|i: int, j: int| 0 <= i < j < out@.len() ==> item_before(#[trigger] out@[i], #[trigger] out@[j]),
        decreases items@.len() - k,
    {
        let it = items[k];
        let mut pos: usize = 0;
        while pos < out.len() && !item_before_exec(&it, &out[pos])
            invariant
                pos <= out@.len(),
                forall|j: int| 0 <= j < pos ==> !item_before(it, #[trigger] out@[j]),
            decreases out@.len() - pos,
        {
            pos = pos + 1;
        }
        proof {
            assert(!out@.contains(it)) by {
                if out@.contains(it) {
                    let i = choose|i: int| 0 <= i < k && items@.take(k as int)[i] == it;
                    assert(items@[i] == items@[k as int]);
                }
            }
        }
        let ghost before = out@;
        out.insert(pos, it);
        proof {
            assert(out@[pos as int] == it);
            assert(items@.take(k + 1) =~= items@.take(k as int).push(it));
            assert forall|x: Item| out@.contains(x) <==> items@.take(k + 1).contains(x) by {
                if x == it {
                    assert(out@.contains(x));
                    assert(items@.take(k + 1)[k as int] == it);
                }
                if items@.take(k as int).contains(x) {
                    assert(before.contains(x));
                }
                if items@.take(k + 1).contains(x) && x != it {
                    let i = choose|i: int| 0 <= i < k + 1 && #[trigger] items@.take(k + 1)[i] == x;
                    assert(items@.take(k as int)[i] == x);
                    assert(before.contains(x));
                }
                if out@.contains(x) {
                    let i = choose|i: int| 0 <= i < out@.len() && out@[i] == x;
                    if i < pos {
                        assert(before[i] == x);
                    } else if i > pos {
                        assert(before[i - 1] == x);
                    }
                }
                if before.contains(x) {
                    let i = choose|i: int| 0 <= i < before.len() && before[i] == x;
                    if i < pos {
                        assert(out@[i] == x);
                    } else {
                        assert(out@[i + 1] == x);
                    }
                }
                assert(out@[pos as int] == it);
            }
            assert forall|i: int, j: int| 0 <= i < j < out@.len() implies item_before(#[trigger] out@[i], #[trigger] out@[j]) by {
                if j < pos {
                    assert(out@[i] == before[i] && out@[j] == before[j]);
                } else if j == pos {
                    assert(out@[i] == before[i]);
                    lemma_item_order(before[i], it, it);
                    assert(before[i] != it);
                } else if i == pos {
                    assert(out@[j] == before[j - 1]);
                    assert(item_before(it, before[pos as int]));
                    if j - 1 > pos {
                        lemma_item_order(it, before[pos as int], before[j - 1]);
                    }
                } else if i < pos {
                    assert(out@[i] == before[i] && out@[j] == before[j - 1]);
                } else {
                    assert(out@[i] == before[i - 1] && out@[j] == before[j - 1]);
                }
            }
        }
        k = k + 1;
    }
    assert(items@.take(items@.len() as int) =~= items@);
    out
}

/// Appends `piece` to `s`.
fn push_str(s: &mut String, piece: &str)
    ensures
        final(s)@ == old(s)@ + piece@,
{
    s.append(piece);
}

/// The symbol at a position in debug order.
fn symbol_at_debug_rank(q: usize, nts: &Vec<NonTerminal>, ts: &Vec<Terminal>) -> (x: Symbol)
    requires
        q < NUM_SYMBOLS,
        nts@.len() == NUM_NONTERMINALS,
        forall|r: int| 0 <= r < NUM_NONTERMINALS ==> nonterminal_name_rank(#[trigger] nts@[r]) == r,
        ts@.len() == NUM_TERMINALS,
        forall|r: int| 0 <= r < NUM_TERMINALS ==> terminal_name_rank(#[trigger] ts@[r]) == r,
    ensures
        x == symbol_by_debug_rank(q as nat),
{
    if q < NUM_NONTERMINALS {
        proof { lemma_nonterminal_name_rank(nts@[q as int]); }
        Symbol::NT(nts[q])
    } else {
        proof { lemma_terminal_name_rank(ts@[q - NUM_NONTERMINALS]); }
        Symbol::T(ts[q - NUM_NONTERMINALS])
    }
}

/// The listing line of an item.
fn item_text(grammar: &Grammar, it: &Item) -> (s: String)
    requires
        item_valid(grammar.productions@, *it),
    ensures
        s@ == item_line(grammar.productions@, *it),
{
    let prod = &grammar.productions[it.prod_id];
    let mut s = String::new();
    push_str(&mut s, "  [");
    push_str(&mut s, prod.head.name());
    push_str(&mut s, " → ");
    let ghost start = s@;
    let ghost parts = dotted_parts(prod.body@, it.dot as int);
    let ghost mut emitted: int = 0;
    let mut any = false;
    let mut i: usize = 0;
    while i < prod.body.len()
        invariant
            item_valid(grammar.productions@, *it),
            *prod == grammar.productions@[it.prod_id as int],
            parts == dotted_parts(prod.body@, it.dot as int),
            parts.len() == prod.body@.len() + 1,
            i <= prod.body@.len(),
            emitted == if i <= it.dot { i as int } else { i + 1 },
            any == (emitted > 0),
            s@ == start + space_join(parts.take(emitted)),
        decreases prod.body@.len() - i,
    {
        if i == it.dot {
            proof {
                assert(parts[emitted] == "•"@);
                assert(parts.take(emitted + 1).drop_last() =~= parts.take(emitted));
            }
            if any {
                push_str(&mut s, " ");
            }
            push_str(&mut s, "•");
            any = true;
            proof {
                emitted = emitted + 1;
            }
            assert(s@ =~= start + space_join(parts.take(emitted)));
        }
        proof {
            if i < it.dot {
                assert(parts[emitted] == symbol_texts(prod.body@.take(it.dot as int))[i as int]);
            } else {
                assert(parts[emitted] == symbol_texts(prod.body@.skip(it.dot as int))[i - it.dot]);
            }
            assert(parts[emitted] == symbol_text(prod.body@[i as int]));
            assert(parts.take(emitted + 1).drop_last() =~= parts.take(emitted));
        }
        if any {
            push_str(&mut s, " ");
        }
        push_str(&mut s, prod.body[i].text());
        any = true;
        proof {
            emitted = emitted + 1;
        }
        assert(s@ =~= start + space_join(parts.take(emitted)));
        i = i + 1;
    }
    if it.dot == prod.body.len() {
        proof {
            assert(emitted == prod.body@.len());
            assert(parts[emitted] == "•"@);
            assert(parts.take(emitted + 1).drop_last() =~= parts.take(emitted));
        }
        if any {
            push_str(&mut s, " ");
        }
        push_str(&mut s, "•");
        proof {
            emitted = emitted + 1;
        }
        assert(s@ =~= start + space_join(parts.take(emitted)));
    }
    proof {
        assert(emitted == parts.len());
        assert(parts.take(emitted) =~= parts);
    }
    push_str(&mut s, ", ");
    push_str(&mut s, it.lookahead.name());
    push_str(&mut s, "]");
    proof {
        reveal_strlit("  ["); reveal_strlit(" → "); reveal_strlit(", "); reveal_strlit("]");
        reveal_strlit(" "); reveal_strlit("•");
    }
    assert(s@ =~= item_line(grammar.productions@, *it));
    s
}

/// The listing line of a transition.
fn trans_text(state: usize, x: Symbol, dst: usize) -> (s: String)
    ensures
        s@ == trans_line(state as nat, x, dst as nat),
{
    let mut s = String::new();
    push_str(&mut s, "  → ");
    push_decimal(&mut s, state);
    push_str(&mut s, "  ──");
    push_str(&mut s, x.text());
    push_str(&mut s, "──>  Estado ");
    push_decimal(&mut s, dst);
    proof { reveal_strlit("  → "); reveal_strlit("  ──"); reveal_strlit("──>  Estado "); }
    assert(s@ =~= trans_line(state as nat, x, dst as nat));
    s
}

impl Automaton {
    /// The listing of every state: a heading with its id, its items in
    /// listing order, then its transitions in the debug order of their symbols.
    pub fn report(&self, grammar: &Grammar) -> (lines: Vec<String>)
        requires
            self.transitions@.len() == self.states@.len(),
            forall|s: int| 0 <= s < self.states@.len() ==> distinct(#[trigger] self.states@[s].items@),
            forall|s: int, i: int| 0 <= s < self.states@.len() && 0 <= i < self.states@[s].items@.len()
                ==> item_valid(grammar.productions@, #[trigger] self.states@[s].items@[i]),
        ensures
            exists|orders: Seq<Seq<Item>>| orders.len() == self.states@.len()
                && (forall|s: int| 0 <= s < orders.len() ==> sorts(#[trigger] orders[s], self.states@[s].items@))
                && texts(lines@) == #[trigger] automaton_lines(grammar.productions@,
                    state_ids(self.states@),
                    orders, self.transitions@, self.states@.len() as nat),
    {
        let ghost prods = grammar.productions@;
        let ghost ids = state_ids(self.states@);
        let nts = nonterminals_by_name();
        let ts = terminals_by_name();
        let mut lines: Vec<String> = Vec::new();
        let ghost mut orders: Seq<Seq<Item>> = Seq::empty();
        let mut s: usize = 0;
        while s < self.states.len()
            invariant
                self.transitions@.len() == self.states@.len(),
                forall|s2: int| 0 <= s2 < self.states@.len() ==> distinct(#[trigger] self.states@[s2].items@),
                forall|s2: int, i: int| 0 <= s2 < self.states@.len() && 0 <= i < self.states@[s2].items@.len()
                    ==> item_valid(grammar.productions@, #[trigger] self.states@[s2].items@[i]),
                prods == grammar.productions@,
                ids == state_ids(self.states@),
                nts@.len() == NUM_NONTERMINALS,
                forall|r: int| 0 <= r < NUM_NONTERMINALS ==> nonterminal_name_rank(#[trigger] nts@[r]) == r,
                ts@.len() == NUM_TERMINALS,
                forall|r: int| 0 <= r < NUM_TERMINALS ==> terminal_name_rank(#[trigger] ts@[r]) == r,
                s <= self.states@.len(),
                orders.len() == s,
                forall|s2: int| 0 <= s2 < s ==> sorts(#[trigger] orders[s2], self.states@[s2].items@),
                texts(lines@) == automaton_lines(prods, ids, orders, self.transitions@, s as nat),
            decreases self.states@.len() - s,
        {
            let id = self.states[s].id;
            let ghost base = texts(lines@);
            let ghost old_orders = orders;
            let mut head = String::new();
            push_str(&mut head, "=== Estado ");
            push_decimal(&mut head, id);
            push_str(&mut head, " ===");
            proof { reveal_strlit("=== Estado "); reveal_strlit(" ==="); }
            let ghost l0 = lines@;
            lines.push(head);
            proof { lemma_texts_push(l0, head); }
            let sorted = sort_items(&self.states[s].items);
            proof {
                assert forall|i: int| 0 <= i < sorted@.len() implies item_valid(grammar.productions@, #[trigger] sorted@[i]) by {
                    assert(sorted@.contains(sorted@[i]));
                    assert(self.states@[s as int].items@.contains(sorted@[i]));
                    let j = choose|j: int| 0 <= j < self.states@[s as int].items@.len() && self.states@[s as int].items@[j] == sorted@[i];
                    assert(item_valid(grammar.productions@, self.states@[s as int].items@[j]));
                }
            }
            let ghost after_head = texts(lines@);
            let mut k: usize = 0;
            while k < sorted.len()
                invariant
                    forall|i: int| 0 <= i < sorted@.len() ==> item_valid(grammar.productions@, #[trigger] sorted@[i]),
                    prods == grammar.productions@,
                    k <= sorted@.len(),
                    texts(lines@) == after_head + sorted@.take(k as int).map_values(|it: Item| item_line(prods, it)),
                decreases sorted@.len() - k,
            {
                let line = item_text(grammar, &sorted[k]);
                let ghost l1 = lines@;
                lines.push(line);
                proof {
                    lemma_texts_push(l1, line);
                    assert(sorted@.take(k + 1).map_values(|it: Item| item_line(prods, it))
                        =~= sorted@.take(k as int).map_values(|it: Item| item_line(prods, it)).push(item_line(prods, sorted@[k as int])));
                }
                k = k + 1;
            }
            let ghost after_items = texts(lines@);
            let row = &self.transitions[s];
            let mut q: usize = 0;
            while q < NUM_SYMBOLS
                invariant
                    nts@.len() == NUM_NONTERMINALS,
                    forall|r: int| 0 <= r < NUM_NONTERMINALS ==> nonterminal_name_rank(#[trigger] nts@[r]) == r,
                    ts@.len() == NUM_TERMINALS,
                    forall|r: int| 0 <= r < NUM_TERMINALS ==> terminal_name_rank(#[trigger] ts@[r]) == r,
                    q <= NUM_SYMBOLS,
                    texts(lines@) == after_items + trans_lines(id as nat, row@, q as nat),
                decreases NUM_SYMBOLS - q,
            {
                let x = symbol_at_debug_rank(q, &nts, &ts);
                let mut k2: usize = 0;
                while k2 < row.len() && row[k2].0 != x
                    invariant
                        k2 <= row@.len(),
                        forall|j: int| 0 <= j < k2 ==> row@[j].0 != x,
                    decreases row@.len() - k2,
                {
                    k2 = k2 + 1;
                }
                if k2 < row.len() {
                    proof { lemma_first_edge(row@, x, k2 as int); }
                    let line = trans_text(id, x, row[k2].1);
                    let ghost l2 = lines@;
                    lines.push(line);
                    proof { lemma_texts_push(l2, line); }
                } else {
                    assert(first_edge(row@, x) is None);
                }
                assert(texts(lines@) =~= after_items + trans_lines(id as nat, row@, (q + 1) as nat));
                q = q + 1;
            }
            proof {
                assert(sorted@.take(sorted@.len() as int) =~= sorted@);
                orders = orders.push(sorted@);
                assert(ids[s as int] == id);
                assert(orders[s as int] == sorted@);
                lemma_lines_prefix(prods, ids, old_orders, orders, self.transitions@, s as nat);
                assert(base == automaton_lines(prods, ids, orders, self.transitions@, s as nat));
                assert(texts(lines@) =~= automaton_lines(prods, ids, orders, self.transitions@, (s + 1) as nat));
            }
            s = s + 1;
        }
        lines
    }
}

/// The listing of the first `k` states depends only on the first `k` orders.
proof fn lemma_lines_prefix(prods: Seq<Production>, ids: Seq<usize>, a: Seq<Seq<Item>>, b: Seq<Seq<Item>>,
    rows: Seq<Vec<(Symbol, usize)>>, k: nat)
    requires
        k <= a.len(),
        k <= b.len(),
        forall|i: int| 0 <= i < k ==> a[i] == b[i],
    ensures
        automaton_lines(prods, ids, a, rows, k) == automaton_lines(prods, ids, b, rows, k),
    decreases k,
{
    if k > 0 {
        lemma_lines_prefix(prods, ids, a, b, rows, (k - 1) as nat);
    }
}

} // verus!
