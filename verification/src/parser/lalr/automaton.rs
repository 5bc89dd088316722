//! The canonical collection of LR(1) item sets and its transitions.
//!
//! The initial state is the closure of `[Start → • Program Eof, $]`; from every
//! state `I` and every symbol `X` that some item of `I` expects, the state
//! `GOTO(I, X)` is the closure of the items of `I` with the dot moved past `X`.
//! A state is identified by its kernel (the items it was created from): the
//! closure only adds items whose dot is at the start, so equal kernels give
//! equal states.
use vstd::prelude::*;
use crate::parser::grammar::Grammar;
use crate::parser::grammar::production::Production;
use crate::parser::grammar::symbol::{
    NonTerminal, Symbol, Terminal, NUM_NONTERMINALS, NUM_TERMINALS, nonterminal_index, terminal_index,
    lemma_terminal_index, lemma_terminal_at, lemma_nonterminal_index,
};
use crate::parser::grammar::lemma_ids_with_head;
use crate::parser::lalr::first_follow::{FirstFollow, lemma_terminal_index_eq};
use crate::parser::lalr::item::{Item, ItemSet, item_valid, after_dot, advanced, distinct, contains_item};
use crate::seqs::{count_true, falses, lemma_count_true_le, lemma_count_true_set, lemma_push_contains, lemma_sorted_unique};

verus! {

/// Number of grammar symbols: terminals first, then non-terminals.
pub const NUM_SYMBOLS: usize = 117;

/// Position of a symbol among all grammar symbols.
pub open spec fn symbol_index(s: Symbol) -> nat {
    match s {
        Symbol::T(t) => terminal_index(t),
        Symbol::NT(n) => (NUM_TERMINALS + nonterminal_index(n)) as nat,
    }
}

/// Index of the first cell of production `p` in the table of (production, dot) pairs.
pub open spec fn core_base(prods: Seq<Production>, p: int) -> int
    decreases p,
{
    if p <= 0 { 0 } else { core_base(prods, p - 1) + prods[p - 1].body@.len() + 1 }
}

/// Index of the pair (production `p`, dot `d`).
pub open spec fn core_of(prods: Seq<Production>, p: int, d: int) -> int {
    core_base(prods, p) + d
}

/// Index of an item in the table of (production, dot, lookahead) triples.
pub open spec fn item_cell(prods: Seq<Production>, it: Item) -> int {
    core_of(prods, it.prod_id as int, it.dot as int) * NUM_TERMINALS + terminal_index(it.lookahead)
}

/// Number of cells of that table.
pub open spec fn num_cells(prods: Seq<Production>) -> int {
    core_base(prods, prods.len() as int) * NUM_TERMINALS
}

/// One step of LR(1) closure: from `[A → α • B β, a]` to `[B → • γ, b]` for
/// every production `B → γ` and every `b` in FIRST(β a).
pub open spec fn closure_step(prods: Seq<Production>, ff: FirstFollow, it: Item, it2: Item) -> bool {
    &&& it2.dot == 0
    &&& it2.prod_id < prods.len()
    &&& after_dot(prods, it) == Some(Symbol::NT(prods[it2.prod_id as int].head))
    &&& ff.str_first_la(prods[it.prod_id as int].body@.skip(it.dot + 1), it.lookahead, it2.lookahead)
}

/// The item at position `j` follows by one closure step from an item
/// listed before it.
pub open spec fn justified(prods: Seq<Production>, ff: FirstFollow, items: Seq<Item>, j: int) -> bool {
    exists|i: int| 0 <= i < j && #[trigger] closure_step(prods, ff, items[i], items[j])
}

/// The item every parse starts from: `[Start → • Program $, $]`.
pub open spec fn start_item() -> Item {
    Item { prod_id: 0, dot: 0, lookahead: Terminal::Eof }
}

/// Item `i` of state `t` has a source: it is the start item of the first
/// state, the advance of an item of some state over the symbol after its
/// dot, or one closure step from an item listed before it in its state.
pub open spec fn item_origin(prods: Seq<Production>, ff: FirstFollow, states: Seq<ItemSet>, t: int, i: int) -> bool {
    ||| t == 0 && states[t].items@[i] == start_item()
    ||| exists|s2: int, j: int| 0 <= s2 < states.len() && 0 <= j < states[s2].items@.len()
            && after_dot(prods, #[trigger] states[s2].items@[j]) is Some && advanced(states[s2].items@[j]) == states[t].items@[i]
    ||| justified(prods, ff, states[t].items@, i)
}

/// Every item of every state has a source.
pub open spec fn all_items_sourced(prods: Seq<Production>, ff: FirstFollow, states: Seq<ItemSet>) -> bool {
    forall|t: int, i: int| 0 <= t < states.len() && 0 <= i < states[t].items@.len()
        ==> #[trigger] item_origin(prods, ff, states, t, i)
}

/// A new state whose leading items (its kernel) advance items of an
/// existing state and whose other items follow by closure steps keeps
/// every item sourced.
pub proof fn lemma_sourced_push(prods: Seq<Production>, ff: FirstFollow, old: Seq<ItemSet>, st: ItemSet, s: int, kernel: Seq<Item>)
    requires
        all_items_sourced(prods, ff, old),
        0 <= s < old.len(),
        st.items@.len() >= kernel.len(),
        forall|i: int| 0 <= i < kernel.len() ==> #[trigger] st.items@[i] == kernel[i],
        forall|i: int| kernel.len() <= i < st.items@.len() ==> justified(prods, ff, st.items@, i),
        forall|c: int| #![trigger kernel[c]] 0 <= c < kernel.len() ==> exists|j: int| 0 <= j < old[s].items@.len()
            && after_dot(prods, #[trigger] old[s].items@[j]) is Some && advanced(old[s].items@[j]) == kernel[c],
    ensures
        all_items_sourced(prods, ff, old.push(st)),
{
    let new = old.push(st);
    assert forall|t: int, i: int| 0 <= t < new.len() && 0 <= i < new[t].items@.len()
        implies #[trigger] item_origin(prods, ff, new, t, i) by {
        if t < old.len() {
            assert(new[t] == old[t]);
            assert(item_origin(prods, ff, old, t, i));
            if !(t == 0 && old[t].items@[i] == start_item()) && !justified(prods, ff, old[t].items@, i) {
                let (s2, j) = choose|s2: int, j: int| 0 <= s2 < old.len() && 0 <= j < old[s2].items@.len()
                    && after_dot(prods, #[trigger] old[s2].items@[j]) is Some && advanced(old[s2].items@[j]) == old[t].items@[i];
                assert(new[s2] == old[s2]);
                assert(after_dot(prods, new[s2].items@[j]) is Some);
            }
        } else {
            assert(new[t] == st);
            if i < kernel.len() {
                let j = choose|j: int| 0 <= j < old[s].items@.len()
                    && after_dot(prods, #[trigger] old[s].items@[j]) is Some && advanced(old[s].items@[j]) == kernel[i];
                assert(new[s] == old[s]);
                assert(after_dot(prods, new[s].items@[j]) is Some);
            }
        }
    }
}

/// A set of items is closed under `closure_step`.
pub open spec fn closed(prods: Seq<Production>, ff: FirstFollow, items: Seq<Item>) -> bool {
    forall|i: int, it2: Item| 0 <= i < items.len() && #[trigger] closure_step(prods, ff, items[i], it2)
        ==> items.contains(it2)
}

/// Every item of `src` that expects `x` appears, advanced, in `dst`.
pub open spec fn edge_ok(prods: Seq<Production>, src: Seq<Item>, dst: Seq<Item>, x: Symbol) -> bool {
    forall|i: int| 0 <= i < src.len() && after_dot(prods, #[trigger] src[i]) == Some(x)
        ==> dst.contains(advanced(src[i]))
}

/// Some transition of the list is labelled `x`.
pub open spec fn has_edge(trans: Seq<(Symbol, usize)>, x: Symbol) -> bool {
    exists|k: int| 0 <= k < trans.len() && trans[k].0 == x
}

/// Some item of the first `n` items has a cell equal to `c`.
pub open spec fn some_cell(prods: Seq<Production>, items: Seq<Item>, n: int, c: int) -> bool {
    exists|j: int| 0 <= j < n && item_cell(prods, #[trigger] items[j]) == c
}

/// The strictly increasing sequences of numbers below `n`.
pub open spec fn incr_seqs(n: nat) -> Set<Seq<usize>>
    decreases n,
{
    if n == 0 {
        set![Seq::<usize>::empty()]
    } else {
        let p = incr_seqs((n - 1) as nat);
        p.union(p.map(|s: Seq<usize>| s.push((n - 1) as usize)))
    }
}


/// How the states' kernels are laid out and told apart: state 0 starts with
/// the start item, every other state with `klen[t] >= 1` items whose dot
/// has moved; after its kernel each state holds only items with the dot at
/// the start; each key is strictly increasing; and no two states share a
/// key.
pub open spec fn kernels_apart(states: Seq<ItemSet>, keys: Seq<Vec<usize>>, klen: Seq<usize>) -> bool {
    &&& keys.len() == states.len()
    &&& klen.len() == states.len()
    &&& states.len() >= 1
    &&& klen[0] == 1
    &&& states[0].items@.len() >= 1
    &&& states[0].items@[0] == start_item()
    &&& forall|t: int| 0 <= t < states.len() ==> 1 <= #[trigger] klen[t] <= states[t].items@.len()
    &&& forall|t: int, i: int| 0 < t < states.len() && 0 <= i < klen[t] ==> (#[trigger] states[t].items@[i]).dot > 0
    &&& forall|t: int, i: int| 0 <= t < states.len() && klen[t] <= i < states[t].items@.len()
            ==> (#[trigger] states[t].items@[i]).dot == 0
    &&& forall|t: int, a: int, b: int| 0 <= t < keys.len() && 0 <= a < b < keys[t]@.len()
            ==> #[trigger] keys[t]@[a] < #[trigger] keys[t]@[b]
    &&& forall|t1: int, t2: int| 0 <= t1 < t2 < keys.len() ==> #[trigger] keys[t1]@ != #[trigger] keys[t2]@
}

/// A new state whose kernel is past its first symbol, whose other items
/// have the dot at the start, and whose sorted key no state has yet keeps
/// the kernels apart.
proof fn lemma_kernels_apart_push(states: Seq<ItemSet>, keys: Seq<Vec<usize>>, klen: Seq<usize>,
    st: ItemSet, key: Vec<usize>, kl: usize)
    requires
        kernels_apart(states, keys, klen),
        1 <= kl <= st.items@.len(),
        forall|i: int| 0 <= i < kl ==> (#[trigger] st.items@[i]).dot > 0,
        forall|i: int| kl <= i < st.items@.len() ==> (#[trigger] st.items@[i]).dot == 0,
        forall|a: int, b: int| 0 <= a < b < key@.len() ==> key@[a] < key@[b],
        forall|t: int| 0 <= t < keys.len() ==> (#[trigger] keys[t])@ != key@,
    ensures
        kernels_apart(states.push(st), keys.push(key), klen.push(kl)),
{
    let s2 = states.push(st);
    let k2 = keys.push(key);
    let l2 = klen.push(kl);
    let n = states.len() as int;
    assert(s2[0] == states[0]);
    assert(l2[0] == klen[0]);
    assert forall|t: int| 0 <= t < s2.len() implies 1 <= #[trigger] l2[t] <= s2[t].items@.len() by {
        if t < n { assert(l2[t] == klen[t] && s2[t] == states[t]); }
    }
    assert forall|t: int, i: int| 0 < t < s2.len() && 0 <= i < l2[t] implies (#[trigger] s2[t].items@[i]).dot > 0 by {
        if t < n { assert(l2[t] == klen[t] && s2[t] == states[t]); }
    }
    assert forall|t: int, i: int| 0 <= t < s2.len() && l2[t] <= i < s2[t].items@.len()
        implies (#[trigger] s2[t].items@[i]).dot == 0 by {
        if t < n { assert(l2[t] == klen[t] && s2[t] == states[t]); }
    }
    assert forall|t: int, a: int, b: int| 0 <= t < k2.len() && 0 <= a < b < k2[t]@.len()
        implies #[trigger] k2[t]@[a] < #[trigger] k2[t]@[b] by {
        if t < n { assert(k2[t] == keys[t]); }
    }
    assert forall|t1: int, t2: int| 0 <= t1 < t2 < k2.len() implies #[trigger] k2[t1]@ != #[trigger] k2[t2]@ by {
        assert(k2[t1] == keys[t1]);
        if t2 < n { assert(k2[t2] == keys[t2]); }
    }
}

/// Items that advance valid items past a symbol have their dot past the
/// start, when the item table fits in a machine word.
proof fn lemma_kernel_moved(prods: Seq<Production>, items: Seq<Item>, kernel: Seq<Item>)
    requires
        num_cells(prods) <= usize::MAX,
        forall|i: int| 0 <= i < items.len() ==> item_valid(prods, #[trigger] items[i]),
        forall|c: int| 0 <= c < kernel.len() ==> exists|i: int| 0 <= i < items.len()
            && after_dot(prods, #[trigger] items[i]) is Some && advanced(items[i]) == #[trigger] kernel[c],
    ensures
        forall|c: int| 0 <= c < kernel.len() ==> (#[trigger] kernel[c]).dot > 0,
{
    assert forall|c: int| 0 <= c < kernel.len() implies (#[trigger] kernel[c]).dot > 0 by {
        let i = choose|i: int| 0 <= i < items.len()
            && after_dot(prods, #[trigger] items[i]) is Some && advanced(items[i]) == kernel[c];
        let it = items[i];
        assert(item_valid(prods, it));
        lemma_item_cell(prods, it);
        lemma_core_base_nonneg(prods, it.prod_id as int);
        lemma_terminal_index(it.lookahead);
        assert(it.dot + 1 <= usize::MAX);
    }
}

/// Items that follow by closure steps have the dot at the start.
proof fn lemma_closure_rest(prods: Seq<Production>, ff: FirstFollow, r: Seq<Item>, kl: int)
    requires
        forall|j: int| kl <= j < r.len() ==> justified(prods, ff, r, j),
    ensures
        forall|j: int| kl <= j < r.len() ==> (#[trigger] r[j]).dot == 0,
{
    assert forall|j: int| kl <= j < r.len() implies (#[trigger] r[j]).dot == 0 by {
        assert(justified(prods, ff, r, j));
        let i = choose|i: int| 0 <= i < j && #[trigger] closure_step(prods, ff, r[i], r[j]);
    }
}

/// States whose kernels are apart, and whose keys list their kernel cells,
/// have different item lists.
proof fn lemma_states_apart(prods: Seq<Production>, states: Seq<ItemSet>, keys: Seq<Vec<usize>>, klen: Seq<usize>, t1: int, t2: int)
    requires
        kernels_apart(states, keys, klen),
        forall|t: int, c: usize| 0 <= t < states.len() ==>
            (#[trigger] keys[t]@.contains(c) <==> some_cell(prods, states[t].items@, klen[t] as int, c as int)),
        0 <= t1 < t2 < states.len(),
    ensures
        states[t1].items@ != states[t2].items@,
{
    let a = states[t1].items@;
    let b = states[t2].items@;
    if a == b {
        assert(b[0].dot > 0);
        if t1 == 0 {
            assert(a[0] == start_item());
        } else {
            if klen[t1] < klen[t2] {
                assert(a[klen[t1] as int].dot == 0);
                assert(b[klen[t1] as int].dot > 0);
            }
            if klen[t2] < klen[t1] {
                assert(b[klen[t2] as int].dot == 0);
                assert(a[klen[t2] as int].dot > 0);
            }
            assert(klen[t1] == klen[t2]);
            assert forall|c: usize| keys[t1]@.contains(c) <==> keys[t2]@.contains(c) by {
                assert(keys[t1]@.contains(c) <==> some_cell(prods, a, klen[t1] as int, c as int));
                assert(keys[t2]@.contains(c) <==> some_cell(prods, b, klen[t2] as int, c as int));
            }
            lemma_sorted_unique(keys[t1]@, keys[t2]@);
            assert(keys[t1]@ != keys[t2]@);
        }
    }
}

/// The lookahead of the item is in FOLLOW of its production's head.
pub open spec fn item_follows(prods: Seq<Production>, ff: FirstFollow, it: Item) -> bool {
    ff.in_follow(prods[it.prod_id as int].head, it.lookahead)
}

/// Every item of every state has a lookahead that can follow its
/// production's head.
pub open spec fn lookaheads_follow(prods: Seq<Production>, ff: FirstFollow, states: Seq<ItemSet>) -> bool {
    forall|t: int, i: int| 0 <= t < states.len() && 0 <= i < states[t].items@.len()
        ==> item_follows(prods, ff, #[trigger] states[t].items@[i])
}

/// A closure step keeps lookaheads within FOLLOW: from `[A → α • B β, a]`
/// with `a` in FOLLOW(A), every `b` in FIRST(β a) is in FOLLOW(B).
pub proof fn lemma_closure_step_follows(prods: Seq<Production>, ff: FirstFollow, start: NonTerminal, it: Item, it2: Item)
    requires
        ff.follow_closed(prods, start),
        item_valid(prods, it),
        closure_step(prods, ff, it, it2),
        item_follows(prods, ff, it),
    ensures
        item_follows(prods, ff, it2),
{
    let p = it.prod_id as int;
    assert(ff.follow_closed_at(prods[p], it.dot as int));
}

/// In a state whose first `kl` items have lookaheads in FOLLOW and whose
/// other items follow by closure steps, the first `k` items have them too.
pub proof fn lemma_items_follow(prods: Seq<Production>, ff: FirstFollow, start: NonTerminal, items: Seq<Item>, kl: int, k: int)
    requires
        ff.follow_closed(prods, start),
        0 <= kl <= items.len(),
        0 <= k <= items.len(),
        forall|i: int| 0 <= i < items.len() ==> item_valid(prods, #[trigger] items[i]),
        forall|i: int| 0 <= i < kl ==> item_follows(prods, ff, #[trigger] items[i]),
        forall|i: int| kl <= i < items.len() ==> justified(prods, ff, items, i),
    ensures
        forall|i: int| 0 <= i < k ==> item_follows(prods, ff, #[trigger] items[i]),
    decreases k,
{
    if k > 0 {
        lemma_items_follow(prods, ff, start, items, kl, k - 1);
        let i = k - 1;
        if i >= kl {
            assert(justified(prods, ff, items, i));
            let j = choose|j: int| 0 <= j < i && #[trigger] closure_step(prods, ff, items[j], items[i]);
            assert(item_follows(prods, ff, items[j]));
            lemma_closure_step_follows(prods, ff, start, items[j], items[i]);
        }
    }
}

/// A new state whose kernel advances items of an existing state and whose
/// other items follow by closure steps keeps every lookahead in FOLLOW.
pub proof fn lemma_follow_push(prods: Seq<Production>, ff: FirstFollow, start: NonTerminal, old: Seq<ItemSet>, st: ItemSet, s: int, kernel: Seq<Item>)
    requires
        ff.follow_closed(prods, start),
        lookaheads_follow(prods, ff, old),
        0 <= s < old.len(),
        st.items@.len() >= kernel.len(),
        forall|i: int| 0 <= i < st.items@.len() ==> item_valid(prods, #[trigger] st.items@[i]),
        forall|i: int| 0 <= i < kernel.len() ==> #[trigger] st.items@[i] == kernel[i],
        forall|i: int| kernel.len() <= i < st.items@.len() ==> justified(prods, ff, st.items@, i),
        forall|c: int| #![trigger kernel[c]] 0 <= c < kernel.len() ==> exists|j: int| 0 <= j < old[s].items@.len()
            && after_dot(prods, #[trigger] old[s].items@[j]) is Some && advanced(old[s].items@[j]) == kernel[c],
    ensures
        lookaheads_follow(prods, ff, old.push(st)),
{
    assert forall|i: int| 0 <= i < kernel.len() implies item_follows(prods, ff, #[trigger] st.items@[i]) by {
        let j = choose|j: int| 0 <= j < old[s].items@.len()
            && after_dot(prods, #[trigger] old[s].items@[j]) is Some && advanced(old[s].items@[j]) == kernel[i];
        assert(item_follows(prods, ff, old[s].items@[j]));
    }
    lemma_items_follow(prods, ff, start, st.items@, kernel.len() as int, st.items@.len() as int);
    let new = old.push(st);
    assert forall|t: int, i: int| 0 <= t < new.len() && 0 <= i < new[t].items@.len()
        implies item_follows(prods, ff, #[trigger] new[t].items@[i]) by {
        if t < old.len() {
            assert(new[t] == old[t]);
        }
    }
}

/// A strictly increasing sequence whose elements lie below `n`.
pub open spec fn incr_below(s: Seq<usize>, n: nat) -> bool {
    &&& forall|i: int, j: int| 0 <= i < j < s.len() ==> s[i] < s[j]
    &&& forall|i: int| 0 <= i < s.len() ==> s[i] < n
}

pub proof fn lemma_incr_seqs_finite(n: nat)
    ensures
        incr_seqs(n).finite(),
    decreases n,
{
    if n > 0 {
        let p = incr_seqs((n - 1) as nat);
        lemma_incr_seqs_finite((n - 1) as nat);
        p.lemma_map_finite(|s: Seq<usize>| s.push((n - 1) as usize));
    }
}

/// Every strictly increasing sequence below `n` is one of `incr_seqs(n)`.
pub proof fn lemma_incr_seqs_contains(n: nat, s: Seq<usize>)
    requires
        incr_below(s, n),
        n <= usize::MAX + 1,
    ensures
        incr_seqs(n).contains(s),
    decreases n,
{
    if n == 0 {
        if s.len() > 0 {
            assert(s[0] < n);
        }
        assert(s =~= Seq::<usize>::empty());
    } else {
        let p = incr_seqs((n - 1) as nat);
        let f = |x: Seq<usize>| x.push((n - 1) as usize);
        if s.len() > 0 && s.last() == (n - 1) as usize {
            let d = s.drop_last();
            assert forall|i: int| 0 <= i < d.len() implies d[i] < (n - 1) as nat by {
                assert(s[i] < s[s.len() - 1]);
            }
            lemma_incr_seqs_contains((n - 1) as nat, d);
            assert(f(d) =~= s);
            assert(p.map(f).contains(s));
        } else {
            assert forall|i: int| 0 <= i < s.len() implies s[i] < (n - 1) as nat by {
                if s[i] == (n - 1) as usize {
                    if i < s.len() - 1 {
                        assert(s[i] < s[s.len() - 1]);
                    }
                }
            }
            lemma_incr_seqs_contains((n - 1) as nat, s);
        }
    }
}

/// Bucket of the first `n` elements of a key.
pub open spec fn key_hash_upto(key: Seq<usize>, n: int) -> usize
    decreases n,
{
    if n <= 0 {
        0
    } else {
        ((key_hash_upto(key, n - 1) * 31 + (key[n - 1] % NUM_BUCKETS) as int) % (NUM_BUCKETS as int)) as usize
    }
}

/// Bucket of a key.
pub open spec fn key_hash_spec(key: Seq<usize>) -> usize {
    key_hash_upto(key, key.len() as int)
}

/// `core_base` grows by at least the size of every production in between.
pub proof fn lemma_core_base_mono(prods: Seq<Production>, p: int, q: int)
    requires
        0 <= p < q,
    ensures
        core_base(prods, p) + prods[p].body@.len() + 1 <= core_base(prods, q),
    decreases q - p,
{
    if q > p + 1 {
        lemma_core_base_mono(prods, p, q - 1);
    }
}

pub proof fn lemma_core_base_nonneg(prods: Seq<Production>, p: int)
    ensures
        core_base(prods, p) >= 0,
    decreases p,
{
    if p > 0 {
        lemma_core_base_nonneg(prods, p - 1);
    }
}

/// A valid item has a cell inside the table.
pub proof fn lemma_item_cell(prods: Seq<Production>, it: Item)
    requires
        item_valid(prods, it),
    ensures
        0 <= item_cell(prods, it) < num_cells(prods),
        0 <= core_of(prods, it.prod_id as int, it.dot as int) < core_base(prods, prods.len() as int),
{
    let p = it.prod_id as int;
    lemma_core_base_nonneg(prods, p);
    if p + 1 < prods.len() {
        lemma_core_base_mono(prods, p + 1, prods.len() as int);
    }
    lemma_terminal_index(it.lookahead);
    let c = core_of(prods, p, it.dot as int);
    let b = core_base(prods, prods.len() as int);
    let l = terminal_index(it.lookahead) as int;
    assert(c * 63 + l < b * 63) by (nonlinear_arith)
        requires c + 1 <= b, 0 <= l < 63;
    assert(0 <= c * 63 + l) by (nonlinear_arith)
        requires 0 <= c, 0 <= l;
}

/// Distinct valid items have distinct cells.
pub proof fn lemma_item_cell_injective(prods: Seq<Production>, a: Item, b: Item)
    requires
        item_valid(prods, a),
        item_valid(prods, b),
        item_cell(prods, a) == item_cell(prods, b),
    ensures
        a == b,
{
    lemma_item_cell(prods, a);
    lemma_item_cell(prods, b);
    lemma_terminal_index(a.lookahead);
    lemma_terminal_index(b.lookahead);
    let ca = core_of(prods, a.prod_id as int, a.dot as int);
    let cb = core_of(prods, b.prod_id as int, b.dot as int);
    let la = terminal_index(a.lookahead) as int;
    let lb = terminal_index(b.lookahead) as int;
    assert(ca == cb && la == lb) by (nonlinear_arith)
        requires ca * 63 + la == cb * 63 + lb, 0 <= la < 63, 0 <= lb < 63, 0 <= ca, 0 <= cb;
    if a.prod_id < b.prod_id {
        lemma_core_base_mono(prods, a.prod_id as int, b.prod_id as int);
    }
    if b.prod_id < a.prod_id {
        lemma_core_base_mono(prods, b.prod_id as int, a.prod_id as int);
    }
    lemma_terminal_index_eq(a.lookahead, b.lookahead);
}

/// Index of a symbol among all symbols.
pub fn sym_index(s: &Symbol) -> (r: usize)
    ensures
        r == symbol_index(*s),
        r < NUM_SYMBOLS,
{
    match s {
        Symbol::T(t) => {
            proof { lemma_terminal_index(*t); }
            t.index()
        }
        Symbol::NT(n) => {
            proof { lemma_nonterminal_index(*n); }
            NUM_TERMINALS + n.index()
        }
    }
}

/// The symbol at a position among all symbols.
pub fn sym_from_index(i: usize) -> (s: Symbol)
    requires
        i < NUM_SYMBOLS,
    ensures
        symbol_index(s) == i,
{
    if i < NUM_TERMINALS {
        proof { lemma_terminal_at(i as nat); }
        Symbol::T(Terminal::from_index(i))
    } else {
        Symbol::NT(NonTerminal::from_index(i - NUM_TERMINALS))
    }
}

/// Symbols with equal positions are equal.
pub proof fn lemma_symbol_index_injective(a: Symbol, b: Symbol)
    ensures
        symbol_index(a) == symbol_index(b) ==> a == b,
{
    match a {
        Symbol::T(x) => {
            lemma_terminal_index(x);
            match b {
                Symbol::T(y) => { lemma_terminal_index_eq(x, y); }
                Symbol::NT(m) => {}
            }
        }
        Symbol::NT(n) => {
            lemma_nonterminal_index(n);
            match b {
                Symbol::T(y) => { lemma_terminal_index(y); }
                Symbol::NT(m) => {
                    lemma_nonterminal_index(m);
                    crate::parser::grammar::symbol::lemma_nonterminal_index_injective(n, m);
                }
            }
        }
    }
}

/// `row` is FIRST(β) and `nb` the nullability of β, for the pair (production `p`, dot `d`).
pub open spec fn row_ok(prods: Seq<Production>, ff: FirstFollow, row: Seq<bool>, nb: bool, p: int, d: int) -> bool {
    &&& row.len() == NUM_TERMINALS
    &&& forall|t: Terminal| row[terminal_index(t) as int] == ff.str_first(prods[p].body@.skip(d + 1), t)
    &&& nb == ff.str_nullable(prods[p].body@.skip(d + 1))
}

/// Per-grammar tables used by the closure: where each production's cells
/// start, and FIRST(β) and the nullability of β for every (production, dot)
/// pair whose dot precedes a symbol.
struct Cores {
    base: Vec<usize>,
    first_beta: Vec<Vec<bool>>,
    nullable_beta: Vec<bool>,
    ncells: usize,
}

impl Cores {
    spec fn wf(&self, prods: Seq<Production>, ff: FirstFollow) -> bool {
        &&& self.base@.len() == prods.len() + 1
        &&& forall|p: int| 0 <= p <= prods.len() ==> #[trigger] self.base@[p] == core_base(prods, p)
        &&& self.ncells == num_cells(prods)
        &&& self.first_beta@.len() == core_base(prods, prods.len() as int)
        &&& self.nullable_beta@.len() == core_base(prods, prods.len() as int)
        &&& forall|p: int, d: int| 0 <= p < prods.len() && 0 <= d < prods[p].body@.len() ==> row_ok(prods, ff, (#[trigger] self.first_beta@[core_of(prods, p, d)])@, self.nullable_beta@[core_of(prods, p, d)], p, d)
    }

    fn new(grammar: &Grammar, ff: &FirstFollow) -> (c: Self)
        requires
            ff.wf(),
            num_cells(grammar.productions@) <= usize::MAX,
        ensures
            c.wf(grammar.productions@, *ff),
    {
        let ghost prods = grammar.productions@;
        let n = grammar.productions.len();
        proof { lemma_core_base_nonneg(prods, n as int); }
        let mut base: Vec<usize> = Vec::new();
        let mut first_beta: Vec<Vec<bool>> = Vec::new();
        let mut nullable_beta: Vec<bool> = Vec::new();
        let mut cur: usize = 0;
        let mut p: usize = 0;
        while p < n
            invariant
                ff.wf(),
                n == prods.len(),
                prods == grammar.productions@,
                num_cells(prods) <= usize::MAX,
                core_base(prods, n as int) >= 0,
                p <= n,
                cur == core_base(prods, p as int),
                base@.len() == p,
                forall|q: int| 0 <= q < p ==> #[trigger] base@[q] == core_base(prods, q),
                first_beta@.len() == cur,
                nullable_beta@.len() == cur,
                forall|q: int, d: int| 0 <= q < p && 0 <= d < prods[q].body@.len() ==> row_ok(prods, *ff, (#[trigger] first_beta@[core_of(prods, q, d)])@, nullable_beta@[core_of(prods, q, d)], q, d),
            decreases n - p,
        {
            base.push(cur);
            let body = &grammar.productions[p].body;
            let blen = body.len();
            proof {
                lemma_core_base_nonneg(prods, p as int);
                if p + 1 < n {
                    lemma_core_base_mono(prods, p + 1, n as int);
                }
                assert(core_base(prods, n as int) * 63 <= usize::MAX);
                assert(core_base(prods, p + 1) <= core_base(prods, n as int));
            }
            let mut d: usize = 0;
            while d <= blen
                invariant
                    ff.wf(),
                    n == prods.len(),
                    p < n,
                    prods == grammar.productions@,
                    *body == prods[p as int].body,
                    blen == body@.len(),
                    d <= blen + 1,
                    cur == core_base(prods, p as int),
                    core_base(prods, p + 1) <= usize::MAX,
                    first_beta@.len() == cur + d,
                    nullable_beta@.len() == cur + d,
                    forall|q: int, e: int| 0 <= q < p && 0 <= e < prods[q].body@.len() ==> row_ok(prods, *ff, (#[trigger] first_beta@[core_of(prods, q, e)])@, nullable_beta@[core_of(prods, q, e)], q, e),
                    forall|e: int| 0 <= e < d && e < blen ==> row_ok(prods, *ff, (#[trigger] first_beta@[core_of(prods, p as int, e)])@, nullable_beta@[core_of(prods, p as int, e)], p as int, e),
                decreases blen + 1 - d,
            {
                let ghost fb0 = first_beta@;
                let ghost nb0 = nullable_beta@;
                if d < blen {
                    let row = ff.first_table_of_str(body.as_slice(), d + 1);
                    let nb = ff.str_is_nullable(body.as_slice(), d + 1);
                    let ghost grow = row@;
                    first_beta.push(row);
                    nullable_beta.push(nb);
                    proof {
                        lemma_core_base_nonneg(prods, p as int);
                        assert(core_of(prods, p as int, d as int) == fb0.len());
                        assert(first_beta@[core_of(prods, p as int, d as int)]@ == grow);
                        assert(forall|t: Terminal| grow[terminal_index(t) as int] == ff.str_first(prods[p as int].body@.skip(d + 1), t));
                        assert(nullable_beta@[core_of(prods, p as int, d as int)] == ff.str_nullable(prods[p as int].body@.skip(d + 1)));
                    }
                } else {
                    first_beta.push(Vec::new());
                    nullable_beta.push(false);
                }
                assert(first_beta@.len() == fb0.len() + 1);
                assert(forall|x: int| 0 <= x < fb0.len() ==> first_beta@[x] == fb0[x]);
                assert(forall|x: int| 0 <= x < nb0.len() ==> nullable_beta@[x] == nb0[x]);
                proof {
                    assert forall|q: int, e: int| 0 <= q < p && 0 <= e < prods[q].body@.len() implies row_ok(prods, *ff, (#[trigger] first_beta@[core_of(prods, q, e)])@, nullable_beta@[core_of(prods, q, e)], q, e) by {
                        lemma_core_base_mono(prods, q, p as int);
                        lemma_core_base_nonneg(prods, q);
                        assert(first_beta@[core_of(prods, q, e)] == fb0[core_of(prods, q, e)]);
                        assert(nullable_beta@[core_of(prods, q, e)] == nb0[core_of(prods, q, e)]);
                    }
                    assert forall|e: int| 0 <= e < d + 1 && e < blen implies row_ok(prods, *ff, (#[trigger] first_beta@[core_of(prods, p as int, e)])@, nullable_beta@[core_of(prods, p as int, e)], p as int, e) by {
                        lemma_core_base_nonneg(prods, p as int);
                        if e < d {
                            assert(first_beta@[core_of(prods, p as int, e)] == fb0[core_of(prods, p as int, e)]);
                            assert(nullable_beta@[core_of(prods, p as int, e)] == nb0[core_of(prods, p as int, e)]);
                        }
                    }
                }
                d = d + 1;
            }
            proof {
                assert forall|q: int, e: int| 0 <= q < p + 1 && 0 <= e < prods[q].body@.len() implies row_ok(prods, *ff, (#[trigger] first_beta@[core_of(prods, q, e)])@, nullable_beta@[core_of(prods, q, e)], q, e) by {
                    if q == p {
                        assert(first_beta@[core_of(prods, p as int, e)] == first_beta@[core_of(prods, q, e)]);
                    }
                }
            }
            cur = cur + blen + 1;
            p = p + 1;
        }
        base.push(cur);
        proof {
            assert(core_base(prods, n as int) * 63 <= usize::MAX);
        }
        let ncells = cur * NUM_TERMINALS;
        Cores { base, first_beta, nullable_beta, ncells }
    }

    /// The cell of a valid item.
    fn cell(&self, it: &Item, Ghost(prods): Ghost<Seq<Production>>, Ghost(ff): Ghost<FirstFollow>) -> (c: usize)
        requires
            self.wf(prods, ff),
            item_valid(prods, *it),
        ensures
            c == item_cell(prods, *it),
            c < self.ncells,
    {
        proof {
            lemma_item_cell(prods, *it);
            lemma_terminal_index(it.lookahead);
        }
        (self.base[it.prod_id] + it.dot) * NUM_TERMINALS + it.lookahead.index()
    }
}

/// The LR(1) automaton: its states and, for each state, the transitions that leave it.
pub struct Automaton {
    /// The states, indexed by their id.
    pub states: Vec<ItemSet>,
    /// `transitions[s]` holds the pairs (symbol, target state) of state `s`.
    pub transitions: Vec<Vec<(Symbol, usize)>>,
}

impl Automaton {
    /// The states are closed item sets, and the transitions are complete,
    /// deterministic and lead to states that hold the advanced items.
    pub open spec fn wf(&self, prods: Seq<Production>, ff: FirstFollow) -> bool {
        &&& self.states@.len() >= 1
        &&& self.transitions@.len() == self.states@.len()
        &&& forall|s: int| 0 <= s < self.states@.len() ==> #[trigger] self.states@[s].id == s
        &&& forall|s: int| 0 <= s < self.states@.len() ==> distinct(#[trigger] self.states@[s].items@)
        &&& forall|s: int, i: int| 0 <= s < self.states@.len() && 0 <= i < self.states@[s].items@.len()
                ==> item_valid(prods, #[trigger] self.states@[s].items@[i])
        &&& forall|s: int| 0 <= s < self.states@.len() ==> closed(prods, ff, #[trigger] self.states@[s].items@)
        &&& all_items_sourced(prods, ff, self.states@)
        &&& forall|s: int, k: int| 0 <= s < self.states@.len() && 0 <= k < self.transitions@[s]@.len() ==> {
                &&& (#[trigger] self.transitions@[s]@[k]).1 < self.states@.len()
                &&& edge_ok(prods, self.states@[s].items@, self.states@[self.transitions@[s]@[k].1 as int].items@,
                        self.transitions@[s]@[k].0)
            }
        &&& forall|s: int, k1: int, k2: int| 0 <= s < self.states@.len() && 0 <= k1 < k2 < self.transitions@[s]@.len()
                ==> #[trigger] self.transitions@[s]@[k1].0 != #[trigger] self.transitions@[s]@[k2].0
        &&& forall|s: int, i: int| 0 <= s < self.states@.len() && 0 <= i < self.states@[s].items@.len()
                && after_dot(prods, #[trigger] self.states@[s].items@[i]) is Some
                ==> has_edge(self.transitions@[s]@, after_dot(prods, self.states@[s].items@[i])->0)
    }

    /// Builds the LR(1) automaton of the grammar.
    pub fn build(grammar: &Grammar, ff: &FirstFollow) -> (a: Self)
        requires
            grammar.wf(),
            ff.wf(),
            grammar.productions@.len() > 0,
            num_cells(grammar.productions@) <= usize::MAX,
        ensures
            a.wf(grammar.productions@, *ff),
            a.states@[0].items@.contains(Item { prod_id: 0, dot: 0, lookahead: Terminal::Eof }),
            ff.follow_closed(grammar.productions@, grammar.start) && grammar.productions@[0].head == grammar.start
                ==> lookaheads_follow(grammar.productions@, *ff, a.states@),
            forall|t1: int, t2: int| 0 <= t1 < t2 < a.states@.len()
                ==> #[trigger] a.states@[t1].items@ != #[trigger] a.states@[t2].items@,
    {
        let ghost prods = grammar.productions@;
        let _np = grammar.productions.len();
        let cores = Cores::new(grammar, ff);
        let ghost ncells: nat = num_cells(prods) as nat;
        proof {
            lemma_incr_seqs_finite(ncells);
            lemma_core_base_nonneg(prods, prods.len() as int);
            assert(core_base(prods, prods.len() as int) * 63 >= 0) by (nonlinear_arith)
                requires core_base(prods, prods.len() as int) >= 0;
        }
        let ghost bound: int = incr_seqs(ncells).len() as int;
        let start = Item::new(0, 0, Terminal::Eof);
        let mut kernel0: Vec<Item> = Vec::new();
        kernel0.push(start);
        assert(item_valid(prods, kernel0@[0]));
        let items0 = closure(grammar, ff, &cores, &kernel0);
        let key0 = kernel_key(&cores, &kernel0, Ghost(prods), Ghost(*ff));
        let ghost mut known: Set<Seq<usize>> = set![key0@];
        proof {
            lemma_incr_seqs_contains(ncells, key0@);
            vstd::set_lib::lemma_len_subset(known, incr_seqs(ncells));
        }
        let ghost cond = ff.follow_closed(prods, grammar.start) && prods[0].head == grammar.start;
        let mut states: Vec<ItemSet> = Vec::new();
        states.push(ItemSet { id: 0, items: items0 });
        proof {
            if cond {
                assert(item_follows(prods, *ff, states@[0].items@[0]));
                lemma_items_follow(prods, *ff, grammar.start, states@[0].items@, 1, states@[0].items@.len() as int);
                assert forall|t: int, i: int| 0 <= t < states@.len() && 0 <= i < states@[t].items@.len()
                    implies item_follows(prods, *ff, #[trigger] states@[t].items@[i]) by {
                    assert(t == 0);
                }
            }
            assert forall|t: int, i: int| 0 <= t < states@.len() && 0 <= i < states@[t].items@.len()
                implies #[trigger] item_origin(prods, *ff, states@, t, i) by {
                if i > 0 {
                    assert(justified(prods, *ff, states@[t].items@, i));
                }
            }
        }
        let mut keys: Vec<Vec<usize>> = Vec::new();
        keys.push(key0);
        let mut klen: Vec<usize> = Vec::new();
        klen.push(1);
        proof {
            lemma_closure_rest(prods, *ff, states@[0].items@, 1);
            assert(states@[0].items@[0] == kernel0@[0]);
            assert(kernels_apart(states@, keys@, klen@));
        }
        let mut transitions: Vec<Vec<(Symbol, usize)>> = Vec::new();
        transitions.push(Vec::new());
        let mut buckets: Vec<Vec<usize>> = Vec::new();
        let mut h: usize = 0;
        while h < NUM_BUCKETS
            invariant
                h <= NUM_BUCKETS,
                buckets@.len() == h,
                forall|b: int| 0 <= b < h ==> (#[trigger] buckets@[b])@.len() == 0,
            decreases NUM_BUCKETS - h,
        {
            buckets.push(Vec::new());
            h = h + 1;
        }
        let h0 = key_hash(&keys[0]);
        buckets[h0].push(0);
        assert(states@[0].items@[0] == start);
        assert(buckets@[h0 as int]@[0] == 0);
        assert(buckets@[key_hash_spec(keys@[0]@) as int]@.contains(0));
        let mut s: usize = 0;
        while s < states.len()
            invariant
                grammar.wf(),
                ff.wf(),
                prods == grammar.productions@,
                prods.len() > 0,
                prods.len() <= usize::MAX,
                cores.wf(prods, *ff),
                ncells == num_cells(prods),
                ncells <= usize::MAX,
                known.finite(),
                incr_seqs(ncells).finite(),
                known.subset_of(incr_seqs(ncells)),
                bound == incr_seqs(ncells).len(),
                known.len() == states@.len(),
                states@.len() <= bound,
                forall|t: int| 0 <= t < states@.len() ==> known.contains(#[trigger] keys@[t]@),
                forall|k: Seq<usize>| known.contains(k) ==> exists|t: int| 0 <= t < states@.len() && #[trigger] keys@[t]@ == k,
                states@.len() >= 1,
                states@[0].items@.contains(start),
                kernels_apart(states@, keys@, klen@),
                start == (Item { prod_id: 0, dot: 0, lookahead: Terminal::Eof }),
                s <= states@.len(),
                keys@.len() == states@.len(),
                klen@.len() == states@.len(),
                transitions@.len() == states@.len(),
                buckets@.len() == NUM_BUCKETS,
                forall|b: int, j: int| 0 <= b < NUM_BUCKETS && 0 <= j < buckets@[b]@.len()
                    ==> #[trigger] buckets@[b]@[j] < states@.len(),
                forall|t: int| 0 <= t < states@.len() ==> buckets@[key_hash_spec(#[trigger] keys@[t]@) as int]@.contains(t as usize),
                forall|t: int| 0 <= t < states@.len() ==> #[trigger] states@[t].id == t,
                forall|t: int| 0 <= t < states@.len() ==> distinct(#[trigger] states@[t].items@),
                forall|t: int, i: int| 0 <= t < states@.len() && 0 <= i < states@[t].items@.len()
                    ==> item_valid(prods, #[trigger] states@[t].items@[i]),
                forall|t: int| 0 <= t < states@.len() ==> closed(prods, *ff, #[trigger] states@[t].items@),
                all_items_sourced(prods, *ff, states@),
                cond == (ff.follow_closed(prods, grammar.start) && prods[0].head == grammar.start),
                cond ==> lookaheads_follow(prods, *ff, states@),
                forall|t: int| 0 <= t < states@.len() ==> #[trigger] klen@[t] <= states@[t].items@.len(),
                forall|t: int, c: usize| 0 <= t < states@.len() ==>
                    (#[trigger] keys@[t]@.contains(c) <==> some_cell(prods, states@[t].items@, klen@[t] as int, c as int)),
                forall|t: int| s <= t < states@.len() ==> (#[trigger] transitions@[t])@.len() == 0,
                forall|t: int, k: int| 0 <= t < s && 0 <= k < transitions@[t]@.len() ==> {
                    &&& (#[trigger] transitions@[t]@[k]).1 < states@.len()
                    &&& edge_ok(prods, states@[t].items@, states@[transitions@[t]@[k].1 as int].items@,
                            transitions@[t]@[k].0)
                },
                forall|t: int, k1: int, k2: int| 0 <= t < s && 0 <= k1 < k2 < transitions@[t]@.len()
                    ==> #[trigger] transitions@[t]@[k1].0 != #[trigger] transitions@[t]@[k2].0,
                forall|t: int, i: int| 0 <= t < s && 0 <= i < states@[t].items@.len()
                    && after_dot(prods, #[trigger] states@[t].items@[i]) is Some
                    ==> has_edge(transitions@[t]@, after_dot(prods, states@[t].items@[i])->0),
            decreases 2 * bound - states@.len() - s,
        {
            let groups = goto_kernels(grammar, &states[s].items);
            let ghost items_s = states@[s as int].items@;
            let ghost len0 = states@.len();
            let mut xi: usize = 0;
            while xi < NUM_SYMBOLS
                invariant
                    grammar.wf(),
                    ff.wf(),
                    prods == grammar.productions@,
                    prods.len() > 0,
                    prods.len() <= usize::MAX,
                    cores.wf(prods, *ff),
                    ncells == num_cells(prods),
                    ncells <= usize::MAX,
                    known.finite(),
                    incr_seqs(ncells).finite(),
                    known.subset_of(incr_seqs(ncells)),
                    bound == incr_seqs(ncells).len(),
                    known.len() == states@.len(),
                    states@.len() <= bound,
                    forall|t: int| 0 <= t < states@.len() ==> known.contains(#[trigger] keys@[t]@),
                    forall|k: Seq<usize>| known.contains(k) ==> exists|t: int| 0 <= t < states@.len() && #[trigger] keys@[t]@ == k,
                    states@.len() >= 1,
                    states@[0].items@.contains(start),
                    kernels_apart(states@, keys@, klen@),
                    start == (Item { prod_id: 0, dot: 0, lookahead: Terminal::Eof }),
                    s < states@.len(),
                    states@.len() >= len0,
                    states@[s as int].items@ == items_s,
                    keys@.len() == states@.len(),
                    klen@.len() == states@.len(),
                    transitions@.len() == states@.len(),
                    buckets@.len() == NUM_BUCKETS,
                    forall|b: int, j: int| 0 <= b < NUM_BUCKETS && 0 <= j < buckets@[b]@.len()
                        ==> #[trigger] buckets@[b]@[j] < states@.len(),
                    forall|t: int| 0 <= t < states@.len() ==> buckets@[key_hash_spec(#[trigger] keys@[t]@) as int]@.contains(t as usize),
                    forall|t: int| 0 <= t < states@.len() ==> #[trigger] states@[t].id == t,
                    forall|t: int| 0 <= t < states@.len() ==> distinct(#[trigger] states@[t].items@),
                    forall|t: int, i: int| 0 <= t < states@.len() && 0 <= i < states@[t].items@.len()
                        ==> item_valid(prods, #[trigger] states@[t].items@[i]),
                    forall|t: int| 0 <= t < states@.len() ==> closed(prods, *ff, #[trigger] states@[t].items@),
                    all_items_sourced(prods, *ff, states@),
                    cond == (ff.follow_closed(prods, grammar.start) && prods[0].head == grammar.start),
                    cond ==> lookaheads_follow(prods, *ff, states@),
                    forall|t: int| 0 <= t < states@.len() ==> #[trigger] klen@[t] <= states@[t].items@.len(),
                    forall|t: int, c: usize| 0 <= t < states@.len() ==>
                        (#[trigger] keys@[t]@.contains(c) <==> some_cell(prods, states@[t].items@, klen@[t] as int, c as int)),
                    forall|t: int| s < t < states@.len() ==> (#[trigger] transitions@[t])@.len() == 0,
                    forall|t: int, k: int| 0 <= t <= s && 0 <= k < transitions@[t]@.len() ==> {
                        &&& (#[trigger] transitions@[t]@[k]).1 < states@.len()
                        &&& edge_ok(prods, states@[t].items@, states@[transitions@[t]@[k].1 as int].items@,
                                transitions@[t]@[k].0)
                    },
                    forall|t: int, k1: int, k2: int| 0 <= t < s && 0 <= k1 < k2 < transitions@[t]@.len()
                        ==> #[trigger] transitions@[t]@[k1].0 != #[trigger] transitions@[t]@[k2].0,
                    forall|t: int, i: int| 0 <= t < s && 0 <= i < states@[t].items@.len()
                        && after_dot(prods, #[trigger] states@[t].items@[i]) is Some
                        ==> has_edge(transitions@[t]@, after_dot(prods, states@[t].items@[i])->0),
                    groups@.len() == NUM_SYMBOLS,
                    forall|g: int, j: int| 0 <= g < NUM_SYMBOLS && 0 <= j < groups@[g]@.len()
                        ==> item_valid(prods, #[trigger] groups@[g]@[j]),
                    forall|g: int| 0 <= g < NUM_SYMBOLS ==> distinct(#[trigger] groups@[g]@),
                    forall|i: int| 0 <= i < items_s.len() && after_dot(prods, #[trigger] items_s[i]) is Some
                        ==> groups@[symbol_index(after_dot(prods, items_s[i])->0) as int]@.contains(advanced(items_s[i])),
                    forall|g: int, j: int| 0 <= g < NUM_SYMBOLS && 0 <= j < groups@[g]@.len() ==> exists|i: int| 0 <= i < items_s.len()
                        && after_dot(prods, #[trigger] items_s[i]) is Some && advanced(items_s[i]) == #[trigger] groups@[g]@[j],
                    xi <= NUM_SYMBOLS,
                    forall|k: int| 0 <= k < transitions@[s as int]@.len()
                        ==> symbol_index(#[trigger] transitions@[s as int]@[k].0) < xi,
                    forall|k1: int, k2: int| 0 <= k1 < k2 < transitions@[s as int]@.len()
                        ==> symbol_index(#[trigger] transitions@[s as int]@[k1].0) < symbol_index(#[trigger] transitions@[s as int]@[k2].0),
                    forall|i: int| 0 <= i < items_s.len() && after_dot(prods, #[trigger] items_s[i]) is Some
                        && symbol_index(after_dot(prods, items_s[i])->0) < xi
                        ==> has_edge(transitions@[s as int]@, after_dot(prods, items_s[i])->0),
                decreases NUM_SYMBOLS - xi,
            {
                if groups[xi].len() > 0 {
                    let kernel = &groups[xi];
                    let key = kernel_key(&cores, kernel, Ghost(prods), Ghost(*ff));
                    let hk = key_hash(&key);
                    let mut target: usize = 0;
                    let mut found = false;
                    let mut j: usize = 0;
                    while j < buckets[hk].len()
                        invariant
                            buckets@.len() == NUM_BUCKETS,
                            hk < NUM_BUCKETS,
                            keys@.len() == states@.len(),
                            forall|b: int, j2: int| 0 <= b < NUM_BUCKETS && 0 <= j2 < buckets@[b]@.len()
                                ==> #[trigger] buckets@[b]@[j2] < states@.len(),
                            j <= buckets@[hk as int]@.len(),
                            found ==> target < states@.len() && keys@[target as int]@ == key@,
                            !found ==> forall|j2: int| 0 <= j2 < j ==> keys@[#[trigger] buckets@[hk as int]@[j2] as int]@ != key@,
                        decreases buckets@[hk as int]@.len() - j,
                    {
                        let id = buckets[hk][j];
                        if !found && same_key(&keys[id], &key) {
                            target = id;
                            found = true;
                        }
                        j = j + 1;
                    }
                    proof {
                        assert forall|c: int| 0 <= c < kernel@.len() implies states@[target as int].items@.contains(#[trigger] kernel@[c]) || !found by {
                            if found {
                                let a = kernel@[c];
                                let ca = item_cell(prods, a);
                                lemma_item_cell(prods, a);
                                assert(some_cell(prods, kernel@, kernel@.len() as int, ca));
                                assert(key@.contains(ca as usize));
                                assert(keys@[target as int]@.contains(ca as usize));
                                assert(some_cell(prods, states@[target as int].items@, klen@[target as int] as int, ca));
                                let j3 = choose|j3: int| 0 <= j3 < klen@[target as int] as int
                                    && item_cell(prods, #[trigger] states@[target as int].items@[j3]) == ca;
                                lemma_item_cell_injective(prods, states@[target as int].items@[j3], a);
                            }
                        }
                    }
                    let _nstates = states.len();
                    if !found {
                        proof {
                            assert(!known.contains(key@)) by {
                                if known.contains(key@) {
                                    let t = choose|t: int| 0 <= t < states@.len() && #[trigger] keys@[t]@ == key@;
                                    assert(buckets@[key_hash_spec(keys@[t]@) as int]@.contains(t as usize));
                                    assert(key_hash_spec(keys@[t]@) == hk);
                                    assert(buckets@[hk as int]@.contains(t as usize));
                                    let j2 = choose|j2: int| 0 <= j2 < buckets@[hk as int]@.len() && buckets@[hk as int]@[j2] == t as usize;
                                    assert(j == buckets@[hk as int]@.len());
                                    assert(0 <= j2 < j);
                                    assert(keys@[buckets@[hk as int]@[j2] as int]@ != key@);
                                    assert(buckets@[hk as int]@[j2] as int == t);
                                    assert(false);
                                }
                            }
                            lemma_incr_seqs_contains(ncells, key@);
                            assert(known.insert(key@).subset_of(incr_seqs(ncells)));
                            vstd::set_lib::lemma_len_subset(known.insert(key@), incr_seqs(ncells));
                        }
                        let items = closure(grammar, ff, &cores, kernel);
                        let ghost items_v = items@;
                        target = states.len();
                        let ghost old_states = states@;
                        let ghost old_keys = keys@;
                        let ghost old_klen = klen@;
                        let ghost old_buckets = buckets@;
                        let ghost old_trans = transitions@;
                        let ghost old_known = known;
                        let kl = kernel.len();
                        proof {
                            assert(kl >= 1);
                            lemma_kernel_moved(prods, items_s, kernel@);
                            lemma_closure_rest(prods, *ff, items_v, kl as int);
                            assert forall|i: int| 0 <= i < kl implies (#[trigger] items_v[i]).dot > 0 by {
                                assert(items_v[i] == kernel@[i]);
                            }
                            assert forall|t: int| 0 <= t < old_keys.len() implies (#[trigger] old_keys[t])@ != key@ by {
                                assert(known.contains(old_keys[t]@));
                            }
                            lemma_kernels_apart_push(old_states, old_keys, old_klen, ItemSet { id: target, items: items }, key, kl);
                        }
                        states.push(ItemSet { id: target, items });
                        keys.push(key);
                        klen.push(kl);
                        transitions.push(Vec::new());
                        buckets[hk].push(target);
                        proof {
                            assert(states@ == old_states.push(states@[target as int]));
                            assert(states@[target as int].items@ == items_v);
                            assert forall|c: int| #![trigger kernel@[c]] 0 <= c < kernel@.len() implies exists|j: int| 0 <= j < old_states[s as int].items@.len()
                                && after_dot(prods, #[trigger] old_states[s as int].items@[j]) is Some
                                && advanced(old_states[s as int].items@[j]) == kernel@[c] by {
                                assert(groups@[xi as int]@[c] == kernel@[c]);
                                assert(old_states[s as int].items@ == items_s);
                            }
                            lemma_sourced_push(prods, *ff, old_states, states@[target as int], s as int, kernel@);
                            if cond {
                                lemma_follow_push(prods, *ff, grammar.start, old_states, states@[target as int], s as int, kernel@);
                            }
                            known = known.insert(key@);
                            assert forall|t: int| 0 <= t < states@.len() implies known.contains(#[trigger] keys@[t]@) by {
                                if t < old_keys.len() {
                                    assert(keys@[t] == old_keys[t]);
                                }
                            }
                            assert forall|k: Seq<usize>| known.contains(k) implies exists|t: int| 0 <= t < states@.len() && #[trigger] keys@[t]@ == k by {
                                if k == key@ {
                                    assert(keys@[target as int]@ == k);
                                } else {
                                    let t = choose|t: int| 0 <= t < old_states.len() && #[trigger] old_keys[t]@ == k;
                                    assert(keys@[t] == old_keys[t]);
                                }
                            }
                            assert forall|b: int, j2: int| 0 <= b < NUM_BUCKETS && 0 <= j2 < buckets@[b]@.len()
                                implies #[trigger] buckets@[b]@[j2] < states@.len() by {
                                if b != hk || j2 < old_buckets[b]@.len() {
                                    assert(buckets@[b]@[j2] == old_buckets[b]@[j2]);
                                }
                            }
                            assert forall|t: int| 0 <= t < states@.len() implies buckets@[key_hash_spec(#[trigger] keys@[t]@) as int]@.contains(t as usize) by {
                                if t < old_keys.len() {
                                    assert(keys@[t] == old_keys[t]);
                                    let hb = key_hash_spec(old_keys[t]@) as int;
                                    assert(old_buckets[hb]@.contains(t as usize));
                                    if hb == hk {
                                        lemma_push_contains(old_buckets[hb]@, target, t as usize);
                                    } else {
                                        assert(buckets@[hb] == old_buckets[hb]);
                                    }
                                } else {
                                    lemma_push_contains(old_buckets[hk as int]@, target, target);
                                }
                            }
                            assert forall|t: int, c: usize| 0 <= t < states@.len() implies
                                (#[trigger] keys@[t]@.contains(c) <==> some_cell(prods, states@[t].items@, klen@[t] as int, c as int)) by {
                                if t < old_keys.len() {
                                    assert(keys@[t] == old_keys[t]);
                                    assert(states@[t] == old_states[t]);
                                    assert(klen@[t] == old_klen[t]);
                                } else {
                                    let its = states@[t].items@;
                                    if some_cell(prods, kernel@, kernel@.len() as int, c as int) {
                                        let j3 = choose|j3: int| 0 <= j3 < kernel@.len() && item_cell(prods, #[trigger] kernel@[j3]) == c as int;
                                        assert(its[j3] == kernel@[j3]);
                                        assert(some_cell(prods, its, kl as int, c as int));
                                    }
                                    if some_cell(prods, its, kl as int, c as int) {
                                        let j3 = choose|j3: int| 0 <= j3 < kl && item_cell(prods, #[trigger] its[j3]) == c as int;
                                        assert(its[j3] == kernel@[j3]);
                                        assert(some_cell(prods, kernel@, kernel@.len() as int, c as int));
                                    }
                                }
                            }
                            assert forall|t: int, k: int| 0 <= t <= s && 0 <= k < transitions@[t]@.len() implies {
                                &&& (#[trigger] transitions@[t]@[k]).1 < states@.len()
                                &&& edge_ok(prods, states@[t].items@, states@[transitions@[t]@[k].1 as int].items@,
                                        transitions@[t]@[k].0)
                            } by {
                                assert(transitions@[t] == old_trans[t]);
                                assert(states@[t] == old_states[t]);
                                assert(states@[transitions@[t]@[k].1 as int] == old_states[old_trans[t]@[k].1 as int]);
                            }
                            assert forall|t: int, i: int| 0 <= t < s && 0 <= i < states@[t].items@.len()
                                && after_dot(prods, #[trigger] states@[t].items@[i]) is Some
                                implies has_edge(transitions@[t]@, after_dot(prods, states@[t].items@[i])->0) by {
                                assert(transitions@[t] == old_trans[t]);
                                assert(states@[t] == old_states[t]);
                            }
                            assert forall|c: int| 0 <= c < kernel@.len() implies states@[target as int].items@.contains(#[trigger] kernel@[c]) by {
                                assert(states@[target as int].items@[c] == kernel@[c]);
                            }
                        }
                    }
                    let x = sym_from_index(xi);
                    let ghost old_trans = transitions@;
                    let ghost tgt = states@[target as int].items@;
                    proof {
                        assert(edge_ok(prods, items_s, tgt, x)) by {
                            assert forall|i: int| 0 <= i < items_s.len() && after_dot(prods, #[trigger] items_s[i]) == Some(x)
                                implies tgt.contains(advanced(items_s[i])) by {
                                lemma_symbol_index_injective(x, after_dot(prods, items_s[i])->0);
                                assert(groups@[xi as int]@.contains(advanced(items_s[i])));
                                let c = choose|c: int| 0 <= c < kernel@.len() && kernel@[c] == advanced(items_s[i]);
                                assert(tgt.contains(kernel@[c]));
                            }
                        }
                    }
                    transitions[s].push((x, target));
                    proof {
                        assert forall|t: int, k: int| 0 <= t <= s && 0 <= k < transitions@[t]@.len() implies {
                            &&& (#[trigger] transitions@[t]@[k]).1 < states@.len()
                            &&& edge_ok(prods, states@[t].items@, states@[transitions@[t]@[k].1 as int].items@,
                                    transitions@[t]@[k].0)
                        } by {
                            if t != s || k < old_trans[t]@.len() {
                                assert(transitions@[t]@[k] == old_trans[t]@[k]);
                            }
                        }
                        assert forall|t: int, k1: int, k2: int| 0 <= t < s && 0 <= k1 < k2 < transitions@[t]@.len()
                            implies #[trigger] transitions@[t]@[k1].0 != #[trigger] transitions@[t]@[k2].0 by {
                            assert(transitions@[t] == old_trans[t]);
                        }
                        assert forall|t: int, i: int| 0 <= t < s && 0 <= i < states@[t].items@.len()
                            && after_dot(prods, #[trigger] states@[t].items@[i]) is Some
                            implies has_edge(transitions@[t]@, after_dot(prods, states@[t].items@[i])->0) by {
                            assert(transitions@[t] == old_trans[t]);
                        }
                        assert(transitions@[s as int]@ == old_trans[s as int]@.push((x, target)));
                        assert forall|k: int| 0 <= k < transitions@[s as int]@.len()
                            implies symbol_index(#[trigger] transitions@[s as int]@[k].0) < xi + 1 by {
                            if k < old_trans[s as int]@.len() {
                                assert(transitions@[s as int]@[k] == old_trans[s as int]@[k]);
                            }
                        }
                        assert forall|k1: int, k2: int| 0 <= k1 < k2 < transitions@[s as int]@.len()
                            implies symbol_index(#[trigger] transitions@[s as int]@[k1].0) < symbol_index(#[trigger] transitions@[s as int]@[k2].0) by {
                            assert(transitions@[s as int]@[k1] == old_trans[s as int]@[k1]);
                            if k2 < old_trans[s as int]@.len() {
                                assert(transitions@[s as int]@[k2] == old_trans[s as int]@[k2]);
                            }
                        }
                        assert forall|i: int| 0 <= i < items_s.len() && after_dot(prods, #[trigger] items_s[i]) is Some
                            && symbol_index(after_dot(prods, items_s[i])->0) < xi + 1
                            implies has_edge(transitions@[s as int]@, after_dot(prods, items_s[i])->0) by {
                            let y = after_dot(prods, items_s[i])->0;
                            if symbol_index(y) == xi {
                                lemma_symbol_index_injective(x, y);
                                assert(transitions@[s as int]@[old_trans[s as int]@.len() as int].0 == y);
                            } else {
                                let k = choose|k: int| 0 <= k < old_trans[s as int]@.len() && old_trans[s as int]@[k].0 == y;
                                assert(transitions@[s as int]@[k] == old_trans[s as int]@[k]);
                            }
                        }
                    }
                } else {
                    proof {
                        assert forall|i: int| 0 <= i < items_s.len() && after_dot(prods, #[trigger] items_s[i]) is Some
                            && symbol_index(after_dot(prods, items_s[i])->0) < xi + 1
                            implies has_edge(transitions@[s as int]@, after_dot(prods, items_s[i])->0) by {
                            if symbol_index(after_dot(prods, items_s[i])->0) == xi {
                                assert(groups@[xi as int]@.contains(advanced(items_s[i])));
                            }
                        }
                    }
                }
                xi = xi + 1;
            }
            s = s + 1;
        }
        proof {
            assert forall|t1: int, t2: int| 0 <= t1 < t2 < states@.len()
                implies #[trigger] states@[t1].items@ != #[trigger] states@[t2].items@ by {
                lemma_states_apart(prods, states@, keys@, klen@, t1, t2);
            }
        }
        Automaton { states, transitions }
    }

    /// The state reached from `state_id` by `sym`, if there is a transition.
    pub fn get_transition(&self, state_id: usize, sym: &Symbol) -> (r: Option<usize>)
        ensures
            r is Some ==> state_id < self.transitions@.len(),
            r is Some ==> exists|k: int| 0 <= k < self.transitions@[state_id as int]@.len()
                    && self.transitions@[state_id as int]@[k] == (*sym, r->0),
            r is None ==> state_id >= self.transitions@.len()
                || forall|k: int| 0 <= k < self.transitions@[state_id as int]@.len()
                    ==> self.transitions@[state_id as int]@[k].0 != *sym,
    {
        if state_id >= self.transitions.len() {
            return None;
        }
        let row = &self.transitions[state_id];
        let mut k: usize = 0;
        while k < row.len()
            invariant
                state_id < self.transitions@.len(),
                *row == self.transitions@[state_id as int],
                k <= row@.len(),
                forall|j: int| 0 <= j < k ==> row@[j].0 != *sym,
            decreases row@.len() - k,
        {
            if row[k].0 == *sym {
                assert(self.transitions@[state_id as int]@[k as int] == (*sym, row@[k as int].1));
                return Some(row[k].1);
            }
            k = k + 1;
        }
        None
    }

    /// Number of states.
    pub fn num_states(&self) -> (n: usize)
        ensures
            n == self.states@.len(),
    {
        self.states.len()
    }
}

/// The kernels of the successors of a state: for every symbol, the items that
/// expect it, with the dot moved past it, once each.
fn goto_kernels(grammar: &Grammar, items: &Vec<Item>) -> (groups: Vec<Vec<Item>>)
    requires
        forall|i: int| 0 <= i < items@.len() ==> item_valid(grammar.productions@, #[trigger] items@[i]),
    ensures
        groups@.len() == NUM_SYMBOLS,
        forall|g: int, j: int| 0 <= g < NUM_SYMBOLS && 0 <= j < groups@[g]@.len()
            ==> item_valid(grammar.productions@, #[trigger] groups@[g]@[j]),
        forall|g: int| 0 <= g < NUM_SYMBOLS ==> distinct(#[trigger] groups@[g]@),
        forall|i: int| 0 <= i < items@.len() && after_dot(grammar.productions@, #[trigger] items@[i]) is Some
            ==> groups@[symbol_index(after_dot(grammar.productions@, items@[i])->0) as int]@.contains(advanced(items@[i])),
        forall|g: int, j: int| 0 <= g < NUM_SYMBOLS && 0 <= j < groups@[g]@.len() ==> exists|i: int| 0 <= i < items@.len()
            && after_dot(grammar.productions@, #[trigger] items@[i]) is Some && advanced(items@[i]) == #[trigger] groups@[g]@[j],
{
    let ghost prods = grammar.productions@;
    let mut groups: Vec<Vec<Item>> = Vec::new();
    let mut g: usize = 0;
    while g < NUM_SYMBOLS
        invariant
            g <= NUM_SYMBOLS,
            groups@.len() == g,
            forall|x: int| 0 <= x < g ==> (#[trigger] groups@[x])@.len() == 0,
        decreases NUM_SYMBOLS - g,
    {
        groups.push(Vec::new());
        g = g + 1;
    }
    let mut i: usize = 0;
    while i < items.len()
        invariant
            prods == grammar.productions@,
            forall|i2: int| 0 <= i2 < items@.len() ==> item_valid(prods, #[trigger] items@[i2]),
            i <= items@.len(),
            groups@.len() == NUM_SYMBOLS,
            forall|x: int, j: int| 0 <= x < NUM_SYMBOLS && 0 <= j < groups@[x]@.len()
                ==> item_valid(prods, #[trigger] groups@[x]@[j]),
            forall|x: int| 0 <= x < NUM_SYMBOLS ==> distinct(#[trigger] groups@[x]@),
            forall|i2: int| 0 <= i2 < i && after_dot(prods, #[trigger] items@[i2]) is Some
                ==> groups@[symbol_index(after_dot(prods, items@[i2])->0) as int]@.contains(advanced(items@[i2])),
            forall|x: int, j: int| 0 <= x < NUM_SYMBOLS && 0 <= j < groups@[x]@.len() ==> exists|i2: int| 0 <= i2 < items@.len()
                && after_dot(prods, #[trigger] items@[i2]) is Some && advanced(items@[i2]) == #[trigger] groups@[x]@[j],
        decreases items@.len() - i,
    {
        let it = items[i];
        match it.symbol_after_dot(grammar) {
            Some(x) => {
                let xi = sym_index(x);
                let _n = grammar.productions[it.prod_id].body.len();
                let adv = it.advance();
                let present = contains_item(&groups[xi], &adv);
                let ghost g0 = groups@;
                if !present {
                    groups[xi].push(adv);
                }
                proof {
                    assert forall|x2: int, j: int| 0 <= x2 < NUM_SYMBOLS && 0 <= j < groups@[x2]@.len()
                        implies item_valid(prods, #[trigger] groups@[x2]@[j]) by {
                        if x2 != xi || j < g0[x2]@.len() {
                            assert(groups@[x2]@[j] == g0[x2]@[j]);
                        }
                    }
                    assert forall|x2: int, j: int| 0 <= x2 < NUM_SYMBOLS && 0 <= j < groups@[x2]@.len()
                        implies exists|i2: int| 0 <= i2 < items@.len() && after_dot(prods, #[trigger] items@[i2]) is Some
                            && advanced(items@[i2]) == #[trigger] groups@[x2]@[j] by {
                        if x2 != xi || j < g0[x2]@.len() {
                            assert(groups@[x2]@[j] == g0[x2]@[j]);
                        } else {
                            assert(groups@[x2]@[j] == adv);
                            assert(after_dot(prods, items@[i as int]) is Some);
                        }
                    }
                    assert forall|x2: int| 0 <= x2 < NUM_SYMBOLS implies distinct(#[trigger] groups@[x2]@) by {
                        if x2 == xi && !present {
                            assert(groups@[x2]@ == g0[x2]@.push(adv));
                        }
                    }
                    assert forall|i2: int| 0 <= i2 < i + 1 && after_dot(prods, #[trigger] items@[i2]) is Some
                        implies groups@[symbol_index(after_dot(prods, items@[i2])->0) as int]@.contains(advanced(items@[i2])) by {
                        let y = symbol_index(after_dot(prods, items@[i2])->0) as int;
                        if y == xi as int {
                            lemma_push_contains(g0[y]@, adv, advanced(items@[i2]));
                        }
                    }
                }
            }
            None => {}
        }
        i = i + 1;
    }
    groups
}

/// Number of hash buckets used to find states by kernel.
pub const NUM_BUCKETS: usize = 4096;

/// Bucket of a kernel key.
fn key_hash(key: &Vec<usize>) -> (h: usize)
    ensures
        h < NUM_BUCKETS,
        h == key_hash_spec(key@),
{
    let mut h: usize = 0;
    let mut k: usize = 0;
    while k < key.len()
        invariant
            h < NUM_BUCKETS,
            k <= key@.len(),
            h == key_hash_upto(key@, k as int),
        decreases key@.len() - k,
    {
        h = (h * 31 + key[k] % NUM_BUCKETS) % NUM_BUCKETS;
        k = k + 1;
    }
    h
}

/// Whether two keys are equal.
fn same_key(a: &Vec<usize>, b: &Vec<usize>) -> (r: bool)
    ensures
        r == (a@ == b@),
{
    if a.len() != b.len() {
        return false;
    }
    let mut k: usize = 0;
    while k < a.len()
        invariant
            a@.len() == b@.len(),
            k <= a@.len(),
            forall|j: int| 0 <= j < k ==> a@[j] == b@[j],
        decreases a@.len() - k,
    {
        if a[k] != b[k] {
            return false;
        }
        k = k + 1;
    }
    assert(a@ =~= b@);
    true
}

/// The cells of a kernel, in increasing order.
fn kernel_key(cores: &Cores, kernel: &Vec<Item>, Ghost(prods): Ghost<Seq<Production>>, Ghost(ff): Ghost<FirstFollow>) -> (key: Vec<usize>)
    requires
        cores.wf(prods, ff),
        forall|i: int| 0 <= i < kernel@.len() ==> item_valid(prods, #[trigger] kernel@[i]),
    ensures
        forall|c: usize| #[trigger] key@.contains(c) <==> some_cell(prods, kernel@, kernel@.len() as int, c as int),
        incr_below(key@, num_cells(prods) as nat),
{
    let mut key: Vec<usize> = Vec::new();
    let mut k: usize = 0;
    while k < kernel.len()
        invariant
            cores.wf(prods, ff),
            forall|i: int| 0 <= i < kernel@.len() ==> item_valid(prods, #[trigger] kernel@[i]),
            k <= kernel@.len(),
            forall|c: usize| #[trigger] key@.contains(c) <==> some_cell(prods, kernel@, k as int, c as int),
            forall|a: int, b: int| 0 <= a < b < key@.len() ==> key@[a] < key@[b],
            forall|a: int| 0 <= a < key@.len() ==> key@[a] < num_cells(prods),
        decreases kernel@.len() - k,
    {
        let c = cores.cell(&kernel[k], Ghost(prods), Ghost(ff));
        let ghost before = key@;
        insert_sorted(&mut key, c);
        proof {
            lemma_item_cell(prods, kernel@[k as int]);
            assert forall|x: usize| #[trigger] key@.contains(x) <==> some_cell(prods, kernel@, k + 1, x as int) by {
                if some_cell(prods, kernel@, k + 1, x as int) {
                    let j = choose|j: int| 0 <= j < k + 1 && item_cell(prods, #[trigger] kernel@[j]) == x as int;
                    if j < k {
                        assert(some_cell(prods, kernel@, k as int, x as int));
                    }
                }
                if before.contains(x) {
                    let j = choose|j: int| 0 <= j < k && item_cell(prods, #[trigger] kernel@[j]) == x as int;
                    assert(some_cell(prods, kernel@, k + 1, x as int));
                }
                if x == c {
                    assert(item_cell(prods, kernel@[k as int]) == x as int);
                }
            }
            assert forall|a: int| 0 <= a < key@.len() implies key@[a] < num_cells(prods) by {
                assert(key@.contains(key@[a]));
                if before.contains(key@[a]) {
                    let j = choose|j: int| 0 <= j < before.len() && before[j] == key@[a];
                }
            }
        }
        k = k + 1;
    }
    key
}

/// Inserts `c` into a strictly increasing vector, keeping it so.
fn insert_sorted(v: &mut Vec<usize>, c: usize)
    requires
        forall|a: int, b: int| 0 <= a < b < old(v)@.len() ==> old(v)@[a] < old(v)@[b],
    ensures
        forall|a: int, b: int| 0 <= a < b < final(v)@.len() ==> final(v)@[a] < final(v)@[b],
        forall|x: usize| #[trigger] final(v)@.contains(x) <==> (old(v)@.contains(x) || x == c),
{
    let mut k: usize = 0;
    while k < v.len() && v[k] < c
        invariant
            v@ == old(v)@,
            forall|a: int, b: int| 0 <= a < b < v@.len() ==> v@[a] < v@[b],
            k <= v@.len(),
            forall|a: int| 0 <= a < k ==> v@[a] < c,
        decreases v@.len() - k,
    {
        k = k + 1;
    }
    if k < v.len() && v[k] == c {
        assert(v@[k as int] == c);
        return;
    }
    let ghost before = v@;
    v.insert(k, c);
    proof {
        assert forall|x: usize| #[trigger] v@.contains(x) <==> (before.contains(x) || x == c) by {
            if v@.contains(x) {
                let j = choose|j: int| 0 <= j < v@.len() && v@[j] == x;
                if j < k {
                    assert(before[j] == x);
                } else if j > k {
                    assert(before[j - 1] == x);
                }
            }
            if before.contains(x) {
                let j = choose|j: int| 0 <= j < before.len() && before[j] == x;
                if j < k {
                    assert(v@[j] == x);
                } else {
                    assert(v@[j + 1] == x);
                }
            }
            if x == c {
                assert(v@[k as int] == c);
            }
        }
    }
}

/// The closure of a set of kernel items. The kernel comes first, in order;
/// the items added after it have their dot at the start.
fn closure(grammar: &Grammar, ff: &FirstFollow, cores: &Cores, kernel: &Vec<Item>) -> (r: Vec<Item>)
    requires
        grammar.wf(),
        ff.wf(),
        cores.wf(grammar.productions@, *ff),
        distinct(kernel@),
        forall|i: int| 0 <= i < kernel@.len() ==> item_valid(grammar.productions@, #[trigger] kernel@[i]),
    ensures
        distinct(r@),
        r@.len() >= kernel@.len(),
        forall|i: int| 0 <= i < kernel@.len() ==> #[trigger] r@[i] == kernel@[i],
        forall|i: int| 0 <= i < r@.len() ==> item_valid(grammar.productions@, #[trigger] r@[i]),
        closed(grammar.productions@, *ff, r@),
        forall|j: int| kernel@.len() <= j < r@.len() ==> justified(grammar.productions@, *ff, r@, j),
{
    let ghost prods = grammar.productions@;
    let _np = grammar.productions.len();
    let mut mark = falses(cores.ncells);
    let mut r: Vec<Item> = Vec::new();
    let mut k: usize = 0;
    while k < kernel.len()
        invariant
            cores.wf(prods, *ff),
            prods == grammar.productions@,
            distinct(kernel@),
            forall|i: int| 0 <= i < kernel@.len() ==> item_valid(prods, #[trigger] kernel@[i]),
            k <= kernel@.len(),
            r@ == kernel@.subrange(0, k as int),
            mark@.len() == cores.ncells,
            count_true(mark@) == r@.len(),
            forall|j: int| 0 <= j < r@.len() ==> mark@[item_cell(prods, #[trigger] r@[j])],
            forall|x: int| 0 <= x < mark@.len() && #[trigger] mark@[x] ==> some_cell(prods, r@, r@.len() as int, x),
        decreases kernel@.len() - k,
    {
        let it = kernel[k];
        let c = cores.cell(&it, Ghost(prods), Ghost(*ff));
        proof {
            if mark@[c as int] {
                let j = choose|j: int| 0 <= j < r@.len() && item_cell(prods, #[trigger] r@[j]) == c as int;
                lemma_item_cell_injective(prods, r@[j], it);
                assert(kernel@[j] == kernel@[k as int]);
            }
            lemma_count_true_set(mark@, c as int);
        }
        let ghost r0 = r@;
        let ghost m0 = mark@;
        mark.set(c, true);
        r.push(it);
        proof {
            assert(r@ =~= kernel@.subrange(0, k + 1));
            assert forall|j: int| 0 <= j < r@.len() implies mark@[item_cell(prods, #[trigger] r@[j])] by {
                lemma_item_cell(prods, r@[j]);
                if j < r0.len() {
                    assert(r@[j] == r0[j]);
                    assert(m0[item_cell(prods, r0[j])]);
                } else {
                    assert(r@[j] == it);
                }
            }
            assert forall|x: int| 0 <= x < mark@.len() && #[trigger] mark@[x] implies some_cell(prods, r@, r@.len() as int, x) by {
                if x != c as int {
                    let j = choose|j: int| 0 <= j < r0.len() && item_cell(prods, #[trigger] r0[j]) == x;
                    assert(r@[j] == r0[j]);
                } else {
                    assert(item_cell(prods, r@[k as int]) == x);
                }
            }
        }
        k = k + 1;
    }
    assert(r@ =~= kernel@);
    let mut w: usize = 0;
    while w < r.len()
        invariant
            grammar.wf(),
            ff.wf(),
            cores.wf(prods, *ff),
            prods == grammar.productions@,
            prods.len() <= usize::MAX,
            distinct(r@),
            r@.len() >= kernel@.len(),
            forall|i: int| 0 <= i < kernel@.len() ==> #[trigger] r@[i] == kernel@[i],
            forall|i: int| 0 <= i < r@.len() ==> item_valid(prods, #[trigger] r@[i]),
            w <= r@.len(),
            mark@.len() == cores.ncells,
            count_true(mark@) == r@.len(),
            forall|j: int| kernel@.len() <= j < r@.len() ==> justified(prods, *ff, r@, j),
            forall|j: int| 0 <= j < r@.len() ==> mark@[item_cell(prods, #[trigger] r@[j])],
            forall|x: int| 0 <= x < mark@.len() && #[trigger] mark@[x] ==> some_cell(prods, r@, r@.len() as int, x),
            forall|i: int, it2: Item| 0 <= i < w && #[trigger] closure_step(prods, *ff, r@[i], it2)
                ==> mark@[item_cell(prods, it2)],
        decreases cores.ncells - w,
    {
        proof { lemma_count_true_le(mark@); }
        let it = r[w];
        let ghost rw = r@[w as int];
        match grammar.production(it.prod_id).symbol_at(it.dot) {
            Some(Symbol::NT(b)) => {
                let b = *b;
                proof {
                    lemma_item_cell(prods, it);
                    lemma_terminal_index(it.lookahead);
                    lemma_core_base_nonneg(prods, prods.len() as int);
                    assert(core_base(prods, prods.len() as int) * 63 == cores.ncells);
                }
                let c = cores.base[it.prod_id] + it.dot;
                let ai = it.lookahead.index();
                assert(row_ok(prods, *ff, cores.first_beta@[core_of(prods, it.prod_id as int, it.dot as int)]@,
                    cores.nullable_beta@[core_of(prods, it.prod_id as int, it.dot as int)], it.prod_id as int, it.dot as int));
                let ids = grammar.productions_for(&b);
                proof { lemma_ids_with_head(prods, b); }
                let mut qk: usize = 0;
                while qk < ids.len()
                    invariant
                        grammar.wf(),
                        ff.wf(),
                        cores.wf(prods, *ff),
                        prods == grammar.productions@,
                        prods.len() <= usize::MAX,
                        ids@ == grammar.spec_productions_for(b),
                        forall|k2: int| 0 <= k2 < ids@.len() ==> {
                            &&& (#[trigger] ids@[k2]) < prods.len()
                            &&& prods[ids@[k2] as int].head == b
                        },
                        rw == r@[w as int],
                        it == rw,
                        item_valid(prods, it),
                        after_dot(prods, it) == Some(Symbol::NT(b)),
                        c == core_of(prods, it.prod_id as int, it.dot as int),
                        row_ok(prods, *ff, cores.first_beta@[c as int]@, cores.nullable_beta@[c as int], it.prod_id as int, it.dot as int),
                        c < cores.first_beta@.len(),
                        it.dot < prods[it.prod_id as int].body@.len(),
                        ai == terminal_index(it.lookahead),
                        distinct(r@),
                        r@.len() >= kernel@.len(),
                        forall|i: int| 0 <= i < kernel@.len() ==> #[trigger] r@[i] == kernel@[i],
                        forall|i: int| 0 <= i < r@.len() ==> item_valid(prods, #[trigger] r@[i]),
                        w < r@.len(),
                        mark@.len() == cores.ncells,
                        count_true(mark@) == r@.len(),
            forall|j: int| kernel@.len() <= j < r@.len() ==> justified(prods, *ff, r@, j),
                        forall|j: int| 0 <= j < r@.len() ==> mark@[item_cell(prods, #[trigger] r@[j])],
                        forall|x: int| 0 <= x < mark@.len() && #[trigger] mark@[x] ==> some_cell(prods, r@, r@.len() as int, x),
                        forall|i: int, it2: Item| 0 <= i < w && #[trigger] closure_step(prods, *ff, r@[i], it2)
                            ==> mark@[item_cell(prods, it2)],
                        qk <= ids@.len(),
                        forall|it2: Item| #[trigger] closure_step(prods, *ff, it, it2)
                            && ids@.subrange(0, qk as int).contains(it2.prod_id) ==> mark@[item_cell(prods, it2)],
                    decreases ids@.len() - qk,
                {
                    let q = ids[qk];
                    let qbase = cores.base[q];
                    let mut t: usize = 0;
                    while t < NUM_TERMINALS
                        invariant
                            grammar.wf(),
                            ff.wf(),
                            cores.wf(prods, *ff),
                            prods == grammar.productions@,
                            prods.len() <= usize::MAX,
                            q < prods.len(),
                            prods[q as int].head == b,
                            qbase == core_base(prods, q as int),
                            rw == r@[w as int],
                            it == rw,
                            item_valid(prods, it),
                            after_dot(prods, it) == Some(Symbol::NT(b)),
                            c == core_of(prods, it.prod_id as int, it.dot as int),
                            row_ok(prods, *ff, cores.first_beta@[c as int]@, cores.nullable_beta@[c as int], it.prod_id as int, it.dot as int),
                            c < cores.first_beta@.len(),
                            it.dot < prods[it.prod_id as int].body@.len(),
                            ai == terminal_index(it.lookahead),
                            distinct(r@),
                            r@.len() >= kernel@.len(),
                            forall|i: int| 0 <= i < kernel@.len() ==> #[trigger] r@[i] == kernel@[i],
                            forall|i: int| 0 <= i < r@.len() ==> item_valid(prods, #[trigger] r@[i]),
                            w < r@.len(),
                            mark@.len() == cores.ncells,
                            count_true(mark@) == r@.len(),
            forall|j: int| kernel@.len() <= j < r@.len() ==> justified(prods, *ff, r@, j),
                            forall|j: int| 0 <= j < r@.len() ==> mark@[item_cell(prods, #[trigger] r@[j])],
                            forall|x: int| 0 <= x < mark@.len() && #[trigger] mark@[x] ==> some_cell(prods, r@, r@.len() as int, x),
                            forall|i: int, it2: Item| 0 <= i < w && #[trigger] closure_step(prods, *ff, r@[i], it2)
                                ==> mark@[item_cell(prods, it2)],
                            forall|it2: Item| #[trigger] closure_step(prods, *ff, it, it2)
                                && ids@.subrange(0, qk as int).contains(it2.prod_id) ==> mark@[item_cell(prods, it2)],
                            t <= NUM_TERMINALS,
                            forall|it2: Item| #[trigger] closure_step(prods, *ff, it, it2) && it2.prod_id == q
                                && terminal_index(it2.lookahead) < t ==> mark@[item_cell(prods, it2)],
                        decreases NUM_TERMINALS - t,
                    {
                        let la = cores.first_beta[c][t] || (cores.nullable_beta[c] && t == ai);
                        let term = Terminal::from_index(t);
                        let it2 = Item::new(q, 0, term);
                        proof {
                            lemma_terminal_at(t as nat);
                            lemma_item_cell(prods, it2);
                            assert(cores.first_beta@[c as int]@[terminal_index(term) as int]
                                == ff.str_first(prods[it.prod_id as int].body@.skip(it.dot + 1), term));
                            assert(la == ff.str_first_la(prods[it.prod_id as int].body@.skip(it.dot + 1), it.lookahead, term)) by {
                                lemma_terminal_index_eq(term, it.lookahead);
                            }
                            lemma_count_true_le(mark@);
                        }
                        let c2 = qbase * NUM_TERMINALS + t;
                        assert(c2 == item_cell(prods, it2));
                        if la && !mark[c2] {
                            proof {
                                lemma_count_true_set(mark@, c2 as int);
                                if r@.contains(it2) {
                                    let j = choose|j: int| 0 <= j < r@.len() && r@[j] == it2;
                                    assert(mark@[item_cell(prods, r@[j])]);
                                }
                                lemma_count_true_le(mark@.update(c2 as int, true));
                            }
                            let ghost r0 = r@;
                            let ghost m0 = mark@;
                            mark.set(c2, true);
                            r.push(it2);
                            proof {
                                assert(closure_step(prods, *ff, r@[w as int], r@[r0.len() as int]));
                                assert forall|j: int| kernel@.len() <= j < r@.len() implies justified(prods, *ff, r@, j) by {
                                    if j < r0.len() {
                                        assert(justified(prods, *ff, r0, j));
                                        let i = choose|i: int| 0 <= i < j && #[trigger] closure_step(prods, *ff, r0[i], r0[j]);
                                        assert(r@[i] == r0[i] && r@[j] == r0[j]);
                                        assert(closure_step(prods, *ff, r@[i], r@[j]));
                                    } else {
                                        assert(closure_step(prods, *ff, r@[w as int], r@[j]));
                                    }
                                }
                                assert forall|i: int, it3: Item| 0 <= i < w && #[trigger] closure_step(prods, *ff, r@[i], it3)
                                    implies mark@[item_cell(prods, it3)] by {
                                    assert(r@[i] == r0[i]);
                                    assert(closure_step(prods, *ff, r0[i], it3));
                                    lemma_item_cell(prods, it3);
                                    assert(m0[item_cell(prods, it3)]);
                                }
                                assert forall|it3: Item| #[trigger] closure_step(prods, *ff, it, it3)
                                    && ids@.subrange(0, qk as int).contains(it3.prod_id) implies mark@[item_cell(prods, it3)] by {
                                    lemma_item_cell(prods, it3);
                                    assert(m0[item_cell(prods, it3)]);
                                }
                                assert forall|it3: Item| #[trigger] closure_step(prods, *ff, it, it3) && it3.prod_id == q
                                    && terminal_index(it3.lookahead) < t implies mark@[item_cell(prods, it3)] by {
                                    lemma_item_cell(prods, it3);
                                    assert(m0[item_cell(prods, it3)]);
                                }
                                assert forall|x: int| 0 <= x < mark@.len() && #[trigger] mark@[x] implies some_cell(prods, r@, r@.len() as int, x) by {
                                    if x != c2 as int {
                                        let j = choose|j: int| 0 <= j < r0.len() && item_cell(prods, #[trigger] r0[j]) == x;
                                        assert(r@[j] == r0[j]);
                                    } else {
                                        assert(item_cell(prods, r@[r0.len() as int]) == x);
                                    }
                                }
                                assert forall|j: int| 0 <= j < r@.len() implies mark@[item_cell(prods, #[trigger] r@[j])] by {
                                    lemma_item_cell(prods, r@[j]);
                                    if j < r0.len() {
                                        assert(r@[j] == r0[j]);
                                        assert(m0[item_cell(prods, r0[j])]);
                                    }
                                }
                            }
                        }
                        proof {
                            assert forall|it3: Item| #[trigger] closure_step(prods, *ff, it, it3) && it3.prod_id == q
                                && terminal_index(it3.lookahead) < t + 1 implies mark@[item_cell(prods, it3)] by {
                                lemma_terminal_index(it3.lookahead);
                                if terminal_index(it3.lookahead) == t {
                                    lemma_terminal_index_eq(it3.lookahead, term);
                                    assert(it3 == it2);
                                }
                            }
                        }
                        t = t + 1;
                    }
                    proof {
                        assert forall|it2: Item| #[trigger] closure_step(prods, *ff, it, it2)
                            && ids@.subrange(0, qk + 1).contains(it2.prod_id) implies mark@[item_cell(prods, it2)] by {
                            lemma_terminal_index(it2.lookahead);
                            lemma_push_contains(ids@.subrange(0, qk as int), q, it2.prod_id);
                            assert(ids@.subrange(0, qk + 1) =~= ids@.subrange(0, qk as int).push(q));
                        }
                    }
                    qk = qk + 1;
                }
                proof {
                    assert(ids@.subrange(0, ids@.len() as int) =~= ids@);
                    assert forall|i: int, it2: Item| 0 <= i < w + 1 && #[trigger] closure_step(prods, *ff, r@[i], it2)
                        implies mark@[item_cell(prods, it2)] by {
                        if i == w {
                            assert(ids@.contains(it2.prod_id));
                        }
                    }
                }
            }
            _ => {
                proof {
                    assert forall|i: int, it2: Item| 0 <= i < w + 1 && #[trigger] closure_step(prods, *ff, r@[i], it2)
                        implies mark@[item_cell(prods, it2)] by {
                        if i == w {
                            assert(false);
                        }
                    }
                }
            }
        }
        w = w + 1;
    }
    proof {
        assert forall|i: int, it2: Item| 0 <= i < r@.len() && #[trigger] closure_step(prods, *ff, r@[i], it2)
            implies r@.contains(it2) by {
            let it2_valid = item_valid(prods, it2);
            lemma_item_cell(prods, it2);
            let j = choose|j: int| 0 <= j < r@.len() && item_cell(prods, #[trigger] r@[j]) == item_cell(prods, it2);
            lemma_item_cell_injective(prods, r@[j], it2);
        }
    }
    r
}

} // verus!
