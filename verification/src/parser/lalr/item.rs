//! LR(1) items `[A → α • β, a]` and sets of items.
use vstd::prelude::*;
use crate::parser::grammar::Grammar;
use crate::parser::grammar::production::Production;
use crate::parser::grammar::symbol::{Symbol, Terminal};
use crate::seqs::lemma_push_contains;

verus! {

/// An LR(1) item: a production, a position in its body and a lookahead terminal.
#[derive(Debug, Clone, Copy, PartialEq, Eq, Hash, Structural)]
pub struct Item {
    pub prod_id: usize,
    pub dot: usize,
    pub lookahead: Terminal,
}

/// The item names a production of `prods` and its dot lies inside the body.
pub open spec fn item_valid(prods: Seq<Production>, it: Item) -> bool {
    &&& it.prod_id < prods.len()
    &&& it.dot <= prods[it.prod_id as int].body@.len()
}

/// The symbol right after the dot, if the item is not complete.
pub open spec fn after_dot(prods: Seq<Production>, it: Item) -> Option<Symbol> {
    let body = prods[it.prod_id as int].body@;
    if it.dot < body.len() { Some(body[it.dot as int]) } else { None }
}

/// The item with the dot moved one symbol to the right.
pub open spec fn advanced(it: Item) -> Item {
    Item { prod_id: it.prod_id, dot: (it.dot + 1) as usize, lookahead: it.lookahead }
}

/// No element occurs twice.
pub open spec fn distinct<A>(s: Seq<A>) -> bool {
    forall|i: int, j: int| 0 <= i < j < s.len() ==> s[i] != s[j]
}

impl Item {
    pub fn new(prod_id: usize, dot: usize, lookahead: Terminal) -> (it: Self)
        ensures
            it.prod_id == prod_id,
            it.dot == dot,
            it.lookahead == lookahead,
    {
        Item { prod_id, dot, lookahead }
    }

    /// The dot has reached the end of the body.
    pub fn is_complete(&self, grammar: &Grammar) -> (b: bool)
        requires
            self.prod_id < grammar.productions@.len(),
        ensures
            b == (self.dot >= grammar.productions@[self.prod_id as int].body@.len()),
    {
        let prod = grammar.production(self.prod_id);
        self.dot >= prod.body.len()
    }

    /// The symbol right after the dot, if any.
    pub fn symbol_after_dot<'g>(&self, grammar: &'g Grammar) -> (r: Option<&'g Symbol>)
        requires
            self.prod_id < grammar.productions@.len(),
        ensures
            r matches Some(s) ==> after_dot(grammar.productions@, *self) == Some(*s),
            r is None ==> after_dot(grammar.productions@, *self) is None,
    {
        grammar.production(self.prod_id).symbol_at(self.dot)
    }

    /// The item with the dot moved past one more symbol.
    pub fn advance(&self) -> (it: Self)
        requires
            self.dot < usize::MAX,
        ensures
            it == advanced(*self),
    {
        Item { prod_id: self.prod_id, dot: self.dot + 1, lookahead: self.lookahead }
    }

    /// β followed by the lookahead, for an item `[A → α • X β, a]`.
    pub fn beta_lookahead(&self, grammar: &Grammar) -> (v: Vec<Symbol>)
        requires
            self.prod_id < grammar.productions@.len(),
            self.dot < grammar.productions@[self.prod_id as int].body@.len(),
        ensures
            v@ == grammar.productions@[self.prod_id as int].body@.skip(self.dot + 1).push(Symbol::T(self.lookahead)),
    {
        let prod = grammar.production(self.prod_id);
        let _n = prod.body.len();
        let mut v: Vec<Symbol> = Vec::new();
        let mut k: usize = self.dot + 1;
        while k < prod.body.len()
            invariant
                self.dot + 1 <= k <= prod.body@.len(),
                v@ == prod.body@.subrange(self.dot + 1, k as int),
            decreases prod.body@.len() - k,
        {
            v.push(prod.body[k]);
            proof {
                assert(prod.body@.subrange(self.dot + 1, k + 1) =~= prod.body@.subrange(self.dot + 1, k as int).push(prod.body@[k as int]));
            }
            k = k + 1;
        }
        v.push(Symbol::T(self.lookahead));
        assert(prod.body@.skip(self.dot + 1) =~= prod.body@.subrange(self.dot + 1, prod.body@.len() as int));
        v
    }
}

/// A set of items, kept without repetitions.
#[derive(Debug, Clone)]
pub struct ItemSet {
    pub id: usize,
    pub items: Vec<Item>,
}

impl ItemSet {
    /// A set with the given id holding the given items once each.
    pub fn new(id: usize, items: Vec<Item>) -> (s: Self)
        ensures
            s.id == id,
            distinct(s.items@),
            forall|it: Item| s.items@.contains(it) <==> items@.contains(it),
    {
        let mut out: Vec<Item> = Vec::new();
        let mut k: usize = 0;
        while k < items.len()
            invariant
                k <= items@.len(),
                distinct(out@),
                forall|it: Item| out@.contains(it) <==> items@.subrange(0, k as int).contains(it),
            decreases items@.len() - k,
        {
            let it = items[k];
            let present = contains_item(&out, &it);
            let ghost before = out@;
            if !present {
                out.push(it);
            }
            proof {
                assert forall|x: Item| out@.contains(x) <==> items@.subrange(0, k + 1).contains(x) by {
                    lemma_push_contains(items@.subrange(0, k as int), it, x);
                    assert(items@.subrange(0, k + 1) =~= items@.subrange(0, k as int).push(it));
                    lemma_push_contains(before, it, x);
                }
            }
            k = k + 1;
        }
        assert(items@.subrange(0, items@.len() as int) =~= items@);
        ItemSet { id, items: out }
    }

    /// The pairs (production, dot) of the items, once each.
    pub fn core_pairs(&self) -> (c: Vec<(usize, usize)>)
        ensures
            distinct(c@),
            forall|p: usize, d: usize| c@.contains((p, d)) <==>
                exists|i: int| 0 <= i < self.items@.len() && self.items@[i].prod_id == p && self.items@[i].dot == d,
    {
        let mut c: Vec<(usize, usize)> = Vec::new();
        let mut k: usize = 0;
        while k < self.items.len()
            invariant
                k <= self.items@.len(),
                distinct(c@),
                forall|p: usize, d: usize| c@.contains((p, d)) <==>
                    exists|i: int| 0 <= i < k && self.items@[i].prod_id == p && self.items@[i].dot == d,
            decreases self.items@.len() - k,
        {
            let it = self.items[k];
            let mut found = false;
            let mut j: usize = 0;
            while j < c.len()
                invariant
                    j <= c@.len(),
                    found == exists|i: int| 0 <= i < j && c@[i] == (it.prod_id, it.dot),
                decreases c@.len() - j,
            {
                if c[j].0 == it.prod_id && c[j].1 == it.dot {
                    found = true;
                }
                j = j + 1;
            }
            let ghost before = c@;
            if !found {
                c.push((it.prod_id, it.dot));
            }
            proof {
                assert forall|p: usize, d: usize| c@.contains((p, d)) <==>
                    exists|i: int| 0 <= i < k + 1 && self.items@[i].prod_id == p && self.items@[i].dot == d by {
                    lemma_push_contains(before, (it.prod_id, it.dot), (p, d));
                    if (exists|i: int| 0 <= i < k + 1 && self.items@[i].prod_id == p && self.items@[i].dot == d) {
                        let i = choose|i: int| 0 <= i < k + 1 && self.items@[i].prod_id == p && self.items@[i].dot == d;
                        if i < k {
                            assert(exists|i2: int| 0 <= i2 < k && self.items@[i2].prod_id == p && self.items@[i2].dot == d);
                        }
                    }
                    if before.contains((p, d)) {
                        let i = choose|i: int| 0 <= i < k && self.items@[i].prod_id == p && self.items@[i].dot == d;
                        assert(0 <= i < k + 1);
                    }
                    if found && p == it.prod_id && d == it.dot {
                        let i = choose|i: int| 0 <= i < c@.len() && c@[i] == (it.prod_id, it.dot);
                        assert(before.contains((p, d)));
                    }
                }
            }
            k = k + 1;
        }
        c
    }

    /// The symbols that some item has right after its dot, once each.
    pub fn transition_symbols(&self, grammar: &Grammar) -> (syms: Vec<Symbol>)
        requires
            forall|i: int| 0 <= i < self.items@.len() ==> item_valid(grammar.productions@, #[trigger] self.items@[i]),
        ensures
            distinct(syms@),
            forall|s: Symbol| syms@.contains(s) <==>
                exists|i: int| 0 <= i < self.items@.len() && after_dot(grammar.productions@, #[trigger] self.items@[i]) == Some(s),
    {
        let mut syms: Vec<Symbol> = Vec::new();
        let mut k: usize = 0;
        while k < self.items.len()
            invariant
                k <= self.items@.len(),
                forall|i: int| 0 <= i < self.items@.len() ==> item_valid(grammar.productions@, #[trigger] self.items@[i]),
                distinct(syms@),
                forall|s: Symbol| syms@.contains(s) <==>
                    exists|i: int| 0 <= i < k && after_dot(grammar.productions@, #[trigger] self.items@[i]) == Some(s),
            decreases self.items@.len() - k,
        {
            let it = self.items[k];
            let ghost before = syms@;
            match it.symbol_after_dot(grammar) {
                Some(s) => {
                    let s = *s;
                    let mut found = false;
                    let mut j: usize = 0;
                    while j < syms.len()
                        invariant
                            j <= syms@.len(),
                            found == exists|i: int| 0 <= i < j && syms@[i] == s,
                        decreases syms@.len() - j,
                    {
                        if syms[j] == s {
                            found = true;
                        }
                        j = j + 1;
                    }
                    if !found {
                        syms.push(s);
                    }
                    proof {
                        assert forall|x: Symbol| syms@.contains(x) <==>
                            exists|i: int| 0 <= i < k + 1 && after_dot(grammar.productions@, #[trigger] self.items@[i]) == Some(x) by {
                            lemma_push_contains(before, s, x);
                            if exists|i: int| 0 <= i < k + 1 && after_dot(grammar.productions@, #[trigger] self.items@[i]) == Some(x) {
                                let i = choose|i: int| 0 <= i < k + 1 && after_dot(grammar.productions@, #[trigger] self.items@[i]) == Some(x);
                                if i < k {
                                    assert(before.contains(x));
                                }
                            }
                            if before.contains(x) {
                                let i = choose|i: int| 0 <= i < k && after_dot(grammar.productions@, #[trigger] self.items@[i]) == Some(x);
                                assert(0 <= i < k + 1);
                            }
                            if found && x == s {
                                let i = choose|i: int| 0 <= i < syms@.len() && syms@[i] == s;
                                assert(before.contains(x));
                            }
                        }
                    }
                }
                None => {
                    proof {
                        assert forall|x: Symbol| syms@.contains(x) <==>
                            exists|i: int| 0 <= i < k + 1 && after_dot(grammar.productions@, #[trigger] self.items@[i]) == Some(x) by {
                            if exists|i: int| 0 <= i < k + 1 && after_dot(grammar.productions@, #[trigger] self.items@[i]) == Some(x) {
                                let i = choose|i: int| 0 <= i < k + 1 && after_dot(grammar.productions@, #[trigger] self.items@[i]) == Some(x);
                                if i < k {
                                    assert(before.contains(x));
                                }
                            }
                            if before.contains(x) {
                                let i = choose|i: int| 0 <= i < k && after_dot(grammar.productions@, #[trigger] self.items@[i]) == Some(x);
                                assert(0 <= i < k + 1);
                            }
                        }
                    }
                }
            }
            k = k + 1;
        }
        syms
    }

    /// The items whose next symbol is `sym`, in the order of the set.
    pub fn items_expecting(&self, sym: &Symbol, grammar: &Grammar) -> (r: Vec<Item>)
        requires
            forall|i: int| 0 <= i < self.items@.len() ==> item_valid(grammar.productions@, #[trigger] self.items@[i]),
        ensures
            r@ == self.items@.filter(|it: Item| after_dot(grammar.productions@, it) == Some(*sym)),
    {
        let ghost f = |it: Item| after_dot(grammar.productions@, it) == Some(*sym);
        let mut r: Vec<Item> = Vec::new();
        let mut k: usize = 0;
        while k < self.items.len()
            invariant
                k <= self.items@.len(),
                forall|i: int| 0 <= i < self.items@.len() ==> item_valid(grammar.productions@, #[trigger] self.items@[i]),
                f == (|it: Item| after_dot(grammar.productions@, it) == Some(*sym)),
                r@ == self.items@.subrange(0, k as int).filter(f),
            decreases self.items@.len() - k,
        {
            let it = self.items[k];
            proof {
                assert(self.items@.subrange(0, k + 1).drop_last() =~= self.items@.subrange(0, k as int));
                reveal(Seq::filter);
            }
            match it.symbol_after_dot(grammar) {
                Some(s) => {
                    if *s == *sym {
                        r.push(it);
                    }
                }
                None => {}
            }
            k = k + 1;
        }
        assert(self.items@.subrange(0, self.items@.len() as int) =~= self.items@);
        r
    }
}

/// Whether `it` occurs in `v`.
pub fn contains_item(v: &Vec<Item>, it: &Item) -> (b: bool)
    ensures
        b == v@.contains(*it),
{
    let mut k: usize = 0;
    while k < v.len()
        invariant
            k <= v@.len(),
            forall|i: int| 0 <= i < k ==> v@[i] != *it,
        decreases v@.len() - k,
    {
        if v[k] == *it {
            return true;
        }
        k = k + 1;
    }
    false
}

} // verus!
