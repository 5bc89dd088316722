//! Nested scopes of names.
use vstd::prelude::*;
use crate::semantic::type_system::{HulkType, str_eq, first_named, lemma_first_named};

verus! {

/// What a name stands for.
#[derive(Debug)]
pub enum SymbolKind {
    Variable { ty: HulkType, mutable: bool },
    Function { params: Vec<HulkType>, return_type: HulkType },
    Type,
    Protocol,
}

/// A named entity.
#[derive(Debug)]
pub struct Symbol {
    pub name: String,
    pub kind: SymbolKind,
}

impl Symbol {
    pub fn variable(name: &str, ty: HulkType, mutable: bool) -> (s: Self)
        ensures
            s.name@ == name@,
            s.kind == (SymbolKind::Variable { ty, mutable }),
    {
        Symbol { name: name.to_owned(), kind: SymbolKind::Variable { ty, mutable } }
    }

    pub fn function(name: &str, params: Vec<HulkType>, return_type: HulkType) -> (s: Self)
        ensures
            s.name@ == name@,
            s.kind == (SymbolKind::Function { params, return_type }),
    {
        Symbol { name: name.to_owned(), kind: SymbolKind::Function { params, return_type } }
    }

    pub fn type_sym(name: &str) -> (s: Self)
        ensures
            s.name@ == name@,
            s.kind is Type,
    {
        Symbol { name: name.to_owned(), kind: SymbolKind::Type }
    }

    pub fn protocol_sym(name: &str) -> (s: Self)
        ensures
            s.name@ == name@,
            s.kind is Protocol,
    {
        Symbol { name: name.to_owned(), kind: SymbolKind::Protocol }
    }
}

/// A scope binds a name at most once.
pub open spec fn scope_has(scope: Seq<(String, Symbol)>, name: Seq<char>) -> bool {
    exists|i: int| 0 <= i < scope.len() && scope[i].0@ == name
}

/// The symbol a scope binds to `name`: that of its first entry with the name.
pub open spec fn scope_get(scope: Seq<(String, Symbol)>, name: Seq<char>) -> Option<Symbol> {
    match first_named(scope, name) {
        Some(i) => Some(scope[i].1),
        None => None,
    }
}

/// The innermost binding of `name` among the first `k` scopes.
pub open spec fn resolve_in(scopes: Seq<Seq<(String, Symbol)>>, name: Seq<char>, k: int) -> Option<Symbol>
    decreases k,
{
    if k <= 0 {
        None
    } else {
        match scope_get(scopes[k - 1], name) {
            Some(s) => Some(s),
            None => resolve_in(scopes, name, k - 1),
        }
    }
}

/// The scope binds `name` to a variable.
pub open spec fn binds_variable(scope: Seq<(String, Symbol)>, name: Seq<char>) -> bool {
    scope_get(scope, name) matches Some(s) && s.kind is Variable
}

/// The scope binds `name` to a function.
pub open spec fn binds_function(scope: Seq<(String, Symbol)>, name: Seq<char>) -> bool {
    scope_get(scope, name) matches Some(s) && s.kind is Function
}

/// What `name` refers to: its binding in the innermost scope that has one.
pub open spec fn resolve(scopes: Seq<Seq<(String, Symbol)>>, name: Seq<char>) -> Option<Symbol> {
    resolve_in(scopes, name, scopes.len() as int)
}

/// A name that no scope among the first `k` binds resolves to nothing.
pub proof fn lemma_unbound_resolves_none(scopes: Seq<Seq<(String, Symbol)>>, name: Seq<char>, k: int)
    requires
        0 <= k <= scopes.len(),
        forall|j: int| 0 <= j < k ==> !scope_has(#[trigger] scopes[j], name),
    ensures
        resolve_in(scopes, name, k) is None,
    decreases k,
{
    if k > 0 {
        assert(!scope_has(scopes[k - 1], name));
        assert(first_named(scopes[k - 1], name) is None);
        lemma_unbound_resolves_none(scopes, name, k - 1);
    }
}

/// The scopes, outermost first. The outermost (global) scope is never popped.
pub struct SymbolTable {
    scopes: Vec<Vec<(String, Symbol)>>,
}

impl SymbolTable {
    /// The scopes as sequences, outermost first.
    pub closed spec fn scopes(&self) -> Seq<Seq<(String, Symbol)>> {
        Seq::new(self.scopes@.len(), |i: int| self.scopes@[i]@)
    }

    /// Whether the name is bound in some scope.
    pub open spec fn bound(&self, name: Seq<char>) -> bool {
        exists|k: int| 0 <= k < self.scopes().len() && scope_has(#[trigger] self.scopes()[k], name)
    }

    pub fn new() -> (t: Self)
        ensures
            t.scopes().len() == 1,
            t.scopes()[0].len() == 0,
    {
        let mut scopes: Vec<Vec<(String, Symbol)>> = Vec::new();
        scopes.push(Vec::new());
        SymbolTable { scopes }
    }

    /// Opens a new innermost scope.
    pub fn push_scope(&mut self)
        ensures
            final(self).scopes() == old(self).scopes().push(Seq::empty()),
    {
        self.scopes.push(Vec::new());
        assert(self.scopes() =~= old(self).scopes().push(Seq::empty()));
    }

    /// Closes the innermost scope, unless it is the global one.
    pub fn pop_scope(&mut self)
        ensures
            old(self).scopes().len() > 1 ==> final(self).scopes() == old(self).scopes().drop_last(),
            old(self).scopes().len() <= 1 ==> final(self).scopes() == old(self).scopes(),
    {
        if self.scopes.len() > 1 {
            self.scopes.pop();
            assert(self.scopes() =~= old(self).scopes().drop_last());
        }
    }

    /// Binds `name` in the innermost scope; `false`, and nothing changes, if
    /// that scope already binds it.
    pub fn define(&mut self, name: &str, symbol: Symbol) -> (ok: bool)
        requires
            old(self).scopes().len() >= 1,
        ensures
            final(self).scopes().len() == old(self).scopes().len(),
            ok == !scope_has(old(self).scopes().last(), name@),
            !ok ==> final(self).scopes() == old(self).scopes(),
            ok ==> final(self).scopes() == old(self).scopes().update(
                old(self).scopes().len() - 1, old(self).scopes().last().push((final(self).scopes().last().last().0, symbol))),
            ok ==> final(self).scopes().last().last().0@ == name@,
            ok ==> resolve(final(self).scopes(), name@) == Some(symbol),
            final(self).scopes().drop_last() == old(self).scopes().drop_last(),
            forall|n: Seq<char>| #[trigger] scope_has(final(self).scopes().last(), n)
                <==> scope_has(old(self).scopes().last(), n) || (ok && n == name@),
    {
        let last = self.scopes.len() - 1;
        let ghost before = self.scopes();
        let mut k: usize = 0;
        while k < self.scopes[last].len()
            invariant
                last == self.scopes@.len() - 1,
                self.scopes() == before,
                k <= self.scopes@[last as int]@.len(),
                forall|j: int| 0 <= j < k ==> self.scopes@[last as int]@[j].0@ != name@,
            decreases self.scopes@[last as int]@.len() - k,
        {
            if str_eq(self.scopes[last][k].0.as_str(), name) {
                assert(before.last()[k as int].0@ == name@);
                return false;
            }
            k = k + 1;
        }
        assert(!scope_has(before.last(), name@));
        let key = name.to_owned();
        self.scopes[last].push((key, symbol));
        assert(self.scopes() =~= before.update(before.len() - 1, before.last().push((self.scopes().last().last().0, symbol))));
        proof {
            let sc = self.scopes();
            lemma_first_named(sc.last(), name@, before.last().len() as int);
            assert(sc[sc.len() - 1] == sc.last());
            assert(sc.drop_last() =~= before.drop_last());
            assert forall|n: Seq<char>| #[trigger] scope_has(sc.last(), n)
                <==> scope_has(before.last(), n) || n == name@ by {
                if scope_has(sc.last(), n) && n != name@ {
                    let i = choose|i: int| 0 <= i < sc.last().len() && sc.last()[i].0@ == n;
                    assert(before.last()[i].0@ == n);
                }
                if scope_has(before.last(), n) {
                    let i = choose|i: int| 0 <= i < before.last().len() && before.last()[i].0@ == n;
                    assert(sc.last()[i].0@ == n);
                }
                if n == name@ {
                    assert(sc.last()[before.last().len() as int].0@ == n);
                }
            }
        }
        true
    }

    /// Sets the type of the innermost variable named `name` (bindings of
    /// the name that are not variables are passed over); `false`, and
    /// nothing changes, if no scope binds it to a variable.
    pub fn update_type(&mut self, name: &str, new_ty: HulkType) -> (ok: bool)
        ensures
            ok == exists|k: int| 0 <= k < old(self).scopes().len() && #[trigger] binds_variable(old(self).scopes()[k], name@),
            !ok ==> final(self).scopes() == old(self).scopes(),
            ok ==> exists|k: int, i: int| #![trigger old(self).scopes()[k][i]]
                0 <= k < old(self).scopes().len() && binds_variable(old(self).scopes()[k], name@)
                && (forall|j: int| k < j < old(self).scopes().len() ==> !(#[trigger] binds_variable(old(self).scopes()[j], name@)))
                && first_named(old(self).scopes()[k], name@) == Some(i)
                && final(self).scopes() == old(self).scopes().update(k, old(self).scopes()[k].update(i, final(self).scopes()[k][i]))
                && final(self).scopes()[k][i].0@ == name@
                && final(self).scopes()[k][i].1.name@ == old(self).scopes()[k][i].1.name@
                && final(self).scopes()[k][i].1.kind == (SymbolKind::Variable { ty: new_ty, mutable: old(self).scopes()[k][i].1.kind->mutable }),
    {
        let mut k = self.scopes.len();
        while k > 0
            invariant
                k <= self.scopes@.len(),
                self.scopes() == old(self).scopes(),
                forall|j: int| k <= j < self.scopes@.len() ==> !(#[trigger] binds_variable(self.scopes()[j], name@)),
            decreases k,
        {
            k = k - 1;
            match find_in_scope(&self.scopes[k], name) {
                Some(i) => {
                    proof {
                        lemma_first_named(self.scopes()[k as int], name@, i as int);
                    }
                    let is_var = match &self.scopes[k][i].1.kind {
                        SymbolKind::Variable { .. } => true,
                        _ => false,
                    };
                    if is_var {
                        let mutable = match &self.scopes[k][i].1.kind {
                            SymbolKind::Variable { mutable, .. } => *mutable,
                            _ => false,
                        };
                        let key = self.scopes[k][i].0.clone();
                        let sym = Symbol { name: self.scopes[k][i].1.name.clone(), kind: SymbolKind::Variable { ty: new_ty, mutable } };
                        let ghost before = self.scopes();
                        self.scopes[k].set(i, (key, sym));
                        proof {
                            assert(binds_variable(before[k as int], name@));
                            assert(self.scopes() =~= before.update(k as int, before[k as int].update(i as int, self.scopes()[k as int][i as int])));
                        }
                        return true;
                    }
                }
                None => {
                    assert(first_named(self.scopes()[k as int], name@) is None);
                }
            }
        }
        false
    }

    /// Sets the return type of the innermost function named `name`
    /// (bindings of the name that are not functions are passed over);
    /// `false`, and nothing changes, if no scope binds it to a function.
    pub fn update_function_return(&mut self, name: &str, return_type: HulkType) -> (ok: bool)
        ensures
            ok == exists|k: int| 0 <= k < old(self).scopes().len() && #[trigger] binds_function(old(self).scopes()[k], name@),
            !ok ==> final(self).scopes() == old(self).scopes(),
            ok ==> exists|k: int, i: int| #![trigger old(self).scopes()[k][i]]
                0 <= k < old(self).scopes().len() && binds_function(old(self).scopes()[k], name@)
                && (forall|j: int| k < j < old(self).scopes().len() ==> !(#[trigger] binds_function(old(self).scopes()[j], name@)))
                && first_named(old(self).scopes()[k], name@) == Some(i)
                && final(self).scopes() == old(self).scopes().update(k, old(self).scopes()[k].update(i, final(self).scopes()[k][i]))
                && final(self).scopes()[k][i].0@ == name@
                && final(self).scopes()[k][i].1.name@ == old(self).scopes()[k][i].1.name@
                && final(self).scopes()[k][i].1.kind is Function
                && final(self).scopes()[k][i].1.kind->Function_params@ == old(self).scopes()[k][i].1.kind->Function_params@
                && final(self).scopes()[k][i].1.kind->Function_return_type == return_type,
    {
        let mut k = self.scopes.len();
        while k > 0
            invariant
                k <= self.scopes@.len(),
                self.scopes() == old(self).scopes(),
                forall|j: int| k <= j < self.scopes@.len() ==> !(#[trigger] binds_function(self.scopes()[j], name@)),
            decreases k,
        {
            k = k - 1;
            match find_in_scope(&self.scopes[k], name) {
                Some(i) => {
                    proof {
                        lemma_first_named(self.scopes()[k as int], name@, i as int);
                    }
                    let params = match &self.scopes[k][i].1.kind {
                        SymbolKind::Function { params, .. } => Some(crate::semantic::type_system::copy_types(params)),
                        _ => None,
                    };
                    match params {
                        Some(params) => {
                            let key = self.scopes[k][i].0.clone();
                            let sym = Symbol { name: self.scopes[k][i].1.name.clone(), kind: SymbolKind::Function { params, return_type } };
                            let ghost before = self.scopes();
                            self.scopes[k].set(i, (key, sym));
                            proof {
                                assert(binds_function(before[k as int], name@));
                                assert(self.scopes() =~= before.update(k as int, before[k as int].update(i as int, self.scopes()[k as int][i as int])));
                            }
                            return true;
                        }
                        None => {}
                    }
                }
                None => {
                    assert(first_named(self.scopes()[k as int], name@) is None);
                }
            }
        }
        false
    }

    /// The innermost binding of `name`.
    pub fn lookup(&self, name: &str) -> (r: Option<&Symbol>)
        ensures
            r is None <==> !self.bound(name@),
            r matches Some(s) ==> resolve(self.scopes(), name@) == Some(*s),
            r is None ==> resolve(self.scopes(), name@) is None,
    {
        let mut k = self.scopes.len();
        while k > 0
            invariant
                k <= self.scopes@.len(),
                forall|j: int| k <= j < self.scopes@.len() ==> !scope_has(#[trigger] self.scopes()[j], name@),
                resolve(self.scopes(), name@) == resolve_in(self.scopes(), name@, k as int),
            decreases k,
        {
            k = k - 1;
            match find_in_scope(&self.scopes[k], name) {
                Some(i) => {
                    assert(scope_has(self.scopes()[k as int], name@));
                    proof {
                        lemma_first_named(self.scopes()[k as int], name@, i as int);
                    }
                    return Some(&self.scopes[k][i].1);
                }
                None => {
                    assert(!scope_has(self.scopes()[k as int], name@));
                    assert(first_named(self.scopes()[k as int], name@) is None);
                }
            }
        }
        None
    }

    /// Whether the innermost scope binds `name`.
    pub fn in_current_scope(&self, name: &str) -> (b: bool)
        requires
            self.scopes().len() >= 1,
        ensures
            b == scope_has(self.scopes().last(), name@),
    {
        let last = self.scopes.len() - 1;
        match find_in_scope(&self.scopes[last], name) {
            Some(i) => {
                assert(self.scopes().last()[i as int].0@ == name@);
                true
            }
            None => false,
        }
    }

    /// Number of scopes above the global one.
    pub fn depth(&self) -> (d: usize)
        requires
            self.scopes().len() >= 1,
        ensures
            d == self.scopes().len() - 1,
    {
        self.scopes.len() - 1
    }
}

/// The position of `name` in a scope.
fn find_in_scope(scope: &Vec<(String, Symbol)>, name: &str) -> (r: Option<usize>)
    ensures
        r matches Some(i) ==> i < scope@.len() && scope@[i as int].0@ == name@
            && forall|j: int| 0 <= j < i ==> scope@[j].0@ != name@,
        r is None ==> !scope_has(scope@, name@),
{
    let mut k: usize = 0;
    while k < scope.len()
        invariant
            k <= scope@.len(),
            forall|j: int| 0 <= j < k ==> scope@[j].0@ != name@,
        decreases scope@.len() - k,
    {
        if str_eq(scope[k].0.as_str(), name) {
            return Some(k);
        }
        k = k + 1;
    }
    None
}

/// A successful `define` is seen by the next lookup: the name then
/// resolves to the symbol just bound, whatever outer scopes bind it to.
pub proof fn law_lookup_sees_define(before: SymbolTable, after: SymbolTable, name: Seq<char>, symbol: Symbol, key: String)
    requires
        before.scopes().len() >= 1,
        !scope_has(before.scopes().last(), name),
        key@ == name,
        after.scopes() == before.scopes().update(before.scopes().len() - 1, before.scopes().last().push((key, symbol))),
    ensures
        resolve(after.scopes(), name) == Some(symbol),
{
    let sc = after.scopes();
    lemma_first_named(sc.last(), name, before.scopes().last().len() as int);
    assert(sc[sc.len() - 1] == sc.last());
}

/// Closing a scope forgets what was bound in it: after `push_scope`, any
/// definitions in the new scope, and `pop_scope`, every name resolves as it
/// did before the scope was opened.
pub proof fn law_scope_closes(opened: SymbolTable, filled: SymbolTable, closed: SymbolTable)
    requires
        opened.scopes().len() >= 1,
        filled.scopes().len() == opened.scopes().len() + 1,
        filled.scopes().drop_last() == opened.scopes(),
        closed.scopes() == filled.scopes().drop_last(),
    ensures
        forall|n: Seq<char>| #[trigger] resolve(closed.scopes(), n) == resolve(opened.scopes(), n),
{
    assert(closed.scopes() =~= opened.scopes());
}

/// An inner binding shadows an outer one only while its scope is open:
/// the innermost scope that binds a name decides what it resolves to.
pub proof fn law_inner_scope_shadows(t: SymbolTable, name: Seq<char>)
    requires
        t.scopes().len() >= 1,
        scope_has(t.scopes().last(), name),
    ensures
        resolve(t.scopes(), name) == scope_get(t.scopes().last(), name),
        resolve(t.scopes(), name) is Some,
{
    let sc = t.scopes();
    assert(sc[sc.len() - 1] == sc.last());
    let i = choose|i: int| 0 <= i < sc.last().len() && sc.last()[i].0@ == name;
    assert(first_named(sc.last(), name) is Some);
}

} // verus!
