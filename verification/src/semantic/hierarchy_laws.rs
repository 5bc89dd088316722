//! Laws of the questions put to the type hierarchy: what a subtype is, when
//! an inheritance is circular, what meeting a protocol asks, and what the
//! nearest common ancestor of two types is to each of them.
use vstd::prelude::*;
use crate::semantic::type_system::{
    HulkType, TypeInfo, TypeHierarchy, ty_eq, first_type, first_protocol, has_type_named, subtype_walk,
    lemma_ty_eq_refl, lemma_ty_eq_symm, chain_method,
};
use crate::semantic::hierarchy_rules::{
    bound, accepts, method_met, meets_protocol, lemma_methods_met, lemma_method_unmet, walks_into_cycle, parent_type,
    ancestor_line, first_shared, common_ancestor,
};

verus! {

/// The names met walking up the parents from `c`, `c` first, through at
/// most `fuel` parents.
pub open spec fn name_line(types: Seq<TypeInfo>, c: Seq<char>, fuel: nat) -> Seq<Seq<char>>
    decreases fuel,
{
    if fuel > 0 && (first_type(types, c) matches Some(i) && types[i].parent is Some) {
        seq![c] + name_line(types, types[first_type(types, c)->0].parent->0@, (fuel - 1) as nat)
    } else {
        seq![c]
    }
}

/// A name of `s` at or after position `m` repeats a name before it.
pub open spec fn repeats_after(s: Seq<Seq<char>>, m: int) -> bool {
    exists|i: int, j: int| 0 <= i < j < s.len() && m <= j && #[trigger] s[i] == #[trigger] s[j]
}

/// A type is a subtype of exactly the names on its line of parents (as far
/// as the walk reaches) and of `Object`.
pub proof fn law_subtype_is_on_the_line(types: Seq<TypeInfo>, child: Seq<char>, ancestor: Seq<char>, fuel: nat)
    ensures
        subtype_walk(types, child, ancestor, fuel) <==> (name_line(types, child, fuel).contains(ancestor) || ancestor == "Object"@),
    decreases fuel,
{
    let line = name_line(types, child, fuel);
    assert(line[0] == child);
    if child == ancestor {
        assert(line.contains(ancestor));
    } else if fuel > 0 && (first_type(types, child) matches Some(i) && types[i].parent is Some) {
        let p = types[first_type(types, child)->0].parent->0@;
        let rest = name_line(types, p, (fuel - 1) as nat);
        law_subtype_is_on_the_line(types, p, ancestor, (fuel - 1) as nat);
        assert(line == seq![child] + rest);
        if rest.contains(ancestor) {
            let k = choose|k: int| 0 <= k < rest.len() && rest[k] == ancestor;
            assert(line[k + 1] == ancestor);
        }
        if line.contains(ancestor) {
            let k = choose|k: int| 0 <= k < line.len() && line[k] == ancestor;
            assert(k != 0);
            assert(rest[k - 1] == ancestor);
        }
    } else {
        assert(line =~= seq![child]);
        if line.contains(ancestor) {
            let k = choose|k: int| 0 <= k < line.len() && line[k] == ancestor;
            assert(k == 0);
        }
    }
}

/// Walking up from `current` after the names `seen` meets a cycle exactly
/// when a name of the walk repeats one met before it, or when the walk does
/// not end within `fuel` steps.
pub proof fn lemma_cycle_is_repeat(h: TypeHierarchy, seen: Seq<Seq<char>>, current: Seq<char>, fuel: nat)
    ensures
        walks_into_cycle(h, seen, current, fuel) <==> (repeats_after(seen + name_line(h.types@, current, fuel), seen.len() as int)
            || name_line(h.types@, current, fuel).len() == fuel + 1),
    decreases fuel,
{
    let line = name_line(h.types@, current, fuel);
    let s = seen + line;
    let m = seen.len() as int;
    assert(s[m] == current);
    if fuel == 0 {
        assert(line =~= seq![current]);
    } else if seen.contains(current) {
        let i = choose|i: int| 0 <= i < seen.len() && seen[i] == current;
        assert(s[i] == s[m]);
        assert(repeats_after(s, m));
    } else if first_type(h.types@, current) matches Some(i) && h.types@[i].parent is Some {
        let p = h.types@[first_type(h.types@, current)->0].parent->0@;
        let rest = name_line(h.types@, p, (fuel - 1) as nat);
        lemma_cycle_is_repeat(h, seen.push(current), p, (fuel - 1) as nat);
        assert(line == seq![current] + rest);
        assert(seen.push(current) + rest =~= s);
        if repeats_after(s, m) {
            let (i, j) = choose|i: int, j: int| 0 <= i < j < s.len() && m <= j && #[trigger] s[i] == #[trigger] s[j];
            if j == m {
                assert(seen[i] == current);
                assert(seen.contains(current));
            }
            assert(repeats_after(s, m + 1));
        }
        if repeats_after(s, m + 1) {
            let (i, j) = choose|i: int, j: int| 0 <= i < j < s.len() && m + 1 <= j && #[trigger] s[i] == #[trigger] s[j];
            assert(repeats_after(s, m));
        }
    } else {
        assert(line =~= seq![current]);
        assert(s =~= seen.push(current));
        if repeats_after(s, m) {
            let (i, j) = choose|i: int, j: int| 0 <= i < j < s.len() && m <= j && #[trigger] s[i] == #[trigger] s[j];
            assert(j == m);
            assert(seen[i] == current);
            assert(seen.contains(current));
        }
    }
}

/// The inheritance of a type is circular exactly when its line of parents
/// meets a name twice, or does not end within the walk bound.
pub proof fn law_circular_is_repeat(h: TypeHierarchy, tname: Seq<char>)
    ensures
        walks_into_cycle(h, Seq::empty(), tname, bound(h)) <==> (repeats_after(name_line(h.types@, tname, bound(h)), 0)
            || name_line(h.types@, tname, bound(h)).len() == bound(h) + 1),
{
    lemma_cycle_is_repeat(h, Seq::empty(), tname, bound(h));
    assert(Seq::<Seq<char>>::empty() + name_line(h.types@, tname, bound(h)) =~= name_line(h.types@, tname, bound(h)));
}

/// A type meets a protocol exactly when it is registered, has (itself or
/// through its parents) each method the protocol lists with a signature
/// that fits, and meets the protocol it extends, if any.
pub proof fn law_meets_protocol(h: TypeHierarchy, tname: Seq<char>, proto: Seq<char>, fuel: nat)
    ensures
        meets_protocol(h, tname, proto, fuel) <==> (first_protocol(h.protocols@, proto) matches Some(pi) && {
            &&& has_type_named(h.types@, tname)
            &&& forall|k: int| 0 <= k < h.protocols@[pi].methods@.len()
                    ==> #[trigger] method_met(h, tname, h.protocols@[pi].methods@[k], fuel)
            &&& match h.protocols@[pi].extends {
                    Some(parent) => fuel > 0 ==> meets_protocol(h, tname, parent@, (fuel - 1) as nat),
                    None => true,
                }
        }),
{
    if let Some(pi) = first_protocol(h.protocols@, proto) {
        lemma_methods_met(h, tname, h.protocols@[pi].methods@, fuel);
    }
}

/// The line of ancestors of a declared type is its line of parent names.
proof fn lemma_line_names(h: TypeHierarchy, c: String, fuel: nat)
    ensures
        ancestor_line(h, HulkType::UserDefined(c), fuel).len() == name_line(h.types@, c@, fuel).len(),
        forall|k: int| 0 <= k < ancestor_line(h, HulkType::UserDefined(c), fuel).len()
            ==> ((#[trigger] ancestor_line(h, HulkType::UserDefined(c), fuel)[k]) matches HulkType::UserDefined(n)
                && n@ == name_line(h.types@, c@, fuel)[k]),
    decreases fuel,
{
    let t = HulkType::UserDefined(c);
    if fuel > 0 {
        if let Some(p) = parent_type(h, t) {
            let pn = p->UserDefined_0;
            lemma_line_names(h, pn, (fuel - 1) as nat);
            let al = ancestor_line(h, t, fuel);
            let nl = name_line(h.types@, c@, fuel);
            assert(al == seq![t] + ancestor_line(h, p, (fuel - 1) as nat));
            assert(nl == seq![c@] + name_line(h.types@, pn@, (fuel - 1) as nat));
            assert forall|k: int| 0 <= k < al.len() implies ((#[trigger] al[k]) matches HulkType::UserDefined(n) && n@ == nl[k]) by {
                if k > 0 {
                    assert(al[k] == ancestor_line(h, p, (fuel - 1) as nat)[k - 1]);
                    assert(nl[k] == name_line(h.types@, pn@, (fuel - 1) as nat)[k - 1]);
                }
            }
        }
    }
}

/// Every type on the line of ancestors of `t` accepts `t`.
proof fn lemma_line_accepts(h: TypeHierarchy, t: HulkType, k: int, g: nat)
    requires
        0 <= k < ancestor_line(h, t, bound(h)).len(),
    ensures
        accepts(h, t, ancestor_line(h, t, bound(h))[k], g),
{
    let f = bound(h);
    let line = ancestor_line(h, t, f);
    let x = line[k];
    lemma_ty_eq_refl(t);
    if k == 0 {
        assert(x == t);
    } else {
        match t {
            HulkType::UserDefined(c) => {
                lemma_line_names(h, c, f);
                let n = x->UserDefined_0;
                assert(name_line(h.types@, c@, f)[k] == n@);
                assert(name_line(h.types@, c@, f).contains(n@));
                law_subtype_is_on_the_line(h.types@, c@, n@, f);
            },
            HulkType::Number | HulkType::StringT | HulkType::Boolean | HulkType::Null => {
                assert(f > 0);
                assert(line == seq![t] + ancestor_line(h, HulkType::Object, (f - 1) as nat));
                assert(ancestor_line(h, HulkType::Object, (f - 1) as nat) =~= seq![HulkType::Object]);
                assert(x is Object);
            },
            _ => {
                assert(line =~= seq![t]);
            },
        }
    }
}

/// What the walk for a shared ancestor finds is `Object` or a type on the
/// walk's own line of ancestors that the given line holds.
proof fn lemma_first_shared_on_lines(h: TypeHierarchy, line: Seq<HulkType>, cur: HulkType, fuel: nat)
    ensures
        first_shared(h, line, cur, fuel) is Object || exists|k: int, m: int| 0 <= k < ancestor_line(h, cur, fuel).len()
            && 0 <= m < line.len() && #[trigger] ancestor_line(h, cur, fuel)[k] == first_shared(h, line, cur, fuel)
            && ty_eq(#[trigger] line[m], first_shared(h, line, cur, fuel)),
    decreases fuel,
{
    let r = first_shared(h, line, cur, fuel);
    if fuel > 0 {
        if exists|k: int| 0 <= k < line.len() && ty_eq(#[trigger] line[k], cur) {
            let m = choose|k: int| 0 <= k < line.len() && ty_eq(#[trigger] line[k], cur);
            assert(ancestor_line(h, cur, fuel)[0] == cur);
            assert(ty_eq(line[m], r));
        } else if let Some(p) = parent_type(h, cur) {
            lemma_first_shared_on_lines(h, line, p, (fuel - 1) as nat);
            if !(r is Object) {
                let (k, m) = choose|k: int, m: int| 0 <= k < ancestor_line(h, p, (fuel - 1) as nat).len()
                    && 0 <= m < line.len() && #[trigger] ancestor_line(h, p, (fuel - 1) as nat)[k] == r
                    && ty_eq(#[trigger] line[m], r);
                assert(ancestor_line(h, cur, fuel) == seq![cur] + ancestor_line(h, p, (fuel - 1) as nat));
                assert(ancestor_line(h, cur, fuel)[k + 1] == r);
            }
        }
    }
}

/// A type accepted where `x` is expected is accepted where any type equal
/// to `x` is, when `x` is on the type's line of ancestors.
proof fn lemma_accepts_on_line_eq(h: TypeHierarchy, t: HulkType, m: int, r: HulkType, g: nat)
    requires
        0 <= m < ancestor_line(h, t, bound(h)).len(),
        ty_eq(ancestor_line(h, t, bound(h))[m], r),
    ensures
        accepts(h, t, r, g),
{
    let f = bound(h);
    let line = ancestor_line(h, t, f);
    lemma_line_accepts(h, t, m, g);
    if m == 0 {
        assert(line[0] == t);
        assert(ty_eq(t, r));
    } else {
        match t {
            HulkType::UserDefined(c) => {
                lemma_line_names(h, c, f);
                let n = line[m]->UserDefined_0;
                let rn = r->UserDefined_0;
                assert(rn@ == n@);
                law_subtype_is_on_the_line(h.types@, c@, n@, f);
                assert(name_line(h.types@, c@, f)[m] == n@);
                assert(name_line(h.types@, c@, f).contains(n@));
            },
            HulkType::Number | HulkType::StringT | HulkType::Boolean | HulkType::Null => {
                assert(line == seq![t] + ancestor_line(h, HulkType::Object, (f - 1) as nat));
                assert(ancestor_line(h, HulkType::Object, (f - 1) as nat) =~= seq![HulkType::Object]);
                assert(r is Object);
            },
            _ => {
                assert(line =~= seq![t]);
            },
        }
    }
}

/// A failed expression gives way in the nearest common ancestor: with
/// `Never` on either side the answer is the other type.
pub proof fn law_lca_never_gives_way(h: TypeHierarchy, t: HulkType)
    ensures
        common_ancestor(h, HulkType::Never, t) == t,
        !(t is Never) ==> common_ancestor(h, t, HulkType::Never) == t,
{
}

/// The nearest common ancestor of two types accepts both of them.
pub proof fn law_lca_accepts_both(h: TypeHierarchy, a: HulkType, b: HulkType)
    ensures
        accepts(h, a, common_ancestor(h, a, b), bound(h)),
        accepts(h, b, common_ancestor(h, a, b), bound(h)),
{
    let r = common_ancestor(h, a, b);
    let f = bound(h);
    lemma_ty_eq_refl(a);
    lemma_ty_eq_refl(b);
    lemma_ty_eq_symm(a, b);
    if a is Never || b is Never || ty_eq(a, b) {
    } else {
        let line = ancestor_line(h, a, f);
        lemma_first_shared_on_lines(h, line, b, f);
        if !(r is Object) {
            let (k, m) = choose|k: int, m: int| 0 <= k < ancestor_line(h, b, f).len()
                && 0 <= m < line.len() && #[trigger] ancestor_line(h, b, f)[k] == r
                && ty_eq(#[trigger] line[m], r);
            lemma_accepts_on_line_eq(h, a, m, r, f);
            lemma_line_accepts(h, b, k, f);
        }
    }
}

/// A type does not meet a protocol when, for some method the protocol
/// lists, the type (itself or through its parents) has no method of that
/// name, or has one whose number of parameters differs, one of whose
/// parameters has a type other than the protocol's parameter in the same
/// place, or whose return type is not accepted where the protocol's is
/// expected.
pub proof fn law_unfit_method_refuses(h: TypeHierarchy, tname: Seq<char>, proto: Seq<char>, fuel: nat, pi: int, k: int)
    requires
        first_protocol(h.protocols@, proto) == Some(pi),
        0 <= pi < h.protocols@.len(),
        0 <= k < h.protocols@[pi].methods@.len(),
        match chain_method(h.types@, tname, h.protocols@[pi].methods@[k].0@, bound(h)) {
            None => true,
            Some(sig) => {
                let want = h.protocols@[pi].methods@[k].1;
                ||| sig.params@.len() != want.params@.len()
                ||| exists|i: int| 0 <= i < sig.params@.len() && i < want.params@.len()
                        && !ty_eq(#[trigger] sig.params@[i].1, want.params@[i].1)
                ||| !accepts(h, sig.return_type, want.return_type, fuel)
            },
        },
    ensures
        !meets_protocol(h, tname, proto, fuel),
{
    reveal(method_met);
    lemma_method_unmet(h, tname, proto, fuel, pi, k);
}

} // verus!
