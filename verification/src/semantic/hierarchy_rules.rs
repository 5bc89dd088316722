//! What the questions put to the type hierarchy answer. Every walk up the
//! parents or along the protocols a protocol extends is bounded by a number
//! of steps (`fuel`), so that a cycle in the declarations cannot make a
//! question run forever.
use vstd::prelude::*;
use crate::semantic::type_system::{
    HulkType, FuncSignature, TypeHierarchy, ty_eq, ty_size, first_type, first_protocol,
    has_type_named, chain_method, subtype_walk, has_named,
};

verus! {

/// The walk bound of a hierarchy, as a number.
pub open spec fn bound(h: TypeHierarchy) -> nat {
    h.spec_chain_bound() as nat
}

/// Whether a value of type `child` is accepted where `ancestor` is
/// expected. A failed or not yet inferred type is accepted everywhere and
/// accepts everything; `Object` accepts everything; `null` fits any
/// declared type; a primitive fits the declared type of its own name; a
/// declared type fits its ancestors and the protocols it meets, checked at
/// most `fuel` protocols deep (deeper, it is taken to meet them); vectors
/// fit by their elements.
pub open spec fn accepts(h: TypeHierarchy, child: HulkType, ancestor: HulkType, fuel: nat) -> bool
    decreases fuel, 1nat, ty_size(child),
{
    if child is Never || ancestor is Never || child is Unknown || ancestor is Unknown {
        true
    } else if ty_eq(child, ancestor) || ancestor is Object {
        true
    } else if child is Null {
        ancestor is UserDefined
    } else {
        match child {
            HulkType::UserDefined(c) => match ancestor {
                HulkType::UserDefined(a) => subtype_walk(h.types@, c@, a@, bound(h)),
                HulkType::Protocol(p) => if fuel == 0 {
                    true
                } else {
                    meets_protocol(h, c@, p@, (fuel - 1) as nat)
                },
                _ => false,
            },
            HulkType::Number => ancestor matches HulkType::UserDefined(a) && a@ == "Number"@,
            HulkType::StringT => ancestor matches HulkType::UserDefined(a) && a@ == "String"@,
            HulkType::Boolean => ancestor matches HulkType::UserDefined(a) && a@ == "Boolean"@,
            HulkType::Vector(x) => match ancestor {
                HulkType::Vector(y) => accepts(h, *x, *y, fuel),
                _ => false,
            },
            _ => false,
        }
    }
}

/// Same number of parameters, parameters of the same types, and a return
/// type accepted where the other's is expected.
pub open spec fn signature_fits(h: TypeHierarchy, a: FuncSignature, b: FuncSignature, fuel: nat) -> bool
    decreases fuel, 2nat, 0nat,
{
    &&& a.params@.len() == b.params@.len()
    &&& accepts(h, a.return_type, b.return_type, fuel)
    &&& forall|i: int| 0 <= i < a.params@.len() ==> ty_eq(#[trigger] a.params@[i].1, b.params@[i].1)
}

/// Whether the type named `tname` (itself or through its ancestors) has the
/// method `m`, with a signature that fits the one listed.
#[verifier::opaque]
pub open spec fn method_met(h: TypeHierarchy, tname: Seq<char>, m: (String, FuncSignature), fuel: nat) -> bool
    decreases fuel, 2nat, 1nat,
{
    match chain_method(h.types@, tname, m.0@, bound(h)) {
        Some(sig) => signature_fits(h, sig, m.1, fuel),
        None => false,
    }
}

/// Whether the type named `tname` has each of the methods, with fitting
/// signatures.
pub open spec fn methods_met(h: TypeHierarchy, tname: Seq<char>, ms: Seq<(String, FuncSignature)>, fuel: nat) -> bool
    decreases fuel, 2nat, ms.len() + 1,
{
    if ms.len() == 0 {
        true
    } else {
        methods_met(h, tname, ms.drop_last(), fuel) && method_met(h, tname, ms.last(), fuel)
    }
}

/// Whether the declared type named `tname` meets the protocol `proto`: it
/// has each of its methods with a fitting signature, and meets the protocol
/// it extends (checked at most `fuel` protocols further).
pub open spec fn meets_protocol(h: TypeHierarchy, tname: Seq<char>, proto: Seq<char>, fuel: nat) -> bool
    decreases fuel, 3nat, 0nat,
{
    match first_protocol(h.protocols@, proto) {
        None => false,
        Some(pi) => {
            &&& has_type_named(h.types@, tname)
            &&& methods_met(h, tname, h.protocols@[pi].methods@, fuel)
            &&& match h.protocols@[pi].extends {
                Some(parent) => if fuel == 0 {
                    true
                } else {
                    meets_protocol(h, tname, parent@, (fuel - 1) as nat)
                },
                None => true,
            }
        },
    }
}

/// The methods are met exactly when each of them is.
pub proof fn lemma_methods_met(h: TypeHierarchy, tname: Seq<char>, ms: Seq<(String, FuncSignature)>, fuel: nat)
    ensures
        methods_met(h, tname, ms, fuel) <==> forall|k: int| 0 <= k < ms.len() ==> #[trigger] method_met(h, tname, ms[k], fuel),
    decreases ms.len(),
{
    reveal(method_met);
    if ms.len() > 0 {
        lemma_methods_met(h, tname, ms.drop_last(), fuel);
        if forall|k: int| 0 <= k < ms.len() ==> #[trigger] method_met(h, tname, ms[k], fuel) {
            assert forall|k: int| 0 <= k < ms.drop_last().len() implies #[trigger] method_met(h, tname, ms.drop_last()[k], fuel) by {
                assert(method_met(h, tname, ms[k], fuel));
            }
            assert(method_met(h, tname, ms[ms.len() - 1], fuel));
        }
        if methods_met(h, tname, ms, fuel) {
            assert forall|k: int| 0 <= k < ms.len() implies #[trigger] method_met(h, tname, ms[k], fuel) by {
                if k < ms.len() - 1 {
                    assert(method_met(h, tname, ms.drop_last()[k], fuel));
                }
            }
        }
    }
}

/// A type that lacks one method of a protocol, or has it with a signature
/// that does not fit, does not meet the protocol.
pub proof fn lemma_method_unmet(h: TypeHierarchy, tname: Seq<char>, proto: Seq<char>, fuel: nat, pi: int, k: int)
    requires
        first_protocol(h.protocols@, proto) == Some(pi),
        0 <= pi < h.protocols@.len(),
        0 <= k < h.protocols@[pi].methods@.len(),
        !method_met(h, tname, h.protocols@[pi].methods@[k], fuel),
    ensures
        !meets_protocol(h, tname, proto, fuel),
{
    lemma_methods_met(h, tname, h.protocols@[pi].methods@, fuel);
}

/// The position of the first method of `ms`, from position `k` on, whose
/// name no entry of `own` has.
pub open spec fn first_undeclared(own: Seq<(String, FuncSignature)>, ms: Seq<(String, FuncSignature)>, k: int) -> Option<int>
    decreases ms.len() - k,
{
    if k < 0 || k >= ms.len() {
        None
    } else if !has_named(own, ms[k].0@) {
        Some(k)
    } else {
        first_undeclared(own, ms, k + 1)
    }
}

/// The position of the first method, from position `k` on, that the type
/// named `tname` lacks or has with a signature that does not fit.
pub open spec fn first_unfit(h: TypeHierarchy, tname: Seq<char>, ms: Seq<(String, FuncSignature)>, k: int) -> Option<int>
    decreases ms.len() - k,
{
    if k < 0 || k >= ms.len() {
        None
    } else if !method_met(h, tname, ms[k], bound(h)) {
        Some(k)
    } else {
        first_unfit(h, tname, ms, k + 1)
    }
}

/// The first of the protocol's own methods, in their order, that the type
/// does not declare among its own methods; none where the type or the
/// protocol is not registered.
pub open spec fn own_missing(h: TypeHierarchy, tname: Seq<char>, proto: Seq<char>) -> Option<Seq<char>> {
    match first_protocol(h.protocols@, proto) {
        None => None,
        Some(pi) => match first_type(h.types@, tname) {
            None => None,
            Some(ti) => match first_undeclared(h.types@[ti].methods@, h.protocols@[pi].methods@, 0) {
                Some(k) => Some(h.protocols@[pi].methods@[k].0@),
                None => None,
            },
        },
    }
}

/// The first method that the type named `tname` lacks or has with a
/// signature that does not fit, protocol by protocol from `proto` along the
/// protocols it extends (at most `fuel` of them).
pub open spec fn first_violation(h: TypeHierarchy, tname: Seq<char>, proto: Seq<char>, fuel: nat) -> Option<Seq<char>>
    decreases fuel,
{
    if fuel == 0 {
        None
    } else {
        match first_protocol(h.protocols@, proto) {
            None => None,
            Some(pi) => match first_unfit(h, tname, h.protocols@[pi].methods@, 0) {
                Some(k) => Some(h.protocols@[pi].methods@[k].0@),
                None => match h.protocols@[pi].extends {
                    Some(p) => first_violation(h, tname, p@, (fuel - 1) as nat),
                    None => None,
                },
            },
        }
    }
}

/// The parent of a type: `Object` for the primitives and `Null`, the
/// declared parent of a declared type.
pub open spec fn parent_type(h: TypeHierarchy, t: HulkType) -> Option<HulkType> {
    match t {
        HulkType::UserDefined(n) => match first_type(h.types@, n@) {
            Some(i) => match h.types@[i].parent {
                Some(p) => Some(HulkType::UserDefined(p)),
                None => None,
            },
            None => None,
        },
        HulkType::Number | HulkType::StringT | HulkType::Boolean | HulkType::Null => Some(HulkType::Object),
        _ => None,
    }
}

/// The type followed by its ancestors, nearest first, walking at most
/// `fuel` parents.
pub open spec fn ancestor_line(h: TypeHierarchy, t: HulkType, fuel: nat) -> Seq<HulkType>
    decreases fuel,
{
    if fuel == 0 {
        seq![t]
    } else {
        match parent_type(h, t) {
            Some(p) => seq![t] + ancestor_line(h, p, (fuel - 1) as nat),
            None => seq![t],
        }
    }
}

/// The first type met walking up from `current` (at most `fuel` steps)
/// that is in `line`; `Object` when the walk ends first.
pub open spec fn first_shared(h: TypeHierarchy, line: Seq<HulkType>, current: HulkType, fuel: nat) -> HulkType
    decreases fuel,
{
    if fuel == 0 {
        HulkType::Object
    } else if exists|k: int| 0 <= k < line.len() && ty_eq(#[trigger] line[k], current) {
        current
    } else {
        match parent_type(h, current) {
            Some(p) => first_shared(h, line, p, (fuel - 1) as nat),
            None => HulkType::Object,
        }
    }
}

/// The nearest common ancestor of two types: the first ancestor of `b` that
/// is an ancestor of `a`. A failed expression gives way to the other type.
pub open spec fn common_ancestor(h: TypeHierarchy, a: HulkType, b: HulkType) -> HulkType {
    if a is Never {
        b
    } else if b is Never {
        a
    } else if ty_eq(a, b) {
        a
    } else {
        first_shared(h, ancestor_line(h, a, bound(h)), b, bound(h))
    }
}

/// Whether walking up from the type named `current` (at most `fuel` steps),
/// after the names in `seen`, meets a name twice; a walk that runs out of
/// steps counts as one.
pub open spec fn walks_into_cycle(h: TypeHierarchy, seen: Seq<Seq<char>>, current: Seq<char>, fuel: nat) -> bool
    decreases fuel,
{
    if fuel == 0 {
        true
    } else if seen.contains(current) {
        true
    } else {
        match first_type(h.types@, current) {
            Some(i) => match h.types@[i].parent {
                Some(p) => walks_into_cycle(h, seen.push(current), p@, (fuel - 1) as nat),
                None => false,
            },
            None => false,
        }
    }
}

} // verus!
