//! HULK types, signatures and the hierarchy of declared types and protocols.
use vstd::prelude::*;
use crate::semantic::builtin_methods::builtin_methods_for;
use crate::semantic::hierarchy_rules::{
    accepts, signature_fits, method_met, methods_met, lemma_methods_met, lemma_method_unmet, meets_protocol, first_undeclared, first_unfit, own_missing, first_violation,
    parent_type, ancestor_line, first_shared, common_ancestor, walks_into_cycle, bound,
};

verus! {

/// A HULK type as the checker sees it.
#[derive(Debug, PartialEq, Eq)]
pub enum HulkType {
    Number,
    StringT,
    Boolean,
    Null,
    Object,
    Vector(Box<HulkType>),
    /// A type declared with `type` (or a built-in one such as `Range`).
    UserDefined(String),
    Protocol(String),
    /// Not inferred yet: accepted everywhere.
    Unknown,
    /// The type of an expression that already failed: accepted everywhere.
    Never,
}

/// Equality of types, names compared by their characters.
pub open spec fn ty_eq(a: HulkType, b: HulkType) -> bool
    decreases a,
{
    match a {
        HulkType::Vector(x) => match b {
            HulkType::Vector(y) => ty_eq(*x, *y),
            _ => false,
        },
        HulkType::UserDefined(x) => b matches HulkType::UserDefined(y) && x@ == y@,
        HulkType::Protocol(x) => b matches HulkType::Protocol(y) && x@ == y@,
        HulkType::Number => b is Number,
        HulkType::StringT => b is StringT,
        HulkType::Boolean => b is Boolean,
        HulkType::Null => b is Null,
        HulkType::Object => b is Object,
        HulkType::Unknown => b is Unknown,
        HulkType::Never => b is Never,
    }
}

/// The display name of a type.
pub open spec fn type_text(t: HulkType) -> Seq<char>
    decreases t,
{
    match t {
        HulkType::Number => "Number"@,
        HulkType::StringT => "String"@,
        HulkType::Boolean => "Boolean"@,
        HulkType::Null => "Null"@,
        HulkType::Object => "Object"@,
        HulkType::Vector(e) => type_text(*e) + "[]"@,
        HulkType::UserDefined(n) => n@,
        HulkType::Protocol(n) => n@,
        HulkType::Unknown => "<unknown>"@,
        HulkType::Never => "<never>"@,
    }
}

/// Nesting depth of a type.
pub open spec fn ty_size(t: HulkType) -> nat
    decreases t,
{
    match t {
        HulkType::Vector(e) => 1 + ty_size(*e),
        _ => 1,
    }
}

/// `ty_eq` is an equivalence.
pub proof fn lemma_ty_eq_refl(a: HulkType)
    ensures
        ty_eq(a, a),
    decreases a,
{
    if let HulkType::Vector(x) = a {
        lemma_ty_eq_refl(*x);
    }
}

pub proof fn lemma_ty_eq_symm(a: HulkType, b: HulkType)
    ensures
        ty_eq(a, b) == ty_eq(b, a),
    decreases a,
{
    if let HulkType::Vector(x) = a {
        if let HulkType::Vector(y) = b {
            lemma_ty_eq_symm(*x, *y);
        }
    }
}

/// Whether two strings have the same characters.
pub fn str_eq(a: &str, b: &str) -> (r: bool)
    ensures
        r == (a@ == b@),
{
    let x = a.to_owned();
    let y = b.to_owned();
    x == y
}

impl HulkType {
    pub fn is_primitive(&self) -> (b: bool)
        ensures
            b == (self is Number || self is StringT || self is Boolean),
    {
        match self {
            HulkType::Number | HulkType::StringT | HulkType::Boolean => true,
            _ => false,
        }
    }

    pub fn is_never(&self) -> (b: bool)
        ensures
            b == self is Never,
    {
        match self {
            HulkType::Never => true,
            _ => false,
        }
    }

    pub fn is_unknown(&self) -> (b: bool)
        ensures
            b == self is Unknown,
    {
        match self {
            HulkType::Unknown => true,
            _ => false,
        }
    }

    /// The display name of the type.
    pub fn name(&self) -> (s: String)
        ensures
            s@ == type_text(*self),
        decreases self,
    {
        proof {
            reveal_strlit("Number"); reveal_strlit("String"); reveal_strlit("Boolean"); reveal_strlit("Null");
            reveal_strlit("Object"); reveal_strlit("[]"); reveal_strlit("<unknown>"); reveal_strlit("<never>");
        }
        match self {
            HulkType::Number => "Number".to_owned(),
            HulkType::StringT => "String".to_owned(),
            HulkType::Boolean => "Boolean".to_owned(),
            HulkType::Null => "Null".to_owned(),
            HulkType::Object => "Object".to_owned(),
            HulkType::Vector(e) => {
                let mut s = e.name();
                s.append("[]");
                s
            }
            HulkType::UserDefined(n) => n.clone(),
            HulkType::Protocol(n) => n.clone(),
            HulkType::Unknown => "<unknown>".to_owned(),
            HulkType::Never => "<never>".to_owned(),
        }
    }

    /// A copy of the type.
    pub fn copy(&self) -> (t: HulkType)
        ensures
            t == *self,
        decreases self,
    {
        match self {
            HulkType::Number => HulkType::Number,
            HulkType::StringT => HulkType::StringT,
            HulkType::Boolean => HulkType::Boolean,
            HulkType::Null => HulkType::Null,
            HulkType::Object => HulkType::Object,
            HulkType::Vector(e) => HulkType::Vector(Box::new(e.copy())),
            HulkType::UserDefined(n) => HulkType::UserDefined(n.clone()),
            HulkType::Protocol(n) => HulkType::Protocol(n.clone()),
            HulkType::Unknown => HulkType::Unknown,
            HulkType::Never => HulkType::Never,
        }
    }

    /// Whether two types are the same.
    pub fn same(&self, other: &HulkType) -> (b: bool)
        ensures
            b == ty_eq(*self, *other),
        decreases self,
    {
        match self {
            HulkType::Vector(x) => match other {
                HulkType::Vector(y) => x.same(y),
                _ => false,
            },
            HulkType::UserDefined(x) => match other {
                HulkType::UserDefined(y) => *x == *y,
                _ => false,
            },
            HulkType::Protocol(x) => match other {
                HulkType::Protocol(y) => *x == *y,
                _ => false,
            },
            HulkType::Number => other.is_number(),
            HulkType::StringT => match other { HulkType::StringT => true, _ => false },
            HulkType::Boolean => match other { HulkType::Boolean => true, _ => false },
            HulkType::Null => match other { HulkType::Null => true, _ => false },
            HulkType::Object => match other { HulkType::Object => true, _ => false },
            HulkType::Unknown => other.is_unknown(),
            HulkType::Never => other.is_never(),
        }
    }

    pub fn is_number(&self) -> (b: bool)
        ensures
            b == self is Number,
    {
        match self {
            HulkType::Number => true,
            _ => false,
        }
    }
}

/// A function or method signature: named parameter types and a return type.
#[derive(Debug)]
pub struct FuncSignature {
    pub params: Vec<(String, HulkType)>,
    pub return_type: HulkType,
}

/// A copy of a list of named types.
pub fn copy_named(v: &Vec<(String, HulkType)>) -> (r: Vec<(String, HulkType)>)
    ensures
        r@.len() == v@.len(),
        forall|i: int| 0 <= i < v@.len() ==> #[trigger] r@[i].0@ == v@[i].0@ && r@[i].1 == v@[i].1,
{
    let mut r: Vec<(String, HulkType)> = Vec::new();
    let mut k: usize = 0;
    while k < v.len()
        invariant
            k <= v@.len(),
            r@.len() == k,
            forall|i: int| 0 <= i < k ==> #[trigger] r@[i].0@ == v@[i].0@ && r@[i].1 == v@[i].1,
        decreases v@.len() - k,
    {
        r.push((v[k].0.clone(), v[k].1.copy()));
        k = k + 1;
    }
    r
}

/// A copy of a list of types.
pub fn copy_types(v: &Vec<HulkType>) -> (r: Vec<HulkType>)
    ensures
        r@ == v@,
{
    let mut r: Vec<HulkType> = Vec::new();
    let mut k: usize = 0;
    while k < v.len()
        invariant
            k <= v@.len(),
            r@ == v@.subrange(0, k as int),
        decreases v@.len() - k,
    {
        r.push(v[k].copy());
        proof { assert(v@.subrange(0, k + 1) =~= v@.subrange(0, k as int).push(v@[k as int])); }
        k = k + 1;
    }
    assert(v@.subrange(0, v@.len() as int) =~= v@);
    r
}

/// The types of a list of named types.
pub fn types_of(v: &Vec<(String, HulkType)>) -> (r: Vec<HulkType>)
    ensures
        r@.len() == v@.len(),
        forall|i: int| 0 <= i < v@.len() ==> #[trigger] r@[i] == v@[i].1,
{
    let mut r: Vec<HulkType> = Vec::new();
    let mut k: usize = 0;
    while k < v.len()
        invariant
            k <= v@.len(),
            r@.len() == k,
            forall|i: int| 0 <= i < k ==> #[trigger] r@[i] == v@[i].1,
        decreases v@.len() - k,
    {
        r.push(v[k].1.copy());
        k = k + 1;
    }
    r
}

impl FuncSignature {
    /// A copy of the signature.
    pub fn copy(&self) -> (s: FuncSignature)
        ensures
            s.return_type == self.return_type,
            s.params@.len() == self.params@.len(),
            forall|i: int| 0 <= i < self.params@.len() ==> #[trigger] s.params@[i].0@ == self.params@[i].0@
                && s.params@[i].1 == self.params@[i].1,
    {
        FuncSignature { params: copy_named(&self.params), return_type: self.return_type.copy() }
    }
}

/// What the checker knows of a declared (or built-in) type.
#[derive(Debug)]
pub struct TypeInfo {
    pub name: String,
    pub parent: Option<String>,
    pub constructor_params: Vec<(String, HulkType)>,
    pub attributes: Vec<(String, HulkType)>,
    pub methods: Vec<(String, FuncSignature)>,
    pub is_builtin: bool,
}

/// What the checker knows of a protocol.
#[derive(Debug)]
pub struct ProtocolInfo {
    pub name: String,
    pub extends: Option<String>,
    pub methods: Vec<(String, FuncSignature)>,
}

/// The position of the first entry named `name`, if any.
pub open spec fn first_named<T>(entries: Seq<(String, T)>, name: Seq<char>) -> Option<int> {
    if exists|i: int| 0 <= i < entries.len() && entries[i].0@ == name {
        Some(choose|i: int| 0 <= i < entries.len() && entries[i].0@ == name
            && forall|j: int| 0 <= j < i ==> entries[j].0@ != name)
    } else {
        None
    }
}

/// The first entry named `name` is the one found by a scan from the front.
pub proof fn lemma_first_named<T>(entries: Seq<(String, T)>, name: Seq<char>, k: int)
    requires
        0 <= k < entries.len(),
        entries[k].0@ == name,
        forall|j: int| 0 <= j < k ==> entries[j].0@ != name,
    ensures
        first_named(entries, name) == Some(k),
{
    let i = choose|i: int| 0 <= i < entries.len() && entries[i].0@ == name
        && forall|j: int| 0 <= j < i ==> entries[j].0@ != name;
    assert(0 <= i < entries.len() && entries[i].0@ == name);
    if i < k {
        assert(entries[i].0@ != name);
    }
    if i > k {
        assert(entries[k].0@ != name);
    }
}

/// Finds the first entry named `name`.
pub fn find_entry<T>(entries: &Vec<(String, T)>, name: &str) -> (r: Option<usize>)
    ensures
        r matches Some(i) ==> i < entries@.len() && entries@[i as int].0@ == name@
            && forall|j: int| 0 <= j < i ==> entries@[j].0@ != name@,
        r is None ==> forall|j: int| 0 <= j < entries@.len() ==> entries@[j].0@ != name@,
{
    let mut k: usize = 0;
    while k < entries.len()
        invariant
            k <= entries@.len(),
            forall|j: int| 0 <= j < k ==> entries@[j].0@ != name@,
        decreases entries@.len() - k,
    {
        if str_eq(entries[k].0.as_str(), name) {
            return Some(k);
        }
        k = k + 1;
    }
    None
}

/// Some entry has the name.
pub open spec fn has_named<T>(entries: Seq<(String, T)>, n: Seq<char>) -> bool {
    exists|i: int| 0 <= i < entries.len() && entries[i].0@ == n
}

/// The value of the first entry named `name`, if any.
pub open spec fn value_of<T>(entries: Seq<(String, T)>, name: Seq<char>) -> Option<T> {
    match first_named(entries, name) {
        Some(i) => Some(entries[i].1),
        None => None,
    }
}

/// An entry named `name` at or after `j`, with none before `j`, makes the
/// first such entry found.
pub proof fn lemma_first_named_found<T>(entries: Seq<(String, T)>, name: Seq<char>, j: int)
    requires
        0 <= j,
        forall|i: int| 0 <= i < j ==> entries[i].0@ != name,
        exists|i: int| j <= i < entries.len() && entries[i].0@ == name,
    ensures
        first_named(entries, name) matches Some(k) && 0 <= k < entries.len() && entries[k].0@ == name
            && forall|i: int| 0 <= i < k ==> entries[i].0@ != name,
    decreases entries.len() - j,
{
    if entries[j].0@ == name {
        lemma_first_named(entries, name, j);
    } else {
        let i = choose|i: int| j <= i < entries.len() && entries[i].0@ == name;
        assert(i != j);
        lemma_first_named_found(entries, name, j + 1);
    }
}

/// Lists that agree on their entries named `n` agree on its value.
pub proof fn lemma_value_of_agree<T>(a: Seq<(String, T)>, b: Seq<(String, T)>, n: Seq<char>)
    requires
        a.len() <= b.len(),
        forall|j: int| 0 <= j < a.len() && (a[j].0@ == n || b[j].0@ == n) ==> b[j] == a[j],
        forall|j: int| a.len() <= j < b.len() ==> b[j].0@ != n,
    ensures
        value_of(b, n) == value_of(a, n),
{
    if exists|i: int| 0 <= i < a.len() && a[i].0@ == n {
        lemma_first_named_found(a, n, 0);
        let k = first_named(a, n)->0;
        assert forall|i: int| 0 <= i < k implies b[i].0@ != n by {
            if b[i].0@ == n { assert(b[i] == a[i]); }
        }
        assert(b[k] == a[k]);
        lemma_first_named(b, n, k);
    } else {
        assert forall|i: int| 0 <= i < b.len() implies b[i].0@ != n by {
            if i < a.len() && b[i].0@ == n { assert(b[i] == a[i]); }
        }
    }
}

/// Writes `value` under `name`, over the first entry with that name or at the end.
pub fn set_entry<T>(entries: &mut Vec<(String, T)>, name: &str, value: T)
    ensures
        exists|i: int| 0 <= i < final(entries)@.len() && final(entries)@[i].0@ == name@ && final(entries)@[i].1 == value,
        has_named(final(entries)@, name@),
        forall|n: Seq<char>| n != name@ ==> has_named(old(entries)@, n) == #[trigger] has_named(final(entries)@, n),
        value_of(final(entries)@, name@) == Some(value),
        forall|n: Seq<char>| n != name@ ==> #[trigger] value_of(final(entries)@, n) == value_of(old(entries)@, n),
{
    match find_entry(entries, name) {
        Some(i) => {
            let ghost old_e = entries@;
            entries.set(i, (name.to_owned(), value));
            proof {
                assert(entries@[i as int].0@ == name@);
                assert forall|j: int| 0 <= j < i implies entries@[j].0@ != name@ by {
                    assert(entries@[j] == old_e[j]);
                }
                lemma_first_named(entries@, name@, i as int);
                assert forall|n: Seq<char>| n != name@ implies #[trigger] value_of(entries@, n) == value_of(old_e, n) by {
                    lemma_value_of_agree(old_e, entries@, n);
                }
                assert forall|n: Seq<char>| n != name@ implies
                    has_named(old_e, n) == #[trigger] has_named(entries@, n) by {
                    if exists|j: int| 0 <= j < old_e.len() && old_e[j].0@ == n {
                        let j = choose|j: int| 0 <= j < old_e.len() && old_e[j].0@ == n;
                        assert(entries@[j].0@ == n);
                    }
                    if exists|j: int| 0 <= j < entries@.len() && entries@[j].0@ == n {
                        let j = choose|j: int| 0 <= j < entries@.len() && entries@[j].0@ == n;
                        assert(old_e[j].0@ == n);
                    }
                }
            }
        }
        None => {
            let ghost old_e = entries@;
            entries.push((name.to_owned(), value));
            proof {
                assert(entries@[old_e.len() as int].0@ == name@);
                assert forall|j: int| 0 <= j < old_e.len() implies entries@[j].0@ != name@ by {
                    assert(entries@[j] == old_e[j]);
                }
                lemma_first_named(entries@, name@, old_e.len() as int);
                assert forall|n: Seq<char>| n != name@ implies #[trigger] value_of(entries@, n) == value_of(old_e, n) by {
                    lemma_value_of_agree(old_e, entries@, n);
                }
                assert forall|n: Seq<char>| n != name@ implies
                    has_named(old_e, n) == #[trigger] has_named(entries@, n) by {
                    if exists|j: int| 0 <= j < old_e.len() && old_e[j].0@ == n {
                        let j = choose|j: int| 0 <= j < old_e.len() && old_e[j].0@ == n;
                        assert(entries@[j].0@ == n);
                    }
                    if exists|j: int| 0 <= j < entries@.len() && entries@[j].0@ == n {
                        let j = choose|j: int| 0 <= j < entries@.len() && entries@[j].0@ == n;
                        assert(old_e[j].0@ == n);
                    }
                }
            }
        }
    }
}

/// The declared types and protocols, the built-in ones included.
pub struct TypeHierarchy {
    pub types: Vec<TypeInfo>,
    pub protocols: Vec<ProtocolInfo>,
}

/// Some type of the list has the name.
pub open spec fn has_type_named(types: Seq<TypeInfo>, name: Seq<char>) -> bool {
    exists|i: int| 0 <= i < types.len() && types[i].name@ == name
}

/// Some protocol of the list has the name.
pub open spec fn has_protocol_named(protocols: Seq<ProtocolInfo>, name: Seq<char>) -> bool {
    exists|i: int| 0 <= i < protocols.len() && protocols[i].name@ == name
}

/// Finds the first type named `name`.
pub fn find_type(types: &Vec<TypeInfo>, name: &str) -> (r: Option<usize>)
    ensures
        r matches Some(i) ==> i < types@.len() && types@[i as int].name@ == name@
            && forall|j: int| 0 <= j < i ==> types@[j].name@ != name@,
        r is None ==> !has_type_named(types@, name@),
{
    let mut k: usize = 0;
    while k < types.len()
        invariant
            k <= types@.len(),
            forall|j: int| 0 <= j < k ==> types@[j].name@ != name@,
        decreases types@.len() - k,
    {
        if str_eq(types[k].name.as_str(), name) {
            return Some(k);
        }
        k = k + 1;
    }
    None
}

/// Finds the first protocol named `name`.
pub fn find_protocol(protocols: &Vec<ProtocolInfo>, name: &str) -> (r: Option<usize>)
    ensures
        r matches Some(i) ==> i < protocols@.len() && protocols@[i as int].name@ == name@
            && forall|j: int| 0 <= j < i ==> protocols@[j].name@ != name@,
        r is None ==> !has_protocol_named(protocols@, name@),
{
    let mut k: usize = 0;
    while k < protocols.len()
        invariant
            k <= protocols@.len(),
            forall|j: int| 0 <= j < k ==> protocols@[j].name@ != name@,
        decreases protocols@.len() - k,
    {
        if str_eq(protocols[k].name.as_str(), name) {
            return Some(k);
        }
        k = k + 1;
    }
    None
}

/// The position of the first type named `name`.
pub open spec fn first_type(types: Seq<TypeInfo>, name: Seq<char>) -> Option<int> {
    if exists|i: int| 0 <= i < types.len() && types[i].name@ == name {
        Some(choose|i: int| 0 <= i < types.len() && types[i].name@ == name
            && forall|j: int| 0 <= j < i ==> types[j].name@ != name)
    } else {
        None
    }
}

/// The position of the first protocol named `name`.
pub open spec fn first_protocol(protocols: Seq<ProtocolInfo>, name: Seq<char>) -> Option<int> {
    if exists|i: int| 0 <= i < protocols.len() && protocols[i].name@ == name {
        Some(choose|i: int| 0 <= i < protocols.len() && protocols[i].name@ == name
            && forall|j: int| 0 <= j < i ==> protocols[j].name@ != name)
    } else {
        None
    }
}

/// The first type named `name` is the one a scan from the front finds.
pub proof fn lemma_first_type(types: Seq<TypeInfo>, name: Seq<char>, k: int)
    requires
        0 <= k < types.len(),
        types[k].name@ == name,
        forall|j: int| 0 <= j < k ==> types[j].name@ != name,
    ensures
        first_type(types, name) == Some(k),
{
    let i = choose|i: int| 0 <= i < types.len() && types[i].name@ == name
        && forall|j: int| 0 <= j < i ==> types[j].name@ != name;
    assert(0 <= i < types.len() && types[i].name@ == name);
    if i < k {
        assert(types[i].name@ != name);
    }
    if i > k {
        assert(types[k].name@ != name);
    }
}

/// The first protocol named `name` is the one a scan from the front finds.
pub proof fn lemma_first_protocol(protocols: Seq<ProtocolInfo>, name: Seq<char>, k: int)
    requires
        0 <= k < protocols.len(),
        protocols[k].name@ == name,
        forall|j: int| 0 <= j < k ==> protocols[j].name@ != name,
    ensures
        first_protocol(protocols, name) == Some(k),
{
    let i = choose|i: int| 0 <= i < protocols.len() && protocols[i].name@ == name
        && forall|j: int| 0 <= j < i ==> protocols[j].name@ != name;
    assert(0 <= i < protocols.len() && protocols[i].name@ == name);
    if i < k {
        assert(protocols[i].name@ != name);
    }
    if i > k {
        assert(protocols[k].name@ != name);
    }
}

/// Two signatures with the same parameters (names by their text) and the
/// same return type.
pub open spec fn same_signature(a: FuncSignature, b: FuncSignature) -> bool {
    &&& a.return_type == b.return_type
    &&& a.params@.len() == b.params@.len()
    &&& forall|i: int| 0 <= i < a.params@.len() ==> (#[trigger] a.params@[i]).0@ == b.params@[i].0@ && a.params@[i].1 == b.params@[i].1
}

/// What a walk from the type named `tname` up its parents, through at most
/// `fuel` types, finds for `method`: the signature in the first type on the
/// way that declares it.
pub open spec fn chain_method(types: Seq<TypeInfo>, tname: Seq<char>, method: Seq<char>, fuel: nat) -> Option<FuncSignature>
    decreases fuel,
{
    if fuel == 0 {
        None
    } else {
        match first_type(types, tname) {
            None => None,
            Some(i) => match first_named(types[i].methods@, method) {
                Some(k) => Some(types[i].methods@[k].1),
                None => match types[i].parent {
                    Some(p) => chain_method(types, p@, method, (fuel - 1) as nat),
                    None => None,
                },
            },
        }
    }
}

/// What a walk from the type named `tname` up its parents, through at most
/// `fuel` types, finds for the attribute `attr`.
pub open spec fn chain_attribute(types: Seq<TypeInfo>, tname: Seq<char>, attr: Seq<char>, fuel: nat) -> Option<HulkType>
    decreases fuel,
{
    if fuel == 0 {
        None
    } else {
        match first_type(types, tname) {
            None => None,
            Some(i) => match first_named(types[i].attributes@, attr) {
                Some(k) => Some(types[i].attributes@[k].1),
                None => match types[i].parent {
                    Some(p) => chain_attribute(types, p@, attr, (fuel - 1) as nat),
                    None => None,
                },
            },
        }
    }
}

/// What a walk from the protocol `proto` through the protocols it extends,
/// through at most `fuel` protocols, finds for `method`.
pub open spec fn protocol_chain_method(protocols: Seq<ProtocolInfo>, proto: Seq<char>, method: Seq<char>, fuel: nat) -> Option<FuncSignature>
    decreases fuel,
{
    if fuel == 0 {
        None
    } else {
        match first_protocol(protocols, proto) {
            None => None,
            Some(i) => match first_named(protocols[i].methods@, method) {
                Some(k) => Some(protocols[i].methods@[k].1),
                None => match protocols[i].extends {
                    Some(p) => protocol_chain_method(protocols, p@, method, (fuel - 1) as nat),
                    None => None,
                },
            },
        }
    }
}

/// Whether a walk from the type named `child` up its parents, through at
/// most `fuel` steps, meets `ancestor`; a walk that ends without meeting
/// it answers whether `ancestor` is `Object`.
pub open spec fn subtype_walk(types: Seq<TypeInfo>, child: Seq<char>, ancestor: Seq<char>, fuel: nat) -> bool
    decreases fuel,
{
    if child == ancestor {
        true
    } else if fuel > 0 && (first_type(types, child) matches Some(i) && types[i].parent is Some) {
        subtype_walk(types, types[first_type(types, child)->0].parent->0@, ancestor, (fuel - 1) as nat)
    } else {
        ancestor == "Object"@
    }
}

/// Whether the optional signature found is a copy of the one expected.
pub open spec fn found_signature(r: Option<FuncSignature>, expected: Option<FuncSignature>) -> bool {
    match (r, expected) {
        (Some(a), Some(b)) => same_signature(a, b),
        (None, None) => true,
        _ => false,
    }
}

/// A copy of a signature fits where the signature fits.
proof fn lemma_fits_copy(h: TypeHierarchy, a: FuncSignature, a2: FuncSignature, b: FuncSignature, fuel: nat)
    requires
        same_signature(a, a2),
    ensures
        signature_fits(h, a, b, fuel) == signature_fits(h, a2, b, fuel),
{
    assert(a.return_type == a2.return_type);
    if a.params@.len() == b.params@.len() {
        if forall|i: int| 0 <= i < a.params@.len() ==> ty_eq(#[trigger] a.params@[i].1, b.params@[i].1) {
            assert forall|i: int| 0 <= i < a2.params@.len() implies ty_eq(#[trigger] a2.params@[i].1, b.params@[i].1) by {
                assert(a.params@[i].1 == a2.params@[i].1);
            }
        }
        if forall|i: int| 0 <= i < a2.params@.len() ==> ty_eq(#[trigger] a2.params@[i].1, b.params@[i].1) {
            assert forall|i: int| 0 <= i < a.params@.len() implies ty_eq(#[trigger] a.params@[i].1, b.params@[i].1) by {
                assert(a.params@[i].1 == a2.params@[i].1);
            }
        }
    }
}

/// A signature without parameters.
pub(crate) fn nullary(ret: HulkType) -> (s: FuncSignature)
    ensures
        s.params@.len() == 0,
        s.return_type == ret,
{
    FuncSignature { params: Vec::new(), return_type: ret }
}

/// The entry is a method `name` with no parameters returning `ret`.
pub open spec fn nullary_entry(e: (String, FuncSignature), name: Seq<char>, ret: HulkType) -> bool {
    e.0@ == name && e.1.params@.len() == 0 && e.1.return_type == ret
}

/// A built-in type named `name` without constructor parameters or
/// attributes, whose parent is `Object` unless it is `Object` itself.
pub open spec fn builtin_type(t: TypeInfo, name: Seq<char>) -> bool {
    &&& t.name@ == name
    &&& if name == "Object"@ { t.parent is None } else { t.parent matches Some(p) && p@ == "Object"@ }
    &&& t.constructor_params@.len() == 0
    &&& t.attributes@.len() == 0
    &&& t.is_builtin
}

/// The hierarchy a checker starts with: the types `Object`, `Number`,
/// `String`, `Boolean` (each with `toString`, `String` also with `size`) and
/// `Range` (with `next` and `current`), and the protocol `Iterable` (with
/// `next` and `current`), and nothing else.
pub open spec fn builtin_hierarchy(h: TypeHierarchy) -> bool {
    let ts = h.types@;
    &&& ts.len() == 5
    &&& builtin_type(ts[0], "Object"@) && ts[0].methods@.len() == 1 && nullary_entry(ts[0].methods@[0], "toString"@, HulkType::StringT)
    &&& builtin_type(ts[1], "Number"@) && ts[1].methods@.len() == 1 && nullary_entry(ts[1].methods@[0], "toString"@, HulkType::StringT)
    &&& builtin_type(ts[2], "String"@) && ts[2].methods@.len() == 2 && nullary_entry(ts[2].methods@[0], "size"@, HulkType::Number)
        && nullary_entry(ts[2].methods@[1], "toString"@, HulkType::StringT)
    &&& builtin_type(ts[3], "Boolean"@) && ts[3].methods@.len() == 1 && nullary_entry(ts[3].methods@[0], "toString"@, HulkType::StringT)
    &&& builtin_type(ts[4], "Range"@) && ts[4].methods@.len() == 2 && nullary_entry(ts[4].methods@[0], "next"@, HulkType::Boolean)
        && nullary_entry(ts[4].methods@[1], "current"@, HulkType::Number)
    &&& h.protocols@.len() == 1
    &&& h.protocols@[0].name@ == "Iterable"@ && h.protocols@[0].extends is None
    &&& h.protocols@[0].methods@.len() == 2 && nullary_entry(h.protocols@[0].methods@[0], "next"@, HulkType::Boolean)
        && nullary_entry(h.protocols@[0].methods@[1], "current"@, HulkType::Object)
}

impl TypeHierarchy {
    /// The hierarchy of the built-in types (`Object`, `Number`, `String`,
    /// `Boolean`, `Range`) and the `Iterable` protocol.
    pub fn new() -> (h: Self)
        ensures
            has_type_named(h.types@, "Object"@),
            has_type_named(h.types@, "Number"@),
            has_type_named(h.types@, "String"@),
            has_type_named(h.types@, "Boolean"@),
            has_type_named(h.types@, "Range"@),
            has_protocol_named(h.protocols@, "Iterable"@),
            builtin_hierarchy(h),
    {
        let mut h = TypeHierarchy { types: Vec::new(), protocols: Vec::new() };
        h.register_builtins();
        h
    }

    fn register_builtins(&mut self)
        ensures
            has_type_named(final(self).types@, "Object"@),
            has_type_named(final(self).types@, "Number"@),
            has_type_named(final(self).types@, "String"@),
            has_type_named(final(self).types@, "Boolean"@),
            has_type_named(final(self).types@, "Range"@),
            has_protocol_named(final(self).protocols@, "Iterable"@),
            old(self).types@.len() == 0 && old(self).protocols@.len() == 0 ==> builtin_hierarchy(*final(self)),
    {
        proof {
            reveal_strlit("toString"); reveal_strlit("size");
            reveal_strlit("Object"); reveal_strlit("Number"); reveal_strlit("String"); reveal_strlit("Boolean"); reveal_strlit("Range");
            assert("Number"@[0] != "Object"@[0]);
            assert("String"@[0] != "Object"@[0] && "String"@[0] != "Number"@[0] && "String"@[0] != "Boolean"@[0]);
            assert("Boolean"@[0] != "Object"@[0]);
            assert("Range"@[0] != "Object"@[0]);
            reveal_strlit("Object"); reveal_strlit("Number"); reveal_strlit("String"); reveal_strlit("Boolean");
            reveal_strlit("Range"); reveal_strlit("Iterable"); reveal_strlit("next"); reveal_strlit("current");
        }
        let ghost t0: int = self.types@.len() as int;
        self.types.push(TypeInfo {
            name: "Object".to_owned(), parent: None, constructor_params: Vec::new(),
            attributes: Vec::new(), methods: builtin_methods_for("Object"), is_builtin: true,
        });
        self.types.push(TypeInfo {
            name: "Number".to_owned(), parent: Some("Object".to_owned()), constructor_params: Vec::new(),
            attributes: Vec::new(), methods: builtin_methods_for("Number"), is_builtin: true,
        });
        self.types.push(TypeInfo {
            name: "String".to_owned(), parent: Some("Object".to_owned()), constructor_params: Vec::new(),
            attributes: Vec::new(), methods: builtin_methods_for("String"), is_builtin: true,
        });
        self.types.push(TypeInfo {
            name: "Boolean".to_owned(), parent: Some("Object".to_owned()), constructor_params: Vec::new(),
            attributes: Vec::new(), methods: builtin_methods_for("Boolean"), is_builtin: true,
        });
        let mut range_methods: Vec<(String, FuncSignature)> = Vec::new();
        range_methods.push(("next".to_owned(), nullary(HulkType::Boolean)));
        range_methods.push(("current".to_owned(), nullary(HulkType::Number)));
        self.types.push(TypeInfo {
            name: "Range".to_owned(), parent: Some("Object".to_owned()), constructor_params: Vec::new(),
            attributes: Vec::new(), methods: range_methods, is_builtin: true,
        });
        let mut iter_methods: Vec<(String, FuncSignature)> = Vec::new();
        iter_methods.push(("next".to_owned(), nullary(HulkType::Boolean)));
        iter_methods.push(("current".to_owned(), nullary(HulkType::Object)));
        self.protocols.push(ProtocolInfo { name: "Iterable".to_owned(), extends: None, methods: iter_methods });
        proof {
            assert(self.types@[t0].name@ == "Object"@);
            assert(self.types@[t0 + 1].name@ == "Number"@);
            assert(self.types@[t0 + 2].name@ == "String"@);
            assert(self.types@[t0 + 3].name@ == "Boolean"@);
            assert(self.types@[t0 + 4].name@ == "Range"@);
            assert(self.protocols@[self.protocols@.len() - 1].name@ == "Iterable"@);
        }
    }

    /// The walk bound: the number of types and protocols, plus two.
    pub open spec fn spec_chain_bound(&self) -> usize {
        if self.types@.len() < usize::MAX / 2 && self.protocols@.len() < usize::MAX / 2 {
            (self.types@.len() + self.protocols@.len() + 2) as usize
        } else {
            usize::MAX
        }
    }

    /// A bound on the length of any chain of parents or of extended protocols
    /// that does not repeat a name.
    pub fn chain_bound(&self) -> (n: usize)
        ensures
            n >= 1,
            n == self.spec_chain_bound(),
    {
        let a = self.types.len();
        let b = self.protocols.len();
        if a < usize::MAX / 2 && b < usize::MAX / 2 {
            a + b + 2
        } else {
            usize::MAX
        }
    }

    /// The parent of a declared type, by name.
    pub fn parent_name(&self, name: &str) -> (r: Option<String>)
        ensures
            r is Some ==> exists|i: int| 0 <= i < self.types@.len() && self.types@[i].name@ == name@
                && (self.types@[i].parent matches Some(q) && q@ == r->0@),
            !has_type_named(self.types@, name@) ==> r is None,
            first_type(self.types@, name@) is None ==> r is None,
            first_type(self.types@, name@) matches Some(i) ==> r == self.types@[i].parent,
    {
        let found = find_type(&self.types, name);
        proof {
            if let Some(i) = found {
                lemma_first_type(self.types@, name@, i as int);
            }
        }
        match found {
            Some(i) => match &self.types[i].parent {
                Some(p) => Some(p.clone()),
                None => None,
            },
            None => None,
        }
    }

    /// Whether the type named `child` is `ancestor` or inherits from it,
    /// following parents for at most `fuel` steps. A type whose chain ends
    /// without meeting `ancestor` is a subtype only of `Object`.
    fn is_subtype_fuel(&self, child: &str, ancestor: &str, fuel: usize) -> (r: bool)
        ensures
            r == subtype_walk(self.types@, child@, ancestor@, fuel as nat),
            child@ == ancestor@ ==> r,
            ancestor@ == "Object"@ ==> r,
        decreases fuel,
    {
        proof { reveal_strlit("Object"); }
        if str_eq(child, ancestor) {
            return true;
        }
        if fuel > 0 {
            if let Some(parent) = self.parent_name(child) {
                return self.is_subtype_fuel(parent.as_str(), ancestor, fuel - 1);
            }
        }
        str_eq(ancestor, "Object")
    }

    /// Whether the type named `child` is `ancestor` or inherits from it.
    pub fn is_subtype(&self, child: &str, ancestor: &str) -> (r: bool)
        ensures
            r == subtype_walk(self.types@, child@, ancestor@, self.spec_chain_bound() as nat),
            child@ == ancestor@ ==> r,
            ancestor@ == "Object"@ ==> r,
    {
        self.is_subtype_fuel(child, ancestor, self.chain_bound())
    }

    /// The signature of `method` in the type named `tname` or the nearest
    /// ancestor that declares it.
    pub fn lookup_method(&self, tname: &str, method: &str) -> (r: Option<FuncSignature>)
        ensures
            found_signature(r, chain_method(self.types@, tname@, method@, self.spec_chain_bound() as nat)),
    {
        let mut current = tname.to_owned();
        let mut fuel = self.chain_bound();
        while fuel > 0
            invariant
                chain_method(self.types@, tname@, method@, self.spec_chain_bound() as nat)
                    == chain_method(self.types@, current@, method@, fuel as nat),
            decreases fuel,
        {
            fuel = fuel - 1;
            match find_type(&self.types, current.as_str()) {
                Some(i) => {
                    proof { lemma_first_type(self.types@, current@, i as int); }
                    match find_entry(&self.types[i].methods, method) {
                        Some(k) => {
                            proof { lemma_first_named(self.types@[i as int].methods@, method@, k as int); }
                            return Some(self.types[i].methods[k].1.copy());
                        }
                        None => {
                            assert(first_named(self.types@[i as int].methods@, method@) is None);
                        }
                    }
                    match &self.types[i].parent {
                        Some(p) => {
                            current = p.clone();
                        }
                        None => {
                            return None;
                        }
                    }
                }
                None => {
                    return None;
                }
            }
        }
        None
    }

    /// The type of `attr` in the type named `tname` or the nearest ancestor that declares it.
    pub fn lookup_attribute(&self, tname: &str, attr: &str) -> (r: Option<HulkType>)
        ensures
            r == chain_attribute(self.types@, tname@, attr@, self.spec_chain_bound() as nat),
    {
        let mut current = tname.to_owned();
        let mut fuel = self.chain_bound();
        while fuel > 0
            invariant
                chain_attribute(self.types@, tname@, attr@, self.spec_chain_bound() as nat)
                    == chain_attribute(self.types@, current@, attr@, fuel as nat),
            decreases fuel,
        {
            fuel = fuel - 1;
            match find_type(&self.types, current.as_str()) {
                Some(i) => {
                    proof { lemma_first_type(self.types@, current@, i as int); }
                    match find_entry(&self.types[i].attributes, attr) {
                        Some(k) => {
                            proof { lemma_first_named(self.types@[i as int].attributes@, attr@, k as int); }
                            return Some(self.types[i].attributes[k].1.copy());
                        }
                        None => {
                            assert(first_named(self.types@[i as int].attributes@, attr@) is None);
                        }
                    }
                    match &self.types[i].parent {
                        Some(p) => {
                            current = p.clone();
                        }
                        None => {
                            return None;
                        }
                    }
                }
                None => {
                    return None;
                }
            }
        }
        None
    }

    /// The signature of `method` in the protocol or the protocols it extends.
    pub fn lookup_method_in_protocol(&self, proto_name: &str, method: &str) -> (r: Option<FuncSignature>)
        ensures
            found_signature(r, protocol_chain_method(self.protocols@, proto_name@, method@, self.spec_chain_bound() as nat)),
    {
        let mut current = proto_name.to_owned();
        let mut fuel = self.chain_bound();
        while fuel > 0
            invariant
                protocol_chain_method(self.protocols@, proto_name@, method@, self.spec_chain_bound() as nat)
                    == protocol_chain_method(self.protocols@, current@, method@, fuel as nat),
            decreases fuel,
        {
            fuel = fuel - 1;
            match find_protocol(&self.protocols, current.as_str()) {
                Some(i) => {
                    proof { lemma_first_protocol(self.protocols@, current@, i as int); }
                    match find_entry(&self.protocols[i].methods, method) {
                        Some(k) => {
                            proof { lemma_first_named(self.protocols@[i as int].methods@, method@, k as int); }
                            return Some(self.protocols[i].methods[k].1.copy());
                        }
                        None => {
                            assert(first_named(self.protocols@[i as int].methods@, method@) is None);
                        }
                    }
                    match &self.protocols[i].extends {
                        Some(p) => {
                            current = p.clone();
                        }
                        None => {
                            return None;
                        }
                    }
                }
                None => {
                    return None;
                }
            }
        }
        None
    }

    /// Whether a value of type `child` can be used where `ancestor` is expected.
    pub fn conforms(&self, child: &HulkType, ancestor: &HulkType) -> (r: bool)
        ensures
            r == accepts(*self, *child, *ancestor, bound(*self)),
            child is Never || ancestor is Never || child is Unknown || ancestor is Unknown ==> r,
            ty_eq(*child, *ancestor) ==> r,
            ancestor is Object ==> r,
            child is Null && !(ancestor is Never || ancestor is Unknown || ancestor is Null) ==> (r <==> (ancestor is UserDefined || ancestor is Object)),
            (child is Number || child is StringT || child is Boolean) && ancestor is Protocol ==> !r,
            child is Vector && !(ancestor is Vector || ancestor is Object || ancestor is Never || ancestor is Unknown) ==> !r,
    {
        self.conforms_fuel(child, ancestor, self.chain_bound())
    }

    fn conforms_fuel(&self, child: &HulkType, ancestor: &HulkType, fuel: usize) -> (r: bool)
        ensures
            r == accepts(*self, *child, *ancestor, fuel as nat),
            child is Never || ancestor is Never || child is Unknown || ancestor is Unknown ==> r,
            ty_eq(*child, *ancestor) ==> r,
            ancestor is Object ==> r,
            child is Null && !(ancestor is Never || ancestor is Unknown || ancestor is Null) ==> (r <==> (ancestor is UserDefined || ancestor is Object)),
            (child is Number || child is StringT || child is Boolean) && ancestor is Protocol ==> !r,
            child is Vector && !(ancestor is Vector || ancestor is Object || ancestor is Never || ancestor is Unknown) ==> !r,
        decreases fuel, 1nat, ty_size(*child),
    {
        proof { reveal_strlit("Number"); reveal_strlit("String"); reveal_strlit("Boolean"); }
        if child.is_never() || ancestor.is_never() {
            return true;
        }
        if child.is_unknown() || ancestor.is_unknown() {
            return true;
        }
        if child.same(ancestor) {
            return true;
        }
        if let HulkType::Object = ancestor {
            return true;
        }
        if let HulkType::Null = child {
            return match ancestor {
                HulkType::UserDefined(_) | HulkType::Object => true,
                _ => false,
            };
        }
        match (child, ancestor) {
            (HulkType::UserDefined(c), HulkType::UserDefined(a)) => self.is_subtype(c.as_str(), a.as_str()),
            (HulkType::Number, HulkType::UserDefined(a)) => str_eq(a.as_str(), "Number"),
            (HulkType::StringT, HulkType::UserDefined(a)) => str_eq(a.as_str(), "String"),
            (HulkType::Boolean, HulkType::UserDefined(a)) => str_eq(a.as_str(), "Boolean"),
            (HulkType::UserDefined(c), HulkType::Protocol(p)) => {
                if fuel == 0 {
                    true
                } else {
                    self.conforms_protocol_fuel(c.as_str(), p.as_str(), fuel - 1)
                }
            }
            (HulkType::Vector(a), HulkType::Vector(b)) => self.conforms_fuel(a, b, fuel),
            _ => false,
        }
    }

    /// Whether the type named `tname` has (itself or through its
    /// ancestors) every method of the protocol and of the protocols it
    /// extends, with compatible signatures.
    pub fn conforms_protocol(&self, tname: &str, protocol: &str) -> (r: bool)
        ensures
            r == meets_protocol(*self, tname@, protocol@, bound(*self)),
            !has_protocol_named(self.protocols@, protocol@) ==> !r,
            !has_type_named(self.types@, tname@) ==> !r,
    {
        self.conforms_protocol_fuel(tname, protocol, self.chain_bound())
    }

    fn conforms_protocol_fuel(&self, tname: &str, protocol: &str, fuel: usize) -> (r: bool)
        ensures
            r == meets_protocol(*self, tname@, protocol@, fuel as nat),
            !has_protocol_named(self.protocols@, protocol@) ==> !r,
            !has_type_named(self.types@, tname@) ==> !r,
        decreases fuel, 3nat, 0nat,
    {
        let pi = match find_protocol(&self.protocols, protocol) {
            Some(i) => i,
            None => { return false; }
        };
        match find_type(&self.types, tname) {
            Some(_) => {}
            None => { return false; }
        }
        proof {
            lemma_first_protocol(self.protocols@, protocol@, pi as int);
        }
        let methods = &self.protocols[pi].methods;
        let mut k: usize = 0;
        while k < methods.len()
            invariant
                k <= methods@.len(),
                pi < self.protocols@.len(),
                *methods == self.protocols@[pi as int].methods,
                first_protocol(self.protocols@, protocol@) == Some(pi as int),
                has_type_named(self.types@, tname@),
                forall|j: int| 0 <= j < k ==> #[trigger] method_met(*self, tname@, methods@[j], fuel as nat),
            decreases methods@.len() - k,
        {
            if !self.has_fitting_method(tname, &methods[k], fuel) {
                proof { lemma_method_unmet(*self, tname@, protocol@, fuel as nat, pi as int, k as int); }
                return false;
            }
            k = k + 1;
        }
        proof { lemma_methods_met(*self, tname@, self.protocols@[pi as int].methods@, fuel as nat); }
        match &self.protocols[pi].extends {
            Some(parent) => {
                if fuel == 0 {
                    true
                } else {
                    self.conforms_protocol_fuel(tname, parent.as_str(), fuel - 1)
                }
            }
            None => true,
        }
    }

    /// Whether the type named `tname` has the method `m` (itself or through
    /// its ancestors) with a signature that fits the one listed.
    fn has_fitting_method(&self, tname: &str, m: &(String, FuncSignature), fuel: usize) -> (r: bool)
        ensures
            r == method_met(*self, tname@, *m, fuel as nat),
        decreases fuel, 2nat, 1nat,
    {
        proof { reveal(method_met); }
        match self.lookup_method(tname, m.0.as_str()) {
            None => false,
            Some(type_sig) => {
                proof {
                    let found = chain_method(self.types@, tname@, m.0@, bound(*self)).unwrap();
                    lemma_fits_copy(*self, found, type_sig, m.1, fuel as nat);
                }
                self.signatures_compatible_fuel(&type_sig, &m.1, fuel)
            }
        }
    }

    /// Same number of parameters, the same parameter types, and a return
    /// type that conforms.
    fn signatures_compatible_fuel(&self, a: &FuncSignature, b: &FuncSignature, fuel: usize) -> (r: bool)
        ensures
            r == signature_fits(*self, *a, *b, fuel as nat),
            a.params@.len() != b.params@.len() ==> !r,
        decreases fuel, 2nat, 0nat,
    {
        if a.params.len() != b.params.len() {
            return false;
        }
        if !self.conforms_fuel(&a.return_type, &b.return_type, fuel) {
            return false;
        }
        let mut k: usize = 0;
        while k < a.params.len()
            invariant
                k <= a.params@.len(),
                a.params@.len() == b.params@.len(),
                accepts(*self, a.return_type, b.return_type, fuel as nat),
                forall|i: int| 0 <= i < k ==> ty_eq(#[trigger] a.params@[i].1, b.params@[i].1),
            decreases a.params@.len() - k,
        {
            if !a.params[k].1.same(&b.params[k].1) {
                return false;
            }
            k = k + 1;
        }
        true
    }

    /// The first of the protocol's own methods that the type does not
    /// declare itself; none where the type or the protocol is not registered.
    pub fn missing_protocol_method(&self, tname: &str, protocol: &str) -> (r: Option<String>)
        ensures
            r is None <==> own_missing(*self, tname@, protocol@) is None,
            r matches Some(m) ==> own_missing(*self, tname@, protocol@) == Some(m@),
    {
        let pi = match find_protocol(&self.protocols, protocol) {
            Some(i) => i,
            None => { return None; }
        };
        let ti = match find_type(&self.types, tname) {
            Some(i) => i,
            None => { return None; }
        };
        proof {
            lemma_first_protocol(self.protocols@, protocol@, pi as int);
            lemma_first_type(self.types@, tname@, ti as int);
        }
        let methods = &self.protocols[pi].methods;
        let own = &self.types[ti].methods;
        let mut k: usize = 0;
        while k < methods.len()
            invariant
                k <= methods@.len(),
                pi < self.protocols@.len(),
                ti < self.types@.len(),
                *methods == self.protocols@[pi as int].methods,
                *own == self.types@[ti as int].methods,
                first_protocol(self.protocols@, protocol@) == Some(pi as int),
                first_type(self.types@, tname@) == Some(ti as int),
                first_undeclared(own@, methods@, 0) == first_undeclared(own@, methods@, k as int),
            decreases methods@.len() - k,
        {
            match find_entry(own, methods[k].0.as_str()) {
                None => { return Some(methods[k].0.clone()); }
                Some(j) => {
                    assert(own@[j as int].0@ == methods@[k as int].0@);
                }
            }
            k = k + 1;
        }
        None
    }

    /// The first method of the protocol (or of a protocol it extends) that
    /// the type lacks or declares with an incompatible signature.
    pub fn first_protocol_violation(&self, tname: &str, protocol: &str) -> (r: Option<String>)
        ensures
            !has_protocol_named(self.protocols@, protocol@) ==> r is None,
            r is None <==> first_violation(*self, tname@, protocol@, bound(*self)) is None,
            r matches Some(m) ==> first_violation(*self, tname@, protocol@, bound(*self)) == Some(m@),
    {
        let mut current = protocol.to_owned();
        let mut fuel = self.chain_bound();
        while fuel > 0
            invariant
                first_violation(*self, tname@, protocol@, bound(*self)) == first_violation(*self, tname@, current@, fuel as nat),
                !has_protocol_named(self.protocols@, protocol@) ==> current@ == protocol@,
            decreases fuel,
        {
            let ghost f0 = fuel;
            fuel = fuel - 1;
            let pi = match find_protocol(&self.protocols, current.as_str()) {
                Some(i) => i,
                None => { return None; }
            };
            proof { lemma_first_protocol(self.protocols@, current@, pi as int); }
            assert(has_protocol_named(self.protocols@, current@));
            let methods = &self.protocols[pi].methods;
            let mut k: usize = 0;
            while k < methods.len()
                invariant
                    k <= methods@.len(),
                    pi < self.protocols@.len(),
                    *methods == self.protocols@[pi as int].methods,
                    first_unfit(*self, tname@, methods@, 0) == first_unfit(*self, tname@, methods@, k as int),
                    first_violation(*self, tname@, protocol@, bound(*self)) == first_violation(*self, tname@, current@, f0 as nat),
                    f0 == fuel + 1,
                    first_protocol(self.protocols@, current@) == Some(pi as int),
                    has_protocol_named(self.protocols@, current@),
                    !has_protocol_named(self.protocols@, protocol@) ==> current@ == protocol@,
                decreases methods@.len() - k,
            {
                if !self.has_fitting_method(tname, &methods[k], self.chain_bound()) {
                    return Some(methods[k].0.clone());
                }
                k = k + 1;
            }
            match &self.protocols[pi].extends {
                Some(p) => { current = p.clone(); }
                None => { return None; }
            }
        }
        None
    }

    /// The parent of a type: `Object` for the primitives and `Null`, the
    /// declared parent for a declared type.
    pub fn parent_of(&self, t: &HulkType) -> (r: Option<HulkType>)
        ensures
            r == parent_type(*self, *t),
            (t is Number || t is StringT || t is Boolean || t is Null) ==> r == Some(HulkType::Object),
            (t is Object || t is Vector || t is Protocol || t is Unknown || t is Never) ==> r is None,
            r is Some && t is UserDefined ==> r->0 is UserDefined,
    {
        match t {
            HulkType::UserDefined(name) => match self.parent_name(name.as_str()) {
                Some(p) => Some(HulkType::UserDefined(p)),
                None => None,
            },
            HulkType::Number | HulkType::StringT | HulkType::Boolean | HulkType::Null => Some(HulkType::Object),
            _ => None,
        }
    }

    /// The type and its ancestors, nearest first.
    #[verifier::rlimit(40)]
    fn ancestors(&self, t: &HulkType) -> (r: Vec<HulkType>)
        ensures
            r@ == ancestor_line(*self, *t, bound(*self)),
            r@.len() >= 1,
            r@[0] == *t,
    {
        let mut set: Vec<HulkType> = Vec::new();
        set.push(t.copy());
        let mut cur = t.copy();
        let mut fuel = self.chain_bound();
        loop
            invariant
                set@.len() >= 1,
                set@[0] == *t,
                set@.last() == cur,
                set@.drop_last() + ancestor_line(*self, cur, fuel as nat) == ancestor_line(*self, *t, bound(*self)),
            ensures
                set@ == ancestor_line(*self, *t, bound(*self)),
            decreases fuel,
        {
            if fuel == 0 {
                assert(set@ =~= set@.drop_last() + ancestor_line(*self, cur, fuel as nat));
                break;
            }
            let ghost f0 = fuel as nat;
            let ghost before = set@;
            fuel = fuel - 1;
            match self.parent_of(&cur) {
                Some(p) => {
                    set.push(p.copy());
                    cur = p;
                    assert(set@.drop_last() =~= before);
                    assert(before =~= before.drop_last() + seq![before.last()]);
                    assert(ancestor_line(*self, before.last(), f0) == seq![before.last()] + ancestor_line(*self, cur, fuel as nat));
                    assert(set@.drop_last() + ancestor_line(*self, cur, fuel as nat)
                        =~= before.drop_last() + ancestor_line(*self, before.last(), f0));
                }
                None => {
                    assert(before =~= before.drop_last() + ancestor_line(*self, cur, f0));
                    assert(ancestor_line(*self, cur, fuel as nat) == seq![cur]);
                    break;
                }
            }
        }
        set
    }

    /// The nearest common ancestor of two types: the first ancestor of `b`
    /// that is also an ancestor of `a`, `Object` when there is none. A
    /// failed expression (`Never`) gives way to the other type.
    pub fn lca(&self, a: &HulkType, b: &HulkType) -> (r: HulkType)
        ensures
            r == common_ancestor(*self, *a, *b),
            a is Never ==> r == *b,
            !(a is Never) && b is Never ==> r == *a,
            !(a is Never) && !(b is Never) && ty_eq(*a, *b) ==> r == *a,
    {
        if a.is_never() {
            return b.copy();
        }
        if b.is_never() {
            return a.copy();
        }
        if a.same(b) {
            return a.copy();
        }
        let ancestors_a = self.ancestors(a);
        let mut current = b.copy();
        let mut fuel = self.chain_bound();
        while fuel > 0
            invariant
                !(a is Never) && !(b is Never) && !ty_eq(*a, *b),
                ancestors_a@ == ancestor_line(*self, *a, bound(*self)),
                common_ancestor(*self, *a, *b) == first_shared(*self, ancestors_a@, current, fuel as nat),
            decreases fuel,
        {
            let ghost f0 = fuel as nat;
            fuel = fuel - 1;
            let mut k: usize = 0;
            while k < ancestors_a.len()
                invariant
                    k <= ancestors_a@.len(),
                    !(a is Never) && !(b is Never) && !ty_eq(*a, *b),
                    forall|j: int| 0 <= j < k ==> !ty_eq(#[trigger] ancestors_a@[j], current),
                    common_ancestor(*self, *a, *b) == first_shared(*self, ancestors_a@, current, f0),
                    f0 == fuel + 1,
                decreases ancestors_a@.len() - k,
            {
                if ancestors_a[k].same(&current) {
                    assert(ty_eq(ancestors_a@[k as int], current));
                    return current;
                }
                k = k + 1;
            }
            assert(!exists|j: int| 0 <= j < ancestors_a@.len() && ty_eq(#[trigger] ancestors_a@[j], current));
            match self.parent_of(&current) {
                Some(p) => { current = p; }
                None => { return HulkType::Object; }
            }
        }
        HulkType::Object
    }

    /// Whether following the parents from the type named `tname` comes
    /// back to a type already met. A walk longer than the number of types
    /// must have met a type twice.
    #[verifier::spinoff_prover]
    #[verifier::rlimit(60)]
    pub fn has_circular_inheritance(&self, tname: &str) -> (r: bool)
        ensures
            r == walks_into_cycle(*self, Seq::empty(), tname@, bound(*self)),
            !has_type_named(self.types@, tname@) ==> !r,
    {
        let mut visited: Vec<String> = Vec::new();
        let mut current = tname.to_owned();
        let mut fuel = self.chain_bound();
        let ghost bound0 = fuel;
        assert(visited@.map_values(|v: String| v@) =~= Seq::<Seq<char>>::empty());
        while fuel > 0
            invariant
                !has_type_named(self.types@, tname@) ==> (visited@.len() == 0 && current@ == tname@),
                visited@.len() + fuel == bound0,
                bound0 >= 1,
                walks_into_cycle(*self, Seq::empty(), tname@, bound(*self))
                    == walks_into_cycle(*self, visited@.map_values(|v: String| v@), current@, fuel as nat),
            decreases fuel,
        {
            let ghost seen = visited@.map_values(|v: String| v@);
            fuel = fuel - 1;
            if holds_name(&visited, current.as_str()) {
                return true;
            }
            visited.push(current.clone());
            assert(visited@.map_values(|v: String| v@) =~= seen.push(current@));
            match self.parent_name(current.as_str()) {
                Some(p) => { current = p; }
                None => { return false; }
            }
        }
        true
    }
}

/// Whether one of the names is `name`.
fn holds_name(names: &Vec<String>, name: &str) -> (b: bool)
    ensures
        b == names@.map_values(|v: String| v@).contains(name@),
{
    let ghost seen = names@.map_values(|v: String| v@);
    let mut k: usize = 0;
    while k < names.len()
        invariant
            k <= names@.len(),
            seen == names@.map_values(|v: String| v@),
            forall|j: int| 0 <= j < k ==> names@[j]@ != name@,
        decreases names@.len() - k,
    {
        if str_eq(names[k].as_str(), name) {
            assert(seen[k as int] == name@);
            return true;
        }
        k = k + 1;
    }
    assert(!seen.contains(name@)) by {
        if seen.contains(name@) {
            let j = choose|j: int| 0 <= j < seen.len() && seen[j] == name@;
            assert(names@[j]@ == name@);
        }
    }
    false
}

} // verus!
