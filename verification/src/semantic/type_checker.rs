//! The two-pass type checker: declarations are collected first, so that
//! functions and types can be used before their definition, then every body
//! is checked.
use vstd::prelude::*;
use crate::parser::ast::types::{type_name_name, type_name_span};
use crate::parser::ast::{
    Program, Decl, FuncDecl, TypeDecl, TypeMember, ProtocolDecl, Param, AttributeDef, MethodDef,
    Expr, ExprKind, Literal, BinaryOp, BinaryExpr, UnaryOp, UnaryExpr, PostfixOp, PostfixExpr, AssignOp, AssignExpr,
    IndexExpr, WhileExpr, VectorExpr, TypeName, Span, LetBinding, IfExpr,
};
use std::collections::HashMap;
use crate::semantic::errors::SemanticError;
use crate::semantic::hierarchy_rules::{walks_into_cycle, bound, accepts, first_violation, common_ancestor, meets_protocol};
use crate::semantic::symbol_table::{Symbol, SymbolKind, SymbolTable, resolve, resolve_in, scope_has, scope_get, lemma_unbound_resolves_none};
use crate::semantic::type_system::{
    FuncSignature, HulkType, TypeHierarchy, TypeInfo, ProtocolInfo, str_eq, find_entry, set_entry,
    find_type, find_protocol, copy_named, types_of, copy_types, has_protocol_named, has_type_named,
    first_type, lemma_first_type, type_text, chain_attribute, chain_method, protocol_chain_method,
    first_named, lemma_first_named, ty_eq, has_named, builtin_hierarchy, value_of, lemma_first_named_found,
};

verus! {

/// One checked expression: the expression, the type found, where the
/// record stood when its check began, how many errors there were when its
/// check began and ended, and the errors as they stood when it ended.
pub ghost struct Checked {
    pub expr: Expr,
    pub ty: HulkType,
    pub start: nat,
    pub errors_before: nat,
    pub errors_after: nat,
    pub errs: Seq<SemanticError>,
}

/// `b` keeps the errors of `a` and possibly adds more after them.
pub open spec fn extends_errors(a: Seq<SemanticError>, b: Seq<SemanticError>) -> bool {
    &&& a.len() <= b.len()
    &&& forall|i: int| 0 <= i < a.len() ==> b[i] == a[i]
}

/// The type of a literal.
pub open spec fn literal_type(l: Literal) -> HulkType {
    match l {
        Literal::Number { .. } => HulkType::Number,
        Literal::String { .. } => HulkType::StringT,
        Literal::Char { .. } => HulkType::StringT,
        Literal::Bool { .. } => HulkType::Boolean,
        Literal::Null { .. } => HulkType::Null,
    }
}

/// What checking an expression may tell of its type, by its form.
pub open spec fn result_fits(kind: ExprKind, t: HulkType) -> bool {
    match kind {
        ExprKind::Literal(l) => t == literal_type(l),
        ExprKind::Binary(b) => match b.op {
            BinaryOp::Add | BinaryOp::Sub | BinaryOp::Mul | BinaryOp::Div | BinaryOp::Mod | BinaryOp::Power =>
                t is Number || t is Never,
            BinaryOp::Concat | BinaryOp::DoubleConcat => t is StringT || t is Never,
            _ => t is Boolean || t is Never,
        },
        ExprKind::Unary(u) => match u.op {
            UnaryOp::Neg => t is Number || t is Never,
            UnaryOp::Not => t is Boolean || t is Never,
        },
        ExprKind::Postfix(_) => t is Number || t is Never,
        ExprKind::Is { .. } => t is Boolean,
        ExprKind::New(_) => t is UserDefined || t is Never,
        ExprKind::Vector(_) => t is Vector,
        _ => true,
    }
}

/// The type a name denotes: a built-in type by its name, a declared
/// protocol, otherwise a (declared or not) type of that name.
pub open spec fn names_type(protocols: Seq<ProtocolInfo>, name: Seq<char>, t: HulkType) -> bool {
    if name == "Number"@ {
        t is Number
    } else if name == "String"@ {
        t is StringT
    } else if name == "Boolean"@ {
        t is Boolean
    } else if name == "Object"@ {
        t is Object
    } else if name == "Null"@ {
        t is Null
    } else if has_protocol_named(protocols, name) {
        t matches HulkType::Protocol(p) && p@ == name
    } else {
        t matches HulkType::UserDefined(n) && n@ == name
    }
}

/// `b` is `a` with one more error at the end.
pub open spec fn one_more(a: Seq<SemanticError>, b: Seq<SemanticError>) -> bool {
    b.len() == a.len() + 1 && b.drop_last() == a
}

/// The type a type name denotes: a name as `names_type` says, `T[]` and
/// `T[][]` vectors of it, `T*` the `Iterable` protocol.
pub open spec fn denotes(protocols: Seq<ProtocolInfo>, tn: TypeName, t: HulkType) -> bool {
    match tn {
        TypeName::Simple { name, .. } => names_type(protocols, name@, t),
        TypeName::Vector { name, .. } => t matches HulkType::Vector(e) && names_type(protocols, name@, *e),
        TypeName::Vector2D { name, .. } => t matches HulkType::Vector(e) && *e matches HulkType::Vector(e2)
            && names_type(protocols, name@, *e2),
        TypeName::Iterable { .. } => t matches HulkType::Protocol(p) && p@ == "Iterable"@,
    }
}

/// The built-in type of a primitive, which `new` cannot build.
pub open spec fn primitive_name(n: Seq<char>) -> bool {
    n == "Number"@ || n == "String"@ || n == "Boolean"@
}

/// What an assignment decides before anything is checked: `self` cannot
/// be assigned, nor anything but a name, a field or an element.
pub open spec fn assign_outcome(a: AssignExpr, t: HulkType, before: Seq<SemanticError>, after: Seq<SemanticError>) -> bool {
    if a.target.kind matches ExprKind::Identifier { name } && name@ == "self"@ {
        t is Never && after == before.push(SemanticError::SelfAssignment { span: a.target.span })
    } else if !(a.target.kind is Identifier || a.target.kind is Access || a.target.kind is Index) {
        t is Never && after == before.push(SemanticError::InvalidLValue { span: a.span })
    } else {
        true
    }
}

/// What a vector expression's type is by its form alone: an empty literal
/// is a vector of `Object` and checks nothing; `new T[n]` is a vector of
/// the type `T` denotes.
pub open spec fn vector_outcome(protocols: Seq<ProtocolInfo>, v: VectorExpr, t: HulkType, before: Seq<SemanticError>, after: Seq<SemanticError>) -> bool {
    match v {
        VectorExpr::Explicit { elements, .. } => elements@.len() == 0 ==> t == HulkType::Vector(Box::new(HulkType::Object)) && after == before,
        VectorExpr::Alloc { elem_type, .. } => t matches HulkType::Vector(e) && denotes(protocols, elem_type, *e),
        VectorExpr::Generator { .. } => t is Vector,
    }
}

/// The type of a binary operation on operands of types `l` and `r`: a
/// failed operand fails it; arithmetic gives `Number`, concatenation
/// `String`, logic and comparison `Boolean`.
pub open spec fn binary_type(op: BinaryOp, l: HulkType, r: HulkType) -> HulkType {
    if l is Never || r is Never {
        HulkType::Never
    } else {
        match op {
            BinaryOp::Add | BinaryOp::Sub | BinaryOp::Mul | BinaryOp::Div | BinaryOp::Mod | BinaryOp::Power => HulkType::Number,
            BinaryOp::Concat | BinaryOp::DoubleConcat => HulkType::StringT,
            _ => HulkType::Boolean,
        }
    }
}

/// Whether the operands of a binary operation are refused: arithmetic and
/// ordering take numbers, logic booleans, equality operands of which one
/// is accepted where the other is expected; concatenation takes anything.
pub open spec fn binary_refused(h: TypeHierarchy, op: BinaryOp, l: HulkType, r: HulkType) -> bool {
    if l is Never || r is Never {
        false
    } else {
        match op {
            BinaryOp::And | BinaryOp::Or =>
                !(accepts(h, l, HulkType::Boolean, bound(h)) && accepts(h, r, HulkType::Boolean, bound(h))),
            BinaryOp::Eq | BinaryOp::NotEq => !accepts(h, l, r, bound(h)) && !accepts(h, r, l, bound(h)),
            BinaryOp::Concat | BinaryOp::DoubleConcat => false,
            _ => !(accepts(h, l, HulkType::Number, bound(h)) && accepts(h, r, HulkType::Number, bound(h))),
        }
    }
}

/// What checking a binary node did, as the record of checked expressions
/// `rec` and the errors `errs` show it, the node's check having begun with
/// `rec_start` entries and `errs_start` errors: the left operand was checked
/// first, then the right one, which is the last entry; the node's type
/// follows from theirs, and it adds one error when they are refused.
pub open spec fn binary_outcome(h: TypeHierarchy, rec_start: nat, errs_start: nat, b: BinaryExpr, t: HulkType,
    rec: Seq<Checked>, errs: Seq<SemanticError>) -> bool
{
    let r = rec.last();
    let l = rec[r.start - 1];
    &&& rec.len() > rec_start
    &&& 1 <= r.start < rec.len()
    &&& r.expr == *b.right && l.expr == *b.left
    &&& l.start == rec_start && l.errors_before == errs_start && r.errors_before == l.errors_after
    &&& t == binary_type(b.op, l.ty, r.ty)
    &&& if binary_refused(h, b.op, l.ty, r.ty) {
        &&& errs.len() == r.errors_after + 1
        &&& errs.last() matches SemanticError::InvalidBinaryTypes { op: o, left: x, right: y, span: s }
        &&& o@ == binary_op_text(b.op) && x@ == type_text(l.ty) && y@ == type_text(r.ty) && s == b.span
    } else {
        errs.len() == r.errors_after
    }
}

/// The error `e` is a type mismatch at `span` between the expected and the
/// found type names.
pub open spec fn mismatch_error(e: SemanticError, expected: Seq<char>, found: Seq<char>, span: Span) -> bool {
    e matches SemanticError::TypeMismatch { expected: x, found: y, span: s } && x@ == expected && y@ == found && s == span
}

/// The error `e` refuses an operand of type `found` for the operator `op` at `span`.
pub open spec fn operand_error(e: SemanticError, op: Seq<char>, found: HulkType, span: Span) -> bool {
    e matches SemanticError::InvalidOperandType { op: o, found: y, span: s } && o@ == op && y@ == type_text(found) && s == span
}

/// What checking a node with one operand did: the operand was checked
/// first and is the last entry of the record.
pub open spec fn single_operand(rec_start: nat, errs_start: nat, operand: Expr, rec: Seq<Checked>) -> bool {
    &&& rec.len() > rec_start
    &&& rec.last().expr == operand
    &&& rec.last().start == rec_start
    &&& rec.last().errors_before == errs_start
}

/// What checking `-x` or `!x` did: a failed operand fails it; otherwise it
/// is a `Number` (a `Boolean`), and an operand not accepted as one adds an
/// error.
pub open spec fn unary_outcome(h: TypeHierarchy, rec_start: nat, errs_start: nat, u: UnaryExpr, t: HulkType,
    rec: Seq<Checked>, errs: Seq<SemanticError>) -> bool
{
    let o = rec.last();
    let want = match u.op { UnaryOp::Neg => HulkType::Number, UnaryOp::Not => HulkType::Boolean };
    let op = match u.op { UnaryOp::Neg => "-"@, UnaryOp::Not => "!"@ };
    &&& single_operand(rec_start, errs_start, *u.operand, rec)
    &&& if o.ty is Never {
        t is Never && errs.len() == o.errors_after
    } else {
        &&& t == want
        &&& if accepts(h, o.ty, want, bound(h)) {
            errs.len() == o.errors_after
        } else {
            errs.len() == o.errors_after + 1 && operand_error(errs.last(), op, o.ty, u.span)
        }
    }
}

/// The name of a postfix operator in error messages.
pub open spec fn postfix_op_text(op: PostfixOp) -> Seq<char> {
    match op {
        PostfixOp::Increment => "Increment"@,
        PostfixOp::Decrement => "Decrement"@,
    }
}

/// What checking `x++` or `x--` did: a failed operand fails it; otherwise
/// it is a `Number`, and an operand that is not one adds an error.
pub open spec fn postfix_outcome(rec_start: nat, errs_start: nat, p: PostfixExpr, t: HulkType,
    rec: Seq<Checked>, errs: Seq<SemanticError>) -> bool
{
    let o = rec.last();
    &&& single_operand(rec_start, errs_start, *p.operand, rec)
    &&& if o.ty is Never {
        t is Never && errs.len() == o.errors_after
    } else if o.ty is Number {
        t is Number && errs.len() == o.errors_after
    } else {
        t is Number && errs.len() == o.errors_after + 1 && operand_error(errs.last(), postfix_op_text(p.op), o.ty, p.span)
    }
}

/// What checking `x is T` did: `x` was checked, the result is `Boolean`,
/// and a `T` that names no type or protocol adds an error.
pub open spec fn is_outcome(h: TypeHierarchy, rec_start: nat, errs_start: nat, inner: Expr, ty: TypeName, t: HulkType,
    rec: Seq<Checked>, errs: Seq<SemanticError>) -> bool
{
    let o = rec.last();
    let name = type_name_name(ty);
    &&& single_operand(rec_start, errs_start, inner, rec)
    &&& t is Boolean
    &&& if has_type_named(h.types@, name) || has_protocol_named(h.protocols@, name) {
        errs.len() == o.errors_after
    } else {
        &&& errs.len() == o.errors_after + 1
        &&& errs.last() matches SemanticError::UndefinedType { name: x, span: s }
        &&& x@ == name && s == type_name_span(ty)
    }
}

/// What checking `x as T` did: `x` was checked, the result is the type `T`
/// denotes, and a cast between types neither of which is accepted where the
/// other is expected adds an error.
pub open spec fn as_outcome(h: TypeHierarchy, rec_start: nat, errs_start: nat, inner: Expr, ty: TypeName, span: Span,
    t: HulkType, rec: Seq<Checked>, errs: Seq<SemanticError>) -> bool
{
    let o = rec.last();
    &&& single_operand(rec_start, errs_start, inner, rec)
    &&& denotes(h.protocols@, ty, t)
    &&& if o.ty is Never || t is Never || accepts(h, o.ty, t, bound(h)) || accepts(h, t, o.ty, bound(h)) {
        errs.len() == o.errors_after
    } else {
        &&& errs.len() == o.errors_after + 1
        &&& errs.last() matches SemanticError::InvalidCast { from: x, to: y, span: s }
        &&& x@ == type_text(o.ty) && y@ == type_text(t) && s == span
    }
}

/// What checking `o.f` did: `o` was checked; a failed object fails it, an
/// object of no declared type gives `Object`, and a declared type gives the
/// attribute found up its parents, or an error when there is none.
pub open spec fn access_outcome(h: TypeHierarchy, rec_start: nat, errs_start: nat, object: Expr, field: Seq<char>,
    span: Span, t: HulkType, rec: Seq<Checked>, errs: Seq<SemanticError>) -> bool
{
    let o = rec.last();
    &&& single_operand(rec_start, errs_start, object, rec)
    &&& match o.ty {
        HulkType::Never => t is Never && errs.len() == o.errors_after,
        HulkType::UserDefined(n) => match chain_attribute(h.types@, n@, field, bound(h)) {
            Some(a) => t == a && errs.len() == o.errors_after,
            None => {
                &&& t is Never
                &&& errs.len() == o.errors_after + 1
                &&& errs.last() matches SemanticError::AttributeNotFound { type_ident: x, attr: y, span: s }
                &&& x@ == n@ && y@ == field && s == span
            },
        },
        _ => t is Object && errs.len() == o.errors_after,
    }
}

/// What checking `c[i]` did: the collection was checked, then the index,
/// the last entry. An index that is not a `Number` adds an error; then a
/// vector gives its element type, a failed collection fails it, and any
/// other collection adds an error and fails it.
pub open spec fn index_outcome(rec_start: nat, errs_start: nat, ix: IndexExpr, t: HulkType,
    rec: Seq<Checked>, errs: Seq<SemanticError>) -> bool
{
    let i = rec.last();
    let c = rec[i.start - 1];
    let bad_index = !(i.ty is Number) && !(i.ty is Never);
    let n = i.errors_after + if bad_index { 1nat } else { 0nat };
    &&& rec.len() > rec_start
    &&& 1 <= i.start < rec.len()
    &&& i.expr == *ix.index && c.expr == *ix.collection
    &&& c.start == rec_start && c.errors_before == errs_start && i.errors_before == c.errors_after
    &&& bad_index ==> errs.len() > i.errors_after && mismatch_error(errs[i.errors_after as int], "Number"@, type_text(i.ty), ix.span)
    &&& match c.ty {
        HulkType::Vector(e) => t == *e && errs.len() == n,
        HulkType::Never => t is Never && errs.len() == n,
        _ => t is Never && errs.len() == n + 1 && mismatch_error(errs.last(), "Vector"@, type_text(c.ty), ix.span),
    }
}

/// What checking `while (c) b` did: the condition was checked, then the
/// body, the last entry; a condition that is not `Boolean` adds an error
/// between the two; the loop has the body's type.
pub open spec fn while_outcome(rec_start: nat, errs_start: nat, w: WhileExpr, t: HulkType,
    rec: Seq<Checked>, errs: Seq<SemanticError>) -> bool
{
    let b = rec.last();
    let c = rec[b.start - 1];
    let bad = !(c.ty is Boolean) && !(c.ty is Never);
    &&& rec.len() > rec_start
    &&& 1 <= b.start < rec.len()
    &&& b.expr == *w.body && c.expr == *w.condition
    &&& c.start == rec_start && c.errors_before == errs_start
    &&& b.errors_before == c.errors_after + if bad { 1nat } else { 0nat }
    &&& bad ==> errs.len() > c.errors_after && mismatch_error(errs[c.errors_after as int], "Boolean"@, type_text(c.ty), w.span)
    &&& t == b.ty && errs.len() == b.errors_after
}

/// The error for a value of type `found` where `expected` is required at
/// `span`: a protocol not met names its first missing or incompatible
/// method (a placeholder when none is found); otherwise a type mismatch.
pub open spec fn conform_error(h: TypeHierarchy, e: SemanticError, found: HulkType, expected: HulkType, span: Span) -> bool {
    match expected {
        HulkType::Protocol(p) => {
            &&& e matches SemanticError::ProtocolNotConformed { type_ident: x, protocol: y, missing: m, span: s }
            &&& x@ == type_text(found) && y@ == p@ && s == span
            &&& m@ == match first_violation(h, type_text(found), p@, bound(h)) {
                Some(n) => n,
                None => "<método desconocido>"@,
            }
        },
        _ => mismatch_error(e, type_text(expected), type_text(found), span),
    }
}

/// Each binding of a `let` had its value checked into the record from
/// position `rs` on, keeping that check's errors at the front of `errs`;
/// where the binding's annotation does not accept the value's type, the
/// error that reports it comes right after that check's errors.
pub open spec fn let_bindings_checked(h: TypeHierarchy, rs: int, bs: Seq<LetBinding>, rec: Seq<Checked>, errs: Seq<SemanticError>) -> bool {
    forall|k: int| 0 <= k < bs.len() ==> exists|j: int| rs <= j < rec.len()
        && (#[trigger] rec[j]).expr == *(#[trigger] bs[k]).value
        && extends_errors(rec[j].errs, errs)
        && (bs[k].type_ann matches Some(tn) ==> exists|x: HulkType| #[trigger] denotes(h.protocols@, tn, x)
            && (!accepts(h, rec[j].ty, x, bound(h)) ==> errs.len() > rec[j].errors_after
                && conform_error(h, errs[rec[j].errors_after as int], rec[j].ty, x, bs[k].span)))
}

/// A call whose callee is neither a name nor `base`: the callee was the
/// first expression checked, from record position `rs`, and the call is
/// `Never` when the callee is, `Object` otherwise.
pub open spec fn other_call_outcome(callee: Expr, rs: int, t: HulkType, rec: Seq<Checked>) -> bool {
    exists|j: int| rs <= j < rec.len() && (#[trigger] rec[j]).start == rs && rec[j].expr == callee
        && t == if rec[j].ty is Never { HulkType::Never } else { HulkType::Object }
}

/// An assignment whose target is a name other than `self`, a field or an
/// element.
pub open spec fn assignable(a: AssignExpr) -> bool {
    &&& !(a.target.kind matches ExprKind::Identifier { name } && name@ == "self"@)
    &&& (a.target.kind is Identifier || a.target.kind is Access || a.target.kind is Index)
}

/// What checking an assignment to a name, a field or an element (not
/// `self`) did: the target was checked, then the value, the last entry. The
/// assignment has the target's type. Unless one of them failed, a plain
/// assignment adds an error when the value is not accepted for the target,
/// and a compound one an error for each of target and value that is not a
/// `Number`.
pub open spec fn assign_checked(h: TypeHierarchy, rec_start: nat, errs_start: nat, a: AssignExpr, t: HulkType,
    rec: Seq<Checked>, errs: Seq<SemanticError>) -> bool
{
    let v = rec.last();
    let g = rec[v.start - 1];
    let bad_target = !(g.ty is Number);
    let bad_value = !(v.ty is Number);
    &&& rec.len() > rec_start
    &&& 1 <= v.start < rec.len()
    &&& v.expr == *a.value && g.expr == *a.target
    &&& g.start == rec_start && g.errors_before == errs_start && v.errors_before == g.errors_after
    &&& t == g.ty
    &&& if g.ty is Never || v.ty is Never {
        errs.len() == v.errors_after
    } else if a.op == AssignOp::Assign {
        if accepts(h, v.ty, g.ty, bound(h)) {
            errs.len() == v.errors_after
        } else {
            errs.len() == v.errors_after + 1 && conform_error(h, errs.last(), v.ty, g.ty, a.span)
        }
    } else {
        &&& errs.len() == v.errors_after + (if bad_target { 1nat } else { 0nat }) + (if bad_value { 1nat } else { 0nat })
        &&& bad_target ==> operand_error(errs[v.errors_after as int], assign_op_text(a.op), g.ty, a.span)
        &&& bad_value ==> operand_error(errs.last(), assign_op_text(a.op), v.ty, a.span)
    }
}

/// The entries left by checking the expressions `xs` one after another
/// with no error in between, the last of them at `idx`: each one's check
/// began right after the previous one's entry, the first's with `start`
/// entries and `errs` errors.
pub open spec fn chained(rec: Seq<Checked>, xs: Seq<Expr>, idx: int, start: nat, errs: nat) -> bool
    decreases xs.len(),
{
    if xs.len() == 0 {
        false
    } else {
        &&& 0 <= idx < rec.len()
        &&& rec[idx].expr == xs.last()
        &&& if xs.len() == 1 {
            rec[idx].start == start && rec[idx].errors_before == errs
        } else {
            &&& 1 <= rec[idx].start <= idx
            &&& rec[idx].errors_before == rec[rec[idx].start - 1].errors_after
            &&& chained(rec, xs.drop_last(), rec[idx].start - 1, start, errs)
        }
    }
}

/// The types found for the last `n` of a chain of entries ending at `idx`.
pub open spec fn chain_types(rec: Seq<Checked>, n: nat, idx: int) -> Seq<HulkType>
    decreases n,
{
    if n == 0 {
        Seq::empty()
    } else {
        chain_types(rec, (n - 1) as nat, rec[idx].start - 1).push(rec[idx].ty)
    }
}

/// The nearest common ancestor of a non-empty list of types, taken left to
/// right.
pub open spec fn common_of(h: TypeHierarchy, tys: Seq<HulkType>) -> HulkType
    decreases tys.len(),
{
    if tys.len() <= 1 {
        tys[0]
    } else {
        common_ancestor(h, common_of(h, tys.drop_last()), tys.last())
    }
}

/// A chain of entries stays where it is as the record grows.
pub proof fn lemma_chain_kept(rec: Seq<Checked>, rec2: Seq<Checked>, xs: Seq<Expr>, idx: int, start: nat, errs: nat)
    requires
        chained(rec, xs, idx, start, errs),
        extends_record(rec, rec2),
    ensures
        chained(rec2, xs, idx, start, errs),
        chain_types(rec2, xs.len(), idx) == chain_types(rec, xs.len(), idx),
    decreases xs.len(),
{
    assert(rec2[idx] == rec[idx]);
    if xs.len() > 1 {
        assert(rec2[rec[idx].start - 1] == rec[rec[idx].start - 1]);
        lemma_chain_kept(rec, rec2, xs.drop_last(), rec[idx].start - 1, start, errs);
        assert(xs.drop_last().len() == (xs.len() - 1) as nat);
    }
    assert(chain_types(rec2, xs.len(), idx) == chain_types(rec2, (xs.len() - 1) as nat, rec[idx].start - 1).push(rec[idx].ty));
    assert(chain_types(rec, xs.len(), idx) == chain_types(rec, (xs.len() - 1) as nat, rec[idx].start - 1).push(rec[idx].ty));
    if xs.len() == 1 {
        assert(chain_types(rec2, 0, rec[idx].start - 1) == chain_types(rec, 0, rec[idx].start - 1));
    }
}

/// What checking a non-empty vector literal did: its elements were
/// checked in turn with no error in between or after, and it is a vector of
/// the nearest common ancestor of their types.
pub open spec fn elements_outcome(h: TypeHierarchy, rec_start: nat, errs_start: nat, elements: Seq<Expr>, t: HulkType,
    rec: Seq<Checked>, errs: Seq<SemanticError>) -> bool
{
    &&& rec.len() > 0
    &&& chained(rec, elements, rec.len() - 1, rec_start, errs_start)
    &&& t == HulkType::Vector(Box::new(common_of(h, chain_types(rec, elements.len(), rec.len() - 1))))
    &&& errs.len() == rec.last().errors_after
}

/// The error for an argument of type `found` where `expected` is required:
/// with `via_protocol`, a protocol not met is reported as such; otherwise a
/// plain type mismatch.
pub open spec fn arg_error(h: TypeHierarchy, e: SemanticError, found: HulkType, expected: HulkType, span: Span, via_protocol: bool) -> bool {
    if via_protocol {
        conform_error(h, e, found, expected, span)
    } else {
        mismatch_error(e, type_text(expected), type_text(found), span)
    }
}

/// How many errors there are once an argument recorded as `a` has been
/// checked against the parameter type `p`: one more when it is not accepted.
pub open spec fn settled(h: TypeHierarchy, a: Checked, p: HulkType) -> nat {
    a.errors_after + if accepts(h, a.ty, p, bound(h)) { 0nat } else { 1nat }
}

/// The entries and errors left by checking the arguments `args` one after
/// another against the parameter types `params`, the last entry at `idx`:
/// each argument not accepted for its parameter is followed by one error.
pub open spec fn args_checked(h: TypeHierarchy, rec: Seq<Checked>, args: Seq<Expr>, params: Seq<HulkType>, idx: int,
    start: nat, errs_start: nat, span: Span, errs: Seq<SemanticError>, via_protocol: bool) -> bool
    decreases args.len(),
{
    if args.len() == 0 || args.len() != params.len() {
        false
    } else {
        let a = rec[idx];
        &&& 0 <= idx < rec.len()
        &&& a.expr == args.last()
        &&& !accepts(h, a.ty, params.last(), bound(h))
                ==> errs.len() > a.errors_after && arg_error(h, errs[a.errors_after as int], a.ty, params.last(), span, via_protocol)
        &&& if args.len() == 1 {
            a.start == start && a.errors_before == errs_start
        } else {
            &&& 1 <= a.start <= idx
            &&& a.errors_before == settled(h, rec[a.start - 1], params[args.len() - 2])
            &&& args_checked(h, rec, args.drop_last(), params.drop_last(), a.start - 1, start, errs_start, span, errs, via_protocol)
        }
    }
}

/// What checking the arguments of a call against the parameter types did,
/// from `start` entries and `errs_start` errors: a count that differs adds
/// an error first and then only checks the arguments; otherwise each
/// argument is checked against its parameter.
pub open spec fn args_outcome(h: TypeHierarchy, start: nat, errs_start: nat, name: Seq<char>, args: Seq<Expr>,
    params: Seq<HulkType>, span: Span, rec: Seq<Checked>, errs: Seq<SemanticError>, via_protocol: bool) -> bool
{
    if args.len() != params.len() {
        &&& errs.len() > errs_start
        &&& errs[errs_start as int] matches SemanticError::WrongArgCount { name: x, expected: e, found: f, span: s }
        &&& x@ == name && e == params.len() && f == args.len() && s == span
        &&& if args.len() == 0 {
            rec.len() == start && errs.len() == errs_start + 1
        } else {
            rec.len() > 0 && chained(rec, args, rec.len() - 1, start, errs_start + 1) && errs.len() == rec.last().errors_after
        }
    } else if args.len() == 0 {
        rec.len() == start && errs.len() == errs_start
    } else {
        &&& rec.len() > 0
        &&& args_checked(h, rec, args, params, rec.len() - 1, start, errs_start, span, errs, via_protocol)
        &&& errs.len() == settled(h, rec.last(), params.last())
    }
}

/// The arguments of a call or a method call.
pub open spec fn call_args(e: Expr) -> Option<Seq<Expr>> {
    match e.kind {
        ExprKind::Call(c) => Some(c.args@),
        ExprKind::MethodCall(m) => Some(m.args@),
        _ => None,
    }
}

/// Checked arguments stay where they are as the record and the errors grow.
pub proof fn lemma_args_kept(h: TypeHierarchy, rec: Seq<Checked>, rec2: Seq<Checked>, args: Seq<Expr>, params: Seq<HulkType>,
    idx: int, start: nat, errs_start: nat, span: Span, errs: Seq<SemanticError>, errs2: Seq<SemanticError>, via_protocol: bool)
    requires
        args_checked(h, rec, args, params, idx, start, errs_start, span, errs, via_protocol),
        extends_record(rec, rec2),
        extends_errors(errs, errs2),
    ensures
        args_checked(h, rec2, args, params, idx, start, errs_start, span, errs2, via_protocol),
    decreases args.len(),
{
    assert(rec2[idx] == rec[idx]);
    if !accepts(h, rec[idx].ty, params.last(), bound(h)) {
        assert(errs2[rec[idx].errors_after as int] == errs[rec[idx].errors_after as int]);
    }
    if args.len() > 1 {
        assert(rec2[rec[idx].start - 1] == rec[rec[idx].start - 1]);
        lemma_args_kept(h, rec, rec2, args.drop_last(), params.drop_last(), rec[idx].start - 1, start, errs_start, span, errs, errs2, via_protocol);
    }
}

/// What checking a block, a `let`, a `for` or a generator ends with: the
/// part `last` is checked last, gives the result's type (`wrap` puts it in a
/// vector, for a generator), and no error comes after it.
pub open spec fn ends_with(last: Expr, t: HulkType, wrap: bool, rec: Seq<Checked>, errs: Seq<SemanticError>) -> bool {
    &&& rec.len() > 0
    &&& rec.last().expr == last
    &&& t == if wrap { HulkType::Vector(Box::new(rec.last().ty)) } else { rec.last().ty }
    &&& errs.len() == rec.last().errors_after
}

/// What checking `if (c) a else b` (without `elif`) did: the condition,
/// the `then` branch and the `else` branch were checked in turn, the last
/// being the last entry; a condition that is not `Boolean` adds an error
/// before the branches; the result is the nearest common ancestor of the
/// branches' types.
pub open spec fn if_outcome(h: TypeHierarchy, rec_start: nat, errs_start: nat, c_expr: Expr, then_expr: Expr,
    else_expr: Expr, span: Span, t: HulkType, rec: Seq<Checked>, errs: Seq<SemanticError>) -> bool
{
    let e = rec.last();
    let th = rec[e.start - 1];
    let c = rec[th.start - 1];
    let bad = !(c.ty is Boolean) && !(c.ty is Never);
    &&& rec.len() > rec_start
    &&& 1 <= e.start < rec.len()
    &&& 1 <= th.start < e.start
    &&& e.expr == else_expr && th.expr == then_expr && c.expr == c_expr
    &&& c.start == rec_start && c.errors_before == errs_start
    &&& th.errors_before == c.errors_after + if bad { 1nat } else { 0nat }
    &&& bad ==> errs.len() > c.errors_after && mismatch_error(errs[c.errors_after as int], "Boolean"@, type_text(c.ty), span)
    &&& e.errors_before == th.errors_after
    &&& errs.len() == e.errors_after
    &&& t == common_ancestor(h, th.ty, e.ty)
}

/// The nearest common ancestor of the types recorded at the positions `js`,
/// taken in order: the first with the second, that with the third, and so
/// on.
pub open spec fn branch_lca(h: TypeHierarchy, rec: Seq<Checked>, js: Seq<int>) -> HulkType
    decreases js.len(),
{
    if js.len() <= 1 {
        rec[js[0]].ty
    } else {
        common_ancestor(h, branch_lca(h, rec, js.drop_last()), rec[js.last()].ty)
    }
}

/// When every branch failed (`Never`), the `if` fails too.
pub proof fn law_if_all_branches_failed(h: TypeHierarchy, rec: Seq<Checked>, js: Seq<int>)
    requires
        js.len() >= 1,
        forall|b: int| 0 <= b < js.len() ==> rec[#[trigger] js[b]].ty is Never,
    ensures
        branch_lca(h, rec, js) is Never,
    decreases js.len(),
{
    if js.len() > 1 {
        let d = js.drop_last();
        assert forall|b: int| 0 <= b < d.len() implies rec[#[trigger] d[b]].ty is Never by {
            assert(d[b] == js[b]);
        }
        law_if_all_branches_failed(h, rec, d);
        assert(rec[js[js.len() - 1]].ty is Never);
    } else {
        assert(rec[js[0]].ty is Never);
    }
}

/// Every branch of an `if` takes part in its type: when all branches but
/// one failed (`Never`), the `if` has the type of that one, wherever it
/// stands among the then branch, the `elif` bodies and the else branch.
pub proof fn law_if_single_live_branch(h: TypeHierarchy, rec: Seq<Checked>, js: Seq<int>, a: int)
    requires
        0 <= a < js.len(),
        forall|b: int| 0 <= b < js.len() && b != a ==> rec[#[trigger] js[b]].ty is Never,
    ensures
        branch_lca(h, rec, js) == rec[js[a]].ty,
    decreases js.len(),
{
    if js.len() > 1 {
        let d = js.drop_last();
        if a == js.len() - 1 {
            assert forall|b: int| 0 <= b < d.len() implies rec[#[trigger] d[b]].ty is Never by {
                assert(d[b] == js[b]);
            }
            law_if_all_branches_failed(h, rec, d);
        } else {
            assert forall|b: int| 0 <= b < d.len() && b != a implies rec[#[trigger] d[b]].ty is Never by {
                assert(d[b] == js[b]);
            }
            law_if_single_live_branch(h, rec, d, a);
            assert(d[a] == js[a]);
            assert(rec[js[js.len() - 1]].ty is Never);
        }
    }
}

/// The positions `js` of the record, in increasing order from `rs` on, hold
/// the checks of an `if`'s branches: the then branch, each `elif` body in
/// order, and the else branch.
pub open spec fn branches_at(rec: Seq<Checked>, rs: int, i: IfExpr, js: Seq<int>) -> bool {
    &&& js.len() == i.elif_chain@.len() + 2
    &&& forall|a: int, b: int| 0 <= a < b < js.len() ==> js[a] < js[b]
    &&& rs <= js[0]
    &&& js.last() < rec.len()
    &&& rec[js[0]].expr == *i.then_body
    &&& forall|k: int| 0 <= k < i.elif_chain@.len() ==> rec[js[k + 1]].expr == *(#[trigger] i.elif_chain@[k]).body
    &&& rec[js.last()].expr == *i.else_body
}

/// An `if` has the nearest common ancestor of the types of all its
/// branches (then, every `elif`, else), taken in order.
pub open spec fn if_branches_typed(h: TypeHierarchy, rs: int, i: IfExpr, t: HulkType, rec: Seq<Checked>) -> bool {
    exists|js: Seq<int>| #[trigger] branches_at(rec, rs, i, js) && t == branch_lca(h, rec, js)
}

/// The common ancestor over recorded positions stays when the record grows.
proof fn lemma_branch_lca_kept(h: TypeHierarchy, rec1: Seq<Checked>, rec2: Seq<Checked>, js: Seq<int>)
    requires
        extends_record(rec1, rec2),
        forall|a: int| 0 <= a < js.len() ==> 0 <= #[trigger] js[a] < rec1.len(),
    ensures
        js.len() >= 1 ==> branch_lca(h, rec2, js) == branch_lca(h, rec1, js),
    decreases js.len(),
{
    if js.len() > 1 {
        let d = js.drop_last();
        assert forall|a: int| 0 <= a < d.len() implies 0 <= #[trigger] d[a] < rec1.len() by {
            assert(d[a] == js[a]);
        }
        lemma_branch_lca_kept(h, rec1, rec2, d);
        assert(rec2[js.last()] == rec1[js.last()]);
    } else if js.len() == 1 {
        assert(rec2[js[0]] == rec1[js[0]]);
    }
}

/// Whether a `for` can walk a value of type `it`: a vector, a range, a
/// failed expression, or a declared type that meets `Iterable`.
pub open spec fn walkable(h: TypeHierarchy, it: HulkType) -> bool {
    match it {
        HulkType::Vector(_) => true,
        HulkType::Never => true,
        HulkType::UserDefined(n) => n@ == "Range"@ || meets_protocol(h, n@, "Iterable"@, bound(h)),
        _ => false,
    }
}

/// What checking `for (x in it) b` did: the iterable was checked, then the
/// body, the last entry; an iterable that cannot be walked adds an error
/// between the two; the loop has the body's type.
pub open spec fn for_outcome(h: TypeHierarchy, rec_start: nat, errs_start: nat, iterable: Expr, body: Expr, span: Span,
    t: HulkType, rec: Seq<Checked>, errs: Seq<SemanticError>) -> bool
{
    let b = rec.last();
    let i = rec[b.start - 1];
    let bad = !walkable(h, i.ty);
    &&& rec.len() > rec_start
    &&& 1 <= b.start < rec.len()
    &&& b.expr == body && i.expr == iterable
    &&& i.start == rec_start && i.errors_before == errs_start
    &&& b.errors_before == i.errors_after + if bad { 1nat } else { 0nat }
    &&& bad ==> errs.len() > i.errors_after && mismatch_error(errs[i.errors_after as int], "Iterable"@, type_text(i.ty), span)
    &&& t == b.ty && errs.len() == b.errors_after
}

/// The name under which methods of a value of type `ty` are looked up, and
/// whether it is a protocol: a declared type or protocol by its name, a
/// primitive by its built-in type's name; other types have no methods.
pub open spec fn method_owner(ty: HulkType) -> Option<(Seq<char>, bool)> {
    match ty {
        HulkType::UserDefined(n) => Some((n@, false)),
        HulkType::Protocol(p) => Some((p@, true)),
        HulkType::Number => Some(("Number"@, false)),
        HulkType::StringT => Some(("String"@, false)),
        HulkType::Boolean => Some(("Boolean"@, false)),
        _ => None,
    }
}

/// What checking `o.m(args)` decided from the object's type, the object
/// being the entry `o` of the record: a failed object fails the call
/// without checking the arguments; an `Object` gives `Object`; a type
/// with methods gives the return type of `m` looked up in it (through its
/// parents, or the protocols it extends), or, when there is no such method,
/// an error naming the type and no argument is checked; any other type
/// has no methods.
pub open spec fn method_call_outcome(h: TypeHierarchy, method: Seq<char>, span: Span, o: Checked, t: HulkType,
    rec_len: nat, errs: Seq<SemanticError>) -> bool
{
    if o.ty is Never {
        t is Never && errs.len() == o.errors_after
    } else if o.ty is Object {
        t is Object
    } else {
        match method_owner(o.ty) {
            Some((n, is_protocol)) => {
                let found = if is_protocol {
                    protocol_chain_method(h.protocols@, n, method, bound(h))
                } else {
                    chain_method(h.types@, n, method, bound(h))
                };
                match found {
                    Some(sig) => t == sig.return_type,
                    None => {
                        &&& t is Never
                        &&& errs.len() == o.errors_after + 1
                        &&& errs.last() matches SemanticError::MethodNotFound { type_ident: x, method: y, span: s }
                        &&& x@ == (if is_protocol { "protocol "@ + n } else { n }) && y@ == method && s == span
                    },
                }
            },
            None => {
                &&& t is Never
                &&& errs.len() == o.errors_after + 1
                &&& errs.last() matches SemanticError::MethodNotFound { type_ident: x, method: y, span: s }
                &&& x@ == type_text(o.ty) && y@ == method && s == span
            },
        }
    }
}

/// What checking the arguments of `o.m(args)` did, the object being entry
/// `j` of the record: none are checked when the object failed or the method
/// is missing; for an `Object` they are only checked; for a method found
/// they are checked against its parameter types.
pub open spec fn method_args_outcome(h: TypeHierarchy, method: Seq<char>, span: Span, args: Seq<Expr>,
    rec: Seq<Checked>, j: int, errs: Seq<SemanticError>) -> bool
{
    let o = rec[j];
    if o.ty is Never {
        rec.len() == j + 1
    } else if o.ty is Object {
        if args.len() == 0 {
            rec.len() == j + 1 && errs.len() == o.errors_after
        } else {
            rec.len() > 0 && chained(rec, args, rec.len() - 1, (j + 1) as nat, o.errors_after)
                && errs.len() == rec.last().errors_after
        }
    } else {
        match method_owner(o.ty) {
            Some((n, is_protocol)) => {
                let found = if is_protocol {
                    protocol_chain_method(h.protocols@, n, method, bound(h))
                } else {
                    chain_method(h.types@, n, method, bound(h))
                };
                match found {
                    Some(sig) => args_outcome(h, (j + 1) as nat, o.errors_after, method, args,
                        sig.params@.map_values(|p: (String, HulkType)| p.1), span, rec, errs, true),
                    None => rec.len() == j + 1,
                }
            },
            None => rec.len() == j + 1,
        }
    }
}

/// Some parameter type is still open to refinement by a call: `Unknown` or
/// `Object`.
pub open spec fn open_params(ps: Seq<HulkType>) -> bool {
    exists|i: int| 0 <= i < ps.len() && (ps[i] is Unknown || ps[i] is Object)
}

/// What checking the arguments of a call `name(args)` to a function whose
/// parameters are all settled did: they are checked against the parameter
/// types recorded for the function (those of its symbol when it has no
/// record).
pub open spec fn named_call_args(before: TypeChecker, name: Seq<char>, args: Seq<Expr>, span: Span,
    rec: Seq<Checked>, errs: Seq<SemanticError>) -> bool
{
    match resolve(before.scope_view(), name) {
        Some(sym) => match sym.kind {
            SymbolKind::Function { params, .. } => !open_params(params@) ==> args_outcome(before.hierarchy(),
                before.record().len(), before.found().len(), name, args,
                match first_named(before.function_table(), name) {
                    Some(k) => before.function_table()[k].1.params@.map_values(|p: (String, HulkType)| p.1),
                    None => params@,
                }, span, rec, errs, true),
            _ => true,
        },
        None => true,
    }
}

/// What `new T(..)` decides before its arguments are checked: an unknown
/// `T` is an undefined type and a primitive cannot be built; otherwise the
/// value has type `T`.
pub open spec fn new_outcome(before: TypeChecker, ty: TypeName, span: Span, t: HulkType, after: TypeChecker) -> bool {
    let name = type_name_name(ty);
    match first_type(before.hierarchy().types@, name) {
        None => {
            &&& t is Never
            &&& one_more(before.found(), after.found())
            &&& after.found().last() matches SemanticError::UndefinedType { name: x, span: s }
            &&& x@ == name && s == span
        },
        Some(i) => if before.hierarchy().types@[i].is_builtin && primitive_name(name) {
            &&& t is Never
            &&& one_more(before.found(), after.found())
            &&& after.found().last() matches SemanticError::InheritFromPrimitive { type_ident: x, span: s }
            &&& x@ == name && s == span
        } else {
            t matches HulkType::UserDefined(x) && x@ == name
        },
    }
}

/// What checking the arguments of `new T(args)` did, for a declared,
/// non-primitive `T`: they are checked against the types of `T`'s
/// constructor parameters.
pub open spec fn new_args_outcome(before: TypeChecker, ty: TypeName, args: Seq<Expr>, span: Span,
    rec: Seq<Checked>, errs: Seq<SemanticError>) -> bool
{
    let name = type_name_name(ty);
    match first_type(before.hierarchy().types@, name) {
        Some(i) => !(before.hierarchy().types@[i].is_builtin && primitive_name(name)) ==> args_outcome(before.hierarchy(),
            before.record().len(), before.found().len(), name, args,
            before.hierarchy().types@[i].constructor_params@.map_values(|p: (String, HulkType)| p.1), span, rec, errs, false),
        None => true,
    }
}

/// What a call `name(..)` decides by the name alone: an unbound name is an
/// undefined function, a variable or protocol cannot be called, and a
/// type's name builds a value of that type.
pub open spec fn named_call_outcome(before: TypeChecker, name: Seq<char>, call_span: Span, callee_span: Span, t: HulkType, after: Seq<SemanticError>) -> bool {
    match resolve(before.scope_view(), name) {
        None => {
            &&& t is Never
            &&& one_more(before.found(), after)
            &&& after.last() matches SemanticError::UndefinedFunction { name: x, span: s }
            &&& x@ == name && s == callee_span
        },
        Some(sym) => match sym.kind {
            SymbolKind::Variable { .. } | SymbolKind::Protocol => {
                t is Never && after == before.found().push(SemanticError::NotCallable { span: call_span })
            },
            SymbolKind::Type => t matches HulkType::UserDefined(x) && x@ == name,
            SymbolKind::Function { return_type, .. } => t == match first_named(before.function_table(), name) {
                Some(k) => before.function_table()[k].1.return_type,
                None => return_type,
            },
        },
    }
}

/// The Debug name of a postfix operator.
fn postfix_op_name(op: PostfixOp) -> (s: &'static str)
    ensures
        s@ == postfix_op_text(op),
{
    match op {
        PostfixOp::Increment => "Increment",
        PostfixOp::Decrement => "Decrement",
    }
}

/// The name of a binary operator in error messages.
pub open spec fn binary_op_text(op: BinaryOp) -> Seq<char> {
    match op {
        BinaryOp::Add => "Add"@,
        BinaryOp::Sub => "Sub"@,
        BinaryOp::Mul => "Mul"@,
        BinaryOp::Div => "Div"@,
        BinaryOp::Mod => "Mod"@,
        BinaryOp::Power => "Power"@,
        BinaryOp::Eq => "Eq"@,
        BinaryOp::NotEq => "NotEq"@,
        BinaryOp::Less => "Less"@,
        BinaryOp::Greater => "Greater"@,
        BinaryOp::LessEq => "LessEq"@,
        BinaryOp::GreaterEq => "GreaterEq"@,
        BinaryOp::And => "And"@,
        BinaryOp::Or => "Or"@,
        BinaryOp::Concat => "Concat"@,
        BinaryOp::DoubleConcat => "DoubleConcat"@,
    }
}

/// The Debug name of a binary operator.
fn binary_op_name(op: BinaryOp) -> (s: &'static str)
    ensures
        s@ == binary_op_text(op),
{
    match op {
        BinaryOp::Add => "Add",
        BinaryOp::Sub => "Sub",
        BinaryOp::Mul => "Mul",
        BinaryOp::Div => "Div",
        BinaryOp::Mod => "Mod",
        BinaryOp::Power => "Power",
        BinaryOp::Eq => "Eq",
        BinaryOp::NotEq => "NotEq",
        BinaryOp::Less => "Less",
        BinaryOp::Greater => "Greater",
        BinaryOp::LessEq => "LessEq",
        BinaryOp::GreaterEq => "GreaterEq",
        BinaryOp::And => "And",
        BinaryOp::Or => "Or",
        BinaryOp::Concat => "Concat",
        BinaryOp::DoubleConcat => "DoubleConcat",
    }
}

/// The name of an assignment operator in error messages.
pub open spec fn assign_op_text(op: AssignOp) -> Seq<char> {
    match op {
        AssignOp::Assign => "Assign"@,
        AssignOp::PlusAssign => "PlusAssign"@,
        AssignOp::MinusAssign => "MinusAssign"@,
        AssignOp::MulAssign => "MulAssign"@,
        AssignOp::DivAssign => "DivAssign"@,
        AssignOp::ModAssign => "ModAssign"@,
    }
}

/// The Debug name of an assignment operator.
fn assign_op_name(op: AssignOp) -> (s: &'static str)
    ensures
        s@ == assign_op_text(op),
{
    match op {
        AssignOp::Assign => "Assign",
        AssignOp::PlusAssign => "PlusAssign",
        AssignOp::MinusAssign => "MinusAssign",
        AssignOp::MulAssign => "MulAssign",
        AssignOp::DivAssign => "DivAssign",
        AssignOp::ModAssign => "ModAssign",
    }
}

/// The names the checker starts with: the built-in functions and constants.
pub open spec fn builtin_name(n: Seq<char>) -> bool {
    ||| n == "print"@
    ||| n == "sqrt"@
    ||| n == "sin"@
    ||| n == "cos"@
    ||| n == "exp"@
    ||| n == "log"@
    ||| n == "rand"@
    ||| n == "range"@
    ||| n == "len"@
    ||| n == "PI"@
    ||| n == "E"@
    ||| n == "true"@
    ||| n == "false"@
}

/// The kind a built-in name is bound to: the built-in functions with their
/// parameter and return types, and the constants `PI`, `E`, `true`, `false`.
pub open spec fn builtin_kind(n: Seq<char>, k: SymbolKind) -> bool {
    ||| n == "print"@ && (k matches SymbolKind::Function { params, return_type }
            && params@ == seq![HulkType::Object] && return_type is Null)
    ||| (n == "sqrt"@ || n == "sin"@ || n == "cos"@ || n == "exp"@) && (k matches SymbolKind::Function { params, return_type }
            && params@ == seq![HulkType::Number] && return_type is Number)
    ||| n == "log"@ && (k matches SymbolKind::Function { params, return_type }
            && params@ == seq![HulkType::Number, HulkType::Number] && return_type is Number)
    ||| n == "rand"@ && (k matches SymbolKind::Function { params, return_type } && params@.len() == 0 && return_type is Number)
    ||| n == "len"@ && (k matches SymbolKind::Function { params, return_type }
            && params@ == seq![HulkType::Object] && return_type is Number)
    ||| n == "range"@ && (k matches SymbolKind::Function { params, return_type }
            && params@ == seq![HulkType::Number, HulkType::Number]
            && (return_type matches HulkType::UserDefined(r) && r@ == "Range"@))
    ||| (n == "PI"@ || n == "E"@) && k == (SymbolKind::Variable { ty: HulkType::Number, mutable: false })
    ||| (n == "true"@ || n == "false"@) && k == (SymbolKind::Variable { ty: HulkType::Boolean, mutable: false })
}

/// The scopes `after` are `before` with `name` bound to a symbol of kind
/// `kind` at the end of the innermost scope, unless that scope already
/// bound it, in which case nothing changed.
#[verifier::opaque]
pub open spec fn binds_new(before: Seq<Seq<(String, Symbol)>>, after: Seq<Seq<(String, Symbol)>>, name: Seq<char>, kind: SymbolKind) -> bool {
    if scope_has(before.last(), name) {
        after == before
    } else {
        &&& after.len() == before.len()
        &&& after.drop_last() == before.drop_last()
        &&& after.last().len() == before.last().len() + 1
        &&& after.last().drop_last() == before.last()
        &&& after.last().last().0@ == name
        &&& after.last().last().1.name@ == name
        &&& after.last().last().1.kind == kind
    }
}

/// The scope `cur` is `scope0` followed by bindings of built-in names to
/// their built-in kinds.
#[verifier::opaque]
pub open spec fn builtins_after(scope0: Seq<(String, Symbol)>, cur: Seq<(String, Symbol)>) -> bool {
    &&& scope0.len() <= cur.len()
    &&& cur.take(scope0.len() as int) == scope0
    &&& forall|i: int| scope0.len() <= i < cur.len() ==> builtin_kind(#[trigger] cur[i].0@, cur[i].1.kind)
}

/// Binding a built-in name to its kind keeps a scope made of built-in
/// bindings after `scope0`.
proof fn lemma_binds_builtin(scope0: Seq<(String, Symbol)>, before: Seq<Seq<(String, Symbol)>>,
    after: Seq<Seq<(String, Symbol)>>, name: Seq<char>, kind: SymbolKind, names: Seq<Seq<char>>)
    requires
        before.len() >= 1,
        builtins_after(scope0, before.last()),
        forall|i: int| 0 <= i < names.len() ==> scope_has(before.last(), #[trigger] names[i]),
        binds_new(before, after, name, kind),
        !scope_has(before.last(), name) ==> builtin_kind(name, kind),
    ensures
        after.len() == before.len(),
        builtins_after(scope0, after.last()),
        forall|i: int| 0 <= i < names.len() + 1 ==> scope_has(after.last(), #[trigger] names.push(name)[i]),
{
    reveal(binds_new);
    reveal(builtins_after);
    if !scope_has(before.last(), name) {
        let b = before.last();
        let a = after.last();
        assert(a =~= b.push(a.last()));
        assert(a.take(scope0.len() as int) =~= b.take(scope0.len() as int));
        assert(a[b.len() as int].0@ == name);
        assert forall|n: Seq<char>| #[trigger] scope_has(b, n) implies scope_has(a, n) by {
            let i = choose|i: int| 0 <= i < b.len() && b[i].0@ == n;
            assert(a[i] == b[i]);
        }
    }
    assert forall|i: int| 0 <= i < names.len() + 1 implies scope_has(after.last(), #[trigger] names.push(name)[i]) by {
        if i < names.len() {
            assert(names.push(name)[i] == names[i]);
        }
    }
}

/// A scope made of `scope0` and built-in bindings that has every built-in
/// name binds no other new name.
proof fn lemma_builtins_registered(scope0: Seq<(String, Symbol)>, fin: Seq<(String, Symbol)>, names: Seq<Seq<char>>)
    requires
        builtins_after(scope0, fin),
        names == seq!["print"@, "sqrt"@, "sin"@, "cos"@, "exp"@, "log"@, "rand"@, "range"@, "len"@, "PI"@, "E"@, "true"@, "false"@],
        forall|i: int| 0 <= i < names.len() ==> scope_has(fin, #[trigger] names[i]),
    ensures
        forall|n: Seq<char>| #[trigger] scope_has(fin, n) ==> scope_has(scope0, n) || builtin_name(n),
        forall|n: Seq<char>| builtin_name(n) ==> #[trigger] scope_has(fin, n),
{
    reveal(builtins_after);
    assert forall|n: Seq<char>| #[trigger] scope_has(fin, n) implies scope_has(scope0, n) || builtin_name(n) by {
        let i = choose|i: int| 0 <= i < fin.len() && fin[i].0@ == n;
        if i < scope0.len() {
            assert(fin.take(scope0.len() as int)[i] == scope0[i]);
        } else {
            assert(builtin_kind(fin[i].0@, fin[i].1.kind));
        }
    }
    assert forall|n: Seq<char>| builtin_name(n) implies #[trigger] scope_has(fin, n) by {
        if n == "print"@ { assert(names[0] == n); } else if n == "sqrt"@ { assert(names[1] == n); } else if n == "sin"@ { assert(names[2] == n); } else if n == "cos"@ { assert(names[3] == n); } else if n == "exp"@ { assert(names[4] == n); } else if n == "log"@ { assert(names[5] == n); } else if n == "rand"@ { assert(names[6] == n); } else if n == "range"@ { assert(names[7] == n); } else if n == "len"@ { assert(names[8] == n); } else if n == "PI"@ { assert(names[9] == n); } else if n == "E"@ { assert(names[10] == n); } else if n == "true"@ { assert(names[11] == n); } else if n == "false"@ { assert(names[12] == n); }
    }
}

/// The innermost scope `after` is `before` followed by variable bindings of
/// the parameters' names, and binds every parameter name.
pub open spec fn params_defined(before: Seq<(String, Symbol)>, after: Seq<(String, Symbol)>, params: Seq<Param>) -> bool {
    &&& before.len() <= after.len()
    &&& after.take(before.len() as int) == before
    &&& forall|i: int| before.len() <= i < after.len() ==> (#[trigger] after[i]).1.kind is Variable
            && exists|k: int| 0 <= k < params.len() && after[i].0@ == (#[trigger] params[k]).name@
    &&& forall|k: int| 0 <= k < params.len() ==> scope_has(after, (#[trigger] params[k]).name@)
}

/// What a declared result leaves once the body recorded as `body` has been
/// checked: with an annotation, one type mismatch at `span` when the body's
/// type is not accepted for the annotated type; otherwise nothing more.
pub open spec fn declared_result(h: TypeHierarchy, ann: Option<TypeName>, span: Span, body: Checked, errs: Seq<SemanticError>) -> bool {
    match ann {
        Some(tn) => exists|x: HulkType| #[trigger] denotes(h.protocols@, tn, x) && if accepts(h, body.ty, x, bound(h)) {
            errs.len() == body.errors_after
        } else {
            errs.len() == body.errors_after + 1 && mismatch_error(errs.last(), type_text(x), type_text(body.ty), span)
        },
        None => errs.len() == body.errors_after,
    }
}

/// Whether a method with signature `sig` fails to override one with
/// `parent`: another number of parameters, a parameter whose type differs
/// where both are known, or a known return type not accepted for the
/// parent's known one.
pub open spec fn override_refused(h: TypeHierarchy, sig: FuncSignature, parent: FuncSignature) -> bool {
    ||| sig.params@.len() != parent.params@.len()
    ||| exists|k: int| 0 <= k < sig.params@.len() && !((#[trigger] sig.params@[k]).1 is Unknown)
            && !(parent.params@[k].1 is Unknown) && !ty_eq(sig.params@[k].1, parent.params@[k].1)
    ||| !(sig.return_type is Unknown) && !(parent.return_type is Unknown)
            && !accepts(h, sig.return_type, parent.return_type, bound(h))
}

/// What a call through `base` did: outside a method, or in a type without
/// a parent, `base` is an undefined name; otherwise the arguments are
/// checked against the parent's method of the same name (its return type
/// is the call's) or, when the parent has none, against the parent's
/// constructor (the call is `Null`).
pub open spec fn base_call_outcome(before: TypeChecker, args: Seq<Expr>, call_span: Span, callee_span: Span, t: HulkType,
    rec: Seq<Checked>, errs: Seq<SemanticError>) -> bool
{
    let h = before.hierarchy();
    let rs = before.record().len();
    let es = before.found().len();
    let undefined = {
        &&& t is Never
        &&& rec == before.record()
        &&& one_more(before.found(), errs)
        &&& errs.last() matches SemanticError::UndefinedVariable { name: x, span: s }
        &&& x@ == "base"@ && s == callee_span
    };
    match (before.current_type_name(), before.current_method()) {
        (Some(tn), Some(mn)) => match (match first_type(h.types@, tn@) { Some(i) => h.types@[i].parent, None => None }) {
            None => undefined,
            Some(p) => match chain_method(h.types@, p@, mn@, h.spec_chain_bound() as nat) {
                None => t is Null && args_outcome(h, rs, es, p@, args, match first_type(h.types@, p@) {
                        Some(j) => h.types@[j].constructor_params@.map_values(|c: (String, HulkType)| c.1),
                        None => Seq::empty(),
                    }, call_span, rec, errs, true),
                Some(sig) => t == sig.return_type && args_outcome(h, rs, es, mn@, args,
                    sig.params@.map_values(|c: (String, HulkType)| c.1), call_span, rec, errs, true),
            },
        },
        _ => undefined,
    }
}

/// A type that settles an open parameter: anything but `Unknown`,
/// `Object` and a failed check.
pub open spec fn concrete(t: HulkType) -> bool {
    !(t is Unknown || t is Object || t is Never)
}

/// What checking the arguments of a call before refining the callee's open
/// parameters did: the arguments were checked in turn, with no other error.
pub open spec fn args_rechecked(start: nat, errs_start: nat, args: Seq<Expr>, rec: Seq<Checked>, errs: Seq<SemanticError>) -> bool {
    if args.len() == 0 {
        rec.len() == start && errs.len() == errs_start
    } else {
        &&& rec.len() > 0
        &&& chained(rec, args, rec.len() - 1, start, errs_start)
        &&& errs.len() == rec.last().errors_after
    }
}

/// Declaration `k` is a function whose name no earlier function declaration has.
pub open spec fn first_function_named(decls: Seq<Decl>, k: int) -> bool {
    &&& decls[k] is Function
    &&& forall|k2: int| 0 <= k2 < k && (#[trigger] decls[k2]) is Function
        ==> decls[k2]->Function_0.name@ != decls[k]->Function_0.name@
}

/// What checking the function `f` did to the function table: the same
/// functions under the same names; where `f` has no return annotation and
/// its body's type `body` is settled, the first entry under `f`'s name takes
/// that type; every other return type stays.
pub open spec fn return_inferred(before: Seq<(String, FuncSignature)>, f: FuncDecl, body: HulkType,
    after: Seq<(String, FuncSignature)>) -> bool {
    let infers = f.return_type is None && settled_type(body);
    &&& after.len() == before.len()
    &&& forall|i: int| 0 <= i < before.len() ==> (#[trigger] after[i]).0@ == before[i].0@
    &&& forall|i: int| 0 <= i < before.len() && !(infers && first_named(before, f.name@) == Some(i))
            ==> (#[trigger] after[i]).1.return_type == before[i].1.return_type
    &&& infers ==> (first_named(before, f.name@) matches Some(i) ==> after[i].1.return_type == body)
}

/// A type that settles an unknown return type: neither `Unknown` nor a failed check.
pub open spec fn settled_type(t: HulkType) -> bool {
    !(t is Never || t is Unknown)
}

/// The error reports that a method of the member list `members` does not
/// override its parent's method of the same name.
pub open spec fn override_error_of(members: Seq<TypeMember>, e: SemanticError) -> bool {
    exists|k: int| 0 <= k < members.len() && (#[trigger] members[k]) is Method
        && (e matches SemanticError::OverrideMismatch { method, span }
            && method@ == members[k]->Method_0.name@ && span == members[k]->Method_0.span)
}

/// The type entries `b` are `a` with the same names, parents and
/// constructor parameters.
pub open spec fn same_type_names(a: Seq<TypeInfo>, b: Seq<TypeInfo>) -> bool {
    &&& a.len() == b.len()
    &&& forall|j: int| 0 <= j < a.len() ==> (#[trigger] b[j]).name@ == a[j].name@ && b[j].parent == a[j].parent
}

/// An error as its fields read, for comparing errors by what they say.
pub ghost enum ErrShape {
    UndefinedVariable { name: Seq<char>, span: Span },
    SelfInInitializer { span: Span },
    TypeMismatch { expected: Seq<char>, found: Seq<char>, span: Span },
    InvalidOperandType { op: Seq<char>, found: Seq<char>, span: Span },
    InvalidBinaryTypes { op: Seq<char>, left: Seq<char>, right: Seq<char>, span: Span },
    Other,
}

/// What an error says (the kinds that plain expressions give; any other
/// kind reads as `Other`).
pub open spec fn err_shape(e: SemanticError) -> ErrShape {
    match e {
        SemanticError::UndefinedVariable { name, span } => ErrShape::UndefinedVariable { name: name@, span },
        SemanticError::SelfInInitializer { span } => ErrShape::SelfInInitializer { span },
        SemanticError::TypeMismatch { expected, found, span } => ErrShape::TypeMismatch { expected: expected@, found: found@, span },
        SemanticError::InvalidOperandType { op, found, span } => ErrShape::InvalidOperandType { op: op@, found: found@, span },
        SemanticError::InvalidBinaryTypes { op, left, right, span } =>
            ErrShape::InvalidBinaryTypes { op: op@, left: left@, right: right@, span },
        _ => ErrShape::Other,
    }
}

/// What a list of errors says, in order.
pub open spec fn shapes(es: Seq<SemanticError>) -> Seq<ErrShape> {
    es.map_values(|e: SemanticError| err_shape(e))
}

/// Adding an error adds what it says.
pub proof fn lemma_shapes_push(a: Seq<SemanticError>, x: SemanticError)
    ensures
        shapes(a.push(x)) == shapes(a).push(err_shape(x)),
{
    assert(shapes(a.push(x)) =~= shapes(a).push(err_shape(x)));
}

/// Two checkers with the same scopes, types and initializer flag describe
/// a plain expression alike.
proof fn lemma_pure_same_env(a: TypeChecker, b: TypeChecker, e: Expr)
    requires
        a.symbols.scopes() == b.symbols.scopes(),
        a.types == b.types,
        a.in_initializer == b.in_initializer,
    ensures
        a.pure_check(e) == b.pure_check(e),
    decreases e,
{
    match e.kind {
        ExprKind::Binary(bx) => {
            lemma_pure_same_env(a, b, *bx.left);
            lemma_pure_same_env(a, b, *bx.right);
        },
        ExprKind::Unary(u) => {
            lemma_pure_same_env(a, b, *u.operand);
        },
        ExprKind::If(i) => {
            lemma_pure_same_env(a, b, *i.condition);
            lemma_pure_same_env(a, b, *i.then_body);
            lemma_pure_same_env(a, b, *i.else_body);
        },
        _ => {},
    }
}

/// The type `ty` is the one an optional annotation gives: `Unknown` when
/// absent, the type the annotation denotes otherwise.
pub open spec fn declared_type(protocols: Seq<ProtocolInfo>, ann: Option<TypeName>, ty: HulkType) -> bool {
    match ann {
        None => ty is Unknown,
        Some(tn) => denotes(protocols, tn, ty),
    }
}

/// The parameter list `ps` holds the parameters `params` by name, each with
/// its declared type.
pub open spec fn params_declared(protocols: Seq<ProtocolInfo>, params: Seq<Param>, ps: Seq<(String, HulkType)>) -> bool {
    &&& ps.len() == params.len()
    &&& forall|k: int| 0 <= k < params.len() ==> (#[trigger] ps[k]).0@ == params[k].name@
        && declared_type(protocols, params[k].type_ann, ps[k].1)
}

/// The type entry `ti` registers member `m` as declared: an attribute with
/// its declared type, a method with its declared parameters and return type.
pub open spec fn member_registered(protocols: Seq<ProtocolInfo>, ti: TypeInfo, m: TypeMember) -> bool {
    match m {
        TypeMember::Attribute(a) => value_of(ti.attributes@, a.name@) matches Some(ty) && declared_type(protocols, a.type_ann, ty),
        TypeMember::Method(md) => value_of(ti.methods@, md.name@) matches Some(sig)
            && params_declared(protocols, md.params@, sig.params@) && declared_type(protocols, md.return_type, sig.return_type),
    }
}

/// No member after `k` of the same kind has member `k`'s name.
pub open spec fn last_of_name(members: Seq<TypeMember>, k: int, upto: int) -> bool {
    forall|k2: int| k < k2 < upto ==> match (#[trigger] members[k2], members[k]) {
        (TypeMember::Attribute(a2), TypeMember::Attribute(a)) => a2.name@ != a.name@,
        (TypeMember::Method(m2), TypeMember::Method(m)) => m2.name@ != m.name@,
        _ => true,
    }
}

/// The body a member's check records: an attribute's initializer or a
/// method's body.
pub open spec fn member_body(m: TypeMember) -> Expr {
    match m {
        TypeMember::Attribute(a) => *a.value,
        TypeMember::Method(md) => *md.body,
    }
}

/// The checker's state.
pub struct TypeChecker {
    pub symbols: SymbolTable,
    pub types: TypeHierarchy,
    pub functions: Vec<(String, FuncSignature)>,
    pub errors: Vec<SemanticError>,
    /// The type found for each expression node, by node id.
    pub expr_types: HashMap<u32, HulkType>,
    current_type: Option<String>,
    current_method_name: Option<String>,
    current_ret_type: Option<HulkType>,
    in_initializer: bool,
    inferring_params: Vec<String>,
    param_constraints: Vec<(String, HulkType)>,
    /// Every expression checked so far, in the order its check ended.
    checked: Ghost<Seq<Checked>>,
}

/// Checking leaves the scopes and the type hierarchy as they were, only
/// adds errors, and only adds to the record of checked expressions.
pub open spec fn frame(a: TypeChecker, b: TypeChecker) -> bool {
    &&& b.scope_view() == a.scope_view()
    &&& b.hierarchy() == a.hierarchy()
    &&& extends_errors(a.found(), b.found())
    &&& extends_record(a.record(), b.record())
    &&& same_functions(a.function_table(), b.function_table())
    &&& b.initializing() == a.initializing()
}

/// `b` has the functions of `a`, in the same order, under the same names
/// and with the same return types; their parameter types may have been
/// refined.
pub open spec fn same_functions(a: Seq<(String, FuncSignature)>, b: Seq<(String, FuncSignature)>) -> bool {
    &&& a.len() == b.len()
    &&& forall|k: int| 0 <= k < a.len() ==> (#[trigger] b[k]).0@ == a[k].0@ && b[k].1.return_type == a[k].1.return_type
}

/// `b` keeps the entries of `a` and possibly adds more after them.
pub open spec fn extends_record(a: Seq<Checked>, b: Seq<Checked>) -> bool {
    &&& a.len() <= b.len()
    &&& forall|i: int| 0 <= i < a.len() ==> b[i] == a[i]
}

/// What checking the name `name` at `span` gives: `self` in an
/// initializer is an error; otherwise the innermost binding decides the type
/// (a variable's type, a function's return type, the type or protocol
/// named), and an unbound name is an undefined variable.
pub open spec fn identifier_outcome(before: TypeChecker, name: Seq<char>, span: Span, t: HulkType, after: TypeChecker) -> bool {
    if name == "self"@ && before.initializing() {
        t is Never && after.found() == before.found().push(SemanticError::SelfInInitializer { span })
    } else {
        match resolve(before.scope_view(), name) {
            Some(sym) => after.found() == before.found() && match sym.kind {
                SymbolKind::Variable { ty, .. } => t == ty,
                SymbolKind::Function { return_type, .. } => t == return_type,
                SymbolKind::Type => t matches HulkType::UserDefined(n) && n@ == name,
                SymbolKind::Protocol => t matches HulkType::Protocol(n) && n@ == name,
            },
            None => {
                &&& t is Never
                &&& after.found().len() == before.found().len() + 1
                &&& after.found().take(before.found().len() as int) == before.found()
                &&& after.found().last() matches SemanticError::UndefinedVariable { name: n, span: sp }
                &&& n@ == name && sp == span
            },
        }
    }
}

/// What checking `base` at `span` gives: outside a type an undefined
/// name; inside one, the parent's type (`Object` when it has none).
pub open spec fn base_outcome(before: TypeChecker, span: Span, t: HulkType, after: TypeChecker) -> bool {
    match before.current_type_name() {
        None => {
            &&& t is Never
            &&& one_more(before.found(), after.found())
            &&& after.found().last() matches SemanticError::UndefinedVariable { name: x, span: s }
            &&& x@ == "base"@ && s == span
        },
        Some(tn) => {
            &&& after.found() == before.found()
            &&& t == match first_type(before.hierarchy().types@, tn@) {
                Some(i) => match before.hierarchy().types@[i].parent {
                    Some(p) => HulkType::UserDefined(p),
                    None => HulkType::Object,
                },
                None => HulkType::Object,
            }
        },
    }
}

/// The names of `a`'s innermost scope are still bound in `b`'s.
pub closed spec fn keeps_names(a: TypeChecker, b: TypeChecker) -> bool {
    forall|n: Seq<char>| #[trigger] scope_has(a.symbols.scopes().last(), n) ==> scope_has(b.symbols.scopes().last(), n)
}

/// Declaration `j` of the list is a function that an earlier function of
/// the list already named.
pub open spec fn redeclared_function(decls: Seq<Decl>, j: int) -> bool {
    &&& 0 <= j < decls.len()
    &&& decls[j] is Function
    &&& exists|i: int| 0 <= i < j && (#[trigger] decls[i]) is Function && decls[i]->Function_0.name@ == decls[j]->Function_0.name@
}

/// The error that reports function `f` as defined twice.
pub open spec fn redefinition_of(f: FuncDecl) -> SemanticError {
    SemanticError::Redefinition { name: f.name, span: f.span }
}

/// What checking the arguments a type hands to its parent's constructor
/// did, from record position `rs` and the errors `es`: nothing without a
/// parent or with one that is not registered; otherwise the arguments were
/// checked against the types of the parent's constructor parameters.
pub open spec fn parent_args_checked(h: TypeHierarchy, rs: int, es: Seq<SemanticError>, t: TypeDecl,
    rec: Seq<Checked>, errs: Seq<SemanticError>) -> bool {
    match t.parent {
        None => errs == es && rec.len() == rs,
        Some(p) => match first_type(h.types@, type_name_name(p)) {
            None => errs == es && rec.len() == rs,
            Some(i) => args_outcome(h, rs as nat, es.len(), type_name_name(p), t.parent_args@,
                h.types@[i].constructor_params@.map_values(|c: (String, HulkType)| c.1), t.span, rec, errs, false),
        },
    }
}

/// Every member body of the type was checked into the record from
/// position `from` on, and the errors as they stood after each check are
/// kept at the front of `errs`.
pub open spec fn members_checked(rec: Seq<Checked>, from: int, t: TypeDecl, errs: Seq<SemanticError>) -> bool {
    forall|m: int| 0 <= m < t.members@.len() ==> exists|j: int| from <= j < rec.len()
        && (#[trigger] rec[j]).expr == member_body(#[trigger] t.members@[m]) && extends_errors(rec[j].errs, errs)
}

/// The declaration was checked into the record from position `from` on,
/// with the errors of each check kept at the front of `errs`: a function's
/// body; a type's member bodies, unless its inheritance is reported
/// circular.
pub open spec fn decl_checked(rec: Seq<Checked>, from: int, d: Decl, errs: Seq<SemanticError>) -> bool {
    match d {
        Decl::Function(f) => exists|j: int| from <= j < rec.len() && (#[trigger] rec[j]).expr == *f.body
            && extends_errors(rec[j].errs, errs),
        Decl::Type(t) => errs.contains(SemanticError::CircularInheritance { type_ident: t.name, span: t.span })
            || members_checked(rec, from, t, errs),
        Decl::Protocol(_) => true,
    }
}

/// What checking a program from the checker `before` gives: the record and
/// the errors grow from `before`'s; every declaration was checked, keeping
/// its errors; every function named twice is reported; and the errors are
/// exactly those that stood when the check of the entry expression ended,
/// the last check made.
pub open spec fn program_checked(before: TypeChecker, program: Program, rec: Seq<Checked>, errors: Seq<SemanticError>) -> bool {
    &&& extends_record(before.record(), rec)
    &&& extends_errors(before.found(), errors)
    &&& forall|k: int| 0 <= k < program.declarations@.len()
            ==> #[trigger] decl_checked(rec, before.record().len() as int, program.declarations@[k], errors)
    &&& forall|j: int| #[trigger] redeclared_function(program.declarations@, j)
            ==> errors.contains(redefinition_of(program.declarations@[j]->Function_0))
    &&& exists|j: int| before.record().len() <= j < rec.len() && (#[trigger] rec[j]).expr == *program.entry
            && rec[j].errs == errors
}

/// Declaration `k` is a function and no other function of the list has
/// its name.
pub open spec fn sole_function(decls: Seq<Decl>, k: int) -> bool {
    &&& 0 <= k < decls.len()
    &&& decls[k] is Function
    &&& forall|k2: int| 0 <= k2 < decls.len() && k2 != k && (#[trigger] decls[k2]) is Function
            ==> decls[k2]->Function_0.name@ != decls[k]->Function_0.name@
}

/// Where declaration `k` is a function without a return annotation that no
/// other function shares its name with, a check of its body is recorded
/// from `from` on, and when that check's type is settled, the entry of the
/// function table under the function's name (if there is one) has it as
/// return type.
pub open spec fn return_settled(decls: Seq<Decl>, k: int, rec: Seq<Checked>, from: int, table: Seq<(String, FuncSignature)>) -> bool {
    (sole_function(decls, k) && decls[k]->Function_0.return_type is None) ==>
        exists|j: int| from <= j < rec.len() && (#[trigger] rec[j]).expr == *decls[k]->Function_0.body
            && (settled_type(rec[j].ty) ==> (first_named(table, decls[k]->Function_0.name@) matches Some(i)
                ==> table[i].1.return_type == rec[j].ty))
}

/// Lists with the same names at the same positions find the same first entry.
proof fn lemma_first_named_same_names<T, U>(a: Seq<(String, T)>, b: Seq<(String, U)>, n: Seq<char>)
    requires
        a.len() == b.len(),
        forall|i: int| 0 <= i < a.len() ==> (#[trigger] a[i]).0@ == b[i].0@,
    ensures
        first_named(a, n) == first_named(b, n),
{
    if exists|i: int| 0 <= i < a.len() && a[i].0@ == n {
        lemma_first_named_found(a, n, 0);
        let k = first_named(a, n)->0;
        assert forall|j: int| 0 <= j < k implies b[j].0@ != n by {
            assert(a[j].0@ == b[j].0@);
        }
        assert(a[k].0@ == b[k].0@);
        lemma_first_named(b, n, k);
    } else {
        assert forall|i: int| 0 <= i < b.len() implies b[i].0@ != n by {
            assert(a[i].0@ == b[i].0@);
        }
    }
}

/// A settled return type stays when the table keeps its names and changes
/// no return type but, possibly, that of the first entry under another name.
proof fn lemma_return_settled_kept(decls: Seq<Decl>, k: int, rec1: Seq<Checked>, rec2: Seq<Checked>, from: int,
    t1: Seq<(String, FuncSignature)>, t2: Seq<(String, FuncSignature)>, other: Option<Seq<char>>)
    requires
        0 <= from,
        return_settled(decls, k, rec1, from, t1),
        extends_record(rec1, rec2),
        t1.len() == t2.len(),
        forall|i: int| 0 <= i < t1.len() ==> (#[trigger] t2[i]).0@ == t1[i].0@,
        forall|i: int| 0 <= i < t1.len() && !(other matches Some(g) && first_named(t1, g) == Some(i))
            ==> (#[trigger] t2[i]).1.return_type == t1[i].1.return_type,
        sole_function(decls, k) ==> (other matches Some(g) ==> g != decls[k]->Function_0.name@),
    ensures
        return_settled(decls, k, rec2, from, t2),
{
    if sole_function(decls, k) && decls[k]->Function_0.return_type is None {
        let f = decls[k]->Function_0;
        let j = choose|j: int| from <= j < rec1.len() && (#[trigger] rec1[j]).expr == *f.body
            && (settled_type(rec1[j].ty) ==> (first_named(t1, f.name@) matches Some(i) ==> t1[i].1.return_type == rec1[j].ty));
        assert(rec2[j] == rec1[j]);
        lemma_first_named_same_names(t1, t2, f.name@);
        if let Some(i) = first_named(t1, f.name@) {
            lemma_first_named_found(t1, f.name@, 0);
            if let Some(g) = other {
                if first_named(t1, g) == Some(i) {
                    lemma_first_named_found(t1, g, 0);
                    assert(t1[i].0@ == g);
                    assert(t1[i].0@ == f.name@);
                }
            }
        }
    }
}

/// A declaration stays checked when the record and the errors grow.
proof fn lemma_decl_checked_kept(rec1: Seq<Checked>, rec2: Seq<Checked>, from: int, d: Decl,
    errs1: Seq<SemanticError>, errs2: Seq<SemanticError>)
    requires
        0 <= from,
        decl_checked(rec1, from, d, errs1),
        extends_record(rec1, rec2),
        extends_errors(errs1, errs2),
    ensures
        decl_checked(rec2, from, d, errs2),
{
    match d {
        Decl::Function(f) => {
            let j = choose|j: int| from <= j < rec1.len() && (#[trigger] rec1[j]).expr == *f.body
                && extends_errors(rec1[j].errs, errs1);
            assert(rec2[j] == rec1[j]);
        }
        Decl::Type(t) => {
            let e = SemanticError::CircularInheritance { type_ident: t.name, span: t.span };
            if errs1.contains(e) {
                lemma_still_found(errs1, errs2, e);
            } else {
                assert forall|m: int| 0 <= m < t.members@.len() implies exists|j: int| from <= j < rec2.len()
                    && (#[trigger] rec2[j]).expr == member_body(#[trigger] t.members@[m]) && extends_errors(rec2[j].errs, errs2) by {
                    let j = choose|j: int| from <= j < rec1.len()
                        && (#[trigger] rec1[j]).expr == member_body(t.members@[m]) && extends_errors(rec1[j].errs, errs1);
                    assert(rec2[j] == rec1[j]);
                }
            }
        }
        Decl::Protocol(_) => {}
    }
}

/// An error already found stays found when more are added.
proof fn lemma_still_found(a: Seq<SemanticError>, b: Seq<SemanticError>, e: SemanticError)
    requires
        extends_errors(a, b),
        a.contains(e),
    ensures
        b.contains(e),
{
    let i = choose|i: int| 0 <= i < a.len() && a[i] == e;
    assert(b[i] == e);
}

/// What checking the expression `e` from `before` to `after` with result
/// `t` did, form by form, as far as it is stated: the decisions taken on
/// the node's own parts, and the rules that give the node's type and own
/// errors from the entries its parts left in the record.
#[verifier::opaque]
pub open spec fn node_outcome(before: TypeChecker, e: Expr, t: HulkType, after: TypeChecker) -> bool {
    let h = before.hierarchy();
    let rs = before.record().len();
    let es = before.found().len();
    let rec = after.record().drop_last();
    let errs = after.found();
    &&& (e.kind is Base ==> base_outcome(before, e.span, t, after))
    &&& (e.kind matches ExprKind::Binary(b) ==> binary_outcome(h, rs, es, *b, t, rec, errs))
    &&& (e.kind matches ExprKind::Unary(u) ==> unary_outcome(h, rs, es, *u, t, rec, errs))
    &&& (e.kind matches ExprKind::Postfix(p) ==> postfix_outcome(rs, es, *p, t, rec, errs))
    &&& (e.kind matches ExprKind::Is { expr: inner, ty } ==> is_outcome(h, rs, es, *inner, ty, t, rec, errs))
    &&& (e.kind matches ExprKind::As { expr: inner, ty } ==> as_outcome(h, rs, es, *inner, ty, e.span, t, rec, errs))
    &&& (e.kind matches ExprKind::Access(a) ==> access_outcome(h, rs, es, *a.object, a.field@, a.span, t, rec, errs))
    &&& (e.kind matches ExprKind::Index(i) ==> index_outcome(rs, es, *i, t, rec, errs))
    &&& (e.kind matches ExprKind::While(w) ==> while_outcome(rs, es, *w, t, rec, errs))
    &&& (e.kind matches ExprKind::Assign(a) ==> assign_outcome(*a, t, before.found(), errs))
    &&& (e.kind matches ExprKind::Assign(a) ==> (assignable(*a) ==> assign_checked(h, rs, es, *a, t, rec, errs)))
    &&& (e.kind matches ExprKind::Block(b) ==> (b.body@.len() == 0 ==> t is Null && errs == before.found()))
    &&& (e.kind matches ExprKind::Block(b) ==> (b.body@.len() > 0 ==> ends_with(b.body@.last(), t, false, rec, errs)
            && chained(rec, b.body@, rec.len() - 1, rs, es)))
    &&& (e.kind matches ExprKind::Let(l) ==> ends_with(*l.body, t, false, rec, errs)
            && let_bindings_checked(h, rs as int, l.bindings@, rec, errs))
    &&& (e.kind matches ExprKind::If(i) ==> (i.elif_chain@.len() == 0
            ==> if_outcome(h, rs, es, *i.condition, *i.then_body, *i.else_body, i.span, t, rec, errs)))
    &&& (e.kind matches ExprKind::If(i) ==> if_branches_typed(h, rs as int, *i, t, rec))
    &&& (e.kind matches ExprKind::For(f) ==> for_outcome(h, rs, es, *f.iterable, *f.body, f.span, t, rec, errs))
    &&& (e.kind matches ExprKind::New(n) ==> new_outcome(before, n.ty, n.span, t, after)
            && new_args_outcome(before, n.ty, n.args@, n.span, rec, errs))
    &&& (e.kind matches ExprKind::Call(c) ==> (c.callee.kind matches ExprKind::Identifier { name }
            ==> named_call_outcome(before, name@, c.span, c.callee.span, t, errs)
                && named_call_args(before, name@, c.args@, c.span, rec, errs)))
    &&& (e.kind matches ExprKind::Call(c) ==> (c.callee.kind is Base
            ==> base_call_outcome(before, c.args@, c.span, c.callee.span, t, rec, errs)))
    &&& (e.kind matches ExprKind::Call(c) ==> (!(c.callee.kind is Base) && !(c.callee.kind is Identifier)
            ==> other_call_outcome(*c.callee, rs as int, t, rec)))
    &&& (e.kind matches ExprKind::Vector(v) ==> vector_outcome(h.protocols@, *v, t, before.found(), errs))
    &&& (e.kind matches ExprKind::Vector(v) ==> (*v matches VectorExpr::Generator { body, .. }
            ==> ends_with(*body, t, true, rec, errs)))
    &&& (e.kind matches ExprKind::Vector(v) ==> (*v matches VectorExpr::Explicit { elements, .. }
            ==> (elements@.len() > 0 ==> elements_outcome(h, rs, es, elements@, t, rec, errs))))
    &&& (e.kind matches ExprKind::MethodCall(m) ==> exists|j: int| 0 <= j < rec.len()
            && #[trigger] rec[j].start == rs && rec[j].expr == *m.object && rec[j].errors_before == es
            && method_call_outcome(h, m.method@, m.span, rec[j], t, rec.len(), errs)
            && method_args_outcome(h, m.method@, m.span, m.args@, rec, j, errs))
}

/// Whether the list holds `name`.
fn contains_name(names: &Vec<String>, name: &str) -> (b: bool)
    ensures
        b == exists|i: int| 0 <= i < names@.len() && names@[i]@ == name@,
{
    let mut k: usize = 0;
    while k < names.len()
        invariant
            k <= names@.len(),
            forall|j: int| 0 <= j < k ==> names@[j]@ != name@,
        decreases names@.len() - k,
    {
        if str_eq(names[k].as_str(), name) {
            return true;
        }
        k = k + 1;
    }
    false
}

/// What a called name stands for.
enum Callee {
    Func(Vec<HulkType>, HulkType),
    TypeName,
    Other,
    Missing,
}

impl TypeChecker {
    /// The checker has a scope to define names in.
    pub closed spec fn ready(&self) -> bool {
        self.symbols.scopes().len() >= 1
    }

    /// The errors found so far, in order.
    pub closed spec fn found(&self) -> Seq<SemanticError> {
        self.errors@
    }

    /// Whether some scope binds the name.
    pub closed spec fn knows(&self, n: Seq<char>) -> bool {
        self.symbols.bound(n)
    }

    /// Whether an attribute initializer is being checked.
    pub closed spec fn initializing(&self) -> bool {
        self.in_initializer
    }

    /// Every expression checked so far, in the order its check ended.
    pub closed spec fn record(&self) -> Seq<Checked> {
        self.checked@
    }

    /// The types and protocols known to the checker.
    pub closed spec fn hierarchy(&self) -> TypeHierarchy {
        self.types
    }

    /// The protocols known to the checker.
    pub closed spec fn protocol_list(&self) -> Seq<ProtocolInfo> {
        self.types.protocols@
    }

    /// The scopes, outermost first.
    pub closed spec fn scope_view(&self) -> Seq<Seq<(String, Symbol)>> {
        self.symbols.scopes()
    }

    /// The type whose members are being checked, if any.
    pub closed spec fn current_type_name(&self) -> Option<String> {
        self.current_type
    }

    /// The method whose body is being checked, if any.
    pub closed spec fn current_method(&self) -> Option<String> {
        self.current_method_name
    }

    /// The functions known, with their signatures, in declaration order.
    pub closed spec fn function_table(&self) -> Seq<(String, FuncSignature)> {
        self.functions@
    }

    /// The type found for each checked node, by node id.
    pub closed spec fn type_map(&self) -> Map<u32, HulkType> {
        self.expr_types@
    }

    /// The number of open scopes, the global one included.
    pub closed spec fn scope_count(&self) -> nat {
        self.symbols.scopes().len()
    }

    /// What the name `n` refers to in the checker's scopes.
    pub closed spec fn binding(&self, n: Seq<char>) -> Option<Symbol> {
        resolve(self.symbols.scopes(), n)
    }

    /// The type and the errors (in order) of checking a plain expression in
    /// this checker: literals, names bound to a variable or a function, or
    /// unbound, and the unary, binary and `if`-`else` forms (without `elif`)
    /// built from them. `None` for any other expression, which this does not
    /// describe.
    pub open spec fn pure_check(&self, e: Expr) -> Option<(HulkType, Seq<ErrShape>)>
        decreases e,
    {
        let h = self.hierarchy();
        match e.kind {
            ExprKind::Literal(l) => Some((literal_type(l), Seq::empty())),
            ExprKind::Identifier { name } => if name@ == "self"@ && self.initializing() {
                Some((HulkType::Never, seq![ErrShape::SelfInInitializer { span: e.span }]))
            } else {
                match self.binding(name@) {
                    None => Some((HulkType::Never, seq![ErrShape::UndefinedVariable { name: name@, span: e.span }])),
                    Some(sym) => match sym.kind {
                        SymbolKind::Variable { ty, .. } => Some((ty, Seq::empty())),
                        SymbolKind::Function { return_type, .. } => Some((return_type, Seq::empty())),
                        _ => None,
                    },
                }
            },
            ExprKind::Binary(b) => match (self.pure_check(*b.left), self.pure_check(*b.right)) {
                (Some((lt, le)), Some((rt, re))) => Some((binary_type(b.op, lt, rt), le + re + if binary_refused(h, b.op, lt, rt) {
                    seq![ErrShape::InvalidBinaryTypes { op: binary_op_text(b.op), left: type_text(lt), right: type_text(rt), span: b.span }]
                } else {
                    Seq::empty()
                })),
                _ => None,
            },
            ExprKind::Unary(u) => match self.pure_check(*u.operand) {
                Some((ot, oe)) => {
                    let want = match u.op { UnaryOp::Neg => HulkType::Number, UnaryOp::Not => HulkType::Boolean };
                    let op = match u.op { UnaryOp::Neg => "-"@, UnaryOp::Not => "!"@ };
                    if ot is Never {
                        Some((HulkType::Never, oe))
                    } else if accepts(h, ot, want, bound(h)) {
                        Some((want, oe))
                    } else {
                        Some((want, oe.push(ErrShape::InvalidOperandType { op, found: type_text(ot), span: u.span })))
                    }
                },
                None => None,
            },
            ExprKind::If(i) => if i.elif_chain@.len() == 0 {
                match (self.pure_check(*i.condition), self.pure_check(*i.then_body), self.pure_check(*i.else_body)) {
                    (Some((ct, ce)), Some((tt, te)), Some((et, ee))) => {
                        let bad = !(ct is Boolean) && !(ct is Never);
                        Some((common_ancestor(h, tt, et), ce + (if bad {
                            seq![ErrShape::TypeMismatch { expected: "Boolean"@, found: type_text(ct), span: i.span }]
                        } else {
                            Seq::empty()
                        }) + te + ee))
                    },
                    _ => None,
                }
            } else {
                None
            },
            _ => None,
        }
    }

    /// Checking `e` from this checker, ending in `after` with type `t`, did
    /// what `pure_check` says, where it says anything.
    pub open spec fn pure_outcome(&self, e: Expr, t: HulkType, after: TypeChecker) -> bool {
        match self.pure_check(e) {
            Some((x, es)) => t == x && shapes(after.found()) == shapes(self.found()) + es,
            None => true,
        }
    }

    /// A checker as `new` makes it: nothing found or recorded yet, one
    /// scope binding exactly the built-in names to their built-in kinds, the
    /// built-in hierarchy, no declared function, no initializer being checked.
    pub open spec fn fresh(&self) -> bool {
        &&& self.ready()
        &&& self.found().len() == 0
        &&& !self.initializing()
        &&& forall|n: Seq<char>| builtin_name(n) ==> (#[trigger] self.binding(n) matches Some(sym) && builtin_kind(n, sym.kind))
        &&& forall|n: Seq<char>| !builtin_name(n) ==> #[trigger] self.binding(n) is None
        &&& self.record().len() == 0
        &&& builtin_hierarchy(self.hierarchy())
        &&& self.function_table().len() == 0
        &&& self.type_map() == Map::<u32, HulkType>::empty()
        &&& self.scope_count() == 1
    }

    /// A checker with the built-in types, functions and constants.
    pub fn new() -> (tc: Self)
        ensures
            tc.fresh(),
            tc.ready(),
            tc.found().len() == 0,
            !tc.initializing(),
            forall|n: Seq<char>| !builtin_name(n) ==> !tc.knows(n),
            forall|n: Seq<char>| builtin_name(n) ==> tc.knows(n),
            forall|n: Seq<char>| builtin_name(n) ==> (#[trigger] tc.binding(n) matches Some(sym) && builtin_kind(n, sym.kind)),
            forall|n: Seq<char>| !builtin_name(n) ==> #[trigger] tc.binding(n) is None,
            tc.record().len() == 0,
            builtin_hierarchy(tc.hierarchy()),
            tc.function_table().len() == 0,
            tc.type_map() == Map::<u32, HulkType>::empty(),
            tc.scope_count() == 1,
    {
        let mut tc = TypeChecker {
            symbols: SymbolTable::new(),
            types: TypeHierarchy::new(),
            functions: Vec::new(),
            errors: Vec::new(),
            expr_types: HashMap::new(),
            current_type: None,
            current_method_name: None,
            current_ret_type: None,
            in_initializer: false,
            inferring_params: Vec::new(),
            param_constraints: Vec::new(),
            checked: Ghost(Seq::empty()),
        };
        let ghost s0 = tc.symbols.scopes();
        tc.register_builtin_functions();
        proof {
            let fin = tc.symbols.scopes().last();
            assert(tc.symbols.scopes()[0] == fin);
            assert forall|n: Seq<char>| builtin_name(n) implies tc.symbols.bound(n) by {
                assert(scope_has(tc.symbols.scopes()[0], n));
            }
            assert forall|n: Seq<char>| builtin_name(n) implies (#[trigger] tc.binding(n) matches Some(sym) && builtin_kind(n, sym.kind)) by {
                reveal(builtins_after);
                lemma_first_named_found(fin, n, 0);
                let k = first_named(fin, n)->0;
                assert(builtin_kind(fin[k].0@, fin[k].1.kind));
                assert(resolve_in(tc.symbols.scopes(), n, 0) is None);
            }
            assert forall|n: Seq<char>| !builtin_name(n) implies #[trigger] tc.binding(n) is None by {
                reveal(builtins_after);
                if scope_has(fin, n) {
                    let i = choose|i: int| 0 <= i < fin.len() && fin[i].0@ == n;
                    assert(fin.take(s0.last().len() as int) == s0.last());
                    assert(s0.last().len() == 0);
                    assert(builtin_kind(fin[i].0@, fin[i].1.kind));
                }
                assert(!scope_has(fin, n));
                assert(first_named(fin, n) is None);
                assert(resolve_in(tc.symbols.scopes(), n, 0) is None);
            }
            assert forall|n: Seq<char>| !builtin_name(n) implies !tc.symbols.bound(n) by {
                if tc.symbols.bound(n) {
                    let k = choose|k: int| 0 <= k < tc.symbols.scopes().len() && scope_has(#[trigger] tc.symbols.scopes()[k], n);
                    assert(k == 0);
                    assert(tc.symbols.scopes()[0] == tc.symbols.scopes().last());
                    assert(!scope_has(s0.last(), n));
                }
            }
        }
        tc
    }

    fn define_builtin(&mut self, name: &str, params: Vec<HulkType>, ret: HulkType)
        requires
            old(self).symbols.scopes().len() >= 1,
        ensures
            final(self).symbols.scopes().len() == old(self).symbols.scopes().len(),
            final(self).errors == old(self).errors,
            final(self).in_initializer == old(self).in_initializer,
            final(self).checked == old(self).checked,
            final(self).types == old(self).types,
            final(self).functions == old(self).functions,
            final(self).expr_types == old(self).expr_types,
            binds_new(old(self).symbols.scopes(), final(self).symbols.scopes(), name@,
                SymbolKind::Function { params, return_type: ret }),
    {
        let ghost before = self.symbols.scopes();
        let ok = self.symbols.define(name, Symbol::function(name, params, ret));
        proof {
            reveal(binds_new);
            if ok {
                let after = self.symbols.scopes();
                assert(after.last() == before.last().push(after.last().last()));
                assert(after.last().drop_last() =~= before.last());
            }
        }
    }

    fn define_constant(&mut self, name: &str, ty: HulkType)
        requires
            old(self).symbols.scopes().len() >= 1,
        ensures
            final(self).symbols.scopes().len() == old(self).symbols.scopes().len(),
            final(self).errors == old(self).errors,
            final(self).in_initializer == old(self).in_initializer,
            final(self).checked == old(self).checked,
            final(self).types == old(self).types,
            final(self).functions == old(self).functions,
            final(self).expr_types == old(self).expr_types,
            binds_new(old(self).symbols.scopes(), final(self).symbols.scopes(), name@,
                SymbolKind::Variable { ty, mutable: false }),
    {
        let ghost before = self.symbols.scopes();
        let ok = self.symbols.define(name, Symbol::variable(name, ty, false));
        proof {
            reveal(binds_new);
            if ok {
                let after = self.symbols.scopes();
                assert(after.last() == before.last().push(after.last().last()));
                assert(after.last().drop_last() =~= before.last());
            }
        }
    }

    #[verifier::spinoff_prover]
    #[verifier::rlimit(100)]
    fn register_builtin_functions(&mut self)
        requires
            old(self).symbols.scopes().len() >= 1,
        ensures
            final(self).symbols.scopes().len() == old(self).symbols.scopes().len(),
            final(self).errors == old(self).errors,
            final(self).in_initializer == old(self).in_initializer,
            final(self).checked == old(self).checked,
            final(self).types == old(self).types,
            final(self).functions == old(self).functions,
            final(self).expr_types == old(self).expr_types,
            forall|n: Seq<char>| #[trigger] scope_has(final(self).symbols.scopes().last(), n)
                ==> scope_has(old(self).symbols.scopes().last(), n) || builtin_name(n),
            forall|n: Seq<char>| builtin_name(n) ==> #[trigger] scope_has(final(self).symbols.scopes().last(), n),
            builtins_after(old(self).symbols.scopes().last(), final(self).symbols.scopes().last()),
    {
        let ghost scope0 = self.symbols.scopes().last();
        let ghost mut names: Seq<Seq<char>> = Seq::empty();
        proof {
            assert(scope0.take(scope0.len() as int) =~= scope0);
            reveal(builtins_after);
        }
        let ps = vec![HulkType::Object];
        assert(ps@ =~= seq![HulkType::Object]);
        let ghost sc = self.symbols.scopes();
        let ret = HulkType::Null;
        self.define_builtin("print", ps, ret);
        proof {
            assert(!scope_has(sc.last(), "print"@) ==> builtin_kind("print"@, SymbolKind::Function { params: ps, return_type: ret }));
            lemma_binds_builtin(scope0, sc, self.symbols.scopes(), "print"@, SymbolKind::Function { params: ps, return_type: ret }, names);
            names = names.push("print"@);
        }
        let ps = vec![HulkType::Number];
        assert(ps@ =~= seq![HulkType::Number]);
        let ghost sc = self.symbols.scopes();
        let ret = HulkType::Number;
        self.define_builtin("sqrt", ps, ret);
        proof {
            assert(!scope_has(sc.last(), "sqrt"@) ==> builtin_kind("sqrt"@, SymbolKind::Function { params: ps, return_type: ret }));
            lemma_binds_builtin(scope0, sc, self.symbols.scopes(), "sqrt"@, SymbolKind::Function { params: ps, return_type: ret }, names);
            names = names.push("sqrt"@);
        }
        let ps = vec![HulkType::Number];
        assert(ps@ =~= seq![HulkType::Number]);
        let ghost sc = self.symbols.scopes();
        let ret = HulkType::Number;
        self.define_builtin("sin", ps, ret);
        proof {
            assert(!scope_has(sc.last(), "sin"@) ==> builtin_kind("sin"@, SymbolKind::Function { params: ps, return_type: ret }));
            lemma_binds_builtin(scope0, sc, self.symbols.scopes(), "sin"@, SymbolKind::Function { params: ps, return_type: ret }, names);
            names = names.push("sin"@);
        }
        let ps = vec![HulkType::Number];
        assert(ps@ =~= seq![HulkType::Number]);
        let ghost sc = self.symbols.scopes();
        let ret = HulkType::Number;
        self.define_builtin("cos", ps, ret);
        proof {
            assert(!scope_has(sc.last(), "cos"@) ==> builtin_kind("cos"@, SymbolKind::Function { params: ps, return_type: ret }));
            lemma_binds_builtin(scope0, sc, self.symbols.scopes(), "cos"@, SymbolKind::Function { params: ps, return_type: ret }, names);
            names = names.push("cos"@);
        }
        let ps = vec![HulkType::Number];
        assert(ps@ =~= seq![HulkType::Number]);
        let ghost sc = self.symbols.scopes();
        let ret = HulkType::Number;
        self.define_builtin("exp", ps, ret);
        proof {
            assert(!scope_has(sc.last(), "exp"@) ==> builtin_kind("exp"@, SymbolKind::Function { params: ps, return_type: ret }));
            lemma_binds_builtin(scope0, sc, self.symbols.scopes(), "exp"@, SymbolKind::Function { params: ps, return_type: ret }, names);
            names = names.push("exp"@);
        }
        let ps = vec![HulkType::Number, HulkType::Number];
        assert(ps@ =~= seq![HulkType::Number, HulkType::Number]);
        let ghost sc = self.symbols.scopes();
        let ret = HulkType::Number;
        self.define_builtin("log", ps, ret);
        proof {
            assert(!scope_has(sc.last(), "log"@) ==> builtin_kind("log"@, SymbolKind::Function { params: ps, return_type: ret }));
            lemma_binds_builtin(scope0, sc, self.symbols.scopes(), "log"@, SymbolKind::Function { params: ps, return_type: ret }, names);
            names = names.push("log"@);
        }
        let ps: Vec<HulkType> = Vec::new();
        let ghost sc = self.symbols.scopes();
        let ret = HulkType::Number;
        self.define_builtin("rand", ps, ret);
        proof {
            assert(!scope_has(sc.last(), "rand"@) ==> builtin_kind("rand"@, SymbolKind::Function { params: ps, return_type: ret }));
            lemma_binds_builtin(scope0, sc, self.symbols.scopes(), "rand"@, SymbolKind::Function { params: ps, return_type: ret }, names);
            names = names.push("rand"@);
        }
        let ps = vec![HulkType::Number, HulkType::Number];
        assert(ps@ =~= seq![HulkType::Number, HulkType::Number]);
        let ghost sc = self.symbols.scopes();
        let ret = HulkType::UserDefined("Range".to_owned());
        self.define_builtin("range", ps, ret);
        proof { reveal_strlit("Range"); }
        proof {
            assert(!scope_has(sc.last(), "range"@) ==> builtin_kind("range"@, SymbolKind::Function { params: ps, return_type: ret }));
            lemma_binds_builtin(scope0, sc, self.symbols.scopes(), "range"@, SymbolKind::Function { params: ps, return_type: ret }, names);
            names = names.push("range"@);
        }
        let ps = vec![HulkType::Object];
        assert(ps@ =~= seq![HulkType::Object]);
        let ghost sc = self.symbols.scopes();
        let ret = HulkType::Number;
        self.define_builtin("len", ps, ret);
        proof {
            assert(!scope_has(sc.last(), "len"@) ==> builtin_kind("len"@, SymbolKind::Function { params: ps, return_type: ret }));
            lemma_binds_builtin(scope0, sc, self.symbols.scopes(), "len"@, SymbolKind::Function { params: ps, return_type: ret }, names);
            names = names.push("len"@);
        }
        let ghost sc = self.symbols.scopes();
        let ty = HulkType::Number;
        self.define_constant("PI", ty);
        proof {
            assert(!scope_has(sc.last(), "PI"@) ==> builtin_kind("PI"@, SymbolKind::Variable { ty, mutable: false }));
            lemma_binds_builtin(scope0, sc, self.symbols.scopes(), "PI"@, SymbolKind::Variable { ty, mutable: false }, names);
            names = names.push("PI"@);
        }
        let ghost sc = self.symbols.scopes();
        let ty = HulkType::Number;
        self.define_constant("E", ty);
        proof {
            assert(!scope_has(sc.last(), "E"@) ==> builtin_kind("E"@, SymbolKind::Variable { ty, mutable: false }));
            lemma_binds_builtin(scope0, sc, self.symbols.scopes(), "E"@, SymbolKind::Variable { ty, mutable: false }, names);
            names = names.push("E"@);
        }
        let ghost sc = self.symbols.scopes();
        let ty = HulkType::Boolean;
        self.define_constant("true", ty);
        proof {
            assert(!scope_has(sc.last(), "true"@) ==> builtin_kind("true"@, SymbolKind::Variable { ty, mutable: false }));
            lemma_binds_builtin(scope0, sc, self.symbols.scopes(), "true"@, SymbolKind::Variable { ty, mutable: false }, names);
            names = names.push("true"@);
        }
        let ghost sc = self.symbols.scopes();
        let ty = HulkType::Boolean;
        self.define_constant("false", ty);
        proof {
            assert(!scope_has(sc.last(), "false"@) ==> builtin_kind("false"@, SymbolKind::Variable { ty, mutable: false }));
            lemma_binds_builtin(scope0, sc, self.symbols.scopes(), "false"@, SymbolKind::Variable { ty, mutable: false }, names);
            names = names.push("false"@);
        }
        proof {
            assert(names =~= seq!["print"@, "sqrt"@, "sin"@, "cos"@, "exp"@, "log"@, "rand"@, "range"@, "len"@, "PI"@, "E"@, "true"@, "false"@]);
            lemma_builtins_registered(scope0, self.symbols.scopes().last(), names);
        }
    }

    /// Checks a whole program and returns the errors found, in order.
    pub fn check_program(&mut self, program: &Program) -> (errors: Vec<SemanticError>)
        requires
            old(self).ready(),
        ensures
            extends_errors(old(self).found(), errors@),
            final(self).found().len() == 0,
            forall|j: int| #[trigger] redeclared_function(program.declarations@, j)
                ==> errors@.contains(redefinition_of(program.declarations@[j]->Function_0)),
            program.declarations@.len() == 0 && program.entry.kind is Literal ==> errors@ == old(self).found(),
            program.declarations@.len() == 0 && program.entry.kind is Identifier
                && !old(self).knows(program.entry.kind->Identifier_name@)
                && !(program.entry.kind->Identifier_name@ == "self"@ && old(self).initializing()) ==> {
                    &&& errors@.len() == old(self).found().len() + 1
                    &&& errors@.last() matches SemanticError::UndefinedVariable { name: n, span: sp }
                    &&& n@ == program.entry.kind->Identifier_name@ && sp == program.entry.span
                },
            extends_record(old(self).record(), final(self).record()),
            forall|k: int| 0 <= k < program.declarations@.len() && (#[trigger] program.declarations@[k]) is Function
                ==> exists|j: int| old(self).record().len() <= j < final(self).record().len()
                    && (#[trigger] final(self).record()[j]).expr == *program.declarations@[k]->Function_0.body,
            exists|j: int| old(self).record().len() <= j < final(self).record().len()
                && (#[trigger] final(self).record()[j]).expr == *program.entry,
            program.declarations@.len() == 0 ==> (old(self).pure_check(*program.entry) matches Some((_, es))
                ==> shapes(errors@) == shapes(old(self).found()) + es),
            program_checked(*old(self), *program, final(self).record(), errors@),
            forall|k: int| 0 <= k < program.declarations@.len() ==> #[trigger] return_settled(program.declarations@, k,
                final(self).record(), old(self).record().len() as int, final(self).function_table()),
    {
        self.collect_all_declarations(&program.declarations);
        let ghost collected = self.errors@;
        let mut k: usize = 0;
        while k < program.declarations.len()
            invariant
                self.symbols.scopes().len() >= 1,
                extends_errors(old(self).errors@, self.errors@),
                extends_errors(collected, self.errors@),
                k <= program.declarations@.len(),
                program.declarations@.len() == 0 ==> self.symbols == old(self).symbols && self.errors == old(self).errors
                    && self.in_initializer == old(self).in_initializer && self.types == old(self).types,
                extends_record(old(self).checked@, self.checked@),
                forall|k2: int| 0 <= k2 < k && (#[trigger] program.declarations@[k2]) is Function
                    ==> exists|j: int| old(self).checked@.len() <= j < self.checked@.len()
                        && (#[trigger] self.checked@[j]).expr == *program.declarations@[k2]->Function_0.body,
                forall|k2: int| 0 <= k2 < k
                    ==> #[trigger] decl_checked(self.checked@, old(self).checked@.len() as int, program.declarations@[k2], self.errors@),
                forall|k2: int| 0 <= k2 < k ==> #[trigger] return_settled(program.declarations@, k2, self.checked@,
                    old(self).checked@.len() as int, self.functions@),
            decreases program.declarations@.len() - k,
        {
            let ghost before = self.checked@;
            let ghost errs_before = self.errors@;
            let ghost types_before = self.types;
            let ghost fns_before = self.functions@;
            self.check_decl(&program.declarations[k]);
            proof {
                let decls = program.declarations@;
                let other: Option<Seq<char>> = match decls[k as int] {
                    Decl::Function(g) => if g.return_type is None { Some(g.name@) } else { None },
                    _ => None,
                };
                assert forall|k2: int| 0 <= k2 < k + 1 implies #[trigger] return_settled(decls, k2, self.checked@,
                    old(self).checked@.len() as int, self.functions@) by {
                    if k2 < k {
                        if sole_function(decls, k2) {
                            if decls[k as int] is Function {
                                assert(decls[k as int]->Function_0.name@ != decls[k2]->Function_0.name@);
                            }
                        }
                        lemma_return_settled_kept(decls, k2, before, self.checked@, old(self).checked@.len() as int,
                            fns_before, self.functions@, other);
                    } else {
                        if sole_function(decls, k2) && decls[k2]->Function_0.return_type is None {
                            let j = self.checked@.len() - 1;
                            assert(self.checked@[j].expr == *decls[k2]->Function_0.body);
                            lemma_first_named_same_names(fns_before, self.functions@, decls[k2]->Function_0.name@);
                        }
                    }
                }
            }
            proof {
                assert forall|k2: int| 0 <= k2 < k + 1
                    implies #[trigger] decl_checked(self.checked@, old(self).checked@.len() as int, program.declarations@[k2], self.errors@) by {
                    if k2 < k {
                        lemma_decl_checked_kept(before, self.checked@, old(self).checked@.len() as int,
                            program.declarations@[k2], errs_before, self.errors@);
                    } else {
                        match program.declarations@[k2] {
                            Decl::Function(f) => {
                                let j = self.checked@.len() - 1;
                                assert(self.checked@[j].expr == *f.body);
                            }
                            Decl::Type(t) => {
                                if walks_into_cycle(types_before, Seq::empty(), t.name@, bound(types_before)) {
                                    let e = SemanticError::CircularInheritance { type_ident: t.name, span: t.span };
                                    assert(self.errors@[self.errors@.len() - 1] == e);
                                    assert(self.errors@.contains(e));
                                } else {
                                    assert(members_checked(self.checked@, old(self).checked@.len() as int, t, self.errors@));
                                }
                            }
                            Decl::Protocol(_) => {}
                        }
                    }
                }
                assert forall|k2: int| 0 <= k2 < k + 1 && (#[trigger] program.declarations@[k2]) is Function
                    implies exists|j: int| old(self).checked@.len() <= j < self.checked@.len()
                        && (#[trigger] self.checked@[j]).expr == *program.declarations@[k2]->Function_0.body by {
                    if k2 < k {
                        let j = choose|j: int| old(self).checked@.len() <= j < before.len()
                            && (#[trigger] before[j]).expr == *program.declarations@[k2]->Function_0.body;
                        assert(self.checked@[j] == before[j]);
                    } else {
                        let j = self.checked@.len() - 1;
                        assert(self.checked@[j].expr == *program.declarations@[k2]->Function_0.body);
                    }
                }
            }
            k = k + 1;
        }
        let ghost mid = *self;
        proof {
            if program.declarations@.len() == 0 {
                lemma_pure_same_env(*old(self), mid, *program.entry);
            }
        }
        self.check_expr(&program.entry);
        let ghost entry_at: int = self.checked@.len() - 1;
        let ghost after_entry = *self;
        proof {
            if program.declarations@.len() == 0 && program.entry.kind is Identifier
                && !old(self).knows(program.entry.kind->Identifier_name@) {
                let name = program.entry.kind->Identifier_name@;
                assert forall|j: int| 0 <= j < mid.symbols.scopes().len() implies !scope_has(#[trigger] mid.symbols.scopes()[j], name) by {
                    assert(!old(self).symbols.bound(name));
                }
                lemma_unbound_resolves_none(mid.symbols.scopes(), name, mid.symbols.scopes().len() as int);
            }
        }
        self.reinfer_unknown_returns(&program.declarations);
        let mut errors: Vec<SemanticError> = Vec::new();
        std::mem::swap(&mut errors, &mut self.errors);
        proof {
            assert(self.checked@[entry_at] == after_entry.checked@[entry_at]);
            assert(self.checked@[entry_at].expr == *program.entry);
            assert forall|k: int| 0 <= k < program.declarations@.len() && (#[trigger] program.declarations@[k]) is Function
                implies exists|j: int| old(self).checked@.len() <= j < self.checked@.len()
                    && (#[trigger] self.checked@[j]).expr == *program.declarations@[k]->Function_0.body by {
                let j = choose|j: int| old(self).checked@.len() <= j < mid.checked@.len()
                    && (#[trigger] mid.checked@[j]).expr == *program.declarations@[k]->Function_0.body;
                assert(after_entry.checked@[j] == mid.checked@[j]);
                assert(self.checked@[j] == after_entry.checked@[j]);
                assert(self.record()[j].expr == *program.declarations@[k]->Function_0.body);
            }
        }
        proof {
            assert forall|j: int| #[trigger] redeclared_function(program.declarations@, j)
                implies errors@.contains(redefinition_of(program.declarations@[j]->Function_0)) by {
                lemma_still_found(collected, errors@, redefinition_of(program.declarations@[j]->Function_0));
            }
            assert forall|k: int| 0 <= k < program.declarations@.len()
                implies #[trigger] decl_checked(self.checked@, old(self).checked@.len() as int, program.declarations@[k], errors@) by {
                assert(decl_checked(mid.checked@, old(self).checked@.len() as int, program.declarations@[k], mid.errors@));
                lemma_decl_checked_kept(mid.checked@, self.checked@, old(self).checked@.len() as int,
                    program.declarations@[k], mid.errors@, errors@);
            }
            assert(self.checked@[entry_at].errs == errors@);
            assert(program_checked(*old(self), *program, self.record(), errors@));
            let decls = program.declarations@;
            let from = old(self).checked@.len() as int;
            assert forall|k: int| 0 <= k < decls.len() implies #[trigger] return_settled(decls, k,
                self.checked@, from, self.functions@) by {
                assert(return_settled(decls, k, mid.checked@, from, mid.functions@));
                lemma_return_settled_kept(decls, k, mid.checked@, after_entry.checked@, from,
                    mid.functions@, after_entry.functions@, None);
                if sole_function(decls, k) && decls[k]->Function_0.return_type is None {
                    let f = decls[k]->Function_0;
                    let ae = after_entry.checked@;
                    let j = choose|j: int| from <= j < ae.len() && (#[trigger] ae[j]).expr == *f.body
                        && (settled_type(ae[j].ty) ==> (first_named(after_entry.functions@, f.name@) matches Some(i)
                            ==> after_entry.functions@[i].1.return_type == ae[j].ty));
                    assert(self.checked@[j] == ae[j]);
                    lemma_first_named_same_names(after_entry.functions@, self.functions@, f.name@);
                    if settled_type(ae[j].ty) {
                        if let Some(i) = first_named(after_entry.functions@, f.name@) {
                            lemma_first_named_found(after_entry.functions@, f.name@, 0);
                            assert(self.functions@[i].1.return_type == after_entry.functions@[i].1.return_type);
                        }
                    }
                }
            }
        }
        errors
    }

    /// Functions whose return type is still unknown get the type of their
    /// body, checked again now that every function has been seen. Errors of
    /// this second look are dropped.
    fn reinfer_unknown_returns(&mut self, decls: &Vec<Decl>)
        requires
            old(self).symbols.scopes().len() >= 1,
        ensures
            final(self).symbols.scopes().len() == old(self).symbols.scopes().len(),
            final(self).errors@ == old(self).errors@,
            extends_record(old(self).checked@, final(self).checked@),
            final(self).functions@.len() == old(self).functions@.len(),
            forall|i: int| 0 <= i < old(self).functions@.len() ==> {
                &&& (#[trigger] final(self).functions@[i]).0@ == old(self).functions@[i].0@
                &&& final(self).functions@[i].1.return_type == old(self).functions@[i].1.return_type
                    || (old(self).functions@[i].1.return_type is Unknown && settled_type(final(self).functions@[i].1.return_type))
            },
            forall|k: int| 0 <= k < decls@.len() && #[trigger] first_function_named(decls@, k)
                && (first_named(old(self).functions@, decls@[k]->Function_0.name@) matches Some(i)
                    && old(self).functions@[i].1.return_type is Unknown)
                ==> exists|j: int| old(self).checked@.len() <= j < final(self).checked@.len()
                    && (#[trigger] final(self).checked@[j]).expr == *decls@[k]->Function_0.body
                    && (settled_type(final(self).checked@[j].ty) ==> final(self).functions@[
                        first_named(old(self).functions@, decls@[k]->Function_0.name@)->0].1.return_type == final(self).checked@[j].ty),
    {
        let ghost f0 = self.functions@;
        let ghost r0 = self.checked@;
        let mut k: usize = 0;
        while k < decls.len()
            invariant
                self.symbols.scopes().len() >= 1,
                self.symbols.scopes().len() == old(self).symbols.scopes().len(),
                self.errors@ == old(self).errors@,
                k <= decls@.len(),
                f0 == old(self).functions@,
                r0 == old(self).checked@,
                extends_record(r0, self.checked@),
                self.functions@.len() == f0.len(),
                forall|i: int| 0 <= i < f0.len() ==> {
                    &&& (#[trigger] self.functions@[i]).0@ == f0[i].0@
                    &&& self.functions@[i].1.return_type == f0[i].1.return_type
                        || (f0[i].1.return_type is Unknown && settled_type(self.functions@[i].1.return_type))
                },
                forall|i: int| 0 <= i < f0.len() && (forall|k2: int| 0 <= k2 < k && (#[trigger] decls@[k2]) is Function
                    ==> decls@[k2]->Function_0.name@ != f0[i].0@)
                    ==> (#[trigger] self.functions@[i]).1.return_type == f0[i].1.return_type,
                forall|k2: int| 0 <= k2 < k && #[trigger] first_function_named(decls@, k2)
                    && (first_named(f0, decls@[k2]->Function_0.name@) matches Some(i) && f0[i].1.return_type is Unknown)
                    ==> exists|j: int| r0.len() <= j < self.checked@.len()
                        && (#[trigger] self.checked@[j]).expr == *decls@[k2]->Function_0.body
                        && (settled_type(self.checked@[j].ty) ==> self.functions@[
                            first_named(f0, decls@[k2]->Function_0.name@)->0].1.return_type == self.checked@[j].ty),
            decreases decls@.len() - k,
        {
            let ghost fk = self.functions@;
            let ghost rk = self.checked@;
            let ghost mut witness: int = -1;
            let ghost mut changed: int = -1;
            let ghost premise = first_function_named(decls@, k as int)
                && (first_named(f0, decls@[k as int]->Function_0.name@) matches Some(i) && f0[i].1.return_type is Unknown);
            if let Decl::Function(f) = &decls[k] {
                if let Some(fi) = find_entry(&self.functions, f.name.as_str()) {
                    proof {
                        lemma_first_named(self.functions@, f.name@, fi as int);
                        assert forall|j2: int| 0 <= j2 < fi implies f0[j2].0@ != f.name@ by {
                            assert(self.functions@[j2].0@ == f0[j2].0@);
                        }
                        lemma_first_named(f0, f.name@, fi as int);
                    }
                    if self.functions[fi].1.return_type.is_unknown() {
                        let param_types = copy_named(&self.functions[fi].1.params);
                        self.symbols.push_scope();
                        let mut j: usize = 0;
                        while j < param_types.len()
                            invariant
                                self.symbols.scopes().len() >= 1,
                                self.symbols.scopes().len() == old(self).symbols.scopes().len() + 1,
                                self.errors@ == old(self).errors@,
                                self.functions@ == fk,
                                self.checked@ == rk,
                                j <= param_types@.len(),
                            decreases param_types@.len() - j,
                        {
                            let pname = param_types[j].0.as_str();
                            self.symbols.define(pname, Symbol::variable(pname, param_types[j].1.copy(), false));
                            j = j + 1;
                        }
                        let prev_len = self.errors.len();
                        let inferred = self.check_expr(&f.body);
                        proof { witness = self.checked@.len() - 1; }
                        self.errors.truncate(prev_len);
                        assert(self.errors@ =~= old(self).errors@);
                        self.symbols.pop_scope();
                        if !inferred.is_never() && !inferred.is_unknown() {
                            let ghost fm = self.functions@;
                            if let Some(fi2) = find_entry(&self.functions, f.name.as_str()) {
                                proof {
                                    assert forall|j2: int| 0 <= j2 < fi2 implies f0[j2].0@ != f.name@ by {
                                        assert(self.functions@[j2].0@ == f0[j2].0@);
                                    }
                                    lemma_first_named(f0, f.name@, fi2 as int);
                                }
                                let params = copy_named(&self.functions[fi2].1.params);
                                let key = self.functions[fi2].0.clone();
                                proof { assert(key@ == fm[fi2 as int].0@); }
                                self.functions.set(fi2, (key, FuncSignature { params, return_type: inferred }));
                                proof {
                                    changed = fi as int;
                                    assert forall|idx: int| 0 <= idx < f0.len() && idx != fi implies
                                        self.functions@[idx].1.return_type == fk[idx].1.return_type by {
                                        assert(self.functions@[idx] == fm[idx]);
                                    }
                                    assert(fi2 == fi);
                                    assert(self.functions@[fi as int].1.return_type == self.checked@[witness].ty);
                                }
                            } else {
                                proof { assert(fm[fi as int].0@ == f.name@); }
                            }
                        }
                    } else {
                        proof {
                            if first_function_named(decls@, k as int) {
                                assert(forall|k3: int| 0 <= k3 < k && (#[trigger] decls@[k3]) is Function
                                    ==> decls@[k3]->Function_0.name@ != f0[fi as int].0@);
                                assert(fk[fi as int].1.return_type == f0[fi as int].1.return_type);
                            }
                            assert(!premise);
                        }
                    }
                } else {
                    proof {
                        assert forall|j2: int| 0 <= j2 < f0.len() implies f0[j2].0@ != f.name@ by {
                            assert(fk[j2].0@ == f0[j2].0@);
                        }
                        assert(!premise);
                    }
                }
            } else {
                proof { assert(!premise); }
            }
            proof {
                assert(changed != -1 ==> fk[changed].1.return_type is Unknown);
                assert(forall|idx: int| 0 <= idx < f0.len() && idx != changed ==>
                    #[trigger] self.functions@[idx].1.return_type == fk[idx].1.return_type);
                assert forall|k2: int| 0 <= k2 < k + 1 && #[trigger] first_function_named(decls@, k2)
                    && (first_named(f0, decls@[k2]->Function_0.name@) matches Some(i) && f0[i].1.return_type is Unknown)
                    implies exists|j: int| r0.len() <= j < self.checked@.len()
                        && (#[trigger] self.checked@[j]).expr == *decls@[k2]->Function_0.body
                        && (settled_type(self.checked@[j].ty) ==> self.functions@[
                            first_named(f0, decls@[k2]->Function_0.name@)->0].1.return_type == self.checked@[j].ty) by {
                    let i = first_named(f0, decls@[k2]->Function_0.name@)->0;
                    if k2 < k {
                        let j = choose|j: int| r0.len() <= j < rk.len()
                            && (#[trigger] rk[j]).expr == *decls@[k2]->Function_0.body
                            && (settled_type(rk[j].ty) ==> fk[i].1.return_type == rk[j].ty);
                        assert(self.checked@[j] == rk[j]);
                        if settled_type(rk[j].ty) {
                            lemma_first_named_found(f0, decls@[k2]->Function_0.name@, 0);
                            assert(fk[i].1.return_type == rk[j].ty);
                            assert(i != changed);
                            assert(self.functions@[i].1.return_type == fk[i].1.return_type);
                        }
                        assert(r0.len() <= j < self.checked@.len());
                    } else {
                        assert(premise);
                        assert(witness == self.checked@.len() - 1);
                        let j = witness;
                        assert(self.checked@[j].expr == *decls@[k2]->Function_0.body);
                        if settled_type(self.checked@[j].ty) {
                            assert(self.functions@[i].1.return_type == self.checked@[j].ty);
                        }
                        assert(r0.len() <= j < self.checked@.len());
                    }
                }
            }
            k = k + 1;
        }
    }

    fn collect_all_declarations(&mut self, decls: &Vec<Decl>)
        requires
            old(self).symbols.scopes().len() >= 1,
        ensures
            decls@.len() == 0 ==> final(self).types == old(self).types,
            final(self).checked == old(self).checked,
            final(self).symbols.scopes().len() == old(self).symbols.scopes().len(),
            extends_errors(old(self).errors@, final(self).errors@),
            decls@.len() == 0 ==> final(self).symbols == old(self).symbols && final(self).errors == old(self).errors
                && final(self).in_initializer == old(self).in_initializer,
            forall|j: int| #[trigger] redeclared_function(decls@, j)
                ==> final(self).errors@.contains(redefinition_of(decls@[j]->Function_0)),
    {
        let mut k: usize = 0;
        while k < decls.len()
            invariant
                self.checked == old(self).checked,
                decls@.len() == 0 ==> self.types == old(self).types,
                self.symbols.scopes().len() >= 1,
                self.symbols.scopes().len() == old(self).symbols.scopes().len(),
                extends_errors(old(self).errors@, self.errors@),
                k <= decls@.len(),
                decls@.len() == 0 ==> self.symbols == old(self).symbols && self.errors == old(self).errors
                    && self.in_initializer == old(self).in_initializer,
                forall|i: int| 0 <= i < k && (#[trigger] decls@[i]) is Function
                    ==> scope_has(self.symbols.scopes().last(), decls@[i]->Function_0.name@),
                forall|j: int| 0 <= j < k && #[trigger] redeclared_function(decls@, j)
                    ==> self.errors@.contains(redefinition_of(decls@[j]->Function_0)),
            decreases decls@.len() - k,
        {
            let ghost before = *self;
            match &decls[k] {
                Decl::Function(f) => self.collect_func(f),
                Decl::Type(t) => self.collect_type(t),
                Decl::Protocol(p) => self.collect_protocol(p),
            }
            proof {
                assert forall|i: int| 0 <= i < k + 1 && (#[trigger] decls@[i]) is Function
                    implies scope_has(self.symbols.scopes().last(), decls@[i]->Function_0.name@) by {
                    if i < k {
                        assert(scope_has(before.symbols.scopes().last(), decls@[i]->Function_0.name@));
                    }
                }
                assert forall|j: int| 0 <= j < k + 1 && #[trigger] redeclared_function(decls@, j)
                    implies self.errors@.contains(redefinition_of(decls@[j]->Function_0)) by {
                    if j < k {
                        lemma_still_found(before.errors@, self.errors@, redefinition_of(decls@[j]->Function_0));
                    } else {
                        let i = choose|i: int| 0 <= i < j && (#[trigger] decls@[i]) is Function
                            && decls@[i]->Function_0.name@ == decls@[j]->Function_0.name@;
                        assert(scope_has(before.symbols.scopes().last(), decls@[i]->Function_0.name@));
                        assert(self.errors@[self.errors@.len() - 1] == redefinition_of(decls@[j]->Function_0));
                    }
                }
            }
            k = k + 1;
        }
        let mut k: usize = 0;
        while k < decls.len()
            invariant
                self.checked == old(self).checked,
                decls@.len() == 0 ==> self.types == old(self).types,
                self.symbols.scopes().len() >= 1,
                self.symbols.scopes().len() == old(self).symbols.scopes().len(),
                extends_errors(old(self).errors@, self.errors@),
                k <= decls@.len(),
                decls@.len() == 0 ==> self.symbols == old(self).symbols && self.errors == old(self).errors
                    && self.in_initializer == old(self).in_initializer,
                forall|j: int| #[trigger] redeclared_function(decls@, j)
                    ==> self.errors@.contains(redefinition_of(decls@[j]->Function_0)),
            decreases decls@.len() - k,
        {
            let ghost before = self.errors@;
            if let Decl::Type(t) = &decls[k] {
                self.collect_type_members(t);
            }
            proof {
                assert forall|j: int| #[trigger] redeclared_function(decls@, j)
                    implies self.errors@.contains(redefinition_of(decls@[j]->Function_0)) by {
                    lemma_still_found(before, self.errors@, redefinition_of(decls@[j]->Function_0));
                }
            }
            k = k + 1;
        }
    }

    /// The types of a parameter list, as declared (`Unknown` when not annotated).
    fn param_types(&self, params: &Vec<Param>) -> (r: Vec<(String, HulkType)>)
        ensures
            r@.len() == params@.len(),
            params_declared(self.protocol_list(), params@, r@),
    {
        let mut r: Vec<(String, HulkType)> = Vec::new();
        let mut k: usize = 0;
        while k < params.len()
            invariant
                k <= params@.len(),
                r@.len() == k,
                forall|j: int| 0 <= j < k ==> (#[trigger] r@[j]).0@ == params@[j].name@
                    && declared_type(self.protocol_list(), params@[j].type_ann, r@[j].1),
            decreases params@.len() - k,
        {
            let ty = self.resolve_opt_type(&params[k].type_ann, params[k].span);
            r.push((params[k].name.clone(), ty));
            k = k + 1;
        }
        r
    }

    fn collect_func(&mut self, f: &FuncDecl)
        requires
            old(self).symbols.scopes().len() >= 1,
        ensures
            final(self).checked == old(self).checked,
            final(self).symbols.scopes().len() == old(self).symbols.scopes().len(),
            extends_errors(old(self).errors@, final(self).errors@),
            keeps_names(*old(self), *final(self)),
            scope_has(final(self).symbols.scopes().last(), f.name@),
            scope_has(old(self).symbols.scopes().last(), f.name@)
                ==> final(self).errors@ == old(self).errors@.push(redefinition_of(*f)),
    {
        if self.symbols.in_current_scope(f.name.as_str()) {
            self.errors.push(SemanticError::Redefinition { name: f.name.clone(), span: f.span });
            return;
        }
        let named = self.param_types(&f.params);
        let params = types_of(&named);
        let ret = self.resolve_opt_type(&f.return_type, f.span);
        let ret2 = ret.copy();
        self.symbols.define(f.name.as_str(), Symbol::function(f.name.as_str(), params, ret));
        set_entry(&mut self.functions, f.name.as_str(), FuncSignature { params: named, return_type: ret2 });
    }

    fn collect_type(&mut self, t: &TypeDecl)
        requires
            old(self).symbols.scopes().len() >= 1,
        ensures
            final(self).checked == old(self).checked,
            final(self).symbols.scopes().len() == old(self).symbols.scopes().len(),
            extends_errors(old(self).errors@, final(self).errors@),
            keeps_names(*old(self), *final(self)),
            scope_has(final(self).symbols.scopes().last(), t.name@),
            final(self).types.protocols == old(self).types.protocols,
            ({
                let es = old(self).errors@.len();
                let prim = t.parent matches Some(p) && primitive_name(type_name_name(p));
                let undef = t.parent matches Some(p) && !has_type_named(old(self).types.types@, type_name_name(p));
                &&& final(self).errors@.len() == es + (if prim { 1nat } else { 0nat }) + (if undef { 1nat } else { 0nat })
                &&& prim ==> (final(self).errors@[es as int] matches SemanticError::InheritFromPrimitive { type_ident, span }
                    && type_ident@ == t.name@ && span == t.span)
                &&& undef ==> (final(self).errors@.last() matches SemanticError::UndefinedType { name, span }
                    && name@ == type_name_name(t.parent->0) && span == type_name_span(t.parent->0))
            }),
            has_type_named(old(self).types.types@, t.name@) ==> final(self).types.types == old(self).types.types,
            !has_type_named(old(self).types.types@, t.name@) ==> {
                let added = final(self).types.types@.last();
                &&& final(self).types.types@.drop_last() == old(self).types.types@
                &&& final(self).types.types@.len() == old(self).types.types@.len() + 1
                &&& added.name@ == t.name@
                &&& (match t.parent {
                    None => added.parent is None,
                    Some(p) => added.parent matches Some(q) && q@ == type_name_name(p),
                })
                &&& added.constructor_params@.len() == t.type_args@.len()
                &&& added.attributes@.len() == 0 && added.methods@.len() == 0 && !added.is_builtin
            },
    {
        proof { reveal_strlit("Number"); reveal_strlit("String"); reveal_strlit("Boolean"); }
        if let Some(parent) = &t.parent {
            let pname = parent.name();
            if str_eq(pname, "Number") || str_eq(pname, "String") || str_eq(pname, "Boolean") {
                self.errors.push(SemanticError::InheritFromPrimitive { type_ident: t.name.clone(), span: t.span });
            }
            if find_type(&self.types.types, pname).is_none() {
                self.errors.push(SemanticError::UndefinedType { name: pname.to_owned(), span: parent.span() });
            }
        }
        let constructor_params = self.param_types(&t.type_args);
        if find_type(&self.types.types, t.name.as_str()).is_none() {
            let parent = match &t.parent {
                Some(p) => Some(p.name().to_owned()),
                None => None,
            };
            self.types.types.push(TypeInfo {
                name: t.name.clone(),
                parent,
                constructor_params,
                attributes: Vec::new(),
                methods: Vec::new(),
                is_builtin: false,
            });
        }
        if !self.symbols.in_current_scope(t.name.as_str()) {
            self.symbols.define(t.name.as_str(), Symbol::type_sym(t.name.as_str()));
        }
    }

    #[verifier::spinoff_prover]
    #[verifier::rlimit(100)]
    fn collect_type_members(&mut self, t: &TypeDecl)
        requires
            old(self).symbols.scopes().len() >= 1,
        ensures
            final(self).checked == old(self).checked,
            final(self).symbols.scopes() == old(self).symbols.scopes(),
            extends_errors(old(self).errors@, final(self).errors@),
            final(self).types.protocols == old(self).types.protocols,
            same_type_names(old(self).types.types@, final(self).types.types@),
            forall|e: int| old(self).errors@.len() <= e < final(self).errors@.len()
                ==> override_error_of(t.members@, #[trigger] final(self).errors@[e]),
            (match first_type(old(self).types.types@, t.name@) {
                None => true,
                Some(i) => old(self).types.types@[i].parent is Some,
            }) || final(self).errors == old(self).errors,
            first_type(old(self).types.types@, t.name@) matches Some(i) ==> forall|k: int| 0 <= k < t.members@.len() ==> {
                &&& (#[trigger] t.members@[k]) is Attribute ==> has_named(final(self).types.types@[i].attributes@, t.members@[k]->Attribute_0.name@)
                &&& t.members@[k] is Method ==> has_named(final(self).types.types@[i].methods@, t.members@[k]->Method_0.name@)
            },
            first_type(old(self).types.types@, t.name@) matches Some(i) ==> forall|k: int| 0 <= k < t.members@.len()
                && last_of_name(t.members@, k, t.members@.len() as int)
                ==> member_registered(old(self).types.protocols@, final(self).types.types@[i], #[trigger] t.members@[k]),
    {
        let ghost ti = first_type(self.types.types@, t.name@);
        let mut k: usize = 0;
        while k < t.members.len()
            invariant
                self.checked == old(self).checked,
                self.symbols.scopes().len() >= 1,
                self.symbols.scopes() == old(self).symbols.scopes(),
                extends_errors(old(self).errors@, self.errors@),
                k <= t.members@.len(),
                ti == first_type(old(self).types.types@, t.name@),
                self.types.protocols == old(self).types.protocols,
                same_type_names(old(self).types.types@, self.types.types@),
                forall|e: int| old(self).errors@.len() <= e < self.errors@.len()
                    ==> override_error_of(t.members@, #[trigger] self.errors@[e]),
                (match ti { None => true, Some(i) => old(self).types.types@[i].parent is Some }) || self.errors == old(self).errors,
                ti matches Some(i) ==> forall|k2: int| 0 <= k2 < k ==> {
                    &&& (#[trigger] t.members@[k2]) is Attribute ==> has_named(self.types.types@[i].attributes@, t.members@[k2]->Attribute_0.name@)
                    &&& t.members@[k2] is Method ==> has_named(self.types.types@[i].methods@, t.members@[k2]->Method_0.name@)
                },
                ti matches Some(i) ==> forall|k2: int| 0 <= k2 < k && last_of_name(t.members@, k2, k as int)
                    ==> member_registered(old(self).types.protocols@, self.types.types@[i], #[trigger] t.members@[k2]),
            decreases t.members@.len() - k,
        {
            let ghost before = *self;
            match &t.members[k] {
                TypeMember::Attribute(attr) => {
                    let ty = self.resolve_opt_type(&attr.type_ann, attr.span);
                    if let Some(i) = find_type(&self.types.types, t.name.as_str()) {
                        proof {
                            assert forall|j: int| 0 <= j < i implies old(self).types.types@[j].name@ != t.name@ by {
                                assert(self.types.types@[j].name@ == old(self).types.types@[j].name@);
                            }
                            lemma_first_type(old(self).types.types@, t.name@, i as int);
                        }
                        set_entry(&mut self.types.types[i].attributes, attr.name.as_str(), ty);
                        proof {
                            let ps = old(self).types.protocols@;
                            assert(self.types.types@[i as int].methods == before.types.types@[i as int].methods);
                            assert forall|k2: int| 0 <= k2 < k + 1 && last_of_name(t.members@, k2, k + 1)
                                implies member_registered(ps, self.types.types@[i as int], #[trigger] t.members@[k2]) by {
                                if k2 < k {
                                    assert(last_of_name(t.members@, k2, k as int));
                                    assert(member_registered(ps, before.types.types@[i as int], t.members@[k2]));
                                    if t.members@[k2] is Attribute {
                                        assert(t.members@[k2]->Attribute_0.name@ != attr.name@);
                                    }
                                }
                            }
                            assert forall|j: int| 0 <= j < old(self).types.types@.len() implies
                                (#[trigger] self.types.types@[j]).name@ == old(self).types.types@[j].name@
                                && self.types.types@[j].parent == old(self).types.types@[j].parent by {
                                assert(self.types.types@[j].name == before.types.types@[j].name);
                            }
                        }
                    } else {
                        proof {
                            assert(!has_type_named(old(self).types.types@, t.name@)) by {
                                if has_type_named(old(self).types.types@, t.name@) {
                                    let j = choose|j: int| 0 <= j < old(self).types.types@.len() && old(self).types.types@[j].name@ == t.name@;
                                    assert(self.types.types@[j].name@ == t.name@);
                                }
                            }
                        }
                    }
                }
                TypeMember::Method(method) => {
                    let params = self.param_types(&method.params);
                    let ret = self.resolve_opt_type(&method.return_type, method.span);
                    let sig = FuncSignature { params, return_type: ret };
                    if let Some(ti) = find_type(&self.types.types, t.name.as_str()) {
                        if let Some(parent_name) = &self.types.types[ti].parent {
                            let pname = parent_name.clone();
                            if let Some(pi) = find_type(&self.types.types, pname.as_str()) {
                                if let Some(mi) = find_entry(&self.types.types[pi].methods, method.name.as_str()) {
                                    let parent_sig = self.types.types[pi].methods[mi].1.copy();
                                    if self.override_mismatch(&sig, &parent_sig) {
                                        self.errors.push(SemanticError::OverrideMismatch { method: method.name.clone(), span: method.span });
                                        proof {
                                            assert(t.members@[k as int] is Method);
                                            assert(override_error_of(t.members@, self.errors@[self.errors@.len() - 1]));
                                            assert forall|j: int| 0 <= j < ti implies old(self).types.types@[j].name@ != t.name@ by {
                                                assert(self.types.types@[j].name@ == old(self).types.types@[j].name@);
                                            }
                                            lemma_first_type(old(self).types.types@, t.name@, ti as int);
                                        }
                                    }
                                }
                            }
                        }
                    }
                    let ghost mid = *self;
                    if let Some(i) = find_type(&self.types.types, t.name.as_str()) {
                        proof {
                            assert forall|j: int| 0 <= j < i implies old(self).types.types@[j].name@ != t.name@ by {
                                assert(self.types.types@[j].name@ == old(self).types.types@[j].name@);
                            }
                            lemma_first_type(old(self).types.types@, t.name@, i as int);
                        }
                        set_entry(&mut self.types.types[i].methods, method.name.as_str(), sig);
                        proof {
                            let ps = old(self).types.protocols@;
                            assert(self.types.types@[i as int].attributes == mid.types.types@[i as int].attributes);
                            assert(mid.types.types@[i as int] == before.types.types@[i as int]);
                            assert forall|k2: int| 0 <= k2 < k + 1 && last_of_name(t.members@, k2, k + 1)
                                implies member_registered(ps, self.types.types@[i as int], #[trigger] t.members@[k2]) by {
                                if k2 < k {
                                    assert(last_of_name(t.members@, k2, k as int));
                                    assert(member_registered(ps, before.types.types@[i as int], t.members@[k2]));
                                    if t.members@[k2] is Method {
                                        assert(t.members@[k2]->Method_0.name@ != method.name@);
                                    }
                                }
                            }
                            assert forall|j: int| 0 <= j < old(self).types.types@.len() implies
                                (#[trigger] self.types.types@[j]).name@ == old(self).types.types@[j].name@
                                && self.types.types@[j].parent == old(self).types.types@[j].parent by {
                                assert(self.types.types@[j].name == mid.types.types@[j].name);
                            }
                        }
                    } else {
                        proof {
                            assert(!has_type_named(old(self).types.types@, t.name@)) by {
                                if has_type_named(old(self).types.types@, t.name@) {
                                    let j = choose|j: int| 0 <= j < old(self).types.types@.len() && old(self).types.types@[j].name@ == t.name@;
                                    assert(self.types.types@[j].name@ == t.name@);
                                }
                            }
                        }
                    }
                }
            }
            k = k + 1;
        }
    }

    /// An override must keep the number of parameters, their types where
    /// both are known, and return a type that conforms to the parent's.
    fn override_mismatch(&self, sig: &FuncSignature, parent_sig: &FuncSignature) -> (b: bool)
        ensures
            sig.params@.len() != parent_sig.params@.len() ==> b,
            b == override_refused(self.types, *sig, *parent_sig),
    {
        if sig.params.len() != parent_sig.params.len() {
            return true;
        }
        let mut k: usize = 0;
        while k < sig.params.len()
            invariant
                k <= sig.params@.len(),
                sig.params@.len() == parent_sig.params@.len(),
                forall|j: int| 0 <= j < k ==> !(!((#[trigger] sig.params@[j]).1 is Unknown)
                    && !(parent_sig.params@[j].1 is Unknown) && !ty_eq(sig.params@[j].1, parent_sig.params@[j].1)),
            decreases sig.params@.len() - k,
        {
            let c = &sig.params[k].1;
            let p = &parent_sig.params[k].1;
            if !c.is_unknown() && !p.is_unknown() && !c.same(p) {
                return true;
            }
            k = k + 1;
        }
        !sig.return_type.is_unknown() && !parent_sig.return_type.is_unknown()
            && !self.types.conforms(&sig.return_type, &parent_sig.return_type)
    }

    #[verifier::spinoff_prover]
    #[verifier::rlimit(60)]
    fn collect_protocol(&mut self, p: &ProtocolDecl)
        requires
            old(self).symbols.scopes().len() >= 1,
        ensures
            final(self).checked == old(self).checked,
            final(self).symbols.scopes().len() == old(self).symbols.scopes().len(),
            extends_errors(old(self).errors@, final(self).errors@),
            keeps_names(*old(self), *final(self)),
            scope_has(final(self).symbols.scopes().last(), p.name@),
            final(self).types.types == old(self).types.types,
            if p.extends matches Some(e) && !has_protocol_named(old(self).types.protocols@, type_name_name(e)) {
                &&& one_more(old(self).errors@, final(self).errors@)
                &&& final(self).errors@.last() matches SemanticError::UndefinedType { name, span }
                &&& name@ == type_name_name(p.extends->0) && span == type_name_span(p.extends->0)
            } else {
                final(self).errors == old(self).errors
            },
            has_protocol_named(old(self).types.protocols@, p.name@) ==> final(self).types.protocols == old(self).types.protocols,
            !has_protocol_named(old(self).types.protocols@, p.name@) ==> {
                let added = final(self).types.protocols@.last();
                &&& final(self).types.protocols@.drop_last() == old(self).types.protocols@
                &&& final(self).types.protocols@.len() == old(self).types.protocols@.len() + 1
                &&& added.name@ == p.name@
                &&& (match p.extends {
                    None => added.extends is None,
                    Some(e) => added.extends matches Some(q) && q@ == type_name_name(e),
                })
                &&& forall|k: int| 0 <= k < p.methods@.len() ==> has_named(added.methods@, (#[trigger] p.methods@[k]).name@)
                &&& forall|n: Seq<char>| #[trigger] has_named(added.methods@, n)
                    ==> exists|k: int| 0 <= k < p.methods@.len() && (#[trigger] p.methods@[k]).name@ == n
            },
    {
        let ghost e0 = self.errors@;
        if let Some(extends) = &p.extends {
            if find_protocol(&self.types.protocols, extends.name()).is_none() {
                self.errors.push(SemanticError::UndefinedType { name: extends.name().to_owned(), span: extends.span() });
                assert(self.errors@.drop_last() =~= e0);
            }
        }
        let mut methods: Vec<(String, FuncSignature)> = Vec::new();
        let mut k: usize = 0;
        while k < p.methods.len()
            invariant
                k <= p.methods@.len(),
                forall|j: int| 0 <= j < k ==> has_named(methods@, (#[trigger] p.methods@[j]).name@),
                forall|n: Seq<char>| #[trigger] has_named(methods@, n)
                    ==> exists|j: int| 0 <= j < k && (#[trigger] p.methods@[j]).name@ == n,
            decreases p.methods@.len() - k,
        {
            let sig = &p.methods[k];
            let params = self.param_types(&sig.params);
            let ret = self.resolve_type_name(&sig.return_type);
            let ghost m0 = methods@;
            set_entry(&mut methods, sig.name.as_str(), FuncSignature { params, return_type: ret });
            proof {
                assert forall|j: int| 0 <= j < k + 1 implies has_named(methods@, (#[trigger] p.methods@[j]).name@) by {
                    if j < k && p.methods@[j].name@ != sig.name@ {
                        assert(has_named(m0, p.methods@[j].name@));
                    }
                }
                assert forall|n: Seq<char>| #[trigger] has_named(methods@, n)
                    implies exists|j: int| 0 <= j < k + 1 && (#[trigger] p.methods@[j]).name@ == n by {
                    if n != sig.name@ {
                        assert(has_named(m0, n));
                        let j = choose|j: int| 0 <= j < k && (#[trigger] p.methods@[j]).name@ == n;
                        assert(0 <= j < k + 1);
                    } else {
                        assert(p.methods@[k as int].name@ == n);
                    }
                }
            }
            k = k + 1;
        }
        if find_protocol(&self.types.protocols, p.name.as_str()).is_none() {
            let extends = match &p.extends {
                Some(e) => Some(e.name().to_owned()),
                None => None,
            };
            self.types.protocols.push(ProtocolInfo { name: p.name.clone(), extends, methods });
        }
        if !self.symbols.in_current_scope(p.name.as_str()) {
            self.symbols.define(p.name.as_str(), Symbol::protocol_sym(p.name.as_str()));
        }
    }

    fn check_decl(&mut self, decl: &Decl)
        requires
            old(self).symbols.scopes().len() >= 1,
        ensures
            extends_record(old(self).checked@, final(self).checked@),
            final(self).symbols.scopes().len() == old(self).symbols.scopes().len(),
            extends_errors(old(self).errors@, final(self).errors@),
            decl matches Decl::Function(f) ==> {
                &&& final(self).record().len() > old(self).record().len()
                &&& final(self).record().last().expr == *f.body
                &&& final(self).record().last().start == old(self).record().len()
                &&& final(self).record().last().errors_before == old(self).found().len()
                &&& declared_result(old(self).hierarchy(), f.return_type, f.span, final(self).record().last(), final(self).found())
                &&& extends_errors(final(self).record().last().errs, final(self).found())
                &&& return_inferred(old(self).function_table(), *f, final(self).record().last().ty, final(self).function_table())
            },
            decl is Type ==> same_functions(old(self).function_table(), final(self).function_table()),
            decl matches Decl::Type(t) ==> (walks_into_cycle(old(self).types, Seq::empty(), t.name@, bound(old(self).types))
                ==> final(self).errors@ == old(self).errors@.push(SemanticError::CircularInheritance { type_ident: t.name, span: t.span })),
            decl matches Decl::Type(t) ==> (!walks_into_cycle(old(self).types, Seq::empty(), t.name@, bound(old(self).types))
                ==> forall|k: int| 0 <= k < t.members@.len()
                    ==> exists|j: int| old(self).checked@.len() <= j < final(self).checked@.len()
                        && (#[trigger] final(self).checked@[j]).expr == member_body(#[trigger] t.members@[k])
                        && extends_errors(final(self).checked@[j].errs, final(self).errors@)),
            decl matches Decl::Type(t) ==> (!walks_into_cycle(old(self).types, Seq::empty(), t.name@, bound(old(self).types))
                ==> exists|rec: Seq<Checked>, errs: Seq<SemanticError>|
                    #[trigger] parent_args_checked(old(self).types, old(self).checked@.len() as int, old(self).errors@, *t, rec, errs)
                    && extends_record(rec, final(self).checked@) && extends_errors(errs, final(self).errors@)),
            decl is Protocol ==> final(self).found() == old(self).found() && final(self).record() == old(self).record()
                && final(self).function_table() == old(self).function_table(),
    {
        match decl {
            Decl::Function(f) => self.check_func_decl(f),
            Decl::Type(t) => self.check_type_decl(t),
            Decl::Protocol(_) => {}
        }
    }

    /// Defines the parameters in the innermost scope.
    #[verifier::spinoff_prover]
    #[verifier::rlimit(60)]
    fn define_params(&mut self, params: &Vec<Param>)
        requires
            old(self).symbols.scopes().len() >= 1,
        ensures
            final(self).symbols.scopes().len() == old(self).symbols.scopes().len(),
            final(self).symbols.scopes().drop_last() == old(self).symbols.scopes().drop_last(),
            final(self).errors == old(self).errors,
            final(self).types == old(self).types,
            final(self).checked == old(self).checked,
            final(self).functions == old(self).functions,
            final(self).in_initializer == old(self).in_initializer,
            params_defined(old(self).symbols.scopes().last(), final(self).symbols.scopes().last(), params@),
    {
        let ghost s0 = self.symbols.scopes().last();
        let mut k: usize = 0;
        proof {
            assert(s0.take(s0.len() as int) =~= s0);
        }
        while k < params.len()
            invariant
                self.symbols.scopes().len() >= 1,
                self.symbols.scopes().len() == old(self).symbols.scopes().len(),
                self.symbols.scopes().drop_last() == old(self).symbols.scopes().drop_last(),
                self.errors == old(self).errors,
                self.types == old(self).types,
                self.checked == old(self).checked,
                self.functions == old(self).functions,
                self.in_initializer == old(self).in_initializer,
                s0 == old(self).symbols.scopes().last(),
                k <= params@.len(),
                params_defined(s0, self.symbols.scopes().last(), params@.take(k as int)),
            decreases params@.len() - k,
        {
            let ty = self.resolve_opt_type(&params[k].type_ann, params[k].span);
            let ghost before = self.symbols.scopes();
            let ok = self.symbols.define(params[k].name.as_str(), Symbol::variable(params[k].name.as_str(), ty, false));
            proof {
                assert(self.symbols.scopes().drop_last() =~= before.drop_last());
                let b = before.last();
                let a = self.symbols.scopes().last();
                let ps = params@.take(k + 1);
                assert(ps[k as int] == params@[k as int]);
                assert forall|j: int| 0 <= j < k implies ps[j] == params@.take(k as int)[j] by {}
                if ok {
                    assert(a =~= b.push(a.last()));
                    assert(a.take(s0.len() as int) =~= b.take(s0.len() as int));
                    assert(a[b.len() as int].0@ == params@[k as int].name@);
                    assert forall|i: int| s0.len() <= i < a.len() implies (#[trigger] a[i]).1.kind is Variable
                        && exists|k2: int| 0 <= k2 < ps.len() && a[i].0@ == (#[trigger] ps[k2]).name@ by {
                        if i < b.len() {
                            assert(a[i] == b[i]);
                            let k2 = choose|k2: int| 0 <= k2 < k && b[i].0@ == (#[trigger] params@.take(k as int)[k2]).name@;
                            assert(ps[k2] == params@.take(k as int)[k2]);
                        } else {
                            assert(ps[k as int] == params@[k as int]);
                        }
                    }
                    assert forall|j: int| 0 <= j < ps.len() implies scope_has(a, (#[trigger] ps[j]).name@) by {
                        if j < k {
                            assert(ps[j] == params@.take(k as int)[j]);
                            assert(scope_has(b, params@.take(k as int)[j].name@));
                            let i = choose|i: int| 0 <= i < b.len() && b[i].0@ == params@.take(k as int)[j].name@;
                            assert(a[i] == b[i]);
                        } else {
                            assert(a[b.len() as int].0@ == ps[j].name@);
                        }
                    }
                } else {
                    assert(a == b);
                    assert forall|i: int| s0.len() <= i < a.len() implies (#[trigger] a[i]).1.kind is Variable
                        && exists|k2: int| 0 <= k2 < ps.len() && a[i].0@ == (#[trigger] ps[k2]).name@ by {
                        let k2 = choose|k2: int| 0 <= k2 < k && b[i].0@ == (#[trigger] params@.take(k as int)[k2]).name@;
                        assert(ps[k2] == params@.take(k as int)[k2]);
                    }
                    assert forall|j: int| 0 <= j < ps.len() implies scope_has(a, (#[trigger] ps[j]).name@) by {
                        if j < k {
                            assert(ps[j] == params@.take(k as int)[j]);
                        }
                    }
                }
            }
            k = k + 1;
        }
        proof {
            assert(params@.take(params@.len() as int) =~= params@);
        }
    }

    #[verifier::rlimit(60)]
    fn check_func_decl(&mut self, f: &FuncDecl)
        requires
            old(self).symbols.scopes().len() >= 1,
        ensures
            extends_record(old(self).checked@, final(self).checked@),
            final(self).symbols.scopes().len() == old(self).symbols.scopes().len(),
            extends_errors(old(self).errors@, final(self).errors@),
            final(self).record().len() > old(self).record().len(),
            final(self).record().last().expr == *f.body,
            final(self).record().last().start == old(self).record().len(),
            final(self).record().last().errors_before == old(self).found().len(),
            declared_result(old(self).hierarchy(), f.return_type, f.span, final(self).record().last(), final(self).found()),
            extends_errors(final(self).record().last().errs, final(self).found()),
            return_inferred(old(self).function_table(), *f, final(self).record().last().ty, final(self).function_table()),
    {
        self.symbols.push_scope();
        self.define_params(&f.params);
        let mut unknown_params: Vec<String> = Vec::new();
        let mut k: usize = 0;
        while k < f.params.len()
            invariant
                k <= f.params@.len(),
            decreases f.params@.len() - k,
        {
            if f.params[k].type_ann.is_none() {
                unknown_params.push(f.params[k].name.clone());
            }
            k = k + 1;
        }
        let mut prev_inferring = unknown_params;
        std::mem::swap(&mut prev_inferring, &mut self.inferring_params);
        let mut prev_constraints: Vec<(String, HulkType)> = Vec::new();
        std::mem::swap(&mut prev_constraints, &mut self.param_constraints);
        let expected_ret = self.resolve_opt_type(&f.return_type, f.span);
        let mut prev_ret = Some(expected_ret.copy());
        std::mem::swap(&mut prev_ret, &mut self.current_ret_type);
        let actual_ret = self.check_expr(&f.body);
        let ghost f0 = old(self).functions@;
        let ghost body_ty = actual_ret;
        proof {
            assert(same_functions(f0, self.functions@));
        }
        if self.inferring_params.len() > 0 {
            if let Some(fi) = find_entry(&self.functions, f.name.as_str()) {
                let mut params = copy_named(&self.functions[fi].1.params);
                let mut j: usize = 0;
                while j < params.len()
                    invariant
                        j <= params@.len(),
                    decreases params@.len() - j,
                {
                    if params[j].1.is_unknown() {
                        let nt = match find_entry(&self.param_constraints, params[j].0.as_str()) {
                            Some(ci) => self.param_constraints[ci].1.copy(),
                            None => HulkType::Object,
                        };
                        let pname = params[j].0.clone();
                        params.set(j, (pname, nt));
                    }
                    j = j + 1;
                }
                let ret = self.functions[fi].1.return_type.copy();
                let key = self.functions[fi].0.clone();
                let ghost fb = self.functions@;
                self.functions.set(fi, (key, FuncSignature { params, return_type: ret }));
                proof {
                    assert forall|k: int| 0 <= k < fb.len() implies (#[trigger] self.functions@[k]).0@ == fb[k].0@
                        && self.functions@[k].1.return_type == fb[k].1.return_type by {
                        if k != fi { assert(self.functions@[k] == fb[k]); }
                    }
                }
            }
        }
        proof {
            assert(same_functions(f0, self.functions@));
        }
        if !expected_ret.is_unknown() {
            if !self.types.conforms(&actual_ret, &expected_ret) {
                self.errors.push(SemanticError::TypeMismatch {
                    expected: expected_ret.name(),
                    found: actual_ret.name(),
                    span: f.span,
                });
            }
        } else if !actual_ret.is_never() && !actual_ret.is_unknown() {
            self.symbols.update_function_return(f.name.as_str(), actual_ret.copy());
            if let Some(fi) = find_entry(&self.functions, f.name.as_str()) {
                let params = copy_named(&self.functions[fi].1.params);
                let key = self.functions[fi].0.clone();
                let ghost fb = self.functions@;
                self.functions.set(fi, (key, FuncSignature { params, return_type: actual_ret }));
                proof {
                    assert forall|j: int| 0 <= j < fi implies f0[j].0@ != f.name@ by {
                        assert(fb[j].0@ == f0[j].0@);
                    }
                    assert(f0[fi as int].0@ == f.name@);
                    lemma_first_named(f0, f.name@, fi as int);
                    assert(self.functions@[fi as int].1.return_type == body_ty);
                    assert forall|k: int| 0 <= k < fb.len() && k != fi implies #[trigger] self.functions@[k] == fb[k] by {}
                    assert(return_inferred(f0, *f, body_ty, self.functions@));
                }
            } else {
                proof {
                    assert forall|j: int| 0 <= j < f0.len() implies f0[j].0@ != f.name@ by {
                        assert(self.functions@[j].0@ == f0[j].0@);
                    }
                    assert(first_named(f0, f.name@) is None);
                }
            }
        }
        self.param_constraints = prev_constraints;
        self.inferring_params = prev_inferring;
        self.current_ret_type = prev_ret;
        self.symbols.pop_scope();
        proof {
            assert(self.checked@.last().ty == body_ty);
        }
    }


    /// Checks the attribute initializers and method bodies of a type, in the
    /// scope of its constructor parameters.
    fn check_type_decl(&mut self, t: &TypeDecl)
        requires
            old(self).symbols.scopes().len() >= 1,
        ensures
            extends_record(old(self).checked@, final(self).checked@),
            final(self).symbols.scopes().len() == old(self).symbols.scopes().len(),
            extends_errors(old(self).errors@, final(self).errors@),
            walks_into_cycle(old(self).types, Seq::empty(), t.name@, bound(old(self).types))
                ==> final(self).errors@ == old(self).errors@.push(SemanticError::CircularInheritance { type_ident: t.name, span: t.span }),
            !walks_into_cycle(old(self).types, Seq::empty(), t.name@, bound(old(self).types)) ==> forall|k: int| 0 <= k < t.members@.len()
                ==> exists|j: int| old(self).checked@.len() <= j < final(self).checked@.len()
                    && (#[trigger] final(self).checked@[j]).expr == member_body(#[trigger] t.members@[k])
                    && extends_errors(final(self).checked@[j].errs, final(self).errors@),
            !walks_into_cycle(old(self).types, Seq::empty(), t.name@, bound(old(self).types)) ==> exists|rec: Seq<Checked>, errs: Seq<SemanticError>|
                #[trigger] parent_args_checked(old(self).types, old(self).checked@.len() as int, old(self).errors@, *t, rec, errs)
                && extends_record(rec, final(self).checked@) && extends_errors(errs, final(self).errors@),
            same_functions(old(self).function_table(), final(self).function_table()),
    {
        let mut prev_type = Some(t.name.clone());
        std::mem::swap(&mut prev_type, &mut self.current_type);
        self.symbols.push_scope();
        self.define_params(&t.type_args);
        if self.types.has_circular_inheritance(t.name.as_str()) {
            self.errors.push(SemanticError::CircularInheritance { type_ident: t.name.clone(), span: t.span });
            self.symbols.pop_scope();
            self.current_type = prev_type;
            return;
        }
        let ghost pre_args = *self;
        self.check_parent_args(t);
        let ghost rec_args = self.checked@;
        let ghost errs_args = self.errors@;
        proof {
            assert(pre_args.types == old(self).types);
            assert(parent_args_checked(old(self).types, old(self).checked@.len() as int, old(self).errors@, *t, rec_args, errs_args));
        }
        let mut k: usize = 0;
        while k < t.members.len()
            invariant
                extends_record(old(self).checked@, self.checked@),
                self.symbols.scopes().len() >= 1,
                self.symbols.scopes().len() == old(self).symbols.scopes().len() + 1,
                extends_errors(old(self).errors@, self.errors@),
                k <= t.members@.len(),
                forall|k2: int| 0 <= k2 < k ==> exists|j: int| old(self).checked@.len() <= j < self.checked@.len()
                    && (#[trigger] self.checked@[j]).expr == member_body(#[trigger] t.members@[k2])
                    && extends_errors(self.checked@[j].errs, self.errors@),
                extends_record(rec_args, self.checked@),
                extends_errors(errs_args, self.errors@),
                same_functions(old(self).functions@, self.functions@),
            decreases t.members@.len() - k,
        {
            let ghost before = self.checked@;
            let ghost errs_before = self.errors@;
            match &t.members[k] {
                TypeMember::Attribute(attr) => self.check_attribute(t, attr),
                TypeMember::Method(method) => self.check_method(t, method),
            }
            proof {
                assert forall|k2: int| 0 <= k2 < k + 1 implies exists|j: int| old(self).checked@.len() <= j < self.checked@.len()
                    && (#[trigger] self.checked@[j]).expr == member_body(#[trigger] t.members@[k2])
                    && extends_errors(self.checked@[j].errs, self.errors@) by {
                    if k2 < k {
                        let j = choose|j: int| old(self).checked@.len() <= j < before.len()
                            && (#[trigger] before[j]).expr == member_body(t.members@[k2])
                            && extends_errors(before[j].errs, errs_before);
                        assert(self.checked@[j] == before[j]);
                    } else {
                        let j = self.checked@.len() - 1;
                        assert(self.checked@[j].expr == member_body(t.members@[k2]));
                    }
                }
            }
            k = k + 1;
        }
        let ghost at_end = self.checked@;
        self.symbols.pop_scope();
        self.current_type = prev_type;
        proof {
            assert forall|k2: int| 0 <= k2 < t.members@.len() implies exists|j: int| old(self).checked@.len() <= j < self.checked@.len()
                && (#[trigger] self.checked@[j]).expr == member_body(#[trigger] t.members@[k2])
                && extends_errors(self.checked@[j].errs, self.errors@) by {
                let j = choose|j: int| old(self).checked@.len() <= j < at_end.len()
                    && (#[trigger] at_end[j]).expr == member_body(t.members@[k2])
                    && extends_errors(at_end[j].errs, self.errors@);
                assert(self.checked@[j] == at_end[j]);
            }
        }
    }

    /// The arguments handed to the parent's constructor must match its
    /// parameters in number and type.
    #[verifier::loop_isolation(false)]
    fn check_parent_args(&mut self, t: &TypeDecl)
        requires
            old(self).symbols.scopes().len() >= 1,
        ensures
            frame(*old(self), *final(self)),
            match t.parent {
                None => final(self).found() == old(self).found() && final(self).record() == old(self).record(),
                Some(p) => match first_type(old(self).types.types@, type_name_name(p)) {
                    None => final(self).found() == old(self).found() && final(self).record() == old(self).record(),
                    Some(i) => args_outcome(old(self).types, old(self).checked@.len(), old(self).errors@.len(),
                        type_name_name(p), t.parent_args@,
                        old(self).types.types@[i].constructor_params@.map_values(|c: (String, HulkType)| c.1),
                        t.span, final(self).checked@, final(self).errors@, false),
                },
            },
    {
        let parent = match &t.parent {
            Some(p) => p,
            None => { return; }
        };
        let pi = match find_type(&self.types.types, parent.name()) {
            Some(i) => i,
            None => { return; }
        };
        proof {
            lemma_first_type(self.types.types@, type_name_name(*parent), pi as int);
        }
        let ctor = types_of(&self.types.types[pi].constructor_params);
        proof {
            assert(ctor@ =~= old(self).types.types@[pi as int].constructor_params@.map_values(|c: (String, HulkType)| c.1));
        }
        let args = &t.parent_args;
        let ghost rs = self.checked@.len();
        let ghost es = self.errors@.len();
        let ghost h = self.types;
        if args.len() != ctor.len() {
            self.errors.push(SemanticError::WrongArgCount {
                name: parent.name().to_owned(),
                expected: ctor.len(),
                found: args.len(),
                span: t.span,
            });
            let ghost pushed = self.errors@;
            let mut k: usize = 0;
            while k < args.len()
                invariant
                    frame(*old(self), *self),
                    self.symbols.scopes().len() >= 1,
                    k <= args@.len(),
                    pushed.len() == es + 1,
                    extends_errors(pushed, self.errors@),
                    k == 0 ==> self.checked@ == old(self).checked@ && self.errors@ == pushed,
                    k > 0 ==> self.checked@.len() > 0 && chained(self.checked@, args@.take(k as int), self.checked@.len() - 1, rs, es + 1)
                        && self.errors@.len() == self.checked@.last().errors_after,
                decreases args@.len() - k,
            {
                let ghost before = self.checked@;
                self.check_expr(&args[k]);
                proof {
                    let xs = args@.take(k + 1);
                    assert(xs.last() == args@[k as int]);
                    if k > 0 {
                        assert(xs.drop_last() =~= args@.take(k as int));
                        lemma_chain_kept(before, self.checked@, args@.take(k as int), before.len() - 1, rs, es + 1);
                    }
                }
                k = k + 1;
            }
            proof {
                assert(args@.take(args@.len() as int) =~= args@);
                assert(self.errors@[es as int] == pushed[es as int]);
            }
        } else {
            let mut k: usize = 0;
            while k < args.len()
                invariant
                    frame(*old(self), *self),
                    self.symbols.scopes().len() >= 1,
                    k <= args@.len(),
                    args@.len() == ctor@.len(),
                    h == old(self).types,
                    k == 0 ==> self.checked@ == old(self).checked@ && self.errors@ == old(self).errors@,
                    k > 0 ==> self.checked@.len() > 0 && args_checked(h, self.checked@, args@.take(k as int), ctor@.take(k as int),
                        self.checked@.len() - 1, rs, es, t.span, self.errors@, false)
                        && self.errors@.len() == settled(h, self.checked@.last(), ctor@[k - 1]),
                decreases args@.len() - k,
            {
                let ghost before = self.checked@;
                let ghost errs_before = self.errors@;
                let at = self.check_expr(&args[k]);
                if !self.types.conforms(&at, &ctor[k]) {
                    self.errors.push(SemanticError::TypeMismatch {
                        expected: ctor[k].name(),
                        found: at.name(),
                        span: t.span,
                    });
                }
                proof {
                    let xs = args@.take(k + 1);
                    let ps = ctor@.take(k + 1);
                    assert(xs.last() == args@[k as int]);
                    assert(ps.last() == ctor@[k as int]);
                    if k > 0 {
                        assert(xs.drop_last() =~= args@.take(k as int));
                        assert(ps.drop_last() =~= ctor@.take(k as int));
                        assert(ps[k - 1] == ctor@[k - 1]);
                        lemma_args_kept(h, before, self.checked@, args@.take(k as int), ctor@.take(k as int),
                            before.len() - 1, rs, es, t.span, errs_before, self.errors@, false);
                        assert(self.checked@[before.len() - 1] == before.last());
                    }
                }
                k = k + 1;
            }
            proof {
                assert(args@.take(args@.len() as int) =~= args@);
                assert(ctor@.take(ctor@.len() as int) =~= ctor@);
            }
        }
    }

    /// An attribute initializer is checked without `self`; its type becomes
    /// the attribute's type (the annotation's, when there is one).
    fn check_attribute(&mut self, t: &TypeDecl, attr: &AttributeDef)
        requires
            old(self).symbols.scopes().len() >= 1,
        ensures
            extends_record(old(self).checked@, final(self).checked@),
            final(self).symbols.scopes() == old(self).symbols.scopes(),
            extends_errors(old(self).errors@, final(self).errors@),
            final(self).record().len() > old(self).record().len(),
            final(self).record().last().expr == *attr.value,
            final(self).record().last().start == old(self).record().len(),
            final(self).record().last().errors_before == old(self).found().len(),
            declared_result(old(self).hierarchy(), attr.type_ann, attr.span, final(self).record().last(), final(self).found()),
            extends_errors(final(self).record().last().errs, final(self).found()),
            same_functions(old(self).function_table(), final(self).function_table()),
            !final(self).initializing(),
    {
        self.in_initializer = true;
        let val_ty = self.check_expr(&attr.value);
        self.in_initializer = false;
        let final_ty = match &attr.type_ann {
            Some(ann) => {
                let ann_ty = self.resolve_type_name(ann);
                if !self.types.conforms(&val_ty, &ann_ty) {
                    self.errors.push(SemanticError::TypeMismatch {
                        expected: ann_ty.name(),
                        found: val_ty.name(),
                        span: attr.span,
                    });
                }
                ann_ty
            }
            None => val_ty,
        };
        if let Some(i) = find_type(&self.types.types, t.name.as_str()) {
            set_entry(&mut self.types.types[i].attributes, attr.name.as_str(), final_ty);
        }
    }

    /// A method body is checked with `self` bound to the type and its
    /// parameters bound; an unannotated method takes the type of its body.
    fn check_method(&mut self, t: &TypeDecl, method: &MethodDef)
        requires
            old(self).symbols.scopes().len() >= 1,
        ensures
            extends_record(old(self).checked@, final(self).checked@),
            final(self).symbols.scopes().len() == old(self).symbols.scopes().len(),
            extends_errors(old(self).errors@, final(self).errors@),
            final(self).record().len() > old(self).record().len(),
            final(self).record().last().expr == *method.body,
            final(self).record().last().start == old(self).record().len(),
            final(self).record().last().errors_before == old(self).found().len(),
            declared_result(old(self).hierarchy(), method.return_type, method.span, final(self).record().last(), final(self).found()),
            extends_errors(final(self).record().last().errs, final(self).found()),
            same_functions(old(self).function_table(), final(self).function_table()),
    {
        self.symbols.push_scope();
        let mut prev_method = Some(method.name.clone());
        std::mem::swap(&mut prev_method, &mut self.current_method_name);
        self.symbols.define("self", Symbol::variable("self", HulkType::UserDefined(t.name.clone()), false));
        self.define_params(&method.params);
        let expected_ret = self.resolve_opt_type(&method.return_type, method.span);
        let mut prev_ret = Some(expected_ret.copy());
        std::mem::swap(&mut prev_ret, &mut self.current_ret_type);
        let actual_ret = self.check_expr(&method.body);
        if !expected_ret.is_unknown() {
            if !self.types.conforms(&actual_ret, &expected_ret) {
                self.errors.push(SemanticError::TypeMismatch {
                    expected: expected_ret.name(),
                    found: actual_ret.name(),
                    span: method.span,
                });
            }
        } else if !actual_ret.is_never() && !actual_ret.is_unknown() {
            if let Some(i) = find_type(&self.types.types, t.name.as_str()) {
                if let Some(mi) = find_entry(&self.types.types[i].methods, method.name.as_str()) {
                    let params = copy_named(&self.types.types[i].methods[mi].1.params);
                    set_entry(&mut self.types.types[i].methods, method.name.as_str(),
                        FuncSignature { params, return_type: actual_ret });
                }
            }
        }
        self.current_ret_type = prev_ret;
        self.current_method_name = prev_method;
        self.symbols.pop_scope();
    }

    /// Checks an expression, records its type under the node's id, and
    /// returns it.
    pub fn check_expr(&mut self, expr: &Expr) -> (t: HulkType)
        requires
            old(self).ready(),
        ensures
            frame(*old(self), *final(self)),
            final(self).record().len() > old(self).record().len(),
            final(self).record().last() == (Checked {
                expr: *expr, ty: t, start: old(self).record().len(),
                errors_before: old(self).found().len(), errors_after: final(self).found().len(),
                errs: final(self).found(),
            }),
            result_fits(expr.kind, t),
            expr.kind is Literal ==> final(self).found() == old(self).found(),
            expr.kind is Identifier ==> identifier_outcome(*old(self), expr.kind->Identifier_name@, expr.span, t, *final(self)),
            node_outcome(*old(self), *expr, t, *final(self)),
            old(self).pure_outcome(*expr, t, *final(self)),
            final(self).type_map().dom().contains(expr.id) && final(self).type_map()[expr.id] == t,
        decreases expr, 3nat,
    {
        let ty = match &expr.kind {
            ExprKind::Literal(lit) => self.check_literal(lit),
            ExprKind::Identifier { name } => self.check_identifier(name.as_str(), expr.span),
            ExprKind::Base => self.check_base(expr.span),
            ExprKind::Binary(_) => self.check_binary(expr),
            ExprKind::Unary(_) => self.check_unary(expr),
            ExprKind::Postfix(_) => self.check_postfix(expr),
            ExprKind::Assign(_) => self.check_assign(expr),
            ExprKind::Is { .. } => self.check_is(expr),
            ExprKind::As { .. } => self.check_as(expr),
            ExprKind::Call(_) => self.check_call(expr),
            ExprKind::Access(_) => self.check_access(expr),
            ExprKind::MethodCall(_) => self.check_method_call(expr),
            ExprKind::Index(_) => self.check_index(expr),
            ExprKind::Block(_) => self.check_block(expr),
            ExprKind::Let(_) => self.check_let(expr),
            ExprKind::If(_) => self.check_if(expr),
            ExprKind::While(_) => self.check_while(expr),
            ExprKind::For(_) => self.check_for(expr),
            ExprKind::New(_) => self.check_new(expr),
            ExprKind::Vector(_) => self.check_vector(expr),
        };
        let ghost dispatched = *self;
        proof {
            let e0 = old(self).errors@;
            if self.errors@.len() == e0.len() + 1 && extends_errors(e0, self.errors@) {
                assert(self.errors@ =~= e0.push(self.errors@.last()));
                lemma_shapes_push(e0, self.errors@.last());
            }
            assert(shapes(self.errors@) + Seq::<ErrShape>::empty() =~= shapes(self.errors@));
            assert(shapes(old(self).errors@) + Seq::<ErrShape>::empty() =~= shapes(old(self).errors@));
            if expr.kind is Identifier {
                let name = expr.kind->Identifier_name;
                if old(self).pure_check(*expr) is Some {
                    let (x0, es0) = old(self).pure_check(*expr)->0;
                    if !(name@ == "self"@ && old(self).in_initializer) {
                        if resolve(old(self).symbols.scopes(), name@) is None {
                            assert(shapes(self.errors@) == shapes(e0) + es0);
                        }
                    } else {
                        assert(shapes(self.errors@) == shapes(e0) + es0);
                    }
                    assert(x0 == ty);
                }
            }
            assert(old(self).pure_outcome(*expr, ty, *self));
        }
        self.expr_types.insert(expr.id, ty.copy());
        proof {
            let mid = self.checked@;
            self.checked@ = self.checked@.push(Checked {
                expr: *expr,
                ty,
                start: old(self).checked@.len(),
                errors_before: old(self).errors@.len(),
                errors_after: self.errors@.len(),
                errs: self.errors@,
            });
            assert(self.checked@.drop_last() =~= mid);
            reveal(node_outcome);
            assert(self.found() == dispatched.found());
        }
        ty
    }

    /// The type of a literal.
    fn check_literal(&self, lit: &Literal) -> (t: HulkType)
        ensures
            t == literal_type(*lit),
    {
        match lit {
            Literal::Number { .. } => HulkType::Number,
            Literal::String { .. } => HulkType::StringT,
            Literal::Char { .. } => HulkType::StringT,
            Literal::Bool { .. } => HulkType::Boolean,
            Literal::Null { .. } => HulkType::Null,
        }
    }

    /// A name's type: the variable's type, the function's return type, or
    /// the type or protocol it names; `self` is refused in initializers.
    fn check_identifier(&mut self, name: &str, span: Span) -> (t: HulkType)
        requires
            old(self).symbols.scopes().len() >= 1,
        ensures
            frame(*old(self), *final(self)),
            identifier_outcome(*old(self), name@, span, t, *final(self)),
    {
        if str_eq(name, "self") && self.in_initializer {
            self.errors.push(SemanticError::SelfInInitializer { span });
            return HulkType::Never;
        }
        match self.symbols.lookup(name) {
            Some(sym) => match &sym.kind {
                SymbolKind::Variable { ty, .. } => ty.copy(),
                SymbolKind::Function { return_type, .. } => return_type.copy(),
                SymbolKind::Type => HulkType::UserDefined(name.to_owned()),
                SymbolKind::Protocol => HulkType::Protocol(name.to_owned()),
            },
            None => {
                let ghost before = self.errors@;
                self.errors.push(SemanticError::UndefinedVariable { name: name.to_owned(), span });
                assert(self.errors@.take(before.len() as int) =~= before);
                HulkType::Never
            }
        }
    }

    /// `base` outside a type is an undefined name; inside one it has the
    /// parent's type (`Object` when there is no parent).
    fn check_base(&mut self, span: Span) -> (t: HulkType)
        requires
            old(self).symbols.scopes().len() >= 1,
        ensures
            frame(*old(self), *final(self)),
            base_outcome(*old(self), span, t, *final(self)),
    {
        match &self.current_type {
            Some(tn) => match self.types.parent_name(tn.as_str()) {
                Some(p) => HulkType::UserDefined(p),
                None => HulkType::Object,
            },
            None => {
                let ghost before = self.errors@;
                self.errors.push(SemanticError::UndefinedVariable { name: "base".to_owned(), span });
                assert(self.errors@.drop_last() =~= before);
                HulkType::Never
            }
        }
    }

    /// Records, for a parameter whose type is being inferred, the type its
    /// use demands.
    fn constrain_param(&mut self, e: &Expr, ty: &HulkType, to: HulkType)
        ensures
            final(self).in_initializer == old(self).in_initializer,
            final(self).symbols == old(self).symbols,
            final(self).types == old(self).types,
            final(self).errors == old(self).errors,
            final(self).checked == old(self).checked,
            final(self).functions == old(self).functions,
            final(self).inferring_params == old(self).inferring_params,
            if *ty is Unknown && (e.kind matches ExprKind::Identifier { name }
                && exists|i: int| 0 <= i < old(self).inferring_params@.len() && old(self).inferring_params@[i]@ == name@) {
                &&& exists|i: int| 0 <= i < final(self).param_constraints@.len()
                    && final(self).param_constraints@[i].0@ == e.kind->Identifier_name@ && final(self).param_constraints@[i].1 == to
                &&& forall|n: Seq<char>| n != e.kind->Identifier_name@ ==> has_named(old(self).param_constraints@, n)
                    == #[trigger] has_named(final(self).param_constraints@, n)
            } else {
                final(self).param_constraints == old(self).param_constraints
            },
    {
        if ty.is_unknown() {
            if let ExprKind::Identifier { name } = &e.kind {
                if contains_name(&self.inferring_params, name.as_str()) {
                    set_entry(&mut self.param_constraints, name.as_str(), to);
                    proof {
                        let i = choose|i: int| 0 <= i < self.param_constraints@.len()
                            && self.param_constraints@[i].0@ == name@ && self.param_constraints@[i].1 == to;
                        assert(self.param_constraints@[i].0@ =~= e.kind->Identifier_name@);
                    }
                }
            }
        }
    }

    fn check_binary(&mut self, expr: &Expr) -> (t: HulkType)
        requires
            old(self).symbols.scopes().len() >= 1,
            expr.kind is Binary,
        ensures
            frame(*old(self), *final(self)),
            result_fits(expr.kind, t),
            expr.kind matches ExprKind::Binary(b) ==> binary_outcome(old(self).types, old(self).checked@.len(),
                old(self).errors@.len(), *b, t, final(self).checked@, final(self).errors@),
            old(self).pure_outcome(*expr, t, *final(self)),
        decreases expr, 2nat,
    {
        let b = match &expr.kind {
            ExprKind::Binary(b) => b,
            _ => { return HulkType::Never; }
        };
        let lt = self.check_expr(&b.left);
        let ghost s1 = *self;
        let rt = self.check_expr(&b.right);
        let ghost s2 = *self;
        proof {
            assert(self.checked@[s1.checked@.len() - 1] == s1.checked@.last());
            lemma_pure_same_env(*old(self), s1, *b.right);
            assert(shapes(s2.errors@) + Seq::<ErrShape>::empty() =~= shapes(s2.errors@));
            if old(self).pure_check(*expr) is Some {
                let (_, le) = old(self).pure_check(*b.left)->0;
                let (_, re) = old(self).pure_check(*b.right)->0;
                assert(shapes(s2.errors@) =~= shapes(old(self).errors@) + le + re);
            }
        }
        if lt.is_never() || rt.is_never() {
            proof {
                if old(self).pure_check(*expr) is Some {
                    let (_, le) = old(self).pure_check(*b.left)->0;
                    let (_, re) = old(self).pure_check(*b.right)->0;
                    assert(shapes(self.errors@) =~= shapes(old(self).errors@) + le + re + Seq::<ErrShape>::empty());
                    let (x0, es0) = old(self).pure_check(*expr)->0;
                    assert(x0 == HulkType::Never);
                    assert(es0 == le + re + Seq::<ErrShape>::empty());
                    assert(shapes(self.found()) == shapes(old(self).found()) + es0);
                }
                assert(old(self).pure_outcome(*expr, HulkType::Never, *self));
            }
            return HulkType::Never;
        }
        let r = match b.op {
            BinaryOp::Add | BinaryOp::Sub | BinaryOp::Mul | BinaryOp::Div | BinaryOp::Mod | BinaryOp::Power => {
                self.constrain_param(&b.left, &lt, HulkType::Number);
                self.constrain_param(&b.right, &rt, HulkType::Number);
                if !self.types.conforms(&lt, &HulkType::Number) || !self.types.conforms(&rt, &HulkType::Number) {
                    self.errors.push(SemanticError::InvalidBinaryTypes {
                        op: binary_op_name(b.op).to_owned(), left: lt.name(), right: rt.name(), span: b.span,
                    });
                }
                HulkType::Number
            }
            BinaryOp::And | BinaryOp::Or => {
                self.constrain_param(&b.left, &lt, HulkType::Boolean);
                self.constrain_param(&b.right, &rt, HulkType::Boolean);
                if !self.types.conforms(&lt, &HulkType::Boolean) || !self.types.conforms(&rt, &HulkType::Boolean) {
                    self.errors.push(SemanticError::InvalidBinaryTypes {
                        op: binary_op_name(b.op).to_owned(), left: lt.name(), right: rt.name(), span: b.span,
                    });
                }
                HulkType::Boolean
            }
            BinaryOp::Eq | BinaryOp::NotEq => {
                if !self.types.conforms(&lt, &rt) && !self.types.conforms(&rt, &lt) {
                    self.errors.push(SemanticError::InvalidBinaryTypes {
                        op: binary_op_name(b.op).to_owned(), left: lt.name(), right: rt.name(), span: b.span,
                    });
                }
                HulkType::Boolean
            }
            BinaryOp::Less | BinaryOp::Greater | BinaryOp::LessEq | BinaryOp::GreaterEq => {
                self.constrain_param(&b.left, &lt, HulkType::Number);
                self.constrain_param(&b.right, &rt, HulkType::Number);
                if !self.types.conforms(&lt, &HulkType::Number) || !self.types.conforms(&rt, &HulkType::Number) {
                    self.errors.push(SemanticError::InvalidBinaryTypes {
                        op: binary_op_name(b.op).to_owned(), left: lt.name(), right: rt.name(), span: b.span,
                    });
                }
                HulkType::Boolean
            }
            BinaryOp::Concat | BinaryOp::DoubleConcat => HulkType::StringT,
        };
        proof {
            if self.errors@.len() > s2.errors@.len() {
                assert(self.errors@ =~= s2.errors@.push(self.errors@.last()));
                lemma_shapes_push(s2.errors@, self.errors@.last());
            } else {
                assert(self.errors@ =~= s2.errors@);
            }
            if old(self).pure_check(*expr) is Some {
                let (_, le) = old(self).pure_check(*b.left)->0;
                let (_, re) = old(self).pure_check(*b.right)->0;
                let (x0, es0) = old(self).pure_check(*expr)->0;
                if self.errors@.len() > s2.errors@.len() {
                    assert(shapes(self.errors@) =~= shapes(old(self).errors@) + le + re + seq![err_shape(self.errors@.last())]);
                } else {
                    assert(shapes(self.errors@) =~= shapes(old(self).errors@) + le + re + Seq::<ErrShape>::empty());
                }
                assert(x0 == r);
                assert(shapes(self.found()) == shapes(old(self).found()) + es0);
            }
            assert(old(self).pure_outcome(*expr, r, *self));
        }
        r
    }

    fn check_unary(&mut self, expr: &Expr) -> (t: HulkType)
        requires
            old(self).symbols.scopes().len() >= 1,
            expr.kind is Unary,
        ensures
            frame(*old(self), *final(self)),
            result_fits(expr.kind, t),
            expr.kind matches ExprKind::Unary(u) ==> unary_outcome(old(self).types, old(self).checked@.len(),
                old(self).errors@.len(), *u, t, final(self).checked@, final(self).errors@),
            old(self).pure_outcome(*expr, t, *final(self)),
        decreases expr, 2nat,
    {
        let u = match &expr.kind {
            ExprKind::Unary(u) => u,
            _ => { return HulkType::Never; }
        };
        let ty = self.check_expr(&u.operand);
        let ghost s1 = *self;
        if ty.is_never() {
            proof {
                if old(self).pure_check(*expr) is Some {
                    let (x0, es0) = old(self).pure_check(*expr)->0;
                    assert(x0 == HulkType::Never);
                    assert(shapes(self.found()) == shapes(old(self).found()) + es0);
                }
                assert(old(self).pure_outcome(*expr, HulkType::Never, *self));
            }
            return HulkType::Never;
        }
        let r = match u.op {
            UnaryOp::Neg => {
                self.constrain_param(&u.operand, &ty, HulkType::Number);
                if !self.types.conforms(&ty, &HulkType::Number) {
                    self.errors.push(SemanticError::InvalidOperandType { op: "-".to_owned(), found: ty.name(), span: u.span });
                }
                HulkType::Number
            }
            UnaryOp::Not => {
                self.constrain_param(&u.operand, &ty, HulkType::Boolean);
                if !self.types.conforms(&ty, &HulkType::Boolean) {
                    self.errors.push(SemanticError::InvalidOperandType { op: "!".to_owned(), found: ty.name(), span: u.span });
                }
                HulkType::Boolean
            }
        };
        proof {
            if self.errors@.len() > s1.errors@.len() {
                assert(self.errors@ =~= s1.errors@.push(self.errors@.last()));
                lemma_shapes_push(s1.errors@, self.errors@.last());
            } else {
                assert(self.errors@ =~= s1.errors@);
            }
            if old(self).pure_check(*expr) is Some {
                let (_, oe) = old(self).pure_check(*u.operand)->0;
                let (x0, es0) = old(self).pure_check(*expr)->0;
                if self.errors@.len() > s1.errors@.len() {
                    assert(shapes(self.errors@) =~= (shapes(old(self).errors@) + oe).push(err_shape(self.errors@.last())));
                    assert(shapes(self.errors@) =~= shapes(old(self).errors@) + oe.push(err_shape(self.errors@.last())));
                } else {
                    assert(shapes(self.errors@) =~= shapes(old(self).errors@) + oe);
                }
                assert(x0 == r);
                assert(shapes(self.found()) == shapes(old(self).found()) + es0);
            }
            assert(old(self).pure_outcome(*expr, r, *self));
        }
        r
    }

    fn check_postfix(&mut self, expr: &Expr) -> (t: HulkType)
        requires
            old(self).symbols.scopes().len() >= 1,
            expr.kind is Postfix,
        ensures
            frame(*old(self), *final(self)),
            result_fits(expr.kind, t),
            expr.kind matches ExprKind::Postfix(p) ==> postfix_outcome(old(self).checked@.len(),
                old(self).errors@.len(), *p, t, final(self).checked@, final(self).errors@),
        decreases expr, 2nat,
    {
        let p = match &expr.kind {
            ExprKind::Postfix(p) => p,
            _ => { return HulkType::Never; }
        };
        let ty = self.check_expr(&p.operand);
        if ty.is_never() {
            return HulkType::Never;
        }
        if !ty.is_number() {
            self.errors.push(SemanticError::InvalidOperandType {
                op: postfix_op_name(p.op).to_owned(), found: ty.name(), span: p.span,
            });
        }
        HulkType::Number
    }

    fn check_assign(&mut self, expr: &Expr) -> (t: HulkType)
        requires
            old(self).symbols.scopes().len() >= 1,
            expr.kind is Assign,
        ensures
            frame(*old(self), *final(self)),
            expr.kind matches ExprKind::Assign(a) ==> assign_outcome(*a, t, old(self).errors@, final(self).errors@),
            expr.kind matches ExprKind::Assign(a) ==> (assignable(*a) ==> assign_checked(old(self).types,
                old(self).checked@.len(), old(self).errors@.len(), *a, t, final(self).checked@, final(self).errors@)),
        decreases expr, 2nat,
    {
        let a = match &expr.kind {
            ExprKind::Assign(a) => a,
            _ => { return HulkType::Never; }
        };
        if let ExprKind::Identifier { name } = &a.target.kind {
            if str_eq(name.as_str(), "self") {
                self.errors.push(SemanticError::SelfAssignment { span: a.target.span });
                return HulkType::Never;
            }
        }
        let is_lvalue = match &a.target.kind {
            ExprKind::Identifier { .. } | ExprKind::Access(_) | ExprKind::Index(_) => true,
            _ => false,
        };
        if !is_lvalue {
            self.errors.push(SemanticError::InvalidLValue { span: a.span });
            return HulkType::Never;
        }
        let target_ty = self.check_expr(&a.target);
        let value_ty = self.check_expr(&a.value);
        if !target_ty.is_never() && !value_ty.is_never() {
            match a.op {
                AssignOp::Assign => {
                    if !self.types.conforms(&value_ty, &target_ty) {
                        self.emit_type_or_protocol_error(&value_ty, &target_ty, a.span);
                    }
                }
                _ => {
                    if !target_ty.is_number() {
                        self.errors.push(SemanticError::InvalidOperandType {
                            op: assign_op_name(a.op).to_owned(), found: target_ty.name(), span: a.span,
                        });
                    }
                    if !value_ty.is_number() {
                        self.errors.push(SemanticError::InvalidOperandType {
                            op: assign_op_name(a.op).to_owned(), found: value_ty.name(), span: a.span,
                        });
                    }
                }
            }
        }
        target_ty
    }

    fn check_is(&mut self, expr: &Expr) -> (t: HulkType)
        requires
            old(self).symbols.scopes().len() >= 1,
            expr.kind is Is,
        ensures
            frame(*old(self), *final(self)),
            t is Boolean,
            expr.kind matches ExprKind::Is { expr: inner, ty } ==> is_outcome(old(self).types, old(self).checked@.len(),
                old(self).errors@.len(), *inner, ty, t, final(self).checked@, final(self).errors@),
        decreases expr, 2nat,
    {
        let (inner, tn) = match &expr.kind {
            ExprKind::Is { expr: inner, ty } => (inner, ty),
            _ => { return HulkType::Boolean; }
        };
        self.check_expr(inner);
        let n = tn.name();
        if find_type(&self.types.types, n).is_none() && find_protocol(&self.types.protocols, n).is_none() {
            self.errors.push(SemanticError::UndefinedType { name: n.to_owned(), span: tn.span() });
        }
        HulkType::Boolean
    }

    fn check_as(&mut self, expr: &Expr) -> (t: HulkType)
        requires
            old(self).symbols.scopes().len() >= 1,
            expr.kind is As,
        ensures
            frame(*old(self), *final(self)),
            expr.kind matches ExprKind::As { ty, .. } ==> denotes(old(self).protocol_list(), ty, t),
            expr.kind matches ExprKind::As { expr: inner, ty } ==> as_outcome(old(self).types, old(self).checked@.len(),
                old(self).errors@.len(), *inner, ty, expr.span, t, final(self).checked@, final(self).errors@),
        decreases expr, 2nat,
    {
        let (inner, tn) = match &expr.kind {
            ExprKind::As { expr: inner, ty } => (inner, ty),
            _ => { return HulkType::Never; }
        };
        let expr_ty = self.check_expr(inner);
        let target_ty = self.resolve_type_name(tn);
        if !expr_ty.is_never() && !target_ty.is_never() {
            let valid = self.types.conforms(&expr_ty, &target_ty) || self.types.conforms(&target_ty, &expr_ty);
            if !valid {
                self.errors.push(SemanticError::InvalidCast { from: expr_ty.name(), to: target_ty.name(), span: expr.span });
            }
        }
        target_ty
    }

    #[verifier::loop_isolation(false)]
    fn check_call(&mut self, expr: &Expr) -> (t: HulkType)
        requires
            old(self).symbols.scopes().len() >= 1,
            expr.kind is Call,
        ensures
            frame(*old(self), *final(self)),
            expr.kind matches ExprKind::Call(c) ==> (c.callee.kind matches ExprKind::Identifier { name }
                ==> named_call_outcome(*old(self), name@, c.span, c.callee.span, t, final(self).errors@)),
            expr.kind matches ExprKind::Call(c) ==> (c.callee.kind matches ExprKind::Identifier { name }
                ==> named_call_args(*old(self), name@, c.args@, c.span, final(self).checked@, final(self).errors@)),
            expr.kind matches ExprKind::Call(c) ==> (c.callee.kind is Base ==> base_call_outcome(*old(self), c.args@, c.span,
                c.callee.span, t, final(self).checked@, final(self).errors@)),
            expr.kind matches ExprKind::Call(c) ==> (!(c.callee.kind is Base) && !(c.callee.kind is Identifier)
                ==> other_call_outcome(*c.callee, old(self).checked@.len() as int, t, final(self).checked@)),
        decreases expr, 2nat,
    {
        let c = match &expr.kind {
            ExprKind::Call(c) => c,
            _ => { return HulkType::Never; }
        };
        match &c.callee.kind {
            ExprKind::Base => self.check_base_call(expr),
            ExprKind::Identifier { name } => self.check_named_call(expr, name.as_str()),
            _ => {
                let callee_ty = self.check_expr(&c.callee);
                let ghost jc: int = self.checked@.len() - 1;
                let ghost rec_c = self.checked@;
                let mut k: usize = 0;
                while k < c.args.len()
                    invariant
                        frame(*old(self), *self),
                        self.symbols.scopes().len() >= 1,
                        k <= c.args@.len(),
                        extends_record(rec_c, self.checked@),
                    decreases c.args@.len() - k,
                {
                    self.check_expr(&c.args[k]);
                    k = k + 1;
                }
                proof {
                    assert(self.checked@[jc] == rec_c[jc]);
                    assert(self.checked@[jc].start == old(self).checked@.len());
                }
                if callee_ty.is_never() { HulkType::Never } else { HulkType::Object }
            }
        }
    }

    /// `base(..)` calls the parent's method of the same name; where the
    /// parent has no such method, its constructor.
    #[verifier::spinoff_prover]
    #[verifier::rlimit(80)]
    fn check_base_call(&mut self, expr: &Expr) -> (t: HulkType)
        requires
            old(self).symbols.scopes().len() >= 1,
            expr.kind is Call,
        ensures
            frame(*old(self), *final(self)),
            expr.kind matches ExprKind::Call(c) ==> base_call_outcome(*old(self), c.args@, c.span, c.callee.span, t,
                final(self).checked@, final(self).errors@),
        decreases expr, 1nat,
    {
        proof { reveal_strlit("base"); }
        let c = match &expr.kind {
            ExprKind::Call(c) => c,
            _ => { return HulkType::Never; }
        };
        let ghost e0 = self.errors@;
        let (tn, mn) = match (&self.current_type, &self.current_method_name) {
            (Some(a), Some(b)) => (a.clone(), b.clone()),
            _ => {
                self.errors.push(SemanticError::UndefinedVariable { name: "base".to_owned(), span: c.callee.span });
                assert(self.errors@.drop_last() =~= e0);
                return HulkType::Never;
            }
        };
        let parent_name = match self.types.parent_name(tn.as_str()) {
            Some(p) => p,
            None => {
                self.errors.push(SemanticError::UndefinedVariable { name: "base".to_owned(), span: c.callee.span });
                assert(self.errors@.drop_last() =~= e0);
                return HulkType::Never;
            }
        };
        match self.types.lookup_method(parent_name.as_str(), mn.as_str()) {
            None => {
                let fi = find_type(&self.types.types, parent_name.as_str());
                let ctor = match fi {
                    Some(i) => types_of(&self.types.types[i].constructor_params),
                    None => Vec::new(),
                };
                proof {
                    let tys = self.types.types@;
                    match fi {
                        Some(i) => {
                            lemma_first_type(tys, parent_name@, i as int);
                            assert(ctor@ =~= tys[i as int].constructor_params@.map_values(|c: (String, HulkType)| c.1));
                        }
                        None => {
                            assert(first_type(tys, parent_name@) is None);
                            assert(ctor@ =~= Seq::<HulkType>::empty());
                        }
                    }
                }
                self.check_call_args(expr, parent_name.as_str(), &ctor, c.span);
                HulkType::Null
            }
            Some(sig) => {
                let pts = types_of(&sig.params);
                proof {
                    let exp = chain_method(self.types.types@, parent_name@, mn@, self.types.spec_chain_bound() as nat)->0;
                    assert(pts@ =~= exp.params@.map_values(|c: (String, HulkType)| c.1));
                }
                self.check_call_args(expr, mn.as_str(), &pts, c.span);
                sig.return_type
            }
        }
    }

    /// A call by name: a function (whose unknown parameters the arguments
    /// may refine), or a type's constructor.
    fn check_named_call(&mut self, expr: &Expr, name: &str) -> (t: HulkType)
        requires
            old(self).symbols.scopes().len() >= 1,
            expr.kind is Call,
        ensures
            frame(*old(self), *final(self)),
            expr.kind matches ExprKind::Call(c) ==> named_call_outcome(*old(self), name@, c.span, c.callee.span, t, final(self).errors@),
            expr.kind matches ExprKind::Call(c) ==> named_call_args(*old(self), name@, c.args@, c.span, final(self).checked@, final(self).errors@),
        decreases expr, 1nat,
    {
        let c = match &expr.kind {
            ExprKind::Call(c) => c,
            _ => { return HulkType::Never; }
        };
        let callee = match self.symbols.lookup(name) {
            Some(s) => match &s.kind {
                SymbolKind::Function { params, return_type } => Callee::Func(copy_types(params), return_type.copy()),
                SymbolKind::Type => Callee::TypeName,
                _ => Callee::Other,
            },
            None => Callee::Missing,
        };
        match callee {
            Callee::Func(params, ret) => {
                self.refine_params_from_call(expr, name, &params);
                let found = find_entry(&self.functions, name);
                proof {
                    match found {
                        Some(i) => {
                            assert forall|j: int| 0 <= j < i implies old(self).functions@[j].0@ != name@ by {
                                assert(self.functions@[j].0@ == old(self).functions@[j].0@);
                            }
                            lemma_first_named(old(self).functions@, name@, i as int);
                        }
                        None => {
                            assert forall|j: int| 0 <= j < old(self).functions@.len() implies old(self).functions@[j].0@ != name@ by {
                                assert(self.functions@[j].0@ == old(self).functions@[j].0@);
                            }
                        }
                    }
                }
                let (p2, r2) = match found {
                    Some(i) => (types_of(&self.functions[i].1.params), self.functions[i].1.return_type.copy()),
                    None => (params, ret),
                };
                proof {
                    if let Some(i) = found {
                        assert(p2@ =~= self.functions@[i as int].1.params@.map_values(|p: (String, HulkType)| p.1));
                    }
                }
                self.check_call_args(expr, name, &p2, c.span);
                r2
            }
            Callee::TypeName => {
                let ctor = match find_type(&self.types.types, name) {
                    Some(i) => types_of(&self.types.types[i].constructor_params),
                    None => Vec::new(),
                };
                if ctor.len() > 0 || c.args.len() > 0 {
                    self.check_call_args(expr, name, &ctor, c.span);
                }
                HulkType::UserDefined(name.to_owned())
            }
            Callee::Other => {
                self.errors.push(SemanticError::NotCallable { span: c.span });
                HulkType::Never
            }
            Callee::Missing => {
                let ghost before = self.errors@;
                self.errors.push(SemanticError::UndefinedFunction { name: name.to_owned(), span: c.callee.span });
                assert(self.errors@.drop_last() =~= before);
                HulkType::Never
            }
        }
    }

    /// Where a function's parameter is `Unknown` or `Object`, a concrete
    /// argument type at a call site becomes its type.
    #[verifier::loop_isolation(false)]
    fn refine_params_from_call(&mut self, expr: &Expr, name: &str, params: &Vec<HulkType>)
        requires
            old(self).symbols.scopes().len() >= 1,
            expr.kind is Call,
        ensures
            frame(*old(self), *final(self)),
            !open_params(params@) ==> *final(self) == *old(self),
            open_params(params@) ==> (expr.kind matches ExprKind::Call(c) ==> {
                &&& args_rechecked(old(self).checked@.len(), old(self).errors@.len(), c.args@, final(self).checked@, final(self).errors@)
                &&& forall|j: int| 0 <= j < c.args@.len()
                    && concrete(#[trigger] chain_types(final(self).checked@, c.args@.len(), final(self).checked@.len() - 1)[j])
                    && (first_named(final(self).functions@, name@) matches Some(i) && j < final(self).functions@[i].1.params@.len())
                    ==> !(final(self).functions@[first_named(final(self).functions@, name@)->0].1.params@[j].1 is Unknown
                        || final(self).functions@[first_named(final(self).functions@, name@)->0].1.params@[j].1 is Object)
            }),
        decreases expr, 0nat,
    {
        let c = match &expr.kind {
            ExprKind::Call(c) => c,
            _ => { return; }
        };
        let mut needs_refine = false;
        let mut k: usize = 0;
        while k < params.len()
            invariant
                k <= params@.len(),
                needs_refine <==> exists|i: int| 0 <= i < k && (params@[i] is Unknown || params@[i] is Object),
            decreases params@.len() - k,
        {
            match &params[k] {
                HulkType::Unknown | HulkType::Object => { needs_refine = true; }
                _ => {}
            }
            k = k + 1;
        }
        if !needs_refine {
            return;
        }
        let ghost rs = self.checked@.len();
        let ghost es = self.errors@.len();
        let mut arg_types: Vec<HulkType> = Vec::new();
        let mut k: usize = 0;
        while k < c.args.len()
            invariant
                frame(*old(self), *self),
                self.symbols.scopes().len() >= 1,
                k <= c.args@.len(),
                rs == old(self).checked@.len(),
                es == old(self).errors@.len(),
                arg_types@.len() == k,
                k == 0 ==> self.checked@ == old(self).checked@ && self.errors@ == old(self).errors@,
                k > 0 ==> self.checked@.len() > 0 && chained(self.checked@, c.args@.take(k as int), self.checked@.len() - 1, rs, es)
                    && self.errors@.len() == self.checked@.last().errors_after
                    && arg_types@ == chain_types(self.checked@, k as nat, self.checked@.len() - 1),
            decreases c.args@.len() - k,
        {
            let ghost before = self.checked@;
            let at = self.check_expr(&c.args[k]);
            arg_types.push(at);
            proof {
                let r = self.checked@;
                let xs = c.args@.take(k + 1);
                assert(xs.last() == c.args@[k as int]);
                if k > 0 {
                    assert(xs.drop_last() =~= c.args@.take(k as int));
                    lemma_chain_kept(before, r, c.args@.take(k as int), before.len() - 1, rs, es);
                    assert(chain_types(r, (k + 1) as nat, r.len() - 1)
                        == chain_types(r, k as nat, r[r.len() - 1].start - 1).push(r.last().ty));
                    assert(arg_types@ =~= chain_types(r, (k + 1) as nat, r.len() - 1));
                } else {
                    assert(chain_types(r, 0, r[r.len() - 1].start - 1) =~= Seq::<HulkType>::empty());
                    assert(chain_types(r, 1, r.len() - 1) =~= seq![r.last().ty]);
                    assert(arg_types@ =~= chain_types(r, 1, r.len() - 1));
                }
            }
            k = k + 1;
        }
        proof {
            assert(c.args@.take(c.args@.len() as int) =~= c.args@);
        }
        let fi = find_entry(&self.functions, name);
        if let Some(i) = fi {
            proof { lemma_first_named(self.functions@, name@, i as int); }
            let ghost f0 = self.functions@;
            let mut ps = copy_named(&self.functions[i].1.params);
            let mut j: usize = 0;
            while j < ps.len() && j < arg_types.len()
                invariant
                    j <= ps@.len(),
                    ps@.len() == f0[i as int].1.params@.len(),
                    forall|j2: int| 0 <= j2 < j && j2 < arg_types@.len() && concrete(arg_types@[j2])
                        ==> !((#[trigger] ps@[j2]).1 is Unknown || ps@[j2].1 is Object),
                decreases ps@.len() - j,
            {
                let open = match &ps[j].1 {
                    HulkType::Unknown | HulkType::Object => true,
                    _ => false,
                };
                let concrete = match &arg_types[j] {
                    HulkType::Unknown | HulkType::Object | HulkType::Never => false,
                    _ => true,
                };
                let replace = open && concrete;
                if replace {
                    let pname = ps[j].0.clone();
                    ps.set(j, (pname, arg_types[j].copy()));
                }
                j = j + 1;
            }
            let ret = self.functions[i].1.return_type.copy();
            let key = self.functions[i].0.clone();
            proof { assert(key@ == f0[i as int].0@); }
            self.functions.set(i, (key, FuncSignature { params: ps, return_type: ret }));
            proof {
                assert forall|j2: int| 0 <= j2 < i implies self.functions@[j2].0@ != name@ by {
                    assert(self.functions@[j2] == f0[j2]);
                }
                lemma_first_named(self.functions@, name@, i as int);
            }
        } else {
            proof {
                assert(!(exists|j2: int| 0 <= j2 < self.functions@.len() && self.functions@[j2].0@ == name@));
            }
        }
    }

    /// Checks the arguments of a call or method call against the parameter
    /// types: their number first, then each argument's type.
    #[verifier::loop_isolation(false)]
    #[verifier::spinoff_prover]
    #[verifier::rlimit(60)]
    fn check_call_args(&mut self, expr: &Expr, name: &str, params: &Vec<HulkType>, span: Span)
        requires
            old(self).symbols.scopes().len() >= 1,
        ensures
            frame(*old(self), *final(self)),
            call_args(*expr) matches Some(args) ==> args_outcome(old(self).types, old(self).checked@.len(),
                old(self).errors@.len(), name@, args, params@, span, final(self).checked@, final(self).errors@, true),
        decreases expr, 0nat,
    {
        let args = match &expr.kind {
            ExprKind::Call(c) => &c.args,
            ExprKind::MethodCall(m) => &m.args,
            _ => { return; }
        };
        let ghost rs = self.checked@.len();
        let ghost es = self.errors@.len();
        let ghost h = self.types;
        if args.len() != params.len() {
            self.errors.push(SemanticError::WrongArgCount {
                name: name.to_owned(), expected: params.len(), found: args.len(), span,
            });
            let ghost pushed = self.errors@;
            let mut k: usize = 0;
            while k < args.len()
                invariant
                    frame(*old(self), *self),
                    self.symbols.scopes().len() >= 1,
                    k <= args@.len(),
                    pushed.len() == es + 1,
                    extends_errors(pushed, self.errors@),
                    k == 0 ==> self.checked@ == old(self).checked@ && self.errors@ == pushed,
                    k > 0 ==> self.checked@.len() > 0 && chained(self.checked@, args@.take(k as int), self.checked@.len() - 1, rs, es + 1)
                        && self.errors@.len() == self.checked@.last().errors_after,
                decreases args@.len() - k,
            {
                let ghost before = self.checked@;
                self.check_expr(&args[k]);
                proof {
                    let xs = args@.take(k + 1);
                    assert(xs.last() == args@[k as int]);
                    if k > 0 {
                        assert(xs.drop_last() =~= args@.take(k as int));
                        lemma_chain_kept(before, self.checked@, args@.take(k as int), before.len() - 1, rs, es + 1);
                    }
                }
                k = k + 1;
            }
            proof {
                assert(args@.take(args@.len() as int) =~= args@);
                assert(self.errors@[es as int] == pushed[es as int]);
            }
        } else {
            let mut k: usize = 0;
            while k < args.len()
                invariant
                    frame(*old(self), *self),
                    self.symbols.scopes().len() >= 1,
                    k <= args@.len(),
                    args@.len() == params@.len(),
                    h == old(self).types,
                    k == 0 ==> self.checked@ == old(self).checked@ && self.errors@ == old(self).errors@,
                    k > 0 ==> self.checked@.len() > 0 && args_checked(h, self.checked@, args@.take(k as int), params@.take(k as int),
                        self.checked@.len() - 1, rs, es, span, self.errors@, true)
                        && self.errors@.len() == settled(h, self.checked@.last(), params@[k - 1]),
                decreases args@.len() - k,
            {
                let ghost before = self.checked@;
                let ghost errs_before = self.errors@;
                let at = self.check_expr(&args[k]);
                let ghost mid = self.errors@;
                if !self.types.conforms(&at, &params[k]) {
                    self.emit_type_or_protocol_error(&at, &params[k], span);
                }
                proof {
                    let xs = args@.take(k + 1);
                    let ps = params@.take(k + 1);
                    assert(xs.last() == args@[k as int]);
                    assert(ps.last() == params@[k as int]);
                    if k > 0 {
                        assert(xs.drop_last() =~= args@.take(k as int));
                        assert(ps.drop_last() =~= params@.take(k as int));
                        assert(ps[k - 1] == params@[k - 1]);
                        lemma_args_kept(h, before, self.checked@, args@.take(k as int), params@.take(k as int),
                            before.len() - 1, rs, es, span, errs_before, self.errors@, true);
                        assert(self.checked@[before.len() - 1] == before.last());
                    }
                }
                k = k + 1;
            }
            proof {
                assert(args@.take(args@.len() as int) =~= args@);
                assert(params@.take(params@.len() as int) =~= params@);
            }
        }
    }

    /// A protocol that is not met names its first missing (or incompatible)
    /// method; any other mismatch is a plain type mismatch.
    fn emit_type_or_protocol_error(&mut self, found_ty: &HulkType, expected_ty: &HulkType, span: Span)
        ensures
            final(self).in_initializer == old(self).in_initializer,
            final(self).symbols == old(self).symbols,
            final(self).types == old(self).types,
            final(self).checked == old(self).checked,
            final(self).functions == old(self).functions,
            final(self).errors@.len() == old(self).errors@.len() + 1,
            extends_errors(old(self).errors@, final(self).errors@),
            expected_ty is Protocol <==> final(self).errors@.last() is ProtocolNotConformed,
            conform_error(old(self).types, final(self).errors@.last(), *found_ty, *expected_ty, span),
    {
        match expected_ty {
            HulkType::Protocol(proto_name) => {
                let tn = found_ty.name();
                let missing = match self.types.first_protocol_violation(tn.as_str(), proto_name.as_str()) {
                    Some(m) => m,
                    None => "<método desconocido>".to_owned(),
                };
                self.errors.push(SemanticError::ProtocolNotConformed {
                    type_ident: tn, protocol: proto_name.clone(), missing, span,
                });
            }
            _ => {
                self.errors.push(SemanticError::TypeMismatch { expected: expected_ty.name(), found: found_ty.name(), span });
            }
        }
    }

    #[verifier::loop_isolation(false)]
    #[verifier::spinoff_prover]
    #[verifier::rlimit(90)]
    fn check_method_call(&mut self, expr: &Expr) -> (t: HulkType)
        requires
            old(self).symbols.scopes().len() >= 1,
            expr.kind is MethodCall,
        ensures
            frame(*old(self), *final(self)),
            expr.kind matches ExprKind::MethodCall(m) ==> exists|j: int| 0 <= j < final(self).checked@.len()
                && #[trigger] final(self).checked@[j].start == old(self).checked@.len()
                && final(self).checked@[j].expr == *m.object
                && final(self).checked@[j].errors_before == old(self).errors@.len()
                && method_call_outcome(old(self).types, m.method@, m.span, final(self).checked@[j], t,
                    final(self).checked@.len(), final(self).errors@)
                && method_args_outcome(old(self).types, m.method@, m.span, m.args@, final(self).checked@, j, final(self).errors@),
        decreases expr, 2nat,
    {
        let m = match &expr.kind {
            ExprKind::MethodCall(m) => m,
            _ => { return HulkType::Never; }
        };
        let obj_ty = self.check_expr(&m.object);
        let ghost j = self.checked@.len() - 1;
        let ghost s1 = *self;
        assert(self.checked@[j] == s1.checked@.last());
        if obj_ty.is_never() {
            assert(self.checked@[j].start == old(self).checked@.len());
            return HulkType::Never;
        }
        proof { reveal_strlit("Number"); reveal_strlit("String"); reveal_strlit("Boolean"); }
        let (tname, is_protocol) = match &obj_ty {
            HulkType::UserDefined(n) => (n.clone(), false),
            HulkType::Protocol(p) => (p.clone(), true),
            HulkType::Number => ("Number".to_owned(), false),
            HulkType::StringT => ("String".to_owned(), false),
            HulkType::Boolean => ("Boolean".to_owned(), false),
            HulkType::Object => {
                let mut k: usize = 0;
                while k < m.args.len()
                    invariant
                        frame(*old(self), *self),
                        extends_record(s1.checked@, self.checked@),
                        self.symbols.scopes().len() >= 1,
                        k <= m.args@.len(),
                        j + 1 == s1.checked@.len(),
                        k == 0 ==> self.checked@ == s1.checked@ && self.errors@ == s1.errors@,
                        k > 0 ==> self.checked@.len() > 0 && chained(self.checked@, m.args@.take(k as int), self.checked@.len() - 1,
                            s1.checked@.len(), s1.errors@.len()) && self.errors@.len() == self.checked@.last().errors_after,
                    decreases m.args@.len() - k,
                {
                    let ghost before = self.checked@;
                    self.check_expr(&m.args[k]);
                    proof {
                        let xs = m.args@.take(k + 1);
                        assert(xs.last() == m.args@[k as int]);
                        if k > 0 {
                            assert(xs.drop_last() =~= m.args@.take(k as int));
                            lemma_chain_kept(before, self.checked@, m.args@.take(k as int), before.len() - 1,
                                s1.checked@.len(), s1.errors@.len());
                        }
                    }
                    k = k + 1;
                }
                proof { assert(m.args@.take(m.args@.len() as int) =~= m.args@); }
                assert(self.checked@[j] == s1.checked@[j]);
                assert(self.checked@[j].start == old(self).checked@.len());
                return HulkType::Object;
            }
            _ => {
                self.errors.push(SemanticError::MethodNotFound { type_ident: obj_ty.name(), method: m.method.clone(), span: m.span });
                assert(self.checked@[j] == s1.checked@[j]);
                assert(self.checked@[j].start == old(self).checked@.len());
                return HulkType::Never;
            }
        };
        let sig = if is_protocol {
            self.types.lookup_method_in_protocol(tname.as_str(), m.method.as_str())
        } else {
            self.types.lookup_method(tname.as_str(), m.method.as_str())
        };
        match sig {
            Some(sig) => {
                let pts = types_of(&sig.params);
                proof {
                    let found = if is_protocol {
                        protocol_chain_method(self.types.protocols@, tname@, m.method@, bound(self.types))
                    } else {
                        chain_method(self.types.types@, tname@, m.method@, bound(self.types))
                    };
                    assert(pts@ =~= found.unwrap().params@.map_values(|p: (String, HulkType)| p.1));
                }
                self.check_call_args(expr, m.method.as_str(), &pts, m.span);
                assert(self.checked@[j] == s1.checked@[j]);
                assert(self.checked@[j].start == old(self).checked@.len());
                sig.return_type
            }
            None => {
                let shown = if is_protocol {
                    let mut s = "protocol ".to_owned();
                    s.append(tname.as_str());
                    s
                } else {
                    tname
                };
                self.errors.push(SemanticError::MethodNotFound { type_ident: shown, method: m.method.clone(), span: m.span });
                assert(self.checked@[j] == s1.checked@[j]);
                assert(self.checked@[j].start == old(self).checked@.len());
                HulkType::Never
            }
        }
    }

    fn check_access(&mut self, expr: &Expr) -> (t: HulkType)
        requires
            old(self).symbols.scopes().len() >= 1,
            expr.kind is Access,
        ensures
            frame(*old(self), *final(self)),
            expr.kind matches ExprKind::Access(a) ==> access_outcome(old(self).types, old(self).checked@.len(),
                old(self).errors@.len(), *a.object, a.field@, a.span, t, final(self).checked@, final(self).errors@),
        decreases expr, 2nat,
    {
        let a = match &expr.kind {
            ExprKind::Access(a) => a,
            _ => { return HulkType::Never; }
        };
        let obj_ty = self.check_expr(&a.object);
        if obj_ty.is_never() {
            return HulkType::Never;
        }
        let tname = match &obj_ty {
            HulkType::UserDefined(n) => n.clone(),
            _ => { return HulkType::Object; }
        };
        match self.types.lookup_attribute(tname.as_str(), a.field.as_str()) {
            Some(ty) => ty,
            None => {
                self.errors.push(SemanticError::AttributeNotFound { type_ident: tname, attr: a.field.clone(), span: a.span });
                HulkType::Never
            }
        }
    }

    fn check_index(&mut self, expr: &Expr) -> (t: HulkType)
        requires
            old(self).symbols.scopes().len() >= 1,
            expr.kind is Index,
        ensures
            frame(*old(self), *final(self)),
            expr.kind matches ExprKind::Index(i) ==> index_outcome(old(self).checked@.len(),
                old(self).errors@.len(), *i, t, final(self).checked@, final(self).errors@),
        decreases expr, 2nat,
    {
        let i = match &expr.kind {
            ExprKind::Index(i) => i,
            _ => { return HulkType::Never; }
        };
        let coll_ty = self.check_expr(&i.collection);
        let idx_ty = self.check_expr(&i.index);
        if !idx_ty.is_number() && !idx_ty.is_never() {
            self.errors.push(SemanticError::TypeMismatch { expected: "Number".to_owned(), found: idx_ty.name(), span: i.span });
        }
        match coll_ty {
            HulkType::Vector(elem) => *elem,
            HulkType::Never => HulkType::Never,
            other => {
                self.errors.push(SemanticError::TypeMismatch { expected: "Vector".to_owned(), found: other.name(), span: i.span });
                HulkType::Never
            }
        }
    }

    /// A block has the type of its last expression (`Null` when empty).
    #[verifier::loop_isolation(false)]
    fn check_block(&mut self, expr: &Expr) -> (t: HulkType)
        requires
            old(self).symbols.scopes().len() >= 1,
            expr.kind is Block,
        ensures
            frame(*old(self), *final(self)),
            expr.kind matches ExprKind::Block(b) && b.body@.len() == 0 ==> t is Null && final(self).errors@ == old(self).errors@,
            expr.kind matches ExprKind::Block(b) ==> (b.body@.len() > 0 ==> ends_with(b.body@.last(), t, false,
                final(self).checked@, final(self).errors@)),
            expr.kind matches ExprKind::Block(b) ==> (b.body@.len() > 0 ==> chained(final(self).checked@, b.body@,
                final(self).checked@.len() - 1, old(self).checked@.len(), old(self).errors@.len())),
        decreases expr, 2nat,
    {
        let b = match &expr.kind {
            ExprKind::Block(b) => b,
            _ => { return HulkType::Never; }
        };
        let ghost s = self.symbols.scopes();
        self.symbols.push_scope();
        let mut last_ty = HulkType::Null;
        let mut k: usize = 0;
        while k < b.body.len()
            invariant
                self.symbols.scopes().len() >= 1,
                self.symbols.scopes() == s.push(Seq::empty()),
                self.types == old(self).types,
                extends_errors(old(self).errors@, self.errors@),
                extends_record(old(self).checked@, self.checked@),
                same_functions(old(self).functions@, self.functions@),
                self.in_initializer == old(self).in_initializer,
                k <= b.body@.len(),
                k == 0 ==> last_ty is Null && self.errors@ == old(self).errors@,
                k > 0 ==> ends_with(b.body@[k - 1], last_ty, false, self.checked@, self.errors@),
                k > 0 ==> chained(self.checked@, b.body@.take(k as int), self.checked@.len() - 1,
                    old(self).checked@.len(), old(self).errors@.len()),
                k == 0 ==> self.checked@ == old(self).checked@,
            decreases b.body@.len() - k,
        {
            let ghost before = self.checked@;
            last_ty = self.check_expr(&b.body[k]);
            proof {
                let xs = b.body@.take(k + 1);
                assert(xs.last() == b.body@[k as int]);
                if k > 0 {
                    assert(xs.drop_last() =~= b.body@.take(k as int));
                    lemma_chain_kept(before, self.checked@, b.body@.take(k as int), before.len() - 1,
                        old(self).checked@.len(), old(self).errors@.len());
                }
            }
            k = k + 1;
        }
        proof {
            if b.body@.len() > 0 {
                assert(b.body@.take(b.body@.len() as int) =~= b.body@);
            }
        }
        self.symbols.pop_scope();
        assert(self.symbols.scopes() =~= s);
        last_ty
    }

    /// Bindings are checked left to right, each seeing the ones before it;
    /// the `let` has the type of its body.
    #[verifier::loop_isolation(false)]
    #[verifier::rlimit(60)]
    fn check_let(&mut self, expr: &Expr) -> (t: HulkType)
        requires
            old(self).symbols.scopes().len() >= 1,
            expr.kind is Let,
        ensures
            frame(*old(self), *final(self)),
            expr.kind matches ExprKind::Let(l) ==> ends_with(*l.body, t, false, final(self).checked@, final(self).errors@),
            expr.kind matches ExprKind::Let(l) ==> let_bindings_checked(old(self).types, old(self).checked@.len() as int,
                l.bindings@, final(self).checked@, final(self).errors@),
        decreases expr, 2nat,
    {
        let l = match &expr.kind {
            ExprKind::Let(l) => l,
            _ => { return HulkType::Never; }
        };
        let ghost s = self.symbols.scopes();
        self.symbols.push_scope();
        let mut k: usize = 0;
        while k < l.bindings.len()
            invariant
                self.symbols.scopes().len() >= 1,
                self.symbols.scopes().len() == s.len() + 1,
                self.symbols.scopes().drop_last() == s,
                self.types == old(self).types,
                extends_errors(old(self).errors@, self.errors@),
                extends_record(old(self).checked@, self.checked@),
                same_functions(old(self).functions@, self.functions@),
                self.in_initializer == old(self).in_initializer,
                k <= l.bindings@.len(),
                let_bindings_checked(old(self).types, old(self).checked@.len() as int, l.bindings@.take(k as int),
                    self.checked@, self.errors@),
            decreases l.bindings@.len() - k,
        {
            let binding = &l.bindings[k];
            let ghost rec0 = self.checked@;
            let ghost errs0 = self.errors@;
            let val_ty = self.check_expr(&binding.value);
            let ghost jv: int = self.checked@.len() - 1;
            let ghost errs_v = self.errors@;
            let final_ty = match &binding.type_ann {
                Some(ann) => {
                    let ann_ty = self.resolve_type_name(ann);
                    if !self.types.conforms(&val_ty, &ann_ty) {
                        self.emit_type_or_protocol_error(&val_ty, &ann_ty, binding.span);
                    }
                    ann_ty
                }
                None => {
                    if val_ty.is_unknown() {
                        self.errors.push(SemanticError::CannotInferType { name: binding.name.clone(), span: binding.span });
                    }
                    val_ty
                }
            };
            let ghost before = self.symbols.scopes();
            let ok = self.symbols.define(binding.name.as_str(), Symbol::variable(binding.name.as_str(), final_ty, true));
            proof {
                assert(self.symbols.scopes().drop_last() =~= before.drop_last());
            }
            if !ok {
                self.errors.push(SemanticError::Redefinition { name: binding.name.clone(), span: binding.span });
            }
            proof {
                let h = old(self).types;
                let rs = old(self).checked@.len() as int;
                let bs1 = l.bindings@.take(k + 1);
                assert(self.checked@[jv].expr == *l.bindings@[k as int].value);
                assert(self.checked@[jv].errs == errs_v);
                assert(extends_errors(errs_v, self.errors@));
                assert forall|k2: int| 0 <= k2 < bs1.len() implies exists|j: int| rs <= j < self.checked@.len()
                    && (#[trigger] self.checked@[j]).expr == *(#[trigger] bs1[k2]).value
                    && extends_errors(self.checked@[j].errs, self.errors@)
                    && (bs1[k2].type_ann matches Some(tn) ==> exists|x: HulkType| #[trigger] denotes(h.protocols@, tn, x)
                        && (!accepts(h, self.checked@[j].ty, x, bound(h)) ==> self.errors@.len() > self.checked@[j].errors_after
                            && conform_error(h, self.errors@[self.checked@[j].errors_after as int], self.checked@[j].ty, x, bs1[k2].span))) by {
                    if k2 < k {
                        let bs0 = l.bindings@.take(k as int);
                        assert(bs0[k2] == bs1[k2]);
                        let j = choose|j: int| rs <= j < rec0.len()
                            && (#[trigger] rec0[j]).expr == *(#[trigger] bs0[k2]).value
                            && extends_errors(rec0[j].errs, errs0)
                            && (bs0[k2].type_ann matches Some(tn) ==> exists|x: HulkType| #[trigger] denotes(h.protocols@, tn, x)
                                && (!accepts(h, rec0[j].ty, x, bound(h)) ==> errs0.len() > rec0[j].errors_after
                                    && conform_error(h, errs0[rec0[j].errors_after as int], rec0[j].ty, x, bs0[k2].span)));
                        assert(self.checked@[j] == rec0[j]);
                        if rec0[j].errors_after < errs0.len() {
                            assert(self.errors@[rec0[j].errors_after as int] == errs0[rec0[j].errors_after as int]);
                        }
                    } else {
                        assert(bs1[k2] == l.bindings@[k as int]);
                        if self.checked@[jv].errors_after < self.errors@.len() {
                            assert(self.errors@[self.checked@[jv].errors_after as int] == self.errors@[errs_v.len() as int]);
                        }
                    }
                }
            }
            k = k + 1;
        }
        let ghost rec_b = self.checked@;
        let ghost errs_b = self.errors@;
        let body_ty = self.check_expr(&l.body);
        self.symbols.pop_scope();
        assert(self.symbols.scopes() =~= s);
        proof {
            let h = old(self).types;
            let rs = old(self).checked@.len() as int;
            let bs = l.bindings@;
            assert(bs.take(bs.len() as int) =~= bs);
            assert forall|k2: int| 0 <= k2 < bs.len() implies exists|j: int| rs <= j < self.checked@.len()
                && (#[trigger] self.checked@[j]).expr == *(#[trigger] bs[k2]).value
                && extends_errors(self.checked@[j].errs, self.errors@)
                && (bs[k2].type_ann matches Some(tn) ==> exists|x: HulkType| #[trigger] denotes(h.protocols@, tn, x)
                    && (!accepts(h, self.checked@[j].ty, x, bound(h)) ==> self.errors@.len() > self.checked@[j].errors_after
                        && conform_error(h, self.errors@[self.checked@[j].errors_after as int], self.checked@[j].ty, x, bs[k2].span))) by {
                let j = choose|j: int| rs <= j < rec_b.len()
                    && (#[trigger] rec_b[j]).expr == *(#[trigger] bs[k2]).value
                    && extends_errors(rec_b[j].errs, errs_b)
                    && (bs[k2].type_ann matches Some(tn) ==> exists|x: HulkType| #[trigger] denotes(h.protocols@, tn, x)
                        && (!accepts(h, rec_b[j].ty, x, bound(h)) ==> errs_b.len() > rec_b[j].errors_after
                            && conform_error(h, errs_b[rec_b[j].errors_after as int], rec_b[j].ty, x, bs[k2].span)));
                assert(self.checked@[j] == rec_b[j]);
                if rec_b[j].errors_after < errs_b.len() {
                    assert(self.errors@[rec_b[j].errors_after as int] == errs_b[rec_b[j].errors_after as int]);
                }
            }
        }
        body_ty
    }

    /// The conditions must be `Boolean`; the `if` has the nearest common
    /// ancestor of its branches' types.
    #[verifier::loop_isolation(false)]
    fn check_if(&mut self, expr: &Expr) -> (t: HulkType)
        requires
            old(self).symbols.scopes().len() >= 1,
            expr.kind is If,
        ensures
            frame(*old(self), *final(self)),
            expr.kind matches ExprKind::If(i) ==> (i.elif_chain@.len() == 0 ==> if_outcome(old(self).types,
                old(self).checked@.len(), old(self).errors@.len(), *i.condition, *i.then_body, *i.else_body, i.span, t,
                final(self).checked@, final(self).errors@)),
            expr.kind matches ExprKind::If(i) ==> if_branches_typed(old(self).types, old(self).checked@.len() as int, *i, t,
                final(self).checked@),
            old(self).pure_outcome(*expr, t, *final(self)),
        decreases expr, 2nat,
    {
        let i = match &expr.kind {
            ExprKind::If(i) => i,
            _ => { return HulkType::Never; }
        };
        let cond_ty = self.check_expr(&i.condition);
        let ghost s1 = *self;
        if !matches!(cond_ty, HulkType::Boolean) && !cond_ty.is_never() {
            self.errors.push(SemanticError::TypeMismatch { expected: "Boolean".to_owned(), found: cond_ty.name(), span: i.span });
            proof {
                reveal_strlit("Boolean");
                lemma_shapes_push(s1.errors@, self.errors@.last());
            }
        }
        let ghost s2 = *self;
        proof {
            lemma_pure_same_env(*old(self), s2, *i.then_body);
        }
        let mut result_ty = self.check_expr(&i.then_body);
        let ghost after_then = *self;
        let ghost then_ty = result_ty;
        let ghost h = old(self).types;
        let ghost rs = old(self).checked@.len() as int;
        let ghost mut js: Seq<int> = seq![self.checked@.len() - 1];
        let mut k: usize = 0;
        while k < i.elif_chain.len()
            invariant
                frame(*old(self), *self),
                self.symbols.scopes().len() >= 1,
                k <= i.elif_chain@.len(),
                k == 0 ==> *self == after_then && result_ty == then_ty,
                h == old(self).types,
                self.types == h,
                js.len() == k + 1,
                forall|a: int, b: int| 0 <= a < b < js.len() ==> js[a] < js[b],
                rs <= js[0],
                js.last() < self.checked@.len(),
                self.checked@[js[0]].expr == *i.then_body,
                forall|k2: int| 0 <= k2 < k ==> self.checked@[js[k2 + 1]].expr == *(#[trigger] i.elif_chain@[k2]).body,
                result_ty == branch_lca(h, self.checked@, js),
            decreases i.elif_chain@.len() - k,
        {
            let elif = &i.elif_chain[k];
            let ghost rec0 = self.checked@;
            let elif_cond = self.check_expr(&elif.condition);
            if !matches!(elif_cond, HulkType::Boolean) && !elif_cond.is_never() {
                self.errors.push(SemanticError::TypeMismatch { expected: "Boolean".to_owned(), found: elif_cond.name(), span: elif.span });
            }
            let elif_ty = self.check_expr(&elif.body);
            let ghost rec1 = self.checked@;
            let ghost j: int = rec1.len() - 1;
            proof {
                assert(extends_record(rec0, rec1));
                assert forall|a: int| 0 <= a < js.len() implies 0 <= #[trigger] js[a] < rec0.len() by {
                    if a > 0 { assert(js[0] < js[a]); }
                    if a < js.len() - 1 { assert(js[a] < js.last()); }
                }
                lemma_branch_lca_kept(h, rec0, rec1, js);
            }
            result_ty = self.types.lca(&result_ty, &elif_ty);
            proof {
                let js2 = js.push(j);
                assert(js2.drop_last() =~= js);
                assert(rec1[j].ty == elif_ty);
                assert(result_ty == branch_lca(h, rec1, js2));
                assert forall|a: int, b: int| 0 <= a < b < js2.len() implies js2[a] < js2[b] by {
                    if b < js.len() {
                        assert(js2[a] == js[a] && js2[b] == js[b]);
                    } else {
                        assert(js2[a] == js[a]);
                        if a < js.len() - 1 { assert(js[a] < js.last()); }
                    }
                }
                assert(rec1[js[0]] == rec0[js[0]]);
                assert forall|k2: int| 0 <= k2 < k + 1 implies rec1[js2[k2 + 1]].expr == *(#[trigger] i.elif_chain@[k2]).body by {
                    if k2 < k {
                        assert(js2[k2 + 1] == js[k2 + 1]);
                        assert(js[k2 + 1] < rec0.len()) by {
                            if k2 + 1 < js.len() - 1 { assert(js[k2 + 1] < js.last()); }
                        }
                        assert(rec1[js[k2 + 1]] == rec0[js[k2 + 1]]);
                    } else {
                        assert(js2[k2 + 1] == j);
                    }
                }
                js = js2;
            }
            k = k + 1;
        }
        let ghost s3 = *self;
        proof {
            lemma_pure_same_env(*old(self), s3, *i.else_body);
        }
        let ghost rec2 = self.checked@;
        let else_ty = self.check_expr(&i.else_body);
        let r = self.types.lca(&result_ty, &else_ty);
        proof {
            let rec3 = self.checked@;
            let je: int = rec3.len() - 1;
            assert(extends_record(rec2, rec3));
            assert forall|a: int| 0 <= a < js.len() implies 0 <= #[trigger] js[a] < rec2.len() by {
                if a > 0 { assert(js[0] < js[a]); }
                if a < js.len() - 1 { assert(js[a] < js.last()); }
            }
            lemma_branch_lca_kept(h, rec2, rec3, js);
            let js3 = js.push(je);
            assert(js3.drop_last() =~= js);
            assert(r == branch_lca(h, rec3, js3));
            assert forall|a: int, b: int| 0 <= a < b < js3.len() implies js3[a] < js3[b] by {
                assert(js3[a] == js[a]);
                if b < js.len() {
                    assert(js3[b] == js[b]);
                } else if a < js.len() - 1 {
                    assert(js[a] < js.last());
                }
            }
            assert(rec3[js[0]] == rec2[js[0]]);
            assert forall|k2: int| 0 <= k2 < i.elif_chain@.len() implies rec3[js3[k2 + 1]].expr == *(#[trigger] i.elif_chain@[k2]).body by {
                assert(js3[k2 + 1] == js[k2 + 1]);
                assert(js[k2 + 1] < rec2.len()) by {
                    if k2 + 1 < js.len() - 1 { assert(js[k2 + 1] < js.last()); }
                }
                assert(rec3[js[k2 + 1]] == rec2[js[k2 + 1]]);
            }
            assert(branches_at(rec3, rs, **i, js3));
        }
        proof {
            if old(self).pure_check(*expr) is Some {
                let (_, ce) = old(self).pure_check(*i.condition)->0;
                let (_, te) = old(self).pure_check(*i.then_body)->0;
                let (_, ee) = old(self).pure_check(*i.else_body)->0;
                let (x0, es0) = old(self).pure_check(*expr)->0;
                let bad = !(cond_ty is Boolean) && !(cond_ty is Never);
                let own = if bad {
                    seq![ErrShape::TypeMismatch { expected: "Boolean"@, found: type_text(cond_ty), span: i.span }]
                } else {
                    Seq::<ErrShape>::empty()
                };
                assert(shapes(s2.errors@) =~= shapes(old(self).errors@) + ce + own);
                assert(shapes(self.errors@) =~= shapes(old(self).errors@) + ce + own + te + ee);
                assert(x0 == r);
                assert(shapes(self.found()) == shapes(old(self).found()) + es0);
            }
            assert(old(self).pure_outcome(*expr, r, *self));
        }
        r
    }

    /// The condition must be `Boolean`; the loop has its body's type.
    fn check_while(&mut self, expr: &Expr) -> (t: HulkType)
        requires
            old(self).symbols.scopes().len() >= 1,
            expr.kind is While,
        ensures
            frame(*old(self), *final(self)),
            expr.kind matches ExprKind::While(w) ==> while_outcome(old(self).checked@.len(),
                old(self).errors@.len(), *w, t, final(self).checked@, final(self).errors@),
        decreases expr, 2nat,
    {
        let w = match &expr.kind {
            ExprKind::While(w) => w,
            _ => { return HulkType::Never; }
        };
        let cond_ty = self.check_expr(&w.condition);
        if !matches!(cond_ty, HulkType::Boolean) && !cond_ty.is_never() {
            self.errors.push(SemanticError::TypeMismatch { expected: "Boolean".to_owned(), found: cond_ty.name(), span: w.span });
        }
        self.check_expr(&w.body)
    }

    /// The element type of what a `for` walks: a vector's element type,
    /// `Number` for a range, the `current()` type of an iterable.
    fn check_for(&mut self, expr: &Expr) -> (t: HulkType)
        requires
            old(self).symbols.scopes().len() >= 1,
            expr.kind is For,
        ensures
            frame(*old(self), *final(self)),
            expr.kind matches ExprKind::For(f) ==> for_outcome(old(self).types, old(self).checked@.len(),
                old(self).errors@.len(), *f.iterable, *f.body, f.span, t, final(self).checked@, final(self).errors@),
        decreases expr, 2nat,
    {
        let f = match &expr.kind {
            ExprKind::For(f) => f,
            _ => { return HulkType::Never; }
        };
        let iter_ty = self.check_expr(&f.iterable);
        let elem_ty = match &iter_ty {
            HulkType::Vector(t) => t.copy(),
            HulkType::UserDefined(n) => {
                if str_eq(n.as_str(), "Range") {
                    HulkType::Number
                } else if self.types.conforms_protocol(n.as_str(), "Iterable") {
                    match find_type(&self.types.types, n.as_str()) {
                        Some(ti) => match find_entry(&self.types.types[ti].methods, "current") {
                            Some(mi) => self.types.types[ti].methods[mi].1.return_type.copy(),
                            None => HulkType::Object,
                        },
                        None => HulkType::Object,
                    }
                } else {
                    self.errors.push(SemanticError::TypeMismatch { expected: "Iterable".to_owned(), found: iter_ty.name(), span: f.span });
                    HulkType::Object
                }
            }
            HulkType::Never => HulkType::Never,
            other => {
                self.errors.push(SemanticError::TypeMismatch { expected: "Iterable".to_owned(), found: other.name(), span: f.span });
                HulkType::Object
            }
        };
        let ghost s = self.symbols.scopes();
        self.symbols.push_scope();
        self.symbols.define(f.var.as_str(), Symbol::variable(f.var.as_str(), elem_ty, false));
        assert(self.symbols.scopes().drop_last() =~= s);
        let body_ty = self.check_expr(&f.body);
        self.symbols.pop_scope();
        assert(self.symbols.scopes() =~= s);
        body_ty
    }

    /// `new T(args)`: `T` must be a declared, non-primitive type, and the
    /// arguments must match its constructor.
    #[verifier::loop_isolation(false)]
    fn check_new(&mut self, expr: &Expr) -> (t: HulkType)
        requires
            old(self).symbols.scopes().len() >= 1,
            expr.kind is New,
        ensures
            frame(*old(self), *final(self)),
            result_fits(expr.kind, t),
            expr.kind matches ExprKind::New(n) ==> new_outcome(*old(self), n.ty, n.span, t, *final(self)),
            expr.kind matches ExprKind::New(n) ==> new_args_outcome(*old(self), n.ty, n.args@, n.span,
                final(self).checked@, final(self).errors@),
        decreases expr, 2nat,
    {
        let n = match &expr.kind {
            ExprKind::New(n) => n,
            _ => { return HulkType::Never; }
        };
        let tname = n.ty.name().to_owned();
        let ghost before = self.errors@;
        let ti = match find_type(&self.types.types, tname.as_str()) {
            None => {
                self.errors.push(SemanticError::UndefinedType { name: tname, span: n.span });
                assert(self.errors@.drop_last() =~= before);
                return HulkType::Never;
            }
            Some(i) => i,
        };
        proof { lemma_first_type(self.types.types@, tname@, ti as int); }
        if self.types.types[ti].is_builtin
            && (str_eq(tname.as_str(), "Number") || str_eq(tname.as_str(), "String") || str_eq(tname.as_str(), "Boolean")) {
            self.errors.push(SemanticError::InheritFromPrimitive { type_ident: tname, span: n.span });
            assert(self.errors@.drop_last() =~= before);
            return HulkType::Never;
        }
        let ctor = types_of(&self.types.types[ti].constructor_params);
        let ghost rs = self.checked@.len();
        let ghost es = self.errors@.len();
        let ghost h = self.types;
        proof {
            assert(ctor@ =~= self.types.types@[ti as int].constructor_params@.map_values(|p: (String, HulkType)| p.1));
        }
        if n.args.len() != ctor.len() {
            self.errors.push(SemanticError::WrongArgCount {
                name: tname.clone(), expected: ctor.len(), found: n.args.len(), span: n.span,
            });
            let ghost pushed = self.errors@;
            let mut k: usize = 0;
            while k < n.args.len()
                invariant
                    frame(*old(self), *self),
                    self.symbols.scopes().len() >= 1,
                    k <= n.args@.len(),
                    pushed.len() == es + 1,
                    extends_errors(pushed, self.errors@),
                    k == 0 ==> self.checked@ == old(self).checked@ && self.errors@ == pushed,
                    k > 0 ==> self.checked@.len() > 0 && chained(self.checked@, n.args@.take(k as int), self.checked@.len() - 1, rs, es + 1)
                        && self.errors@.len() == self.checked@.last().errors_after,
                decreases n.args@.len() - k,
            {
                let ghost before = self.checked@;
                self.check_expr(&n.args[k]);
                proof {
                    let xs = n.args@.take(k + 1);
                    assert(xs.last() == n.args@[k as int]);
                    if k > 0 {
                        assert(xs.drop_last() =~= n.args@.take(k as int));
                        lemma_chain_kept(before, self.checked@, n.args@.take(k as int), before.len() - 1, rs, es + 1);
                    }
                }
                k = k + 1;
            }
            proof {
                assert(n.args@.take(n.args@.len() as int) =~= n.args@);
                assert(self.errors@[es as int] == pushed[es as int]);
            }
        } else {
            let mut k: usize = 0;
            while k < n.args.len()
                invariant
                    frame(*old(self), *self),
                    self.symbols.scopes().len() >= 1,
                    k <= n.args@.len(),
                    n.args@.len() == ctor@.len(),
                    h == old(self).types,
                    k == 0 ==> self.checked@ == old(self).checked@ && self.errors@ == old(self).errors@,
                    k > 0 ==> self.checked@.len() > 0 && args_checked(h, self.checked@, n.args@.take(k as int), ctor@.take(k as int),
                        self.checked@.len() - 1, rs, es, n.span, self.errors@, false)
                        && self.errors@.len() == settled(h, self.checked@.last(), ctor@[k - 1]),
                decreases n.args@.len() - k,
            {
                let ghost before = self.checked@;
                let ghost errs_before = self.errors@;
                let at = self.check_expr(&n.args[k]);
                if !self.types.conforms(&at, &ctor[k]) {
                    self.errors.push(SemanticError::TypeMismatch { expected: ctor[k].name(), found: at.name(), span: n.span });
                }
                proof {
                    let xs = n.args@.take(k + 1);
                    let ps = ctor@.take(k + 1);
                    assert(xs.last() == n.args@[k as int]);
                    assert(ps.last() == ctor@[k as int]);
                    if k > 0 {
                        assert(xs.drop_last() =~= n.args@.take(k as int));
                        assert(ps.drop_last() =~= ctor@.take(k as int));
                        assert(ps[k - 1] == ctor@[k - 1]);
                        lemma_args_kept(h, before, self.checked@, n.args@.take(k as int), ctor@.take(k as int),
                            before.len() - 1, rs, es, n.span, errs_before, self.errors@, false);
                        assert(self.checked@[before.len() - 1] == before.last());
                    }
                }
                k = k + 1;
            }
            proof {
                assert(n.args@.take(n.args@.len() as int) =~= n.args@);
                assert(ctor@.take(ctor@.len() as int) =~= ctor@);
            }
        }
        HulkType::UserDefined(tname)
    }

    /// A vector literal has the common ancestor of its elements (`Object`
    /// when empty); a generator has its body's type; `new T[n]` has `T`.
    #[verifier::loop_isolation(false)]
    fn check_vector(&mut self, expr: &Expr) -> (t: HulkType)
        requires
            old(self).symbols.scopes().len() >= 1,
            expr.kind is Vector,
        ensures
            frame(*old(self), *final(self)),
            result_fits(expr.kind, t),
            expr.kind matches ExprKind::Vector(v) ==> vector_outcome(old(self).protocol_list(), *v, t, old(self).errors@, final(self).errors@),
            expr.kind matches ExprKind::Vector(v) ==> (*v matches VectorExpr::Generator { body, .. }
                ==> ends_with(*body, t, true, final(self).checked@, final(self).errors@)),
            expr.kind matches ExprKind::Vector(v) ==> (*v matches VectorExpr::Explicit { elements, .. }
                ==> (elements@.len() > 0 ==> elements_outcome(old(self).types, old(self).checked@.len(),
                    old(self).errors@.len(), elements@, t, final(self).checked@, final(self).errors@))),
        decreases expr, 2nat,
    {
        let v = match &expr.kind {
            ExprKind::Vector(v) => v,
            _ => { return HulkType::Vector(Box::new(HulkType::Object)); }
        };
        match &**v {
            VectorExpr::Explicit { elements, .. } => {
                if elements.len() == 0 {
                    return HulkType::Vector(Box::new(HulkType::Object));
                }
                let mut unified = self.check_expr(&elements[0]);
                proof {
                    assert(elements@.take(1).last() == elements@[0]);
                    let r = self.checked@;
                    assert(chain_types(r, 0, r[r.len() - 1].start - 1) =~= Seq::<HulkType>::empty());
                    assert(chain_types(r, 1, r.len() - 1) =~= seq![r.last().ty]);
                }
                let mut k: usize = 1;
                while k < elements.len()
                    invariant
                        frame(*old(self), *self),
                        self.symbols.scopes().len() >= 1,
                        1 <= k <= elements@.len(),
                        self.checked@.len() > 0,
                        chained(self.checked@, elements@.take(k as int), self.checked@.len() - 1,
                            old(self).checked@.len(), old(self).errors@.len()),
                        unified == common_of(old(self).types, chain_types(self.checked@, k as nat, self.checked@.len() - 1)),
                        self.errors@.len() == self.checked@.last().errors_after,
                    decreases elements@.len() - k,
                {
                    let ghost before = self.checked@;
                    let ty = self.check_expr(&elements[k]);
                    proof {
                        let xs = elements@.take(k + 1);
                        assert(xs.last() == elements@[k as int]);
                        assert(xs.drop_last() =~= elements@.take(k as int));
                        lemma_chain_kept(before, self.checked@, elements@.take(k as int), before.len() - 1,
                            old(self).checked@.len(), old(self).errors@.len());
                        let tys = chain_types(self.checked@, (k + 1) as nat, self.checked@.len() - 1);
                        assert(tys.drop_last() =~= chain_types(before, k as nat, before.len() - 1));
                    }
                    unified = self.types.lca(&unified, &ty);
                    k = k + 1;
                }
                proof { assert(elements@.take(elements@.len() as int) =~= elements@); }
                HulkType::Vector(Box::new(unified))
            }
            VectorExpr::Generator { body, var, iterable, .. } => {
                let iter_ty = self.check_expr(iterable);
                let elem_ty = match &iter_ty {
                    HulkType::Vector(t) => t.copy(),
                    HulkType::UserDefined(n) => if str_eq(n.as_str(), "Range") { HulkType::Number } else { HulkType::Object },
                    HulkType::Never => HulkType::Never,
                    _ => HulkType::Object,
                };
                let ghost s = self.symbols.scopes();
                self.symbols.push_scope();
                self.symbols.define(var.as_str(), Symbol::variable(var.as_str(), elem_ty, false));
                assert(self.symbols.scopes().drop_last() =~= s);
                let body_ty = self.check_expr(body);
                self.symbols.pop_scope();
                assert(self.symbols.scopes() =~= s);
                HulkType::Vector(Box::new(body_ty))
            }
            VectorExpr::Alloc { elem_type, size, generator, span } => {
                let elem = self.resolve_type_name(elem_type);
                let size_ty = self.check_expr(size);
                if !size_ty.is_number() && !size_ty.is_never() {
                    self.errors.push(SemanticError::TypeMismatch { expected: "Number".to_owned(), found: size_ty.name(), span: *span });
                }
                if let Some((gvar, gbody)) = generator {
                    let ghost s = self.symbols.scopes();
                    self.symbols.push_scope();
                    self.symbols.define(gvar.as_str(), Symbol::variable(gvar.as_str(), HulkType::Number, false));
                    assert(self.symbols.scopes().drop_last() =~= s);
                    let body_ty = self.check_expr(gbody);
                    self.symbols.pop_scope();
                    assert(self.symbols.scopes() =~= s);
                    if !self.types.conforms(&body_ty, &elem) {
                        self.errors.push(SemanticError::TypeMismatch { expected: elem.name(), found: body_ty.name(), span: *span });
                    }
                }
                HulkType::Vector(Box::new(elem))
            }
        }
    }

    /// The type a type name denotes.
    pub fn resolve_type_name(&self, tn: &TypeName) -> (t: HulkType)
        ensures
            denotes(self.protocol_list(), *tn, t),
            tn is Simple ==> names_type(self.protocol_list(), tn->Simple_name@, t),
            tn is Vector ==> (t matches HulkType::Vector(e) && names_type(self.protocol_list(), tn->Vector_name@, *e)),
            tn is Vector2D ==> (t matches HulkType::Vector(e) && (*e matches HulkType::Vector(e2)
                && names_type(self.protocol_list(), tn->Vector2D_name@, *e2))),
            tn is Iterable ==> (t matches HulkType::Protocol(p) && p@ == "Iterable"@),
    {
        match tn {
            TypeName::Simple { name, .. } => self.name_to_hulk_type(name.as_str()),
            TypeName::Vector { name, .. } => HulkType::Vector(Box::new(self.name_to_hulk_type(name.as_str()))),
            TypeName::Vector2D { name, .. } => HulkType::Vector(Box::new(HulkType::Vector(Box::new(self.name_to_hulk_type(name.as_str()))))),
            TypeName::Iterable { .. } => {
                let p = "Iterable".to_owned();
                proof { reveal_strlit("Iterable"); }
                HulkType::Protocol(p)
            }
        }
    }

    fn name_to_hulk_type(&self, name: &str) -> (t: HulkType)
        ensures
            names_type(self.protocol_list(), name@, t),
    {
        proof {
            reveal_strlit("Number"); reveal_strlit("String"); reveal_strlit("Boolean");
            reveal_strlit("Object"); reveal_strlit("Null");
        }
        if str_eq(name, "Number") {
            HulkType::Number
        } else if str_eq(name, "String") {
            HulkType::StringT
        } else if str_eq(name, "Boolean") {
            HulkType::Boolean
        } else if str_eq(name, "Object") {
            HulkType::Object
        } else if str_eq(name, "Null") {
            HulkType::Null
        } else if find_protocol(&self.types.protocols, name).is_some() {
            HulkType::Protocol(name.to_owned())
        } else {
            HulkType::UserDefined(name.to_owned())
        }
    }

    /// The type of an optional annotation; `Unknown`, to be inferred, when absent.
    pub fn resolve_opt_type(&self, ann: &Option<TypeName>, span: Span) -> (t: HulkType)
        ensures
            ann is None ==> t is Unknown,
            ann is Some && ann->0 is Simple ==> names_type(self.protocol_list(), ann->0->Simple_name@, t),
            ann matches Some(tn) ==> denotes(self.protocol_list(), *tn, t),
    {
        match ann {
            Some(tn) => self.resolve_type_name(tn),
            None => HulkType::Unknown,
        }
    }
}

/// What a successful analysis hands on: the type hierarchy with every
/// declared type, the function signatures (parameters and return types
/// inferred where they were not written), and the type of each expression
/// node by its id.
pub struct SemanticOutput {
    pub hierarchy: TypeHierarchy,
    pub functions: Vec<(String, FuncSignature)>,
    pub expr_types: HashMap<u32, HulkType>,
}

/// Checks a program: `Ok` with what was learned when no error was found,
/// otherwise every error, in the order found.
pub fn analyze(program: &Program) -> (r: Result<SemanticOutput, Vec<SemanticError>>)
    ensures
        r matches Err(errors) ==> errors@.len() > 0,
        exists|tc: TypeChecker, rec: Seq<Checked>, errs: Seq<SemanticError>|
            #[trigger] program_checked(tc, *program, rec, errs) && tc.fresh()
            && (r is Ok <==> errs.len() == 0) && (r matches Err(e) ==> e@ == errs)
            && (r matches Ok(out) ==> forall|k: int| 0 <= k < program.declarations@.len()
                ==> #[trigger] return_settled(program.declarations@, k, rec, tc.record().len() as int, out.functions@)),
        forall|j: int| #[trigger] redeclared_function(program.declarations@, j)
            ==> (r matches Err(errors) && errors@.contains(redefinition_of(program.declarations@[j]->Function_0))),
        program.declarations@.len() == 0 && program.entry.kind is Literal ==> r is Ok,
        program.declarations@.len() == 0 ==> exists|tc: TypeChecker| #[trigger] tc.fresh()
            && (tc.pure_check(*program.entry) matches Some((_, es)) ==> {
                &&& (r is Ok <==> es.len() == 0)
                &&& r matches Err(errors) ==> shapes(errors@) == es
            }),
        program.declarations@.len() == 0 && program.entry.kind is Identifier
            && !builtin_name(program.entry.kind->Identifier_name@) ==> {
                &&& r is Err
                &&& r->Err_0@.len() == 1
                &&& r->Err_0@[0] matches SemanticError::UndefinedVariable { name: n, span: sp }
                &&& n@ == program.entry.kind->Identifier_name@ && sp == program.entry.span
            },
{
    let mut checker = TypeChecker::new();
    let ghost fresh = checker;
    let errors = checker.check_program(program);
    proof {
        assert(program_checked(fresh, *program, checker.record(), errors@));
        if program.declarations@.len() == 0 {
            assert(fresh.fresh());
            if fresh.pure_check(*program.entry) is Some {
                let (_, es) = fresh.pure_check(*program.entry)->0;
                assert(shapes(errors@) == shapes(fresh.found()) + es);
                assert(shapes(fresh.found()) =~= Seq::<ErrShape>::empty());
                assert(shapes(errors@) =~= es);
                assert(shapes(errors@).len() == errors@.len());
            }
        }
    }
    let ghost done = checker;
    if errors.len() == 0 {
        let out = SemanticOutput {
            hierarchy: checker.types,
            functions: checker.functions,
            expr_types: checker.expr_types,
        };
        proof {
            assert(out.functions@ == done.function_table());
            assert(forall|k: int| 0 <= k < program.declarations@.len() ==> #[trigger] return_settled(program.declarations@, k,
                done.record(), fresh.record().len() as int, out.functions@));
            assert(program_checked(fresh, *program, done.record(), errors@));
        }
        Ok(out)
    } else {
        Err(errors)
    }
}

} // verus!
