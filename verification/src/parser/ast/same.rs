//! Equality of syntax trees by shape and position. Node ids are numbering
//! for side tables and take no part in it.
use vstd::prelude::*;
use vstd::std_specs::cmp::PartialEqSpecImpl;
use crate::parser::ast::span::Span;
use crate::parser::ast::types::TypeName;
use crate::parser::ast::expr::{
    Expr, ExprKind, Literal, LetBinding, ElifBranch, VectorExpr,
};

verus! {

/// Two literals of the same kind, text and position.
pub open spec fn literal_same(a: Literal, b: Literal) -> bool {
    match a {
        Literal::Number { value: x, span: s } => b matches Literal::Number { value: y, span: t } && x@ == y@ && s == t,
        Literal::String { value: x, span: s } => b matches Literal::String { value: y, span: t } && x@ == y@ && s == t,
        Literal::Char { value: x, span: s } => b matches Literal::Char { value: y, span: t } && x@ == y@ && s == t,
        Literal::Bool { value: x, span: s } => b matches Literal::Bool { value: y, span: t } && x == y && s == t,
        Literal::Null { span: s } => b matches Literal::Null { span: t } && s == t,
    }
}

/// Two type names of the same form, name and position.
pub open spec fn type_name_same(a: TypeName, b: TypeName) -> bool {
    match a {
        TypeName::Simple { name: x, span: s } => b matches TypeName::Simple { name: y, span: t } && x@ == y@ && s == t,
        TypeName::Vector { name: x, span: s } => b matches TypeName::Vector { name: y, span: t } && x@ == y@ && s == t,
        TypeName::Vector2D { name: x, span: s } => b matches TypeName::Vector2D { name: y, span: t } && x@ == y@ && s == t,
        TypeName::Iterable { name: x, span: s } => b matches TypeName::Iterable { name: y, span: t } && x@ == y@ && s == t,
    }
}

/// Two optional type annotations that are both absent or the same.
pub open spec fn opt_type_same(a: Option<TypeName>, b: Option<TypeName>) -> bool {
    match a {
        None => b is None,
        Some(x) => b matches Some(y) && type_name_same(x, y),
    }
}

/// Two expressions with the same shape, names, literals and positions.
pub open spec fn expr_same(a: Expr, b: Expr) -> bool
    decreases a, 1nat,
{
    a.span == b.span && kind_same(a.kind, b.kind)
}

/// Lists of expressions, pairwise the same.
pub open spec fn exprs_same(a: Seq<Expr>, b: Seq<Expr>) -> bool
    decreases a, 0nat,
{
    &&& a.len() == b.len()
    &&& a.len() > 0 ==> exprs_same(a.drop_last(), b.drop_last()) && expr_same(a.last(), b.last())
}

/// Lists of `let` bindings, pairwise the same.
pub open spec fn bindings_same(a: Seq<LetBinding>, b: Seq<LetBinding>) -> bool
    decreases a, 0nat,
{
    &&& a.len() == b.len()
    &&& a.len() > 0 ==> {
        &&& bindings_same(a.drop_last(), b.drop_last())
        &&& a.last().name@ == b.last().name@
        &&& opt_type_same(a.last().type_ann, b.last().type_ann)
        &&& expr_same(*a.last().value, *b.last().value)
        &&& a.last().span == b.last().span
    }
}

/// Lists of `elif` branches, pairwise the same.
pub open spec fn elifs_same(a: Seq<ElifBranch>, b: Seq<ElifBranch>) -> bool
    decreases a, 0nat,
{
    &&& a.len() == b.len()
    &&& a.len() > 0 ==> {
        &&& elifs_same(a.drop_last(), b.drop_last())
        &&& expr_same(*a.last().condition, *b.last().condition)
        &&& expr_same(*a.last().body, *b.last().body)
        &&& a.last().span == b.last().span
    }
}

/// Two vector expressions of the same form with the same parts.
pub open spec fn vector_same(a: VectorExpr, b: VectorExpr) -> bool
    decreases a, 0nat,
{
    match a {
        VectorExpr::Explicit { elements: x, span: s } =>
            b matches VectorExpr::Explicit { elements: y, span: t } && exprs_same(x@, y@) && s == t,
        VectorExpr::Generator { body: x1, var: v1, iterable: i1, span: s } =>
            b matches VectorExpr::Generator { body: x2, var: v2, iterable: i2, span: t }
                && expr_same(*x1, *x2) && v1@ == v2@ && expr_same(*i1, *i2) && s == t,
        VectorExpr::Alloc { elem_type: e1, size: z1, generator: g1, span: s } =>
            b matches VectorExpr::Alloc { elem_type: e2, size: z2, generator: g2, span: t }
                && type_name_same(e1, e2) && expr_same(*z1, *z2) && s == t
                && match g1 {
                    None => g2 is None,
                    Some((n1, x1)) => g2 matches Some((n2, x2)) && n1@ == n2@ && expr_same(*x1, *x2),
                },
    }
}

/// Two expression kinds with the same shape and parts.
pub open spec fn kind_same(a: ExprKind, b: ExprKind) -> bool
    decreases a, 0nat,
{
    match a {
        ExprKind::Literal(x) => b matches ExprKind::Literal(y) && literal_same(x, y),
        ExprKind::Identifier { name: x } => b matches ExprKind::Identifier { name: y } && x@ == y@,
        ExprKind::Base => b is Base,
        ExprKind::Binary(x) => b matches ExprKind::Binary(y) && x.op == y.op && expr_same(*x.left, *y.left)
            && expr_same(*x.right, *y.right) && x.span == y.span,
        ExprKind::Unary(x) => b matches ExprKind::Unary(y) && x.op == y.op && expr_same(*x.operand, *y.operand)
            && x.span == y.span,
        ExprKind::Postfix(x) => b matches ExprKind::Postfix(y) && x.op == y.op && expr_same(*x.operand, *y.operand)
            && x.span == y.span,
        ExprKind::Assign(x) => b matches ExprKind::Assign(y) && x.op == y.op && expr_same(*x.target, *y.target)
            && expr_same(*x.value, *y.value) && x.span == y.span,
        ExprKind::Is { expr: x, ty: tx } => b matches ExprKind::Is { expr: y, ty: ty } && expr_same(*x, *y)
            && type_name_same(tx, ty),
        ExprKind::As { expr: x, ty: tx } => b matches ExprKind::As { expr: y, ty: ty } && expr_same(*x, *y)
            && type_name_same(tx, ty),
        ExprKind::Call(x) => b matches ExprKind::Call(y) && expr_same(*x.callee, *y.callee)
            && exprs_same(x.args@, y.args@) && x.span == y.span,
        ExprKind::Access(x) => b matches ExprKind::Access(y) && expr_same(*x.object, *y.object)
            && x.field@ == y.field@ && x.span == y.span,
        ExprKind::MethodCall(x) => b matches ExprKind::MethodCall(y) && expr_same(*x.object, *y.object)
            && x.method@ == y.method@ && exprs_same(x.args@, y.args@) && x.span == y.span,
        ExprKind::Index(x) => b matches ExprKind::Index(y) && expr_same(*x.collection, *y.collection)
            && expr_same(*x.index, *y.index) && x.span == y.span,
        ExprKind::Block(x) => b matches ExprKind::Block(y) && exprs_same(x.body@, y.body@) && x.span == y.span,
        ExprKind::Let(x) => b matches ExprKind::Let(y) && bindings_same(x.bindings@, y.bindings@)
            && expr_same(*x.body, *y.body) && x.span == y.span,
        ExprKind::If(x) => b matches ExprKind::If(y) && expr_same(*x.condition, *y.condition)
            && expr_same(*x.then_body, *y.then_body) && elifs_same(x.elif_chain@, y.elif_chain@)
            && expr_same(*x.else_body, *y.else_body) && x.span == y.span,
        ExprKind::While(x) => b matches ExprKind::While(y) && expr_same(*x.condition, *y.condition)
            && expr_same(*x.body, *y.body) && x.span == y.span,
        ExprKind::For(x) => b matches ExprKind::For(y) && x.var@ == y.var@ && expr_same(*x.iterable, *y.iterable)
            && expr_same(*x.body, *y.body) && x.span == y.span,
        ExprKind::New(x) => b matches ExprKind::New(y) && type_name_same(x.ty, y.ty)
            && exprs_same(x.args@, y.args@) && x.span == y.span,
        ExprKind::Vector(x) => b matches ExprKind::Vector(y) && vector_same(*x, *y),
    }
}

/// Lists of expressions are the same exactly when they are pairwise the same.
pub proof fn lemma_exprs_same(a: Seq<Expr>, b: Seq<Expr>)
    ensures
        exprs_same(a, b) <==> (a.len() == b.len() && forall|i: int| 0 <= i < a.len() ==> #[trigger] expr_same(a[i], b[i])),
    decreases a.len(),
{
    if a.len() > 0 && a.len() == b.len() {
        lemma_exprs_same(a.drop_last(), b.drop_last());
        if forall|i: int| 0 <= i < a.len() ==> #[trigger] expr_same(a[i], b[i]) {
            assert forall|i: int| 0 <= i < a.drop_last().len() implies #[trigger] expr_same(a.drop_last()[i], b.drop_last()[i]) by {
                assert(expr_same(a[i], b[i]));
            }
            assert(expr_same(a[a.len() - 1], b[b.len() - 1]));
        }
        if exprs_same(a, b) {
            assert forall|i: int| 0 <= i < a.len() implies #[trigger] expr_same(a[i], b[i]) by {
                if i < a.len() - 1 {
                    assert(expr_same(a.drop_last()[i], b.drop_last()[i]));
                }
            }
        }
    }
}

/// The parts of one `let` binding are the same.
pub open spec fn binding_same(x: LetBinding, y: LetBinding) -> bool {
    &&& x.name@ == y.name@
    &&& opt_type_same(x.type_ann, y.type_ann)
    &&& expr_same(*x.value, *y.value)
    &&& x.span == y.span
}

/// Lists of bindings are the same exactly when they are pairwise the same.
pub proof fn lemma_bindings_same(a: Seq<LetBinding>, b: Seq<LetBinding>)
    ensures
        bindings_same(a, b) <==> (a.len() == b.len() && forall|i: int| 0 <= i < a.len() ==> #[trigger] binding_same(a[i], b[i])),
    decreases a.len(),
{
    if a.len() > 0 && a.len() == b.len() {
        lemma_bindings_same(a.drop_last(), b.drop_last());
        if forall|i: int| 0 <= i < a.len() ==> #[trigger] binding_same(a[i], b[i]) {
            assert forall|i: int| 0 <= i < a.drop_last().len() implies #[trigger] binding_same(a.drop_last()[i], b.drop_last()[i]) by {
                assert(binding_same(a[i], b[i]));
            }
            assert(binding_same(a[a.len() - 1], b[b.len() - 1]));
        }
        if bindings_same(a, b) {
            assert forall|i: int| 0 <= i < a.len() implies #[trigger] binding_same(a[i], b[i]) by {
                if i < a.len() - 1 {
                    assert(binding_same(a.drop_last()[i], b.drop_last()[i]));
                }
            }
        }
    }
}

/// The parts of one `elif` branch are the same.
pub open spec fn elif_same(x: ElifBranch, y: ElifBranch) -> bool {
    &&& expr_same(*x.condition, *y.condition)
    &&& expr_same(*x.body, *y.body)
    &&& x.span == y.span
}

/// Lists of branches are the same exactly when they are pairwise the same.
pub proof fn lemma_elifs_same(a: Seq<ElifBranch>, b: Seq<ElifBranch>)
    ensures
        elifs_same(a, b) <==> (a.len() == b.len() && forall|i: int| 0 <= i < a.len() ==> #[trigger] elif_same(a[i], b[i])),
    decreases a.len(),
{
    if a.len() > 0 && a.len() == b.len() {
        lemma_elifs_same(a.drop_last(), b.drop_last());
        if forall|i: int| 0 <= i < a.len() ==> #[trigger] elif_same(a[i], b[i]) {
            assert forall|i: int| 0 <= i < a.drop_last().len() implies #[trigger] elif_same(a.drop_last()[i], b.drop_last()[i]) by {
                assert(elif_same(a[i], b[i]));
            }
            assert(elif_same(a[a.len() - 1], b[b.len() - 1]));
        }
        if elifs_same(a, b) {
            assert forall|i: int| 0 <= i < a.len() implies #[trigger] elif_same(a[i], b[i]) by {
                if i < a.len() - 1 {
                    assert(elif_same(a.drop_last()[i], b.drop_last()[i]));
                }
            }
        }
    }
}

fn same_string(a: &String, b: &String) -> (r: bool)
    ensures
        r == (a@ == b@),
{
    a.as_str().to_owned() == b.as_str().to_owned()
}

fn same_literal(a: &Literal, b: &Literal) -> (r: bool)
    ensures
        r == literal_same(*a, *b),
{
    match (a, b) {
        (Literal::Number { value: x, span: s }, Literal::Number { value: y, span: t }) => same_string(x, y) && *s == *t,
        (Literal::String { value: x, span: s }, Literal::String { value: y, span: t }) => same_string(x, y) && *s == *t,
        (Literal::Char { value: x, span: s }, Literal::Char { value: y, span: t }) => same_string(x, y) && *s == *t,
        (Literal::Bool { value: x, span: s }, Literal::Bool { value: y, span: t }) => *x == *y && *s == *t,
        (Literal::Null { span: s }, Literal::Null { span: t }) => *s == *t,
        _ => false,
    }
}

fn same_type_name(a: &TypeName, b: &TypeName) -> (r: bool)
    ensures
        r == type_name_same(*a, *b),
{
    match (a, b) {
        (TypeName::Simple { name: x, span: s }, TypeName::Simple { name: y, span: t }) => same_string(x, y) && *s == *t,
        (TypeName::Vector { name: x, span: s }, TypeName::Vector { name: y, span: t }) => same_string(x, y) && *s == *t,
        (TypeName::Vector2D { name: x, span: s }, TypeName::Vector2D { name: y, span: t }) => same_string(x, y) && *s == *t,
        (TypeName::Iterable { name: x, span: s }, TypeName::Iterable { name: y, span: t }) => same_string(x, y) && *s == *t,
        _ => false,
    }
}

fn same_opt_type(a: &Option<TypeName>, b: &Option<TypeName>) -> (r: bool)
    ensures
        r == opt_type_same(*a, *b),
{
    match (a, b) {
        (None, None) => true,
        (Some(x), Some(y)) => same_type_name(x, y),
        _ => false,
    }
}

/// Whether two expressions have the same shape, names, literals and
/// positions, whatever their node ids.
pub fn same_expr(a: &Expr, b: &Expr) -> (r: bool)
    ensures
        r == expr_same(*a, *b),
    decreases a, 1nat,
{
    a.span == b.span && same_kind(&a.kind, &b.kind)
}

/// Whether two expression kinds have the same shape and parts.
#[verifier::loop_isolation(false)]
fn same_kind(a: &ExprKind, b: &ExprKind) -> (r: bool)
    ensures
        r == kind_same(*a, *b),
    decreases a, 0nat,
{
    match (a, b) {
        (ExprKind::Literal(x), ExprKind::Literal(y)) => same_literal(x, y),
        (ExprKind::Identifier { name: x }, ExprKind::Identifier { name: y }) => same_string(x, y),
        (ExprKind::Base, ExprKind::Base) => true,
        (ExprKind::Binary(x), ExprKind::Binary(y)) =>
            x.op == y.op && same_expr(&x.left, &y.left) && same_expr(&x.right, &y.right) && x.span == y.span,
        (ExprKind::Unary(x), ExprKind::Unary(y)) =>
            x.op == y.op && same_expr(&x.operand, &y.operand) && x.span == y.span,
        (ExprKind::Postfix(x), ExprKind::Postfix(y)) =>
            x.op == y.op && same_expr(&x.operand, &y.operand) && x.span == y.span,
        (ExprKind::Assign(x), ExprKind::Assign(y)) =>
            x.op == y.op && same_expr(&x.target, &y.target) && same_expr(&x.value, &y.value) && x.span == y.span,
        (ExprKind::Is { expr: x, ty: tx }, ExprKind::Is { expr: y, ty: ty }) => same_expr(x, y) && same_type_name(tx, ty),
        (ExprKind::As { expr: x, ty: tx }, ExprKind::As { expr: y, ty: ty }) => same_expr(x, y) && same_type_name(tx, ty),
        (ExprKind::Call(x), ExprKind::Call(y)) => {
            if !same_expr(&x.callee, &y.callee) || x.span != y.span || x.args.len() != y.args.len() {
                return false;
            }
            proof { lemma_exprs_same(x.args@, y.args@); }
            let mut k: usize = 0;
            while k < x.args.len()
                invariant
                    k <= x.args@.len(),
                    x.args@.len() == y.args@.len(),
                    forall|i: int| 0 <= i < k ==> #[trigger] expr_same(x.args@[i], y.args@[i]),
                decreases x.args@.len() - k,
            {
                if !same_expr(&x.args[k], &y.args[k]) {
                    return false;
                }
                k = k + 1;
            }
            true
        }
        (ExprKind::Access(x), ExprKind::Access(y)) =>
            same_expr(&x.object, &y.object) && same_string(&x.field, &y.field) && x.span == y.span,
        (ExprKind::MethodCall(x), ExprKind::MethodCall(y)) => {
            if !same_expr(&x.object, &y.object) || !same_string(&x.method, &y.method) || x.span != y.span
                || x.args.len() != y.args.len() {
                return false;
            }
            proof { lemma_exprs_same(x.args@, y.args@); }
            let mut k: usize = 0;
            while k < x.args.len()
                invariant
                    k <= x.args@.len(),
                    x.args@.len() == y.args@.len(),
                    forall|i: int| 0 <= i < k ==> #[trigger] expr_same(x.args@[i], y.args@[i]),
                decreases x.args@.len() - k,
            {
                if !same_expr(&x.args[k], &y.args[k]) {
                    return false;
                }
                k = k + 1;
            }
            true
        }
        (ExprKind::Index(x), ExprKind::Index(y)) =>
            same_expr(&x.collection, &y.collection) && same_expr(&x.index, &y.index) && x.span == y.span,
        (ExprKind::Block(x), ExprKind::Block(y)) => {
            if x.span != y.span || x.body.len() != y.body.len() {
                return false;
            }
            proof { lemma_exprs_same(x.body@, y.body@); }
            let mut k: usize = 0;
            while k < x.body.len()
                invariant
                    k <= x.body@.len(),
                    x.body@.len() == y.body@.len(),
                    forall|i: int| 0 <= i < k ==> #[trigger] expr_same(x.body@[i], y.body@[i]),
                decreases x.body@.len() - k,
            {
                if !same_expr(&x.body[k], &y.body[k]) {
                    return false;
                }
                k = k + 1;
            }
            true
        }
        (ExprKind::Let(x), ExprKind::Let(y)) => {
            if !same_expr(&x.body, &y.body) || x.span != y.span || x.bindings.len() != y.bindings.len() {
                return false;
            }
            proof { lemma_bindings_same(x.bindings@, y.bindings@); }
            let mut k: usize = 0;
            while k < x.bindings.len()
                invariant
                    k <= x.bindings@.len(),
                    x.bindings@.len() == y.bindings@.len(),
                    forall|i: int| 0 <= i < k ==> #[trigger] binding_same(x.bindings@[i], y.bindings@[i]),
                decreases x.bindings@.len() - k,
            {
                let p = &x.bindings[k];
                let q = &y.bindings[k];
                if !same_string(&p.name, &q.name) || !same_opt_type(&p.type_ann, &q.type_ann)
                    || !same_expr(&p.value, &q.value) || p.span != q.span {
                    assert(!binding_same(x.bindings@[k as int], y.bindings@[k as int]));
                    return false;
                }
                k = k + 1;
            }
            true
        }
        (ExprKind::If(x), ExprKind::If(y)) => {
            if !same_expr(&x.condition, &y.condition) || !same_expr(&x.then_body, &y.then_body)
                || !same_expr(&x.else_body, &y.else_body) || x.span != y.span
                || x.elif_chain.len() != y.elif_chain.len() {
                return false;
            }
            proof { lemma_elifs_same(x.elif_chain@, y.elif_chain@); }
            let mut k: usize = 0;
            while k < x.elif_chain.len()
                invariant
                    k <= x.elif_chain@.len(),
                    x.elif_chain@.len() == y.elif_chain@.len(),
                    forall|i: int| 0 <= i < k ==> #[trigger] elif_same(x.elif_chain@[i], y.elif_chain@[i]),
                decreases x.elif_chain@.len() - k,
            {
                let p = &x.elif_chain[k];
                let q = &y.elif_chain[k];
                if !same_expr(&p.condition, &q.condition) || !same_expr(&p.body, &q.body) || p.span != q.span {
                    assert(!elif_same(x.elif_chain@[k as int], y.elif_chain@[k as int]));
                    return false;
                }
                k = k + 1;
            }
            true
        }
        (ExprKind::While(x), ExprKind::While(y)) =>
            same_expr(&x.condition, &y.condition) && same_expr(&x.body, &y.body) && x.span == y.span,
        (ExprKind::For(x), ExprKind::For(y)) =>
            same_string(&x.var, &y.var) && same_expr(&x.iterable, &y.iterable) && same_expr(&x.body, &y.body)
                && x.span == y.span,
        (ExprKind::New(x), ExprKind::New(y)) => {
            if !same_type_name(&x.ty, &y.ty) || x.span != y.span || x.args.len() != y.args.len() {
                return false;
            }
            proof { lemma_exprs_same(x.args@, y.args@); }
            let mut k: usize = 0;
            while k < x.args.len()
                invariant
                    k <= x.args@.len(),
                    x.args@.len() == y.args@.len(),
                    forall|i: int| 0 <= i < k ==> #[trigger] expr_same(x.args@[i], y.args@[i]),
                decreases x.args@.len() - k,
            {
                if !same_expr(&x.args[k], &y.args[k]) {
                    return false;
                }
                k = k + 1;
            }
            true
        }
        (ExprKind::Vector(x), ExprKind::Vector(y)) => match (&**x, &**y) {
            (VectorExpr::Explicit { elements: e1, span: s }, VectorExpr::Explicit { elements: e2, span: t }) => {
                if *s != *t || e1.len() != e2.len() {
                    assert(!vector_same(**x, **y));
                    return false;
                }
                proof { lemma_exprs_same(e1@, e2@); }
                let mut k: usize = 0;
                while k < e1.len()
                    invariant
                        k <= e1@.len(),
                        e1@.len() == e2@.len(),
                        forall|i: int| 0 <= i < k ==> #[trigger] expr_same(e1@[i], e2@[i]),
                    decreases e1@.len() - k,
                {
                    if !same_expr(&e1[k], &e2[k]) {
                        return false;
                    }
                    k = k + 1;
                }
                true
            }
            (VectorExpr::Generator { body: x1, var: v1, iterable: i1, span: s },
                VectorExpr::Generator { body: x2, var: v2, iterable: i2, span: t }) =>
                same_expr(x1, x2) && same_string(v1, v2) && same_expr(i1, i2) && *s == *t,
            (VectorExpr::Alloc { elem_type: e1, size: z1, generator: g1, span: s },
                VectorExpr::Alloc { elem_type: e2, size: z2, generator: g2, span: t }) => {
                if !same_type_name(e1, e2) || !same_expr(z1, z2) || *s != *t {
                    return false;
                }
                match (g1, g2) {
                    (None, None) => true,
                    (Some((n1, b1)), Some((n2, b2))) => same_string(n1, n2) && same_expr(b1, b2),
                    _ => false,
                }
            }
            _ => false,
        },
        _ => false,
    }
}

impl PartialEq for Expr {
    fn eq(&self, other: &Self) -> (r: bool) {
        same_expr(self, other)
    }
}

impl PartialEqSpecImpl for Expr {
    open spec fn obeys_eq_spec() -> bool {
        true
    }

    open spec fn eq_spec(&self, other: &Self) -> bool {
        expr_same(*self, *other)
    }
}

} // verus!
