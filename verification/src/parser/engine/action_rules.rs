//! What each reduction builds, stated over the values on the stack.
//!
//! A rule reads the values of some positions of its body: a position that
//! is missing, or holds a value of another kind, makes the reduction fail.
//! Node ids of the expressions built are left open: the parser numbers
//! them afterwards.
use vstd::prelude::*;
use crate::parser::grammar::production::Production;
use crate::parser::grammar::symbol::{NonTerminal as NT, Terminal as Tok, Symbol};
use crate::parser::ast::{
    Span, Expr, ExprKind, Literal, BinaryOp, UnaryOp, PostfixOp, PostfixExpr, BinaryExpr, UnaryExpr,
    AssignOp, AssignExpr, WhileExpr, IndexExpr, LetBinding, ElifBranch, VectorExpr, TypeName,
    Param, TypeMember, MethodSignature, Decl,
};
use crate::parser::engine::semantic_actions::StackValue;

verus! {

/// The expression a stack value stands for: an expression, or a boolean
/// token's literal.
pub open spec fn expr_of(v: StackValue) -> Option<Expr> {
    match v {
        StackValue::Expr(e) => Some(e),
        StackValue::Bool(b, s) => Some(Expr { id: 0, kind: ExprKind::Literal(Literal::Bool { value: b, span: s }), span: s }),
        _ => None,
    }
}

/// The expression at position `i`.
pub open spec fn expr_at(a: Seq<StackValue>, i: int) -> Option<Expr> {
    if 0 <= i < a.len() { expr_of(a[i]) } else { None }
}

/// The list of expressions at position `i`: a list, one expression, or
/// nothing.
pub open spec fn exprs_at(a: Seq<StackValue>, i: int) -> Option<Seq<Expr>> {
    if 0 <= i < a.len() {
        match a[i] {
            StackValue::ExprList(v) => Some(v@),
            StackValue::Expr(e) => Some(seq![e]),
            StackValue::Empty => Some(Seq::empty()),
            _ => None,
        }
    } else {
        None
    }
}

/// The token text and position at position `i`.
pub open spec fn lexeme_at(a: Seq<StackValue>, i: int) -> Option<(Seq<char>, Span)> {
    if 0 <= i < a.len() {
        match a[i] {
            StackValue::Lexeme(s, sp) => Some((s@, sp)),
            _ => None,
        }
    } else {
        None
    }
}

/// The type name at position `i`.
pub open spec fn type_name_at(a: Seq<StackValue>, i: int) -> Option<TypeName> {
    if 0 <= i < a.len() {
        match a[i] {
            StackValue::TypeNameVal(t) => Some(t),
            _ => None,
        }
    } else {
        None
    }
}

/// The parameters at position `i`: a list, one parameter, or nothing.
pub open spec fn params_at(a: Seq<StackValue>, i: int) -> Option<Seq<Param>> {
    if 0 <= i < a.len() {
        match a[i] {
            StackValue::ParamList(v) => Some(v@),
            StackValue::ParamVal(p) => Some(seq![p]),
            StackValue::Empty => Some(Seq::empty()),
            _ => None,
        }
    } else {
        None
    }
}

/// The declarations at position `i`: a list, or nothing.
pub open spec fn decls_at(a: Seq<StackValue>, i: int) -> Option<Seq<Decl>> {
    if 0 <= i < a.len() {
        match a[i] {
            StackValue::DeclList(v) => Some(v@),
            StackValue::Empty => Some(Seq::empty()),
            _ => None,
        }
    } else {
        None
    }
}

/// The `let` bindings at position `i`: a list, or one binding.
pub open spec fn bindings_at(a: Seq<StackValue>, i: int) -> Option<Seq<LetBinding>> {
    if 0 <= i < a.len() {
        match a[i] {
            StackValue::BindingList(v) => Some(v@),
            StackValue::Binding(b) => Some(seq![b]),
            _ => None,
        }
    } else {
        None
    }
}

/// The `elif` branches at position `i`: a list, or nothing.
pub open spec fn elifs_at(a: Seq<StackValue>, i: int) -> Option<Seq<ElifBranch>> {
    if 0 <= i < a.len() {
        match a[i] {
            StackValue::ElifList(v) => Some(v@),
            StackValue::Empty => Some(Seq::empty()),
            _ => None,
        }
    } else {
        None
    }
}

/// The method signatures at position `i`: a list, or nothing.
pub open spec fn sigs_at(a: Seq<StackValue>, i: int) -> Option<Seq<MethodSignature>> {
    if 0 <= i < a.len() {
        match a[i] {
            StackValue::MethodSigList(v) => Some(v@),
            StackValue::Empty => Some(Seq::empty()),
            _ => None,
        }
    } else {
        None
    }
}

/// The type members at position `i`: a list, or nothing.
pub open spec fn members_at(a: Seq<StackValue>, i: int) -> Option<Seq<TypeMember>> {
    if 0 <= i < a.len() {
        match a[i] {
            StackValue::TypeMemberList(v) => Some(v@),
            StackValue::Empty => Some(Seq::empty()),
            _ => None,
        }
    } else {
        None
    }
}

/// The parent named by an inheritance clause at position `i`: none, or a
/// type name.
pub open spec fn parent_at(a: Seq<StackValue>, i: int) -> Option<Option<TypeName>> {
    if 0 <= i < a.len() {
        match a[i] {
            StackValue::Empty => Some(None),
            StackValue::TypeNameVal(t) => Some(Some(t)),
            _ => None,
        }
    } else {
        None
    }
}

/// Whether position `i` of the body is the terminal `t`.
pub open spec fn tok_at(p: Production, i: int, t: Tok) -> bool {
    0 <= i < p.body@.len() && p.body@[i] == Symbol::T(t)
}

/// A list rule `L -> L x`: the list at position 0, with the item at
/// position `i` added when it is of the list's kind.
pub open spec fn extended<A>(l: Seq<A>, item: Option<A>) -> Seq<A> {
    match item {
        Some(x) => l.push(x),
        None => l,
    }
}

/// A stack value that is an expression of this kind at `span`.
pub open spec fn expr_val(v: StackValue, span: Span, k: ExprKind) -> bool {
    v matches StackValue::Expr(e) && e.kind == k && e.span == span
}

/// The type name of a `TypeName` rule of `n` symbols: `T`, `T[]`, `T[][]`
/// or `T*`.
pub open spec fn type_name_shape(n: int, name: Seq<char>, s: Span, t: TypeName) -> bool {
    if n == 1 {
        t matches TypeName::Simple { name: x, span: y } && x@ == name && y == s
    } else if n == 3 {
        t matches TypeName::Vector { name: x, span: y } && x@ == name && y == s
    } else if n == 5 {
        t matches TypeName::Vector2D { name: x, span: y } && x@ == name && y == s
    } else {
        t matches TypeName::Iterable { name: x, span: y } && x@ == name && y == s
    }
}

/// What a function declaration rule builds: `function f(ps) [: T] (=> e; | { .. })`.
pub open spec fn func_built(p: Production, a: Seq<StackValue>, span: Span, v: StackValue) -> bool {
    let n = p.body@.len();
    &&& lexeme_at(a, 1) matches Some((name, _))
    &&& params_at(a, 3) matches Some(ps)
    &&& if tok_at(p, 5, Tok::Colon) {
        &&& type_name_at(a, 6) matches Some(ret)
        &&& expr_at(a, if n == 10 { 8 } else { 7 }) matches Some(body)
        &&& v matches StackValue::DeclVal(Decl::Function(f))
        &&& f.name@ == name && f.params@ == ps && f.return_type == Some(ret) && *f.body == body && f.span == span
    } else {
        &&& expr_at(a, if tok_at(p, 5, Tok::Arrow) { 6 } else { 5 }) matches Some(body)
        &&& v matches StackValue::DeclVal(Decl::Function(f))
        &&& f.name@ == name && f.params@ == ps && f.return_type is None && *f.body == body && f.span == span
    }
}

/// What a method rule builds: `m(ps) [: T] (=> e; | { .. })`.
pub open spec fn method_built(p: Production, a: Seq<StackValue>, span: Span, v: StackValue) -> bool {
    let n = p.body@.len();
    &&& lexeme_at(a, 0) matches Some((name, _))
    &&& params_at(a, 2) matches Some(ps)
    &&& if tok_at(p, 4, Tok::Colon) {
        &&& type_name_at(a, 5) matches Some(ret)
        &&& expr_at(a, if n == 9 { 7 } else { 6 }) matches Some(body)
        &&& v matches StackValue::TypeMemberVal(TypeMember::Method(m))
        &&& m.name@ == name && m.params@ == ps && m.return_type == Some(ret) && *m.body == body && m.span == span
    } else {
        &&& expr_at(a, if tok_at(p, 4, Tok::Arrow) { 5 } else { 4 }) matches Some(body)
        &&& v matches StackValue::TypeMemberVal(TypeMember::Method(m))
        &&& m.name@ == name && m.params@ == ps && m.return_type is None && *m.body == body && m.span == span
    }
}

/// What the rules of declarations, parameters, members and type names
/// build from the values `a` of their body, the whole spanning `span`.
pub open spec fn decl_built(p: Production, a: Seq<StackValue>, span: Span, v: StackValue) -> bool {
    let n = p.body@.len();
    match p.head {
        NT::Program => {
            &&& decls_at(a, 0) matches Some(ds)
            &&& expr_at(a, 1) matches Some(entry)
            &&& v matches StackValue::Program(g)
            &&& g.declarations@ == ds && *g.entry == entry && g.span == span
        },
        NT::DeclList => if n == 0 {
            v matches StackValue::DeclList(w) && w@.len() == 0
        } else {
            &&& decls_at(a, 0) matches Some(l)
            &&& 1 < a.len()
            &&& v matches StackValue::DeclList(w)
            &&& w@ == extended(l, match a[1] { StackValue::DeclVal(d) => Some(d), _ => None })
        },
        NT::FuncDecl => func_built(p, a, span, v),
        NT::ParamListNonEmpty | NT::TypeArgList => {
            &&& params_at(a, 0) matches Some(l)
            &&& 2 < a.len()
            &&& v matches StackValue::ParamList(w)
            &&& w@ == extended(l, match a[2] { StackValue::ParamVal(q) => Some(q), _ => None })
        },
        NT::Param => {
            &&& lexeme_at(a, 0) matches Some((name, s))
            &&& if n == 1 {
                v matches StackValue::ParamVal(q) && q.name@ == name && q.type_ann is None && q.span == s
            } else {
                type_name_at(a, 2) matches Some(t)
                    && v matches StackValue::ParamVal(q) && q.name@ == name && q.type_ann == Some(t) && q.span == s
            }
        },
        NT::TypeDecl => {
            &&& lexeme_at(a, 1) matches Some((name, _))
            &&& params_at(a, 2) matches Some(targs)
            &&& parent_at(a, 3) matches Some(parent)
            &&& members_at(a, 5) matches Some(ms)
            &&& v matches StackValue::DeclVal(Decl::Type(t))
            &&& t.name@ == name && t.type_args@ == targs && t.parent == parent && t.parent_args@.len() == 0
            &&& t.members@ == ms && t.span == span
        },
        NT::TypeArgs => if n == 0 {
            v matches StackValue::ParamList(w) && w@.len() == 0
        } else {
            1 < a.len() && v == a[1]
        },
        NT::InheritClause => if n == 0 {
            v is Empty
        } else {
            1 < a.len() && v == a[1]
        },
        NT::TypeMemberList => if n == 0 {
            v matches StackValue::TypeMemberList(w) && w@.len() == 0
        } else {
            &&& members_at(a, 0) matches Some(l)
            &&& 1 < a.len()
            &&& v matches StackValue::TypeMemberList(w)
            &&& w@ == extended(l, match a[1] { StackValue::TypeMemberVal(m) => Some(m), _ => None })
        },
        NT::AttributeDef => {
            &&& lexeme_at(a, 0) matches Some((name, _))
            &&& if tok_at(p, 1, Tok::Colon) {
                &&& type_name_at(a, 2) matches Some(t)
                &&& expr_at(a, 4) matches Some(x)
                &&& v matches StackValue::TypeMemberVal(TypeMember::Attribute(d))
                &&& d.name@ == name && d.type_ann == Some(t) && *d.value == x && d.span == span
            } else {
                &&& expr_at(a, 2) matches Some(x)
                &&& v matches StackValue::TypeMemberVal(TypeMember::Attribute(d))
                &&& d.name@ == name && d.type_ann is None && *d.value == x && d.span == span
            }
        },
        NT::MethodDef => method_built(p, a, span, v),
        NT::ProtocolDecl => {
            &&& lexeme_at(a, 1) matches Some((name, _))
            &&& if tok_at(p, 2, Tok::Extends) {
                &&& type_name_at(a, 3) matches Some(t)
                &&& sigs_at(a, 5) matches Some(ms)
                &&& v matches StackValue::DeclVal(Decl::Protocol(d))
                &&& d.name@ == name && d.extends == Some(t) && d.methods@ == ms && d.span == span
            } else {
                &&& sigs_at(a, 3) matches Some(ms)
                &&& v matches StackValue::DeclVal(Decl::Protocol(d))
                &&& d.name@ == name && d.extends is None && d.methods@ == ms && d.span == span
            }
        },
        NT::ProtocolMemberList => if n == 0 {
            v matches StackValue::MethodSigList(w) && w@.len() == 0
        } else {
            &&& sigs_at(a, 0) matches Some(l)
            &&& 1 < a.len()
            &&& v matches StackValue::MethodSigList(w)
            &&& w@ == extended(l, match a[1] { StackValue::MethodSigVal(m) => Some(m), _ => None })
        },
        NT::ProtocolMember => 0 < a.len() && v == a[0],
        NT::MethodSignature => {
            &&& lexeme_at(a, 0) matches Some((name, _))
            &&& params_at(a, 2) matches Some(ps)
            &&& type_name_at(a, 5) matches Some(ret)
            &&& v matches StackValue::MethodSigVal(m)
            &&& m.name@ == name && m.params@ == ps && m.return_type == ret && m.span == span
        },
        NT::TypeName => {
            &&& lexeme_at(a, 0) matches Some((name, s))
            &&& v matches StackValue::TypeNameVal(t)
            &&& type_name_shape(n as int, name, s, t)
        },
        NT::ParamList | NT::ArgList => v is Empty,
        _ => false,
    }
}

/// The assignment operator of `x op= e`, from its second symbol.
pub open spec fn assign_op_at(p: Production) -> Option<AssignOp> {
    if tok_at(p, 1, Tok::DestructAssign) {
        Some(AssignOp::Assign)
    } else if tok_at(p, 1, Tok::PlusAssign) {
        Some(AssignOp::PlusAssign)
    } else if tok_at(p, 1, Tok::MinusAssign) {
        Some(AssignOp::MinusAssign)
    } else if tok_at(p, 1, Tok::MultAssign) {
        Some(AssignOp::MulAssign)
    } else if tok_at(p, 1, Tok::DivAssign) {
        Some(AssignOp::DivAssign)
    } else if tok_at(p, 1, Tok::ModAssign) {
        Some(AssignOp::ModAssign)
    } else {
        None
    }
}

/// The operator of a comparison or product, from its second symbol.
pub open spec fn infix_op_at(p: Production) -> Option<BinaryOp> {
    if tok_at(p, 1, Tok::Equal) {
        Some(BinaryOp::Eq)
    } else if tok_at(p, 1, Tok::NotEqual) {
        Some(BinaryOp::NotEq)
    } else if tok_at(p, 1, Tok::Less) {
        Some(BinaryOp::Less)
    } else if tok_at(p, 1, Tok::Greater) {
        Some(BinaryOp::Greater)
    } else if tok_at(p, 1, Tok::LessEq) {
        Some(BinaryOp::LessEq)
    } else if tok_at(p, 1, Tok::GreaterEq) {
        Some(BinaryOp::GreaterEq)
    } else if tok_at(p, 1, Tok::Multiply) {
        Some(BinaryOp::Mul)
    } else if tok_at(p, 1, Tok::Divide) {
        Some(BinaryOp::Div)
    } else if tok_at(p, 1, Tok::Modulo) {
        Some(BinaryOp::Mod)
    } else {
        None
    }
}

/// The operator of the other binary levels, from the rule's head (and, for
/// `@`/`@@` and `+`/`-`, its second symbol).
pub open spec fn level_op(p: Production) -> BinaryOp {
    match p.head {
        NT::OrExpr => BinaryOp::Or,
        NT::AndExpr => BinaryOp::And,
        NT::ConcatExpr => if tok_at(p, 1, Tok::DoubleConcat) { BinaryOp::DoubleConcat } else { BinaryOp::Concat },
        NT::AddExpr => if tok_at(p, 1, Tok::Plus) { BinaryOp::Add } else { BinaryOp::Sub },
        _ => BinaryOp::Power,
    }
}

/// What a binary rule `l op r` builds.
pub open spec fn binary_built(op: BinaryOp, a: Seq<StackValue>, span: Span, v: StackValue) -> bool {
    &&& expr_at(a, 0) matches Some(l)
    &&& expr_at(a, 2) matches Some(r)
    &&& expr_val(v, span, ExprKind::Binary(Box::new(BinaryExpr { op, left: Box::new(l), right: Box::new(r), span })))
}

/// What the call and access rules build: `f(args)`, `o.m(args)`, `o.f`, `c[i]`.
pub open spec fn postfix_form_built(p: Production, a: Seq<StackValue>, span: Span, v: StackValue) -> bool {
    let n = p.body@.len();
    if n == 4 && tok_at(p, 1, Tok::LParen) {
        &&& expr_at(a, 0) matches Some(callee)
        &&& exprs_at(a, 2) matches Some(xs)
        &&& v matches StackValue::Expr(e)
        &&& e.span == span
        &&& e.kind matches ExprKind::Call(c) && *c.callee == callee && c.args@ == xs && c.span == span
    } else if n == 6 && tok_at(p, 1, Tok::Dot) {
        &&& expr_at(a, 0) matches Some(object)
        &&& lexeme_at(a, 2) matches Some((method, _))
        &&& exprs_at(a, 4) matches Some(xs)
        &&& v matches StackValue::Expr(e)
        &&& e.span == span
        &&& e.kind matches ExprKind::MethodCall(m) && *m.object == object && m.method@ == method
            && m.args@ == xs && m.span == span
    } else if n == 3 && tok_at(p, 1, Tok::Dot) {
        &&& expr_at(a, 0) matches Some(object)
        &&& lexeme_at(a, 2) matches Some((field, _))
        &&& v matches StackValue::Expr(e)
        &&& e.span == span
        &&& e.kind matches ExprKind::Access(x) && *x.object == object && x.field@ == field && x.span == span
    } else if n == 4 && tok_at(p, 1, Tok::LBracket) {
        &&& expr_at(a, 0) matches Some(c)
        &&& expr_at(a, 2) matches Some(i)
        &&& expr_val(v, span, ExprKind::Index(Box::new(IndexExpr { collection: Box::new(c), index: Box::new(i), span })))
    } else {
        false
    }
}

/// What a primary rule builds: a literal, `base`, a name, or the value
/// inside parentheses or of its one non-terminal.
pub open spec fn primary_built(p: Production, a: Seq<StackValue>, span: Span, v: StackValue) -> bool {
    if p.body@.len() == 0 {
        false
    } else {
        match p.body@[0] {
            Symbol::T(Tok::Number) => {
                &&& lexeme_at(a, 0) matches Some((x, s))
                &&& v matches StackValue::Expr(e)
                &&& e.span == s
                &&& e.kind matches ExprKind::Literal(Literal::Number { value: w, span: t }) && w@ == x && t == s
            },
            Symbol::T(Tok::String) => {
                &&& lexeme_at(a, 0) matches Some((x, s))
                &&& v matches StackValue::Expr(e)
                &&& e.span == s
                &&& e.kind matches ExprKind::Literal(Literal::String { value: w, span: t })
                &&& w@ == x && t == s
            },
            Symbol::T(Tok::Char) => {
                &&& lexeme_at(a, 0) matches Some((x, s))
                &&& v matches StackValue::Expr(e)
                &&& e.span == s
                &&& e.kind matches ExprKind::Literal(Literal::Char { value: w, span: t }) && w@ == x && t == s
            },
            Symbol::T(Tok::True) => expr_val(v, span, ExprKind::Literal(Literal::Bool { value: true, span })),
            Symbol::T(Tok::False) => expr_val(v, span, ExprKind::Literal(Literal::Bool { value: false, span })),
            Symbol::T(Tok::Null) => expr_val(v, span, ExprKind::Literal(Literal::Null { span })),
            Symbol::T(Tok::Base) => expr_val(v, span, ExprKind::Base),
            Symbol::T(Tok::Identifier) => {
                &&& lexeme_at(a, 0) matches Some((x, s))
                &&& v matches StackValue::Expr(e)
                &&& e.span == s
                &&& e.kind matches ExprKind::Identifier { name: w } && w@ == x
            },
            Symbol::T(Tok::LParen) => 1 < a.len() && v == a[1],
            Symbol::NT(_) => 0 < a.len() && v == a[0],
            _ => false,
        }
    }
}

/// What a `new` rule builds: `new T(args)`, `new T[n]`,
/// `new T[n] { i -> e }` or `new T[][n]`.
pub open spec fn new_built(p: Production, a: Seq<StackValue>, span: Span, v: StackValue) -> bool {
    let n = p.body@.len();
    if n == 5 && tok_at(p, 2, Tok::LParen) {
        &&& type_name_at(a, 1) matches Some(t)
        &&& exprs_at(a, 3) matches Some(xs)
        &&& v matches StackValue::Expr(e)
        &&& e.span == span
        &&& e.kind matches ExprKind::New(x) && x.ty == t && x.args@ == xs && x.span == span
    } else if n == 5 && tok_at(p, 2, Tok::LBracket) {
        &&& lexeme_at(a, 1) matches Some((name, _))
        &&& expr_at(a, 3) matches Some(size)
        &&& v matches StackValue::Expr(e)
        &&& e.span == span
        &&& e.kind matches ExprKind::Vector(x)
        &&& *x matches VectorExpr::Alloc { elem_type: t, size: z, generator: g, span: s }
        &&& t matches TypeName::Simple { name: tn, span: ts } && tn@ == name && ts == span
        &&& *z == size && g is None && s == span
    } else if n == 10 {
        &&& lexeme_at(a, 1) matches Some((name, _))
        &&& expr_at(a, 3) matches Some(size)
        &&& lexeme_at(a, 6) matches Some((var, _))
        &&& expr_at(a, 8) matches Some(body)
        &&& v matches StackValue::Expr(e)
        &&& e.span == span
        &&& e.kind matches ExprKind::Vector(x)
        &&& *x matches VectorExpr::Alloc { elem_type: t, size: z, generator: g, span: s }
        &&& t matches TypeName::Simple { name: tn, span: ts } && tn@ == name && ts == span
        &&& *z == size && s == span
        &&& g matches Some((gv, gb)) && gv@ == var && *gb == body
    } else if n == 7 {
        &&& lexeme_at(a, 1) matches Some((name, _))
        &&& expr_at(a, 5) matches Some(size)
        &&& v matches StackValue::Expr(e)
        &&& e.span == span
        &&& e.kind matches ExprKind::Vector(x)
        &&& *x matches VectorExpr::Alloc { elem_type: t, size: z, generator: g, span: s }
        &&& t matches TypeName::Vector { name: tn, span: ts } && tn@ == name && ts == span
        &&& *z == size && g is None && s == span
    } else {
        false
    }
}

/// What a vector literal rule builds: `[]`, `[a, b]`, `[e | x in xs]` or
/// `{a, b}`.
pub open spec fn vector_built(p: Production, a: Seq<StackValue>, span: Span, v: StackValue) -> bool {
    let n = p.body@.len();
    if n == 2 {
        &&& v matches StackValue::Expr(e)
        &&& e.span == span
        &&& e.kind matches ExprKind::Vector(x)
        &&& *x matches VectorExpr::Explicit { elements: es, span: s } && es@.len() == 0 && s == span
    } else if n == 3 {
        &&& exprs_at(a, 1) matches Some(xs)
        &&& v matches StackValue::Expr(e)
        &&& e.span == span
        &&& e.kind matches ExprKind::Vector(x)
        &&& *x matches VectorExpr::Explicit { elements: es, span: s } && es@ == xs && s == span
    } else if n == 7 {
        &&& expr_at(a, 1) matches Some(body)
        &&& lexeme_at(a, 3) matches Some((var, _))
        &&& expr_at(a, 5) matches Some(it)
        &&& v matches StackValue::Expr(e)
        &&& e.span == span
        &&& e.kind matches ExprKind::Vector(x)
        &&& *x matches VectorExpr::Generator { body: b, var: w, iterable: i, span: s }
        &&& *b == body && w@ == var && *i == it && s == span
    } else if n == 5 {
        &&& expr_at(a, 1) matches Some(first)
        &&& exprs_at(a, 3) matches Some(rest)
        &&& v matches StackValue::Expr(e)
        &&& e.span == span
        &&& e.kind matches ExprKind::Vector(x)
        &&& *x matches VectorExpr::Explicit { elements: es, span: s } && es@ == seq![first] + rest && s == span
    } else {
        false
    }
}

/// What the rules of expressions build from the values `a` of their body,
/// the whole spanning `span`.
pub open spec fn expr_built(p: Production, a: Seq<StackValue>, span: Span, v: StackValue) -> bool {
    let n = p.body@.len();
    match p.head {
        NT::ArgListNonEmpty | NT::ExprList => {
            &&& exprs_at(a, 0) matches Some(l)
            &&& expr_at(a, 2) matches Some(x)
            &&& v matches StackValue::ExprList(w) && w@ == l.push(x)
        },
        NT::AssignExpr => {
            &&& assign_op_at(p) matches Some(op)
            &&& expr_at(a, 0) matches Some(t)
            &&& expr_at(a, 2) matches Some(x)
            &&& expr_val(v, span, ExprKind::Assign(Box::new(AssignExpr { op, target: Box::new(t), value: Box::new(x), span })))
        },
        NT::OrExpr | NT::AndExpr | NT::ConcatExpr | NT::AddExpr | NT::PowerExpr => binary_built(level_op(p), a, span, v),
        NT::CompareExpr | NT::MulExpr => infix_op_at(p) matches Some(op) && binary_built(op, a, span, v),
        NT::IsAsExpr => {
            &&& expr_at(a, 0) matches Some(x)
            &&& type_name_at(a, 2) matches Some(t)
            &&& if tok_at(p, 1, Tok::Is) {
                expr_val(v, span, ExprKind::Is { expr: Box::new(x), ty: t })
            } else {
                expr_val(v, span, ExprKind::As { expr: Box::new(x), ty: t })
            }
        },
        NT::UnaryExpr => {
            let op = if tok_at(p, 0, Tok::Minus) { UnaryOp::Neg } else { UnaryOp::Not };
            &&& expr_at(a, 1) matches Some(x)
            &&& expr_val(v, span, ExprKind::Unary(Box::new(UnaryExpr { op, operand: Box::new(x), span })))
        },
        NT::PostfixExpr => {
            let op = if tok_at(p, 1, Tok::Increment) { PostfixOp::Increment } else { PostfixOp::Decrement };
            &&& expr_at(a, 0) matches Some(x)
            &&& expr_val(v, span, ExprKind::Postfix(Box::new(PostfixExpr { op, operand: Box::new(x), span })))
        },
        NT::CallOrAccess => postfix_form_built(p, a, span, v),
        NT::PrimaryExpr => primary_built(p, a, span, v),
        NT::BlockExpr => {
            &&& exprs_at(a, 1) matches Some(body)
            &&& v matches StackValue::Expr(e)
            &&& e.span == span
            &&& e.kind matches ExprKind::Block(b) && b.body@ == body && b.span == span
        },
        NT::LetExpr => {
            &&& bindings_at(a, 1) matches Some(bs)
            &&& expr_at(a, 3) matches Some(body)
            &&& v matches StackValue::Expr(e)
            &&& e.span == span
            &&& e.kind matches ExprKind::Let(l) && l.bindings@ == bs && *l.body == body && l.span == span
        },
        NT::LetBindingList => {
            &&& bindings_at(a, 0) matches Some(l)
            &&& 2 < a.len()
            &&& v matches StackValue::BindingList(w)
            &&& w@ == extended(l, match a[2] { StackValue::Binding(b) => Some(b), _ => None })
        },
        NT::LetBinding => {
            &&& lexeme_at(a, 0) matches Some((name, s))
            &&& if tok_at(p, 1, Tok::Assign) {
                &&& expr_at(a, 2) matches Some(x)
                &&& v matches StackValue::Binding(b)
                &&& b.name@ == name && b.type_ann is None && *b.value == x && b.span == s
            } else {
                &&& type_name_at(a, 2) matches Some(t)
                &&& expr_at(a, 4) matches Some(x)
                &&& v matches StackValue::Binding(b)
                &&& b.name@ == name && b.type_ann == Some(t) && *b.value == x && b.span == s
            }
        },
        NT::IfExpr => {
            &&& expr_at(a, 2) matches Some(c)
            &&& expr_at(a, 4) matches Some(t)
            &&& elifs_at(a, 5) matches Some(es)
            &&& expr_at(a, 7) matches Some(x)
            &&& v matches StackValue::Expr(e)
            &&& e.span == span
            &&& e.kind matches ExprKind::If(i) && *i.condition == c && *i.then_body == t
                && i.elif_chain@ == es && *i.else_body == x && i.span == span
        },
        NT::ElifChain => if n == 0 {
            v matches StackValue::ElifList(w) && w@.len() == 0
        } else {
            &&& elifs_at(a, 0) matches Some(l)
            &&& expr_at(a, 3) matches Some(c)
            &&& expr_at(a, 5) matches Some(b)
            &&& v matches StackValue::ElifList(w)
            &&& w@ == l.push(ElifBranch { condition: Box::new(c), body: Box::new(b), span })
        },
        NT::WhileExpr => {
            &&& expr_at(a, 2) matches Some(c)
            &&& expr_at(a, 4) matches Some(b)
            &&& expr_val(v, span, ExprKind::While(Box::new(WhileExpr { condition: Box::new(c), body: Box::new(b), span })))
        },
        NT::ForExpr => {
            &&& lexeme_at(a, 2) matches Some((var, _))
            &&& expr_at(a, 4) matches Some(it)
            &&& expr_at(a, 6) matches Some(b)
            &&& v matches StackValue::Expr(e)
            &&& e.span == span
            &&& e.kind matches ExprKind::For(f) && f.var@ == var && *f.iterable == it && *f.body == b && f.span == span
        },
        NT::NewExpr => new_built(p, a, span, v),
        NT::VectorLiteral => vector_built(p, a, span, v),
        _ => false,
    }
}

/// The heads whose rules the declaration actions handle.
pub open spec fn decl_head(h: NT) -> bool {
    match h {
        NT::Program | NT::DeclList | NT::FuncDecl | NT::ParamListNonEmpty | NT::Param | NT::TypeDecl
        | NT::TypeArgs | NT::TypeArgList | NT::InheritClause | NT::TypeMemberList | NT::AttributeDef
        | NT::MethodDef | NT::ProtocolDecl | NT::ProtocolMemberList | NT::ProtocolMember
        | NT::MethodSignature | NT::TypeName | NT::ParamList | NT::ArgList => true,
        _ => false,
    }
}

/// What the rule `p` builds from the values `a` of its body, the whole
/// spanning `span`: a one-non-terminal rule hands its value on; `Start` is
/// never reduced.
pub open spec fn built(p: Production, a: Seq<StackValue>, span: Span, v: StackValue) -> bool {
    if p.body@.len() == 1 && p.body@[0] is NT {
        0 < a.len() && v == a[0]
    } else if p.head == NT::Start {
        false
    } else if decl_head(p.head) {
        decl_built(p, a, span, v)
    } else {
        expr_built(p, a, span, v)
    }
}

} // verus!
