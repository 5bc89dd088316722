//! Expression nodes.
use vstd::prelude::*;
use crate::parser::ast::span::Span;
use crate::parser::ast::types::TypeName;

verus! {

/// A literal as written: the parser keeps the lexeme and leaves conversion to later passes.
#[derive(Debug, Clone, PartialEq)]
pub enum Literal {
    Number { value: String, span: Span },
    String { value: String, span: Span },
    Char { value: String, span: Span },
    Bool { value: bool, span: Span },
    Null { span: Span },
}

/// The span of a literal.
pub open spec fn literal_span(l: Literal) -> Span {
    match l {
        Literal::Number { span, .. } => span,
        Literal::String { span, .. } => span,
        Literal::Char { span, .. } => span,
        Literal::Bool { span, .. } => span,
        Literal::Null { span } => span,
    }
}

impl Literal {
    pub fn span(&self) -> (s: Span)
        ensures
            s == literal_span(*self),
    {
        match self {
            Literal::Number { span, .. } => *span,
            Literal::String { span, .. } => *span,
            Literal::Char { span, .. } => *span,
            Literal::Bool { span, .. } => *span,
            Literal::Null { span } => *span,
        }
    }
}

/// Infix operators.
#[derive(Debug, Clone, Copy, PartialEq, Eq, Structural)]
pub enum BinaryOp {
    Add, Sub, Mul, Div, Mod,
    Power,
    Eq, NotEq,
    Less, Greater,
    LessEq, GreaterEq,
    And,
    Or,
    Concat,
    DoubleConcat,
}

/// `left op right`
#[derive(Debug, PartialEq)]
pub struct BinaryExpr {
    pub op: BinaryOp,
    pub left: Box<Expr>,
    pub right: Box<Expr>,
    pub span: Span,
}

impl BinaryExpr {
    pub fn new(op: BinaryOp, left: Expr, right: Expr, span: Span) -> (b: Self)
        ensures
            b.op == op,
            *b.left == left,
            *b.right == right,
            b.span == span,
    {
        BinaryExpr { op, left: Box::new(left), right: Box::new(right), span }
    }
}

/// Prefix operators: arithmetic and logical negation.
#[derive(Debug, Clone, Copy, PartialEq, Eq, Structural)]
pub enum UnaryOp {
    Neg,
    Not,
}

/// `-x`, `!flag`
#[derive(Debug, PartialEq)]
pub struct UnaryExpr {
    pub op: UnaryOp,
    pub operand: Box<Expr>,
    pub span: Span,
}

impl UnaryExpr {
    pub fn new(op: UnaryOp, operand: Expr, span: Span) -> (u: Self)
        ensures
            u.op == op,
            *u.operand == operand,
            u.span == span,
    {
        UnaryExpr { op, operand: Box::new(operand), span }
    }
}

/// Postfix operators.
#[derive(Debug, Clone, Copy, PartialEq, Eq, Structural)]
pub enum PostfixOp {
    Increment,
    Decrement,
}

/// `x++`, `x--`
#[derive(Debug, PartialEq)]
pub struct PostfixExpr {
    pub op: PostfixOp,
    pub operand: Box<Expr>,
    pub span: Span,
}

impl PostfixExpr {
    pub fn new(op: PostfixOp, operand: Expr, span: Span) -> (p: Self)
        ensures
            p.op == op,
            *p.operand == operand,
            p.span == span,
    {
        PostfixExpr { op, operand: Box::new(operand), span }
    }
}

/// Assignment operators: `:=`, `+=`, `-=`, `*=`, `/=`, `%=`.
#[derive(Debug, Clone, Copy, PartialEq, Eq, Structural)]
pub enum AssignOp {
    Assign,
    PlusAssign,
    MinusAssign,
    MulAssign,
    DivAssign,
    ModAssign,
}

/// Destructive assignment `target := value`; whether the target is an
/// l-value is checked by the semantic analysis.
#[derive(Debug, PartialEq)]
pub struct AssignExpr {
    pub op: AssignOp,
    pub target: Box<Expr>,
    pub value: Box<Expr>,
    pub span: Span,
}

impl AssignExpr {
    pub fn new(op: AssignOp, target: Expr, value: Expr, span: Span) -> (a: Self)
        ensures
            a.op == op,
            *a.target == target,
            *a.value == value,
            a.span == span,
    {
        AssignExpr { op, target: Box::new(target), value: Box::new(value), span }
    }
}

/// Block `{ e1; e2; e3 }`; its value is the last expression.
#[derive(Debug, PartialEq)]
pub struct BlockExpr {
    pub body: Vec<Expr>,
    pub span: Span,
}

impl BlockExpr {
    pub fn new(body: Vec<Expr>, span: Span) -> (b: Self)
        ensures
            b.body@ == body@,
            b.span == span,
    {
        BlockExpr { body, span }
    }

    /// The last expression, whose type is the type of the block.
    pub fn tail(&self) -> (e: &Expr)
        requires
            self.body@.len() > 0,
        ensures
            *e == self.body@.last(),
    {
        &self.body[self.body.len() - 1]
    }
}

/// One binding of a `let`: `id = expr` or `id : Type = expr`.
#[derive(Debug, PartialEq)]
pub struct LetBinding {
    pub name: String,
    pub type_ann: Option<TypeName>,
    pub value: Box<Expr>,
    pub span: Span,
}

impl LetBinding {
    pub fn new(name: &str, type_ann: Option<TypeName>, value: Expr, span: Span) -> (b: Self)
        ensures
            b.name@ == name@,
            b.type_ann == type_ann,
            *b.value == value,
            b.span == span,
    {
        LetBinding { name: name.to_owned(), type_ann, value: Box::new(value), span }
    }
}

/// `let b1, b2, … in body`; bindings are kept flat and checked in order.
#[derive(Debug, PartialEq)]
pub struct LetExpr {
    pub bindings: Vec<LetBinding>,
    pub body: Box<Expr>,
    pub span: Span,
}

impl LetExpr {
    pub fn new(bindings: Vec<LetBinding>, body: Expr, span: Span) -> (l: Self)
        ensures
            l.bindings@ == bindings@,
            *l.body == body,
            l.span == span,
    {
        LetExpr { bindings, body: Box::new(body), span }
    }
}

/// One `elif (cond) body` branch.
#[derive(Debug, PartialEq)]
pub struct ElifBranch {
    pub condition: Box<Expr>,
    pub body: Box<Expr>,
    pub span: Span,
}

impl ElifBranch {
    pub fn new(condition: Expr, body: Expr, span: Span) -> (e: Self)
        ensures
            *e.condition == condition,
            *e.body == body,
            e.span == span,
    {
        ElifBranch { condition: Box::new(condition), body: Box::new(body), span }
    }
}

/// `if (cond) then [elif …]* else otherwise`; the `else` is mandatory in HULK.
#[derive(Debug, PartialEq)]
pub struct IfExpr {
    pub condition: Box<Expr>,
    pub then_body: Box<Expr>,
    pub elif_chain: Vec<ElifBranch>,
    pub else_body: Box<Expr>,
    pub span: Span,
}

impl IfExpr {
    pub fn new(condition: Expr, then_body: Expr, elif_chain: Vec<ElifBranch>, else_body: Expr, span: Span) -> (i: Self)
        ensures
            *i.condition == condition,
            *i.then_body == then_body,
            i.elif_chain@ == elif_chain@,
            *i.else_body == else_body,
            i.span == span,
    {
        IfExpr {
            condition: Box::new(condition),
            then_body: Box::new(then_body),
            elif_chain,
            else_body: Box::new(else_body),
            span,
        }
    }
}

/// `while (cond) body`
#[derive(Debug, PartialEq)]
pub struct WhileExpr {
    pub condition: Box<Expr>,
    pub body: Box<Expr>,
    pub span: Span,
}

impl WhileExpr {
    pub fn new(condition: Expr, body: Expr, span: Span) -> (w: Self)
        ensures
            *w.condition == condition,
            *w.body == body,
            w.span == span,
    {
        WhileExpr { condition: Box::new(condition), body: Box::new(body), span }
    }
}

/// `for (id in iterable) body`
#[derive(Debug, PartialEq)]
pub struct ForExpr {
    pub var: String,
    pub iterable: Box<Expr>,
    pub body: Box<Expr>,
    pub span: Span,
}

impl ForExpr {
    pub fn new(var: &str, iterable: Expr, body: Expr, span: Span) -> (f: Self)
        ensures
            f.var@ == var@,
            *f.iterable == iterable,
            *f.body == body,
            f.span == span,
    {
        ForExpr { var: var.to_owned(), iterable: Box::new(iterable), body: Box::new(body), span }
    }
}

/// `new TypeName(args)`
#[derive(Debug, PartialEq)]
pub struct NewExpr {
    pub ty: TypeName,
    pub args: Vec<Expr>,
    pub span: Span,
}

impl NewExpr {
    pub fn new(ty: TypeName, args: Vec<Expr>, span: Span) -> (n: Self)
        ensures
            n.ty == ty,
            n.args@ == args@,
            n.span == span,
    {
        NewExpr { ty, args, span }
    }
}

/// Call of a function or functor: `callee(args)`
#[derive(Debug, PartialEq)]
pub struct CallExpr {
    pub callee: Box<Expr>,
    pub args: Vec<Expr>,
    pub span: Span,
}

impl CallExpr {
    pub fn new(callee: Expr, args: Vec<Expr>, span: Span) -> (c: Self)
        ensures
            *c.callee == callee,
            c.args@ == args@,
            c.span == span,
    {
        CallExpr { callee: Box::new(callee), args, span }
    }
}

/// Attribute access `object.field`
#[derive(Debug, PartialEq)]
pub struct AccessExpr {
    pub object: Box<Expr>,
    pub field: String,
    pub span: Span,
}

impl AccessExpr {
    pub fn new(object: Expr, field: &str, span: Span) -> (a: Self)
        ensures
            *a.object == object,
            a.field@ == field@,
            a.span == span,
    {
        AccessExpr { object: Box::new(object), field: field.to_owned(), span }
    }
}

/// Method call `object.method(args)`, kept apart from calls because the method
/// is resolved in the type of the object.
#[derive(Debug, PartialEq)]
pub struct MethodCallExpr {
    pub object: Box<Expr>,
    pub method: String,
    pub args: Vec<Expr>,
    pub span: Span,
}

impl MethodCallExpr {
    pub fn new(object: Expr, method: &str, args: Vec<Expr>, span: Span) -> (m: Self)
        ensures
            *m.object == object,
            m.method@ == method@,
            m.args@ == args@,
            m.span == span,
    {
        MethodCallExpr { object: Box::new(object), method: method.to_owned(), args, span }
    }
}

/// Indexing `collection[index]`
#[derive(Debug, PartialEq)]
pub struct IndexExpr {
    pub collection: Box<Expr>,
    pub index: Box<Expr>,
    pub span: Span,
}

impl IndexExpr {
    pub fn new(collection: Expr, index: Expr, span: Span) -> (i: Self)
        ensures
            *i.collection == collection,
            *i.index == index,
            i.span == span,
    {
        IndexExpr { collection: Box::new(collection), index: Box::new(index), span }
    }
}

/// Vector expressions.
#[derive(Debug, PartialEq)]
pub enum VectorExpr {
    /// `[e1, e2, e3]` or `[]`
    Explicit { elements: Vec<Expr>, span: Span },
    /// `[expr | id in iterable]`
    Generator { body: Box<Expr>, var: String, iterable: Box<Expr>, span: Span },
    /// `new Type[N]` or `new Type[N]{ id -> expr }`
    Alloc { elem_type: TypeName, size: Box<Expr>, generator: Option<(String, Box<Expr>)>, span: Span },
}

/// The span of a vector expression.
pub open spec fn vector_span(v: VectorExpr) -> Span {
    match v {
        VectorExpr::Explicit { span, .. } => span,
        VectorExpr::Generator { span, .. } => span,
        VectorExpr::Alloc { span, .. } => span,
    }
}

impl VectorExpr {
    pub fn explicit(elements: Vec<Expr>, span: Span) -> (v: Self)
        ensures
            v is Explicit,
            v->Explicit_elements@ == elements@,
            v->Explicit_span == span,
    {
        VectorExpr::Explicit { elements, span }
    }

    pub fn generator(body: Expr, var: &str, iterable: Expr, span: Span) -> (v: Self)
        ensures
            v is Generator,
            *v->Generator_body == body,
            v->Generator_var@ == var@,
            *v->Generator_iterable == iterable,
            v->Generator_span == span,
    {
        VectorExpr::Generator { body: Box::new(body), var: var.to_owned(), iterable: Box::new(iterable), span }
    }

    pub fn sized(elem_type: TypeName, size: Expr, generator: Option<(String, Expr)>, span: Span) -> (v: Self)
        ensures
            v is Alloc,
            v->Alloc_elem_type == elem_type,
            *v->Alloc_size == size,
            generator is None ==> v->Alloc_generator is None,
            generator matches Some((n, b)) ==> v->Alloc_generator matches Some((n2, b2)) && n2 == n && *b2 == b,
            v->Alloc_span == span,
    {
        let generator = match generator {
            Some((name, body)) => Some((name, Box::new(body))),
            None => None,
        };
        VectorExpr::Alloc { elem_type, size: Box::new(size), generator, span }
    }

    pub fn span(&self) -> (s: Span)
        ensures
            s == vector_span(*self),
    {
        match self {
            VectorExpr::Explicit { span, .. } => *span,
            VectorExpr::Generator { span, .. } => *span,
            VectorExpr::Alloc { span, .. } => *span,
        }
    }
}

/// An expression node: its syntactic kind, its position and an id for side
/// tables. Two nodes are equal when they have the same shape and positions,
/// whatever their ids.
#[derive(Debug)]
pub struct Expr {
    pub id: u32,
    pub kind: ExprKind,
    pub span: Span,
}

/// The syntactic forms of HULK expressions.
#[derive(Debug, PartialEq)]
pub enum ExprKind {
    Literal(Literal),
    Identifier { name: String },
    /// `base`: the parent's implementation inside a method.
    Base,
    Binary(Box<BinaryExpr>),
    Unary(Box<UnaryExpr>),
    Postfix(Box<PostfixExpr>),
    Assign(Box<AssignExpr>),
    Is { expr: Box<Expr>, ty: TypeName },
    As { expr: Box<Expr>, ty: TypeName },
    Call(Box<CallExpr>),
    Access(Box<AccessExpr>),
    MethodCall(Box<MethodCallExpr>),
    Index(Box<IndexExpr>),
    Block(Box<BlockExpr>),
    Let(Box<LetExpr>),
    If(Box<IfExpr>),
    While(Box<WhileExpr>),
    For(Box<ForExpr>),
    New(Box<NewExpr>),
    Vector(Box<VectorExpr>),
}

impl Expr {
    /// A node of the given kind and span, with id 0; the parser numbers the
    /// nodes it builds as it reduces them.
    pub fn new(kind: ExprKind, span: Span) -> (e: Self)
        ensures
            e.kind == kind,
            e.span == span,
            e.id == 0,
    {
        Expr { id: 0, kind, span }
    }

    pub fn span(&self) -> (s: Span)
        ensures
            s == self.span,
    {
        self.span
    }

    pub fn number(value: &str, span: Span) -> (e: Self)
        ensures
            e.kind matches ExprKind::Literal(Literal::Number { value: v, span: s }) && v@ == value@ && s == span,
            e.span == span,
    {
        Expr::new(ExprKind::Literal(Literal::Number { value: value.to_owned(), span }), span)
    }

    pub fn string(value: &str, span: Span) -> (e: Self)
        ensures
            e.kind matches ExprKind::Literal(Literal::String { value: v, span: s }) && v@ == value@ && s == span,
            e.span == span,
    {
        Expr::new(ExprKind::Literal(Literal::String { value: value.to_owned(), span }), span)
    }

    pub fn bool(value: bool, span: Span) -> (e: Self)
        ensures
            e.kind == ExprKind::Literal(Literal::Bool { value, span }),
            e.span == span,
    {
        Expr::new(ExprKind::Literal(Literal::Bool { value, span }), span)
    }

    pub fn null(span: Span) -> (e: Self)
        ensures
            e.kind == ExprKind::Literal(Literal::Null { span }),
            e.span == span,
    {
        Expr::new(ExprKind::Literal(Literal::Null { span }), span)
    }

    pub fn identifier(name: &str, span: Span) -> (e: Self)
        ensures
            e.kind matches ExprKind::Identifier { name: n } && n@ == name@,
            e.span == span,
    {
        Expr::new(ExprKind::Identifier { name: name.to_owned() }, span)
    }

    pub fn binary(op: BinaryOp, left: Expr, right: Expr, span: Span) -> (e: Self)
        ensures
            e.kind == ExprKind::Binary(Box::new(BinaryExpr { op, left: Box::new(left), right: Box::new(right), span })),
            e.span == span,
    {
        Expr::new(ExprKind::Binary(Box::new(BinaryExpr::new(op, left, right, span))), span)
    }

    pub fn unary(op: UnaryOp, operand: Expr, span: Span) -> (e: Self)
        ensures
            e.kind == ExprKind::Unary(Box::new(UnaryExpr { op, operand: Box::new(operand), span })),
            e.span == span,
    {
        Expr::new(ExprKind::Unary(Box::new(UnaryExpr::new(op, operand, span))), span)
    }

    pub fn assign(op: AssignOp, target: Expr, value: Expr, span: Span) -> (e: Self)
        ensures
            e.kind == ExprKind::Assign(Box::new(AssignExpr { op, target: Box::new(target), value: Box::new(value), span })),
            e.span == span,
    {
        Expr::new(ExprKind::Assign(Box::new(AssignExpr::new(op, target, value, span))), span)
    }

    pub fn block(body: Vec<Expr>, span: Span) -> (e: Self)
        ensures
            e.kind matches ExprKind::Block(b) && b.body@ == body@ && b.span == span,
            e.span == span,
    {
        Expr::new(ExprKind::Block(Box::new(BlockExpr::new(body, span))), span)
    }

    pub fn let_expr(bindings: Vec<LetBinding>, body: Expr, span: Span) -> (e: Self)
        ensures
            e.kind matches ExprKind::Let(l) && l.bindings@ == bindings@ && *l.body == body && l.span == span,
            e.span == span,
    {
        Expr::new(ExprKind::Let(Box::new(LetExpr::new(bindings, body, span))), span)
    }

    pub fn if_expr(cond: Expr, then: Expr, elifs: Vec<ElifBranch>, else_: Expr, span: Span) -> (e: Self)
        ensures
            e.kind matches ExprKind::If(i) && *i.condition == cond && *i.then_body == then
                && i.elif_chain@ == elifs@ && *i.else_body == else_ && i.span == span,
            e.span == span,
    {
        Expr::new(ExprKind::If(Box::new(IfExpr::new(cond, then, elifs, else_, span))), span)
    }

    pub fn while_expr(cond: Expr, body: Expr, span: Span) -> (e: Self)
        ensures
            e.kind == ExprKind::While(Box::new(WhileExpr { condition: Box::new(cond), body: Box::new(body), span })),
            e.span == span,
    {
        Expr::new(ExprKind::While(Box::new(WhileExpr::new(cond, body, span))), span)
    }

    pub fn for_expr(var: &str, iterable: Expr, body: Expr, span: Span) -> (e: Self)
        ensures
            e.kind matches ExprKind::For(f) && f.var@ == var@ && *f.iterable == iterable
                && *f.body == body && f.span == span,
            e.span == span,
    {
        Expr::new(ExprKind::For(Box::new(ForExpr::new(var, iterable, body, span))), span)
    }

    pub fn call(callee: Expr, args: Vec<Expr>, span: Span) -> (e: Self)
        ensures
            e.kind matches ExprKind::Call(c) && *c.callee == callee && c.args@ == args@ && c.span == span,
            e.span == span,
    {
        Expr::new(ExprKind::Call(Box::new(CallExpr::new(callee, args, span))), span)
    }

    pub fn method_call(object: Expr, method: &str, args: Vec<Expr>, span: Span) -> (e: Self)
        ensures
            e.kind matches ExprKind::MethodCall(m) && *m.object == object && m.method@ == method@
                && m.args@ == args@ && m.span == span,
            e.span == span,
    {
        Expr::new(ExprKind::MethodCall(Box::new(MethodCallExpr::new(object, method, args, span))), span)
    }

    pub fn access(object: Expr, field: &str, span: Span) -> (e: Self)
        ensures
            e.kind matches ExprKind::Access(a) && *a.object == object && a.field@ == field@ && a.span == span,
            e.span == span,
    {
        Expr::new(ExprKind::Access(Box::new(AccessExpr::new(object, field, span))), span)
    }

    pub fn index(collection: Expr, idx: Expr, span: Span) -> (e: Self)
        ensures
            e.kind == ExprKind::Index(Box::new(IndexExpr { collection: Box::new(collection), index: Box::new(idx), span })),
            e.span == span,
    {
        Expr::new(ExprKind::Index(Box::new(IndexExpr::new(collection, idx, span))), span)
    }
}

} // verus!
