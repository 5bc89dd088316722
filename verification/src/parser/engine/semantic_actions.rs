//! Semantic actions: what each reduction builds from the values on the stack.
use vstd::prelude::*;
use vstd::string::StrSliceExecFns;
use crate::parser::grammar::Grammar;
use crate::parser::grammar::production::Production;
use crate::parser::grammar::symbol::{NonTerminal as NT, Terminal as Tok, Symbol};
use crate::parser::ast::{
    Span, Expr, ExprKind, Literal, BinaryOp, UnaryOp, PostfixOp, PostfixExpr,
    AssignOp, LetBinding, ElifBranch, VectorExpr, TypeName,
    Param, FuncDecl, TypeDecl, TypeMember, AttributeDef,
    MethodDef, ProtocolDecl, MethodSignature, Decl, Program,
    NewExpr,
};
use crate::parser::engine::error::{ParseError, ParseErrorKind};
use crate::parser::engine::action_rules::{built, decl_built, expr_built, new_built, vector_built, expr_of};

verus! {

/// A value on the parser stack: a token's text, or what a reduction built.
#[derive(Debug)]
pub enum StackValue {
    Lexeme(String, Span),
    Bool(bool, Span),
    ExprList(Vec<Expr>),
    ParamList(Vec<Param>),
    BindingList(Vec<LetBinding>),
    ElifList(Vec<ElifBranch>),
    TypeMemberList(Vec<TypeMember>),
    MethodSigList(Vec<MethodSignature>),
    DeclList(Vec<Decl>),
    Expr(Expr),
    TypeNameVal(TypeName),
    ParamVal(Param),
    Binding(LetBinding),
    TypeMemberVal(TypeMember),
    MethodSigVal(MethodSignature),
    DeclVal(Decl),
    Program(Program),
    Empty,
}

/// An internal error: the stack held a value of an unexpected kind.
pub open spec fn is_internal(r: ParseError) -> bool {
    r.kind is InternalError
}

impl StackValue {
    pub fn into_expr(self) -> (r: Result<Expr, ParseError>)
        ensures
            self matches StackValue::Expr(e) ==> r == Ok::<Expr, ParseError>(e),
            self matches StackValue::Bool(b, s) ==> r matches Ok(e) && e.kind == ExprKind::Literal(Literal::Bool { value: b, span: s }) && e.span == s,
            expr_of(self) matches Some(e) ==> r == Ok::<Expr, ParseError>(e),
            !(self is Expr || self is Bool) ==> r is Err && is_internal(r->Err_0),
    {
        match self {
            StackValue::Expr(e) => Ok(e),
            StackValue::Bool(b, span) => Ok(Expr::new(ExprKind::Literal(Literal::Bool { value: b, span }), span)),
            _ => Err(ParseError::internal("se esperaba una expresión en la pila", Span::dummy())),
        }
    }

    pub fn into_expr_list(self) -> (r: Result<Vec<Expr>, ParseError>)
        ensures
            self matches StackValue::ExprList(v) ==> r == Ok::<Vec<Expr>, ParseError>(v),
            self matches StackValue::Expr(e) ==> r matches Ok(v) && v@ == seq![e],
            self is Empty ==> (r matches Ok(v) && v@ == Seq::<Expr>::empty()),
            !(self is ExprList || self is Expr || self is Empty) ==> r is Err && is_internal(r->Err_0),
    {
        match self {
            StackValue::ExprList(v) => Ok(v),
            StackValue::Expr(e) => {
                let mut v = Vec::new();
                v.push(e);
                Ok(v)
            }
            StackValue::Empty => Ok(Vec::new()),
            _ => Err(ParseError::internal("se esperaba una lista de expresiones en la pila", Span::dummy())),
        }
    }

    pub fn into_type_name(self) -> (r: Result<TypeName, ParseError>)
        ensures
            self matches StackValue::TypeNameVal(t) ==> r == Ok::<TypeName, ParseError>(t),
            !(self is TypeNameVal) ==> r is Err && is_internal(r->Err_0),
    {
        match self {
            StackValue::TypeNameVal(t) => Ok(t),
            _ => Err(ParseError::internal("se esperaba un nombre de tipo en la pila", Span::dummy())),
        }
    }

    pub fn into_param_list(self) -> (r: Result<Vec<Param>, ParseError>)
        ensures
            self matches StackValue::ParamList(v) ==> r == Ok::<Vec<Param>, ParseError>(v),
            self matches StackValue::ParamVal(p) ==> r matches Ok(v) && v@ == seq![p],
            self is Empty ==> (r matches Ok(v) && v@ == Seq::<Param>::empty()),
            !(self is ParamList || self is ParamVal || self is Empty) ==> r is Err && is_internal(r->Err_0),
    {
        match self {
            StackValue::ParamList(v) => Ok(v),
            StackValue::ParamVal(p) => {
                let mut v = Vec::new();
                v.push(p);
                Ok(v)
            }
            StackValue::Empty => Ok(Vec::new()),
            _ => Err(ParseError::internal("se esperaba una lista de parámetros en la pila", Span::dummy())),
        }
    }

    pub fn into_lexeme(self) -> (r: Result<(String, Span), ParseError>)
        ensures
            self matches StackValue::Lexeme(s, sp) ==> r == Ok::<(String, Span), ParseError>((s, sp)),
            !(self is Lexeme) ==> r is Err && is_internal(r->Err_0),
    {
        match self {
            StackValue::Lexeme(s, span) => Ok((s, span)),
            _ => Err(ParseError::internal("se esperaba un lexema en la pila", Span::dummy())),
        }
    }

    pub fn into_decl_list(self) -> (r: Result<Vec<Decl>, ParseError>)
        ensures
            self matches StackValue::DeclList(v) ==> r == Ok::<Vec<Decl>, ParseError>(v),
            self is Empty ==> (r matches Ok(v) && v@ == Seq::<Decl>::empty()),
            !(self is DeclList || self is Empty) ==> r is Err && is_internal(r->Err_0),
    {
        match self {
            StackValue::DeclList(v) => Ok(v),
            StackValue::Empty => Ok(Vec::new()),
            _ => Err(ParseError::internal("se esperaba una lista de declaraciones en la pila", Span::dummy())),
        }
    }

    pub fn into_binding_list(self) -> (r: Result<Vec<LetBinding>, ParseError>)
        ensures
            self matches StackValue::BindingList(v) ==> r == Ok::<Vec<LetBinding>, ParseError>(v),
            self matches StackValue::Binding(b) ==> r matches Ok(v) && v@ == seq![b],
            !(self is BindingList || self is Binding) ==> r is Err && is_internal(r->Err_0),
    {
        match self {
            StackValue::BindingList(v) => Ok(v),
            StackValue::Binding(b) => {
                let mut v = Vec::new();
                v.push(b);
                Ok(v)
            }
            _ => Err(ParseError::internal("se esperaba una lista de ligaduras en la pila", Span::dummy())),
        }
    }

    pub fn into_elif_list(self) -> (r: Result<Vec<ElifBranch>, ParseError>)
        ensures
            self matches StackValue::ElifList(v) ==> r == Ok::<Vec<ElifBranch>, ParseError>(v),
            self is Empty ==> (r matches Ok(v) && v@ == Seq::<ElifBranch>::empty()),
            !(self is ElifList || self is Empty) ==> r is Err && is_internal(r->Err_0),
    {
        match self {
            StackValue::ElifList(v) => Ok(v),
            StackValue::Empty => Ok(Vec::new()),
            _ => Err(ParseError::internal("se esperaba una lista de ramas elif en la pila", Span::dummy())),
        }
    }

    pub fn into_method_sig_list(self) -> (r: Result<Vec<MethodSignature>, ParseError>)
        ensures
            self matches StackValue::MethodSigList(v) ==> r == Ok::<Vec<MethodSignature>, ParseError>(v),
            self is Empty ==> (r matches Ok(v) && v@ == Seq::<MethodSignature>::empty()),
            !(self is MethodSigList || self is Empty) ==> r is Err && is_internal(r->Err_0),
    {
        match self {
            StackValue::MethodSigList(v) => Ok(v),
            StackValue::Empty => Ok(Vec::new()),
            _ => Err(ParseError::internal("se esperaba una lista de firmas en la pila", Span::dummy())),
        }
    }

    pub fn into_type_member_list(self) -> (r: Result<Vec<TypeMember>, ParseError>)
        ensures
            self matches StackValue::TypeMemberList(v) ==> r == Ok::<Vec<TypeMember>, ParseError>(v),
            self is Empty ==> (r matches Ok(v) && v@ == Seq::<TypeMember>::empty()),
            !(self is TypeMemberList || self is Empty) ==> r is Err && is_internal(r->Err_0),
    {
        match self {
            StackValue::TypeMemberList(v) => Ok(v),
            StackValue::Empty => Ok(Vec::new()),
            _ => Err(ParseError::internal("se esperaba una lista de miembros en la pila", Span::dummy())),
        }
    }
}

/// A one-symbol production whose symbol is a non-terminal: its value is the
/// value of that symbol.
pub open spec fn passthrough(p: Production) -> bool {
    p.body@.len() == 1 && p.body@[0] is NT
}

/// The `i`-th argument of a reduction, taken off the argument list.
fn arg(args: &mut Vec<StackValue>, i: usize, span: Span) -> (r: Result<StackValue, ParseError>)
    ensures
        i < old(args)@.len() ==> r == Ok::<StackValue, ParseError>(old(args)@[i as int])
            && final(args)@ == old(args)@.update(i as int, StackValue::Empty),
        i >= old(args)@.len() ==> r is Err && is_internal(r->Err_0) && final(args)@ == old(args)@,
{
    if i < args.len() {
        let v = args.remove(i);
        args.insert(i, StackValue::Empty);
        assert(args@ =~= old(args)@.update(i as int, StackValue::Empty));
        Ok(v)
    } else {
        Err(ParseError::internal("argumento fuera de rango en una reducción", span))
    }
}

/// Whether position `i` of the body is the terminal `t`.
fn is_tok(prod: &Production, i: usize, t: Tok) -> (b: bool)
    ensures
        b == (i < prod.body@.len() && prod.body@[i as int] == Symbol::T(t)),
{
    match prod.symbol_at(i) {
        Some(s) => *s == Symbol::T(t),
        None => false,
    }
}

/// Runs the semantic action of production `prod_id` on the values of its body.
pub fn reduce(prod_id: usize, grammar: &Grammar, args: Vec<StackValue>, span: Span) -> (r: Result<StackValue, ParseError>)
    requires
        prod_id < grammar.productions@.len(),
    ensures
        r is Err ==> is_internal(r->Err_0),
        passthrough(grammar.productions@[prod_id as int]) && args@.len() >= 1 ==> r == Ok::<StackValue, ParseError>(args@[0]),
        grammar.productions@[prod_id as int].head == NT::Start && !passthrough(grammar.productions@[prod_id as int]) ==> r is Err,
        r matches Ok(v) ==> built(grammar.productions@[prod_id as int], args@, span, v),
        r is Err ==> forall|v: StackValue| !built(grammar.productions@[prod_id as int], args@, span, v),
{
    let prod = grammar.production(prod_id);
    let mut args = args;
    if prod.body.len() == 1 {
        if let Some(Symbol::NT(_)) = prod.symbol_at(0) {
            return arg(&mut args, 0, span);
        }
    }
    match prod.head {
        NT::Start => Err(ParseError::internal("reducción del símbolo inicial", span)),
        NT::Program | NT::DeclList | NT::FuncDecl | NT::ParamListNonEmpty | NT::Param | NT::TypeDecl
        | NT::TypeArgs | NT::TypeArgList | NT::InheritClause | NT::TypeMemberList | NT::AttributeDef
        | NT::MethodDef | NT::ProtocolDecl | NT::ProtocolMemberList | NT::ProtocolMember
        | NT::MethodSignature | NT::TypeName | NT::ParamList | NT::ArgList => reduce_decl(prod, args, span),
        _ => reduce_expr(prod, args, span),
    }
}

/// Semantic actions of declarations, parameters, members and type names.
fn reduce_decl(prod: &Production, args: Vec<StackValue>, span: Span) -> (r: Result<StackValue, ParseError>)
    requires
        !passthrough(*prod),
    ensures
        r is Err ==> is_internal(r->Err_0),
        r matches Ok(v) ==> decl_built(*prod, args@, span, v),
        r is Err ==> forall|v: StackValue| !decl_built(*prod, args@, span, v),
{
    let mut args = args;
    match prod.head {
        NT::Program => {
            let decls = arg(&mut args, 0, span)?.into_decl_list()?;
            let entry = arg(&mut args, 1, span)?.into_expr()?;
            Ok(StackValue::Program(Program::new(decls, entry, span)))
        }
        NT::DeclList => {
            if prod.is_epsilon() {
                Ok(StackValue::DeclList(Vec::new()))
            } else {
                let mut list = arg(&mut args, 0, span)?.into_decl_list()?;
                if let StackValue::DeclVal(d) = arg(&mut args, 1, span)? {
                    list.push(d);
                }
                Ok(StackValue::DeclList(list))
            }
        }
        NT::FuncDecl => {
            let (name, _) = arg(&mut args, 1, span)?.into_lexeme()?;
            let params = arg(&mut args, 3, span)?.into_param_list()?;
            if is_tok(prod, 5, Tok::Colon) {
                let ret = arg(&mut args, 6, span)?.into_type_name()?;
                let body = if prod.body.len() == 10 {
                    arg(&mut args, 8, span)?.into_expr()?
                } else {
                    arg(&mut args, 7, span)?.into_expr()?
                };
                Ok(StackValue::DeclVal(Decl::Function(FuncDecl::new(name.as_str(), params, Some(ret), body, span))))
            } else {
                let body = if is_tok(prod, 5, Tok::Arrow) {
                    arg(&mut args, 6, span)?.into_expr()?
                } else {
                    arg(&mut args, 5, span)?.into_expr()?
                };
                Ok(StackValue::DeclVal(Decl::Function(FuncDecl::new(name.as_str(), params, None, body, span))))
            }
        }
        NT::ParamListNonEmpty | NT::TypeArgList => {
            let mut list = arg(&mut args, 0, span)?.into_param_list()?;
            if let StackValue::ParamVal(p) = arg(&mut args, 2, span)? {
                list.push(p);
            }
            Ok(StackValue::ParamList(list))
        }
        NT::Param => {
            let (name, s) = arg(&mut args, 0, span)?.into_lexeme()?;
            if prod.body.len() == 1 {
                Ok(StackValue::ParamVal(Param::new(name.as_str(), None, s)))
            } else {
                let type_ann = arg(&mut args, 2, span)?.into_type_name()?;
                Ok(StackValue::ParamVal(Param::new(name.as_str(), Some(type_ann), s)))
            }
        }
        NT::TypeDecl => {
            let (name, _) = arg(&mut args, 1, span)?.into_lexeme()?;
            let type_args = arg(&mut args, 2, span)?.into_param_list()?;
            let (parent, parent_args) = extract_inherit(arg(&mut args, 3, span)?)?;
            let members = arg(&mut args, 5, span)?.into_type_member_list()?;
            Ok(StackValue::DeclVal(Decl::Type(TypeDecl::new(name.as_str(), type_args, parent, parent_args, members, span))))
        }
        NT::TypeArgs => {
            if prod.is_epsilon() {
                Ok(StackValue::ParamList(Vec::new()))
            } else {
                arg(&mut args, 1, span)
            }
        }
        NT::InheritClause => {
            if prod.is_epsilon() {
                Ok(StackValue::Empty)
            } else {
                arg(&mut args, 1, span)
            }
        }
        NT::TypeMemberList => {
            if prod.is_epsilon() {
                Ok(StackValue::TypeMemberList(Vec::new()))
            } else {
                let mut list = arg(&mut args, 0, span)?.into_type_member_list()?;
                if let StackValue::TypeMemberVal(m) = arg(&mut args, 1, span)? {
                    list.push(m);
                }
                Ok(StackValue::TypeMemberList(list))
            }
        }
        NT::AttributeDef => {
            let (name, _) = arg(&mut args, 0, span)?.into_lexeme()?;
            if is_tok(prod, 1, Tok::Colon) {
                let type_ann = arg(&mut args, 2, span)?.into_type_name()?;
                let value = arg(&mut args, 4, span)?.into_expr()?;
                Ok(StackValue::TypeMemberVal(TypeMember::Attribute(AttributeDef::new(name.as_str(), Some(type_ann), value, span))))
            } else {
                let value = arg(&mut args, 2, span)?.into_expr()?;
                Ok(StackValue::TypeMemberVal(TypeMember::Attribute(AttributeDef::new(name.as_str(), None, value, span))))
            }
        }
        NT::MethodDef => {
            let (name, _) = arg(&mut args, 0, span)?.into_lexeme()?;
            let params = arg(&mut args, 2, span)?.into_param_list()?;
            if is_tok(prod, 4, Tok::Colon) {
                let ret = arg(&mut args, 5, span)?.into_type_name()?;
                let body = if prod.body.len() == 9 {
                    arg(&mut args, 7, span)?.into_expr()?
                } else {
                    arg(&mut args, 6, span)?.into_expr()?
                };
                Ok(StackValue::TypeMemberVal(TypeMember::Method(MethodDef::new(name.as_str(), params, Some(ret), body, span))))
            } else {
                let body = if is_tok(prod, 4, Tok::Arrow) {
                    arg(&mut args, 5, span)?.into_expr()?
                } else {
                    arg(&mut args, 4, span)?.into_expr()?
                };
                Ok(StackValue::TypeMemberVal(TypeMember::Method(MethodDef::new(name.as_str(), params, None, body, span))))
            }
        }
        NT::ProtocolDecl => {
            let (name, _) = arg(&mut args, 1, span)?.into_lexeme()?;
            if is_tok(prod, 2, Tok::Extends) {
                let extends = arg(&mut args, 3, span)?.into_type_name()?;
                let methods = arg(&mut args, 5, span)?.into_method_sig_list()?;
                Ok(StackValue::DeclVal(Decl::Protocol(ProtocolDecl::new(name.as_str(), Some(extends), methods, span))))
            } else {
                let methods = arg(&mut args, 3, span)?.into_method_sig_list()?;
                Ok(StackValue::DeclVal(Decl::Protocol(ProtocolDecl::new(name.as_str(), None, methods, span))))
            }
        }
        NT::ProtocolMemberList => {
            if prod.is_epsilon() {
                Ok(StackValue::MethodSigList(Vec::new()))
            } else {
                let mut list = arg(&mut args, 0, span)?.into_method_sig_list()?;
                if let StackValue::MethodSigVal(m) = arg(&mut args, 1, span)? {
                    list.push(m);
                }
                Ok(StackValue::MethodSigList(list))
            }
        }
        NT::ProtocolMember => arg(&mut args, 0, span),
        NT::MethodSignature => {
            let (name, _) = arg(&mut args, 0, span)?.into_lexeme()?;
            let params = arg(&mut args, 2, span)?.into_param_list()?;
            let ret = arg(&mut args, 5, span)?.into_type_name()?;
            Ok(StackValue::MethodSigVal(MethodSignature::new(name.as_str(), params, ret, span)))
        }
        NT::TypeName => {
            let (name, s) = arg(&mut args, 0, span)?.into_lexeme()?;
            let n = prod.body.len();
            let tn = if n == 1 {
                TypeName::simple(name.as_str(), s)
            } else if n == 3 {
                TypeName::vector(name.as_str(), s)
            } else if n == 5 {
                TypeName::vector2d(name.as_str(), s)
            } else {
                TypeName::iterable(name.as_str(), s)
            };
            Ok(StackValue::TypeNameVal(tn))
        }
        NT::ParamList | NT::ArgList => Ok(StackValue::Empty),
        _ => Err(ParseError::internal("no-terminal sin acción semántica", span)),
    }
}

/// Semantic actions of expressions.
fn reduce_expr(prod: &Production, args: Vec<StackValue>, span: Span) -> (r: Result<StackValue, ParseError>)
    requires
        !passthrough(*prod),
    ensures
        r is Err ==> is_internal(r->Err_0),
        r matches Ok(v) ==> expr_built(*prod, args@, span, v),
        r is Err ==> forall|v: StackValue| !expr_built(*prod, args@, span, v),
{
    let mut args = args;
    match prod.head {
        NT::ArgListNonEmpty | NT::ExprList => {
            let mut list = arg(&mut args, 0, span)?.into_expr_list()?;
            let e = arg(&mut args, 2, span)?.into_expr()?;
            list.push(e);
            Ok(StackValue::ExprList(list))
        }
        NT::AssignExpr => {
            let op = match prod.symbol_at(1) {
                Some(Symbol::T(Tok::DestructAssign)) => AssignOp::Assign,
                Some(Symbol::T(Tok::PlusAssign)) => AssignOp::PlusAssign,
                Some(Symbol::T(Tok::MinusAssign)) => AssignOp::MinusAssign,
                Some(Symbol::T(Tok::MultAssign)) => AssignOp::MulAssign,
                Some(Symbol::T(Tok::DivAssign)) => AssignOp::DivAssign,
                Some(Symbol::T(Tok::ModAssign)) => AssignOp::ModAssign,
                _ => { return Err(ParseError::internal("operador de asignación desconocido", span)); }
            };
            let target = arg(&mut args, 0, span)?.into_expr()?;
            let value = arg(&mut args, 2, span)?.into_expr()?;
            Ok(StackValue::Expr(Expr::assign(op, target, value, span)))
        }
        NT::OrExpr | NT::AndExpr | NT::ConcatExpr | NT::AddExpr | NT::PowerExpr => {
            let op = match prod.head {
                NT::OrExpr => BinaryOp::Or,
                NT::AndExpr => BinaryOp::And,
                NT::ConcatExpr => if is_tok(prod, 1, Tok::DoubleConcat) { BinaryOp::DoubleConcat } else { BinaryOp::Concat },
                NT::AddExpr => if is_tok(prod, 1, Tok::Plus) { BinaryOp::Add } else { BinaryOp::Sub },
                _ => BinaryOp::Power,
            };
            let left = arg(&mut args, 0, span)?.into_expr()?;
            let right = arg(&mut args, 2, span)?.into_expr()?;
            Ok(StackValue::Expr(Expr::binary(op, left, right, span)))
        }
        NT::CompareExpr | NT::MulExpr => {
            let op = match prod.symbol_at(1) {
                Some(Symbol::T(Tok::Equal)) => BinaryOp::Eq,
                Some(Symbol::T(Tok::NotEqual)) => BinaryOp::NotEq,
                Some(Symbol::T(Tok::Less)) => BinaryOp::Less,
                Some(Symbol::T(Tok::Greater)) => BinaryOp::Greater,
                Some(Symbol::T(Tok::LessEq)) => BinaryOp::LessEq,
                Some(Symbol::T(Tok::GreaterEq)) => BinaryOp::GreaterEq,
                Some(Symbol::T(Tok::Multiply)) => BinaryOp::Mul,
                Some(Symbol::T(Tok::Divide)) => BinaryOp::Div,
                Some(Symbol::T(Tok::Modulo)) => BinaryOp::Mod,
                _ => { return Err(ParseError::internal("operador binario desconocido", span)); }
            };
            let left = arg(&mut args, 0, span)?.into_expr()?;
            let right = arg(&mut args, 2, span)?.into_expr()?;
            Ok(StackValue::Expr(Expr::binary(op, left, right, span)))
        }
        NT::IsAsExpr => {
            let expr = arg(&mut args, 0, span)?.into_expr()?;
            let ty = arg(&mut args, 2, span)?.into_type_name()?;
            if is_tok(prod, 1, Tok::Is) {
                Ok(StackValue::Expr(Expr::new(ExprKind::Is { expr: Box::new(expr), ty }, span)))
            } else {
                Ok(StackValue::Expr(Expr::new(ExprKind::As { expr: Box::new(expr), ty }, span)))
            }
        }
        NT::UnaryExpr => {
            let op = if is_tok(prod, 0, Tok::Minus) { UnaryOp::Neg } else { UnaryOp::Not };
            let operand = arg(&mut args, 1, span)?.into_expr()?;
            Ok(StackValue::Expr(Expr::unary(op, operand, span)))
        }
        NT::PostfixExpr => {
            let op = if is_tok(prod, 1, Tok::Increment) { PostfixOp::Increment } else { PostfixOp::Decrement };
            let operand = arg(&mut args, 0, span)?.into_expr()?;
            Ok(StackValue::Expr(Expr::new(ExprKind::Postfix(Box::new(PostfixExpr::new(op, operand, span))), span)))
        }
        NT::CallOrAccess => {
            let n = prod.body.len();
            if n == 4 && is_tok(prod, 1, Tok::LParen) {
                let callee = arg(&mut args, 0, span)?.into_expr()?;
                let call_args = arg(&mut args, 2, span)?.into_expr_list()?;
                Ok(StackValue::Expr(Expr::call(callee, call_args, span)))
            } else if n == 6 && is_tok(prod, 1, Tok::Dot) {
                let object = arg(&mut args, 0, span)?.into_expr()?;
                let (method, _) = arg(&mut args, 2, span)?.into_lexeme()?;
                let margs = arg(&mut args, 4, span)?.into_expr_list()?;
                Ok(StackValue::Expr(Expr::method_call(object, method.as_str(), margs, span)))
            } else if n == 3 && is_tok(prod, 1, Tok::Dot) {
                let object = arg(&mut args, 0, span)?.into_expr()?;
                let (field, _) = arg(&mut args, 2, span)?.into_lexeme()?;
                Ok(StackValue::Expr(Expr::access(object, field.as_str(), span)))
            } else if n == 4 && is_tok(prod, 1, Tok::LBracket) {
                let collection = arg(&mut args, 0, span)?.into_expr()?;
                let index = arg(&mut args, 2, span)?.into_expr()?;
                Ok(StackValue::Expr(Expr::index(collection, index, span)))
            } else {
                Err(ParseError::internal("forma de llamada o acceso desconocida", span))
            }
        }
        NT::PrimaryExpr => {
            match prod.symbol_at(0) {
                Some(Symbol::T(Tok::Number)) => {
                    let (v, s) = arg(&mut args, 0, span)?.into_lexeme()?;
                    Ok(StackValue::Expr(Expr::number(v.as_str(), s)))
                }
                Some(Symbol::T(Tok::String)) => {
                    let (v, s) = arg(&mut args, 0, span)?.into_lexeme()?;
                    Ok(StackValue::Expr(Expr::string(v.as_str(), s)))
                }
                Some(Symbol::T(Tok::Char)) => {
                    let (v, s) = arg(&mut args, 0, span)?.into_lexeme()?;
                    Ok(StackValue::Expr(Expr::new(ExprKind::Literal(Literal::Char { value: v, span: s }), s)))
                }
                Some(Symbol::T(Tok::True)) => Ok(StackValue::Expr(Expr::bool(true, span))),
                Some(Symbol::T(Tok::False)) => Ok(StackValue::Expr(Expr::bool(false, span))),
                Some(Symbol::T(Tok::Null)) => Ok(StackValue::Expr(Expr::null(span))),
                Some(Symbol::T(Tok::Base)) => Ok(StackValue::Expr(Expr::new(ExprKind::Base, span))),
                Some(Symbol::T(Tok::Identifier)) => {
                    let (name, s) = arg(&mut args, 0, span)?.into_lexeme()?;
                    Ok(StackValue::Expr(Expr::identifier(name.as_str(), s)))
                }
                Some(Symbol::T(Tok::LParen)) => arg(&mut args, 1, span),
                Some(Symbol::NT(_)) => arg(&mut args, 0, span),
                _ => Err(ParseError::internal("expresión primaria desconocida", span)),
            }
        }
        NT::BlockExpr => {
            let body = arg(&mut args, 1, span)?.into_expr_list()?;
            Ok(StackValue::Expr(Expr::block(body, span)))
        }
        NT::LetExpr => {
            let bindings = arg(&mut args, 1, span)?.into_binding_list()?;
            let body = arg(&mut args, 3, span)?.into_expr()?;
            Ok(StackValue::Expr(Expr::let_expr(bindings, body, span)))
        }
        NT::LetBindingList => {
            let mut list = arg(&mut args, 0, span)?.into_binding_list()?;
            if let StackValue::Binding(b) = arg(&mut args, 2, span)? {
                list.push(b);
            }
            Ok(StackValue::BindingList(list))
        }
        NT::LetBinding => {
            let (name, s) = arg(&mut args, 0, span)?.into_lexeme()?;
            if is_tok(prod, 1, Tok::Assign) {
                let value = arg(&mut args, 2, span)?.into_expr()?;
                Ok(StackValue::Binding(LetBinding::new(name.as_str(), None, value, s)))
            } else {
                let type_ann = arg(&mut args, 2, span)?.into_type_name()?;
                let value = arg(&mut args, 4, span)?.into_expr()?;
                Ok(StackValue::Binding(LetBinding::new(name.as_str(), Some(type_ann), value, s)))
            }
        }
        NT::IfExpr => {
            let cond = arg(&mut args, 2, span)?.into_expr()?;
            let then = arg(&mut args, 4, span)?.into_expr()?;
            let elifs = arg(&mut args, 5, span)?.into_elif_list()?;
            let else_ = arg(&mut args, 7, span)?.into_expr()?;
            Ok(StackValue::Expr(Expr::if_expr(cond, then, elifs, else_, span)))
        }
        NT::ElifChain => {
            if prod.is_epsilon() {
                Ok(StackValue::ElifList(Vec::new()))
            } else {
                let mut list = arg(&mut args, 0, span)?.into_elif_list()?;
                let cond = arg(&mut args, 3, span)?.into_expr()?;
                let body = arg(&mut args, 5, span)?.into_expr()?;
                list.push(ElifBranch::new(cond, body, span));
                Ok(StackValue::ElifList(list))
            }
        }
        NT::WhileExpr => {
            let cond = arg(&mut args, 2, span)?.into_expr()?;
            let body = arg(&mut args, 4, span)?.into_expr()?;
            Ok(StackValue::Expr(Expr::while_expr(cond, body, span)))
        }
        NT::ForExpr => {
            let (var, _) = arg(&mut args, 2, span)?.into_lexeme()?;
            let iterable = arg(&mut args, 4, span)?.into_expr()?;
            let body = arg(&mut args, 6, span)?.into_expr()?;
            Ok(StackValue::Expr(Expr::for_expr(var.as_str(), iterable, body, span)))
        }
        NT::NewExpr => reduce_new(prod, args, span),
        NT::VectorLiteral => reduce_vector(prod, args, span),
        _ => Err(ParseError::internal("no-terminal sin acción semántica", span)),
    }
}

/// `new T(args)`, `new T[n]`, `new T[n] { i -> e }` and `new T[][n]`.
fn reduce_new(prod: &Production, args: Vec<StackValue>, span: Span) -> (r: Result<StackValue, ParseError>)
    ensures
        r is Err ==> is_internal(r->Err_0),
        r matches Ok(v) ==> new_built(*prod, args@, span, v),
        r is Err ==> forall|v: StackValue| !new_built(*prod, args@, span, v),
{
    let mut args = args;
    let n = prod.body.len();
    if n == 5 && is_tok(prod, 2, Tok::LParen) {
        let ty = arg(&mut args, 1, span)?.into_type_name()?;
        let new_args = arg(&mut args, 3, span)?.into_expr_list()?;
        Ok(StackValue::Expr(Expr::new(ExprKind::New(Box::new(NewExpr::new(ty, new_args, span))), span)))
    } else if n == 5 && is_tok(prod, 2, Tok::LBracket) {
        let (name, _) = arg(&mut args, 1, span)?.into_lexeme()?;
        let size = arg(&mut args, 3, span)?.into_expr()?;
        let elem_type = TypeName::simple(name.as_str(), span);
        Ok(StackValue::Expr(Expr::new(ExprKind::Vector(Box::new(VectorExpr::sized(elem_type, size, None, span))), span)))
    } else if n == 10 {
        let (name, _) = arg(&mut args, 1, span)?.into_lexeme()?;
        let size = arg(&mut args, 3, span)?.into_expr()?;
        let (var, _) = arg(&mut args, 6, span)?.into_lexeme()?;
        let body = arg(&mut args, 8, span)?.into_expr()?;
        let elem_type = TypeName::simple(name.as_str(), span);
        Ok(StackValue::Expr(Expr::new(ExprKind::Vector(Box::new(VectorExpr::sized(elem_type, size, Some((var, body)), span))), span)))
    } else if n == 7 {
        let (name, _) = arg(&mut args, 1, span)?.into_lexeme()?;
        let size = arg(&mut args, 5, span)?.into_expr()?;
        let elem_type = TypeName::vector(name.as_str(), span);
        Ok(StackValue::Expr(Expr::new(ExprKind::Vector(Box::new(VectorExpr::sized(elem_type, size, None, span))), span)))
    } else {
        Err(ParseError::internal("forma de new desconocida", span))
    }
}

/// `[]`, `[a, b]`, `[e | x in xs]` and `{a, b}`.
fn reduce_vector(prod: &Production, args: Vec<StackValue>, span: Span) -> (r: Result<StackValue, ParseError>)
    ensures
        r is Err ==> is_internal(r->Err_0),
        r matches Ok(v) ==> vector_built(*prod, args@, span, v),
        r is Err ==> forall|v: StackValue| !vector_built(*prod, args@, span, v),
{
    let mut args = args;
    let n = prod.body.len();
    if n == 2 {
        Ok(StackValue::Expr(Expr::new(ExprKind::Vector(Box::new(VectorExpr::explicit(Vec::new(), span))), span)))
    } else if n == 3 {
        let elems = arg(&mut args, 1, span)?.into_expr_list()?;
        Ok(StackValue::Expr(Expr::new(ExprKind::Vector(Box::new(VectorExpr::explicit(elems, span))), span)))
    } else if n == 7 {
        let body = arg(&mut args, 1, span)?.into_expr()?;
        let (var, _) = arg(&mut args, 3, span)?.into_lexeme()?;
        let iterable = arg(&mut args, 5, span)?.into_expr()?;
        Ok(StackValue::Expr(Expr::new(ExprKind::Vector(Box::new(VectorExpr::generator(body, var.as_str(), iterable, span))), span)))
    } else if n == 5 {
        let first = arg(&mut args, 1, span)?.into_expr()?;
        let rest = arg(&mut args, 3, span)?.into_expr_list()?;
        let mut elems: Vec<Expr> = Vec::new();
        elems.push(first);
        let mut rest = rest;
        elems.append(&mut rest);
        Ok(StackValue::Expr(Expr::new(ExprKind::Vector(Box::new(VectorExpr::explicit(elems, span))), span)))
    } else {
        Err(ParseError::internal("forma de vector desconocida", span))
    }
}

/// The parent of an inheritance clause. Arguments to the parent are not kept.
fn extract_inherit(val: StackValue) -> (r: Result<(Option<TypeName>, Vec<Expr>), ParseError>)
    ensures
        val is Empty ==> (r matches Ok((p, a)) && p is None && a@.len() == 0),
        val matches StackValue::TypeNameVal(t) ==> r matches Ok((p, a)) && p == Some(t) && a@.len() == 0,
        !(val is Empty || val is TypeNameVal) ==> r is Err && is_internal(r->Err_0),
{
    match val {
        StackValue::Empty => Ok((None, Vec::new())),
        StackValue::TypeNameVal(t) => Ok((Some(t), Vec::new())),
        _ => Err(ParseError::internal("cláusula de herencia inesperada", Span::dummy())),
    }
}

} // verus!
