//! Top-level declarations: functions, types and protocols.
use vstd::prelude::*;
use crate::parser::ast::span::Span;
use crate::parser::ast::types::TypeName;
use crate::parser::ast::expr::Expr;

verus! {

/// A parameter `id` or `id : TypeName`.
#[derive(Debug, PartialEq)]
pub struct Param {
    pub name: String,
    pub type_ann: Option<TypeName>,
    pub span: Span,
}

impl Param {
    pub fn new(name: &str, type_ann: Option<TypeName>, span: Span) -> (p: Self)
        ensures
            p.name@ == name@,
            p.type_ann == type_ann,
            p.span == span,
    {
        Param { name: name.to_owned(), type_ann, span }
    }
}

/// `function name(params): Ret => body;` or with a block body.
#[derive(Debug, PartialEq)]
pub struct FuncDecl {
    pub name: String,
    pub params: Vec<Param>,
    pub return_type: Option<TypeName>,
    pub body: Box<Expr>,
    pub span: Span,
}

impl FuncDecl {
    pub fn new(name: &str, params: Vec<Param>, return_type: Option<TypeName>, body: Expr, span: Span) -> (f: Self)
        ensures
            f.name@ == name@,
            f.params@ == params@,
            f.return_type == return_type,
            *f.body == body,
            f.span == span,
    {
        FuncDecl { name: name.to_owned(), params, return_type, body: Box::new(body), span }
    }
}

/// A protocol method signature; its return type is mandatory.
#[derive(Debug, PartialEq)]
pub struct MethodSignature {
    pub name: String,
    pub params: Vec<Param>,
    pub return_type: TypeName,
    pub span: Span,
}

impl MethodSignature {
    pub fn new(name: &str, params: Vec<Param>, return_type: TypeName, span: Span) -> (m: Self)
        ensures
            m.name@ == name@,
            m.params@ == params@,
            m.return_type == return_type,
            m.span == span,
    {
        MethodSignature { name: name.to_owned(), params, return_type, span }
    }
}

/// `protocol Name [extends Parent] { signatures }`
#[derive(Debug, PartialEq)]
pub struct ProtocolDecl {
    pub name: String,
    pub extends: Option<TypeName>,
    pub methods: Vec<MethodSignature>,
    pub span: Span,
}

impl ProtocolDecl {
    pub fn new(name: &str, extends: Option<TypeName>, methods: Vec<MethodSignature>, span: Span) -> (p: Self)
        ensures
            p.name@ == name@,
            p.extends == extends,
            p.methods@ == methods@,
            p.span == span,
    {
        ProtocolDecl { name: name.to_owned(), extends, methods, span }
    }
}

/// An attribute `x = e;` or `x: T = e;` inside a type.
#[derive(Debug, PartialEq)]
pub struct AttributeDef {
    pub name: String,
    pub type_ann: Option<TypeName>,
    pub value: Box<Expr>,
    pub span: Span,
}

impl AttributeDef {
    pub fn new(name: &str, type_ann: Option<TypeName>, value: Expr, span: Span) -> (a: Self)
        ensures
            a.name@ == name@,
            a.type_ann == type_ann,
            *a.value == value,
            a.span == span,
    {
        AttributeDef { name: name.to_owned(), type_ann, value: Box::new(value), span }
    }
}

/// A method inside a type: like a function without the `function` keyword.
#[derive(Debug, PartialEq)]
pub struct MethodDef {
    pub name: String,
    pub params: Vec<Param>,
    pub return_type: Option<TypeName>,
    pub body: Box<Expr>,
    pub span: Span,
}

impl MethodDef {
    pub fn new(name: &str, params: Vec<Param>, return_type: Option<TypeName>, body: Expr, span: Span) -> (m: Self)
        ensures
            m.name@ == name@,
            m.params@ == params@,
            m.return_type == return_type,
            *m.body == body,
            m.span == span,
    {
        MethodDef { name: name.to_owned(), params, return_type, body: Box::new(body), span }
    }
}

/// A member of a type.
#[derive(Debug, PartialEq)]
pub enum TypeMember {
    Attribute(AttributeDef),
    Method(MethodDef),
}

/// `type Name(args) inherits Parent(parent_args) { members }`
#[derive(Debug, PartialEq)]
pub struct TypeDecl {
    pub name: String,
    pub type_args: Vec<Param>,
    pub parent: Option<TypeName>,
    pub parent_args: Vec<Expr>,
    pub members: Vec<TypeMember>,
    pub span: Span,
}

impl TypeDecl {
    pub fn new(
        name: &str,
        type_args: Vec<Param>,
        parent: Option<TypeName>,
        parent_args: Vec<Expr>,
        members: Vec<TypeMember>,
        span: Span,
    ) -> (t: Self)
        ensures
            t.name@ == name@,
            t.type_args@ == type_args@,
            t.parent == parent,
            t.parent_args@ == parent_args@,
            t.members@ == members@,
            t.span == span,
    {
        TypeDecl { name: name.to_owned(), type_args, parent, parent_args, members, span }
    }
}

/// A top-level declaration.
#[derive(Debug, PartialEq)]
pub enum Decl {
    Function(FuncDecl),
    Type(TypeDecl),
    Protocol(ProtocolDecl),
}

/// The span of a declaration.
pub open spec fn decl_span(d: Decl) -> Span {
    match d {
        Decl::Function(f) => f.span,
        Decl::Type(t) => t.span,
        Decl::Protocol(p) => p.span,
    }
}

/// The declared name.
pub open spec fn decl_name(d: Decl) -> Seq<char> {
    match d {
        Decl::Function(f) => f.name@,
        Decl::Type(t) => t.name@,
        Decl::Protocol(p) => p.name@,
    }
}

impl Decl {
    pub fn span(&self) -> (s: Span)
        ensures
            s == decl_span(*self),
    {
        match self {
            Decl::Function(d) => d.span,
            Decl::Type(d) => d.span,
            Decl::Protocol(d) => d.span,
        }
    }

    pub fn name(&self) -> (s: &str)
        ensures
            s@ == decl_name(*self),
    {
        match self {
            Decl::Function(d) => d.name.as_str(),
            Decl::Type(d) => d.name.as_str(),
            Decl::Protocol(d) => d.name.as_str(),
        }
    }
}

} // verus!
