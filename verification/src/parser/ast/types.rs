//! Type names as written in the source.
use vstd::prelude::*;
use crate::parser::ast::span::Span;

verus! {

/// A type name as it appears in the source:
/// `Number` (simple), `Number[]` (vector), `Number[][]` (vector of vectors),
/// `Number*` (iterable, only in parameters).
#[derive(Debug, Clone, PartialEq)]
pub enum TypeName {
    Simple { name: String, span: Span },
    Vector { name: String, span: Span },
    Vector2D { name: String, span: Span },
    Iterable { name: String, span: Span },
}

/// The name inside a type name, whatever its form.
pub open spec fn type_name_name(t: TypeName) -> Seq<char> {
    match t {
        TypeName::Simple { name, .. } => name@,
        TypeName::Vector { name, .. } => name@,
        TypeName::Vector2D { name, .. } => name@,
        TypeName::Iterable { name, .. } => name@,
    }
}

/// The span of a type name.
pub open spec fn type_name_span(t: TypeName) -> Span {
    match t {
        TypeName::Simple { span, .. } => span,
        TypeName::Vector { span, .. } => span,
        TypeName::Vector2D { span, .. } => span,
        TypeName::Iterable { span, .. } => span,
    }
}

/// Display text: `N`, `N[]`, `N[][]` or `N*`.
pub open spec fn type_name_text(t: TypeName) -> Seq<char> {
    match t {
        TypeName::Simple { name, .. } => name@,
        TypeName::Vector { name, .. } => name@ + "[]"@,
        TypeName::Vector2D { name, .. } => name@ + "[][]"@,
        TypeName::Iterable { name, .. } => name@ + "*"@,
    }
}

impl TypeName {
    pub fn simple(name: &str, span: Span) -> (t: Self)
        ensures
            t == (TypeName::Simple { name: t->Simple_name, span }),
            t->Simple_name@ == name@,
    {
        TypeName::Simple { name: name.to_owned(), span }
    }

    pub fn vector(name: &str, span: Span) -> (t: Self)
        ensures
            t == (TypeName::Vector { name: t->Vector_name, span }),
            t->Vector_name@ == name@,
    {
        TypeName::Vector { name: name.to_owned(), span }
    }

    pub fn vector2d(name: &str, span: Span) -> (t: Self)
        ensures
            t == (TypeName::Vector2D { name: t->Vector2D_name, span }),
            t->Vector2D_name@ == name@,
    {
        TypeName::Vector2D { name: name.to_owned(), span }
    }

    pub fn iterable(name: &str, span: Span) -> (t: Self)
        ensures
            t == (TypeName::Iterable { name: t->Iterable_name, span }),
            t->Iterable_name@ == name@,
    {
        TypeName::Iterable { name: name.to_owned(), span }
    }

    /// The name inside the type name.
    pub fn name(&self) -> (s: &str)
        ensures
            s@ == type_name_name(*self),
    {
        match self {
            TypeName::Simple { name, .. } => name.as_str(),
            TypeName::Vector { name, .. } => name.as_str(),
            TypeName::Vector2D { name, .. } => name.as_str(),
            TypeName::Iterable { name, .. } => name.as_str(),
        }
    }

    pub fn span(&self) -> (s: Span)
        ensures
            s == type_name_span(*self),
    {
        match self {
            TypeName::Simple { span, .. } => *span,
            TypeName::Vector { span, .. } => *span,
            TypeName::Vector2D { span, .. } => *span,
            TypeName::Iterable { span, .. } => *span,
        }
    }

    /// Display text: `N`, `N[]`, `N[][]` or `N*`.
    pub fn display(&self) -> (s: String)
        ensures
            s@ == type_name_text(*self),
    {
        match self {
            TypeName::Simple { name, .. } => name.clone(),
            TypeName::Vector { name, .. } => { let mut s = name.clone(); s.append("[]"); s }
            TypeName::Vector2D { name, .. } => { let mut s = name.clone(); s.append("[][]"); s }
            TypeName::Iterable { name, .. } => { let mut s = name.clone(); s.append("*"); s }
        }
    }

    /// A copy with the same form, name and span.
    pub fn copy(&self) -> (t: TypeName)
        ensures
            t == *self,
    {
        match self {
            TypeName::Simple { name, span } => TypeName::Simple { name: name.clone(), span: *span },
            TypeName::Vector { name, span } => TypeName::Vector { name: name.clone(), span: *span },
            TypeName::Vector2D { name, span } => TypeName::Vector2D { name: name.clone(), span: *span },
            TypeName::Iterable { name, span } => TypeName::Iterable { name: name.clone(), span: *span },
        }
    }
}

} // verus!
