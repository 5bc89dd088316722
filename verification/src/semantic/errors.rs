//! Errors found by the semantic checker.
use vstd::prelude::*;
use crate::parser::ast::Span;
use crate::parser::ast::span::span_text;
use crate::text::{decimal, push_decimal};

verus! {

/// A semantic error and where it was found.
#[derive(Debug, Clone)]
pub enum SemanticError {
    UndefinedVariable { name: String, span: Span },
    UndefinedFunction { name: String, span: Span },
    UndefinedType { name: String, span: Span },
    Redefinition { name: String, span: Span },
    TypeMismatch { expected: String, found: String, span: Span },
    CannotInferType { name: String, span: Span },
    InheritFromPrimitive { type_ident: String, span: Span },
    CircularInheritance { type_ident: String, span: Span },
    WrongArgCount { name: String, expected: usize, found: usize, span: Span },
    NotCallable { span: Span },
    MethodNotFound { type_ident: String, method: String, span: Span },
    AttributeNotFound { type_ident: String, attr: String, span: Span },
    SelfAssignment { span: Span },
    SelfInInitializer { span: Span },
    InvalidLValue { span: Span },
    ProtocolNotConformed { type_ident: String, protocol: String, missing: String, span: Span },
    OverrideMismatch { method: String, span: Span },
    InvalidCast { from: String, to: String, span: Span },
    InvalidOperandType { op: String, found: String, span: Span },
    InvalidBinaryTypes { op: String, left: String, right: String, span: Span },
}

/// The position of an error.
pub open spec fn error_span(e: SemanticError) -> Span {
    match e {
        SemanticError::UndefinedVariable { span, .. } => span,
        SemanticError::UndefinedFunction { span, .. } => span,
        SemanticError::UndefinedType { span, .. } => span,
        SemanticError::Redefinition { span, .. } => span,
        SemanticError::TypeMismatch { span, .. } => span,
        SemanticError::CannotInferType { span, .. } => span,
        SemanticError::InheritFromPrimitive { span, .. } => span,
        SemanticError::CircularInheritance { span, .. } => span,
        SemanticError::WrongArgCount { span, .. } => span,
        SemanticError::NotCallable { span } => span,
        SemanticError::MethodNotFound { span, .. } => span,
        SemanticError::AttributeNotFound { span, .. } => span,
        SemanticError::SelfAssignment { span } => span,
        SemanticError::SelfInInitializer { span } => span,
        SemanticError::InvalidLValue { span } => span,
        SemanticError::ProtocolNotConformed { span, .. } => span,
        SemanticError::OverrideMismatch { span, .. } => span,
        SemanticError::InvalidCast { span, .. } => span,
        SemanticError::InvalidOperandType { span, .. } => span,
        SemanticError::InvalidBinaryTypes { span, .. } => span,
    }
}

/// The message of an error, after its position.
pub open spec fn error_body(e: SemanticError) -> Seq<char> {
    match e {
        SemanticError::UndefinedVariable { name, .. } => "Variable '"@ + name@ + "' is undefined"@,
        SemanticError::UndefinedFunction { name, .. } => "Function '"@ + name@ + "' is undefined"@,
        SemanticError::UndefinedType { name, .. } => "Type '"@ + name@ + "' is undefined"@,
        SemanticError::Redefinition { name, .. } => "'"@ + name@ + "' is already defined in this scope"@,
        SemanticError::TypeMismatch { expected, found, .. } =>
            "Expected type '"@ + expected@ + "', found '"@ + found@ + "'"@,
        SemanticError::CannotInferType { name, .. } => "Cannot infer the type of '"@ + name@ + "'"@,
        SemanticError::InheritFromPrimitive { type_ident, .. } =>
            "'"@ + type_ident@ + "' cannot inherit from a primitive type"@,
        SemanticError::CircularInheritance { type_ident, .. } =>
            "Circular inheritance detected in '"@ + type_ident@ + "'"@,
        SemanticError::WrongArgCount { name, expected, found, .. } =>
            "'"@ + name@ + "' expects "@ + decimal(expected as nat) + " argument(s), but "@ + decimal(found as nat) + " were given"@,
        SemanticError::NotCallable { .. } => "Expression is not callable"@,
        SemanticError::MethodNotFound { type_ident, method, .. } =>
            "Type '"@ + type_ident@ + "' has no method '"@ + method@ + "'"@,
        SemanticError::AttributeNotFound { type_ident, attr, .. } =>
            "Type '"@ + type_ident@ + "' has no attribute '"@ + attr@ + "'"@,
        SemanticError::SelfAssignment { .. } => "Cannot assign to 'self'"@,
        SemanticError::SelfInInitializer { .. } => "'self' is not available during attribute initialization"@,
        SemanticError::InvalidLValue { .. } => "Left-hand side of assignment is not valid"@,
        SemanticError::ProtocolNotConformed { type_ident, protocol, missing, .. } =>
            "'"@ + type_ident@ + "' does not conform to protocol '"@ + protocol@ + "': missing '"@ + missing@ + "'"@,
        SemanticError::OverrideMismatch { method, .. } =>
            "Method signature for '"@ + method@ + "' does not match the parent method"@,
        SemanticError::InvalidCast { from, to, .. } => "Cannot cast from '"@ + from@ + "' to '"@ + to@ + "'"@,
        SemanticError::InvalidOperandType { op, found, .. } =>
            "Operator '"@ + op@ + "' cannot be applied to type '"@ + found@ + "'"@,
        SemanticError::InvalidBinaryTypes { op, left, right, .. } =>
            "Operator '"@ + op@ + "' cannot be applied between '"@ + left@ + "' and '"@ + right@ + "'"@,
    }
}

/// The display text of an error: `[line:column] message`.
pub open spec fn error_text(e: SemanticError) -> Seq<char> {
    "["@ + span_text(error_span(e)) + "] "@ + error_body(e)
}

impl SemanticError {
    /// Where the error was found.
    pub fn span(&self) -> (s: Span)
        ensures
            s == error_span(*self),
    {
        match self {
            SemanticError::UndefinedVariable { span, .. } => *span,
            SemanticError::UndefinedFunction { span, .. } => *span,
            SemanticError::UndefinedType { span, .. } => *span,
            SemanticError::Redefinition { span, .. } => *span,
            SemanticError::TypeMismatch { span, .. } => *span,
            SemanticError::CannotInferType { span, .. } => *span,
            SemanticError::InheritFromPrimitive { span, .. } => *span,
            SemanticError::CircularInheritance { span, .. } => *span,
            SemanticError::WrongArgCount { span, .. } => *span,
            SemanticError::NotCallable { span } => *span,
            SemanticError::MethodNotFound { span, .. } => *span,
            SemanticError::AttributeNotFound { span, .. } => *span,
            SemanticError::SelfAssignment { span } => *span,
            SemanticError::SelfInInitializer { span } => *span,
            SemanticError::InvalidLValue { span } => *span,
            SemanticError::ProtocolNotConformed { span, .. } => *span,
            SemanticError::OverrideMismatch { span, .. } => *span,
            SemanticError::InvalidCast { span, .. } => *span,
            SemanticError::InvalidOperandType { span, .. } => *span,
            SemanticError::InvalidBinaryTypes { span, .. } => *span,
        }
    }

    /// The display text of the error.
    pub fn message(&self) -> (s: String)
        ensures
            s@ == error_text(*self),
    {
        let mut s = String::new();
        s.append("[");
        let sp = self.span().display();
        s.append(sp.as_str());
        s.append("] ");
        match self {
            SemanticError::UndefinedVariable { name, .. } => {
                s.append("Variable '"); s.append(name.as_str()); s.append("' is undefined");
            }
            SemanticError::UndefinedFunction { name, .. } => {
                s.append("Function '"); s.append(name.as_str()); s.append("' is undefined");
            }
            SemanticError::UndefinedType { name, .. } => {
                s.append("Type '"); s.append(name.as_str()); s.append("' is undefined");
            }
            SemanticError::Redefinition { name, .. } => {
                s.append("'"); s.append(name.as_str()); s.append("' is already defined in this scope");
            }
            SemanticError::TypeMismatch { expected, found, .. } => {
                s.append("Expected type '"); s.append(expected.as_str()); s.append("', found '");
                s.append(found.as_str()); s.append("'");
            }
            SemanticError::CannotInferType { name, .. } => {
                s.append("Cannot infer the type of '"); s.append(name.as_str()); s.append("'");
            }
            SemanticError::InheritFromPrimitive { type_ident, .. } => {
                s.append("'"); s.append(type_ident.as_str()); s.append("' cannot inherit from a primitive type");
            }
            SemanticError::CircularInheritance { type_ident, .. } => {
                s.append("Circular inheritance detected in '"); s.append(type_ident.as_str()); s.append("'");
            }
            SemanticError::WrongArgCount { name, expected, found, .. } => {
                s.append("'"); s.append(name.as_str()); s.append("' expects ");
                push_decimal(&mut s, *expected);
                s.append(" argument(s), but ");
                push_decimal(&mut s, *found);
                s.append(" were given");
            }
            SemanticError::NotCallable { .. } => {
                s.append("Expression is not callable");
            }
            SemanticError::MethodNotFound { type_ident, method, .. } => {
                s.append("Type '"); s.append(type_ident.as_str()); s.append("' has no method '");
                s.append(method.as_str()); s.append("'");
            }
            SemanticError::AttributeNotFound { type_ident, attr, .. } => {
                s.append("Type '"); s.append(type_ident.as_str()); s.append("' has no attribute '");
                s.append(attr.as_str()); s.append("'");
            }
            SemanticError::SelfAssignment { .. } => {
                s.append("Cannot assign to 'self'");
            }
            SemanticError::SelfInInitializer { .. } => {
                s.append("'self' is not available during attribute initialization");
            }
            SemanticError::InvalidLValue { .. } => {
                s.append("Left-hand side of assignment is not valid");
            }
            SemanticError::ProtocolNotConformed { type_ident, protocol, missing, .. } => {
                s.append("'"); s.append(type_ident.as_str()); s.append("' does not conform to protocol '");
                s.append(protocol.as_str()); s.append("': missing '"); s.append(missing.as_str()); s.append("'");
            }
            SemanticError::OverrideMismatch { method, .. } => {
                s.append("Method signature for '"); s.append(method.as_str());
                s.append("' does not match the parent method");
            }
            SemanticError::InvalidCast { from, to, .. } => {
                s.append("Cannot cast from '"); s.append(from.as_str()); s.append("' to '");
                s.append(to.as_str()); s.append("'");
            }
            SemanticError::InvalidOperandType { op, found, .. } => {
                s.append("Operator '"); s.append(op.as_str()); s.append("' cannot be applied to type '");
                s.append(found.as_str()); s.append("'");
            }
            SemanticError::InvalidBinaryTypes { op, left, right, .. } => {
                s.append("Operator '"); s.append(op.as_str()); s.append("' cannot be applied between '");
                s.append(left.as_str()); s.append("' and '"); s.append(right.as_str()); s.append("'");
            }
        }
        proof {
            reveal_strlit("["); reveal_strlit("] "); reveal_strlit("Variable '"); reveal_strlit("' is undefined");
            reveal_strlit("Function '"); reveal_strlit("Type '"); reveal_strlit("'");
            reveal_strlit("' is already defined in this scope"); reveal_strlit("Expected type '");
            reveal_strlit("', found '"); reveal_strlit("Cannot infer the type of '");
            reveal_strlit("' cannot inherit from a primitive type"); reveal_strlit("Circular inheritance detected in '");
            reveal_strlit("' expects "); reveal_strlit(" argument(s), but "); reveal_strlit(" were given");
            reveal_strlit("Expression is not callable"); reveal_strlit("' has no method '");
            reveal_strlit("' has no attribute '"); reveal_strlit("Cannot assign to 'self'");
            reveal_strlit("'self' is not available during attribute initialization");
            reveal_strlit("Left-hand side of assignment is not valid");
            reveal_strlit("' does not conform to protocol '"); reveal_strlit("': missing '");
            reveal_strlit("Method signature for '"); reveal_strlit("' does not match the parent method");
            reveal_strlit("Cannot cast from '"); reveal_strlit("' to '"); reveal_strlit("Operator '");
            reveal_strlit("' cannot be applied to type '"); reveal_strlit("' cannot be applied between '");
            reveal_strlit("' and '");
        }
        assert(s@ =~= error_text(*self));
        s
    }
}

} // verus!
