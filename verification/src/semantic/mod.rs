//! Semantic analysis of HULK programs: declarations are collected first,
//! then every body is type-checked.
pub mod errors;
pub mod type_system;
pub mod builtin_methods;
pub mod hierarchy_rules;
pub mod hierarchy_laws;
pub mod symbol_table;
pub mod type_checker;

pub use errors::SemanticError;
pub use type_checker::{analyze, SemanticOutput, TypeChecker};
pub use type_system::{FuncSignature, HulkType, TypeHierarchy};
