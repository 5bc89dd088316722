//! Abstract syntax tree of HULK programs.
pub mod span;
pub mod types;
pub mod expr;
pub mod decl;
pub mod program;
pub mod same;

pub use span::Span;
pub use types::TypeName;
pub use program::Program;
pub use expr::{
    Expr, ExprKind, Literal, BinaryExpr, BinaryOp, UnaryExpr, UnaryOp, PostfixExpr, PostfixOp,
    AssignExpr, AssignOp, BlockExpr, LetExpr, LetBinding, IfExpr, ElifBranch, WhileExpr, ForExpr,
    NewExpr, CallExpr, AccessExpr, MethodCallExpr, IndexExpr, VectorExpr,
};
pub use decl::{
    Decl, FuncDecl, Param, TypeDecl, TypeMember, AttributeDef, MethodDef, ProtocolDecl,
    MethodSignature,
};
