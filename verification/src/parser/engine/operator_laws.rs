//! Which operator each binary rule of the expression grammar builds: the
//! one its middle terminal names, with the values on either side of that
//! terminal as operands.
use vstd::prelude::*;
use crate::parser::grammar::production::Production;
use crate::parser::grammar::symbol::{NonTerminal as NT, Terminal as Tok, Symbol};
use crate::parser::ast::{Span, ExprKind, BinaryOp, UnaryOp, AssignOp, PostfixOp};
use crate::parser::engine::semantic_actions::StackValue;
use crate::parser::engine::action_rules::{built, expr_at};

verus! {

/// The value built is the binary expression `op` over the expressions on
/// either side of the rule's middle terminal, spanning `span`.
pub open spec fn binary_value(a: Seq<StackValue>, span: Span, v: StackValue, op: BinaryOp) -> bool {
    v matches StackValue::Expr(e) && e.span == span && (e.kind matches ExprKind::Binary(b)
        && b.op == op && expr_at(a, 0) == Some(*b.left) && expr_at(a, 2) == Some(*b.right) && b.span == span)
}

/// A comparison rule `CompareExpr -> CompareExpr T IsAsExpr` builds the
/// comparison that `T` names: `<` is `Less`, `>` `Greater`, `<=` `LessEq`,
/// `>=` `GreaterEq`, `==` `Eq` and `!=` `NotEq`.
pub proof fn law_comparison_operator(p: Production, a: Seq<StackValue>, span: Span, v: StackValue)
    requires
        p.head == NT::CompareExpr,
        p.body@.len() == 3,
        built(p, a, span, v),
    ensures
        p.body@[1] == Symbol::T(Tok::Less) ==> binary_value(a, span, v, BinaryOp::Less),
        p.body@[1] == Symbol::T(Tok::Greater) ==> binary_value(a, span, v, BinaryOp::Greater),
        p.body@[1] == Symbol::T(Tok::LessEq) ==> binary_value(a, span, v, BinaryOp::LessEq),
        p.body@[1] == Symbol::T(Tok::GreaterEq) ==> binary_value(a, span, v, BinaryOp::GreaterEq),
        p.body@[1] == Symbol::T(Tok::Equal) ==> binary_value(a, span, v, BinaryOp::Eq),
        p.body@[1] == Symbol::T(Tok::NotEqual) ==> binary_value(a, span, v, BinaryOp::NotEq),
{
}

/// A product rule `MulExpr -> MulExpr T PowerExpr` builds the product that
/// `T` names: `*` is `Mul`, `/` `Div` and `%` `Mod`.
pub proof fn law_product_operator(p: Production, a: Seq<StackValue>, span: Span, v: StackValue)
    requires
        p.head == NT::MulExpr,
        p.body@.len() == 3,
        built(p, a, span, v),
    ensures
        p.body@[1] == Symbol::T(Tok::Multiply) ==> binary_value(a, span, v, BinaryOp::Mul),
        p.body@[1] == Symbol::T(Tok::Divide) ==> binary_value(a, span, v, BinaryOp::Div),
        p.body@[1] == Symbol::T(Tok::Modulo) ==> binary_value(a, span, v, BinaryOp::Mod),
{
}

/// A sum rule `AddExpr -> AddExpr T MulExpr` builds `Add` for `+` and `Sub`
/// for `-`.
pub proof fn law_sum_operator(p: Production, a: Seq<StackValue>, span: Span, v: StackValue)
    requires
        p.head == NT::AddExpr,
        p.body@.len() == 3,
        built(p, a, span, v),
    ensures
        p.body@[1] == Symbol::T(Tok::Plus) ==> binary_value(a, span, v, BinaryOp::Add),
        p.body@[1] == Symbol::T(Tok::Minus) ==> binary_value(a, span, v, BinaryOp::Sub),
{
}

/// The remaining binary levels: `|` builds `Or`, `&` `And`, `@` `Concat`,
/// `@@` `DoubleConcat`, and `^` or `**` `Power`.
pub proof fn law_other_binary_operators(p: Production, a: Seq<StackValue>, span: Span, v: StackValue)
    requires
        p.body@.len() == 3,
        built(p, a, span, v),
    ensures
        p.head == NT::OrExpr && p.body@[1] == Symbol::T(Tok::Or) ==> binary_value(a, span, v, BinaryOp::Or),
        p.head == NT::AndExpr && p.body@[1] == Symbol::T(Tok::And) ==> binary_value(a, span, v, BinaryOp::And),
        p.head == NT::ConcatExpr && p.body@[1] == Symbol::T(Tok::Concat) ==> binary_value(a, span, v, BinaryOp::Concat),
        p.head == NT::ConcatExpr && p.body@[1] == Symbol::T(Tok::DoubleConcat) ==> binary_value(a, span, v, BinaryOp::DoubleConcat),
        p.head == NT::PowerExpr && p.body@[1] == Symbol::T(Tok::PowerCaret) ==> binary_value(a, span, v, BinaryOp::Power),
        p.head == NT::PowerExpr && p.body@[1] == Symbol::T(Tok::PowerStar) ==> binary_value(a, span, v, BinaryOp::Power),
{
}

/// A prefix rule `UnaryExpr -> T UnaryExpr` builds `Neg` for `-` and `Not`
/// for `!`, over the expression after the operator.
pub proof fn law_prefix_operator(p: Production, a: Seq<StackValue>, span: Span, v: StackValue)
    requires
        p.head == NT::UnaryExpr,
        p.body@.len() == 2,
        built(p, a, span, v),
    ensures
        v matches StackValue::Expr(e) && e.span == span && (e.kind matches ExprKind::Unary(u)
            && expr_at(a, 1) == Some(*u.operand)
            && (p.body@[0] == Symbol::T(Tok::Minus) ==> u.op == UnaryOp::Neg)
            && (p.body@[0] == Symbol::T(Tok::Not) ==> u.op == UnaryOp::Not)),
{
}

/// A postfix rule `PostfixExpr -> PostfixExpr T` builds `Increment` for
/// `++` and `Decrement` for `--`, over the expression before the operator.
pub proof fn law_postfix_operator(p: Production, a: Seq<StackValue>, span: Span, v: StackValue)
    requires
        p.head == NT::PostfixExpr,
        p.body@.len() == 2,
        built(p, a, span, v),
    ensures
        v matches StackValue::Expr(e) && e.span == span && (e.kind matches ExprKind::Postfix(x)
            && expr_at(a, 0) == Some(*x.operand)
            && (p.body@[1] == Symbol::T(Tok::Increment) ==> x.op == PostfixOp::Increment)
            && (p.body@[1] == Symbol::T(Tok::Decrement) ==> x.op == PostfixOp::Decrement)),
{
}

/// An assignment rule `AssignExpr -> OrExpr T AssignExpr` builds the
/// assignment that `T` names: `:=` is a plain assignment, `+=`, `-=`, `*=`,
/// `/=` and `%=` the compound ones, with the target before `T` and the value
/// after it.
pub proof fn law_assignment_operator(p: Production, a: Seq<StackValue>, span: Span, v: StackValue)
    requires
        p.head == NT::AssignExpr,
        p.body@.len() == 3,
        built(p, a, span, v),
    ensures
        v matches StackValue::Expr(e) && e.span == span && (e.kind matches ExprKind::Assign(x)
            && expr_at(a, 0) == Some(*x.target) && expr_at(a, 2) == Some(*x.value)
            && (p.body@[1] == Symbol::T(Tok::DestructAssign) ==> x.op == AssignOp::Assign)
            && (p.body@[1] == Symbol::T(Tok::PlusAssign) ==> x.op == AssignOp::PlusAssign)
            && (p.body@[1] == Symbol::T(Tok::MinusAssign) ==> x.op == AssignOp::MinusAssign)
            && (p.body@[1] == Symbol::T(Tok::MultAssign) ==> x.op == AssignOp::MulAssign)
            && (p.body@[1] == Symbol::T(Tok::DivAssign) ==> x.op == AssignOp::DivAssign)
            && (p.body@[1] == Symbol::T(Tok::ModAssign) ==> x.op == AssignOp::ModAssign)),
{
}

} // verus!
