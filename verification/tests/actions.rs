use hulk_compiler::parser::ast::{BinaryOp, ExprKind, Span, VectorExpr};
use hulk_compiler::parser::engine::semantic_actions::{reduce, StackValue};
use hulk_compiler::parser::grammar::production::Production;
use hulk_compiler::parser::grammar::symbol::{NonTerminal as NT, Symbol, Terminal as T};
use hulk_compiler::parser::grammar::Grammar;
use hulk_compiler::parser::ast::Expr;

fn one_rule(head: NT, body: Vec<Symbol>) -> Grammar {
    let mut g = Grammar::new(NT::Start);
    g.add(Production::new(head, body));
    g
}

fn sp(line: usize) -> Span {
    Span::new(line, 1)
}

#[test]
fn reduce_builds_a_sum() {
    let g = one_rule(NT::AddExpr, vec![Symbol::NT(NT::AddExpr), Symbol::T(T::Plus), Symbol::NT(NT::MulExpr)]);
    let args = vec![
        StackValue::Expr(Expr::number("1", sp(1))),
        StackValue::Lexeme("+".to_string(), sp(1)),
        StackValue::Expr(Expr::number("2", sp(1))),
    ];
    match reduce(0, &g, args, sp(1)) {
        Ok(StackValue::Expr(e)) => match e.kind {
            ExprKind::Binary(b) => {
                assert_eq!(b.op, BinaryOp::Add);
                assert!(*b.left == Expr::number("1", sp(1)));
                assert!(*b.right == Expr::number("2", sp(1)));
            }
            _ => panic!("not a binary expression"),
        },
        _ => panic!("the sum was not built"),
    }
}

#[test]
fn reduce_fails_on_a_value_of_another_kind() {
    let g = one_rule(NT::AddExpr, vec![Symbol::NT(NT::AddExpr), Symbol::T(T::Minus), Symbol::NT(NT::MulExpr)]);
    let args = vec![
        StackValue::Expr(Expr::number("1", sp(1))),
        StackValue::Lexeme("-".to_string(), sp(1)),
        StackValue::Lexeme("x".to_string(), sp(1)),
    ];
    assert!(reduce(0, &g, args, sp(1)).is_err());
}

#[test]
fn reduce_fails_on_missing_values() {
    let g = one_rule(NT::WhileExpr, vec![
        Symbol::T(T::While), Symbol::T(T::LParen), Symbol::NT(NT::Expr), Symbol::T(T::RParen), Symbol::NT(NT::Expr),
    ]);
    let args = vec![StackValue::Lexeme("while".to_string(), sp(1))];
    assert!(reduce(0, &g, args, sp(1)).is_err());
}

#[test]
fn reduce_joins_a_braced_vector() {
    let g = one_rule(NT::VectorLiteral, vec![
        Symbol::T(T::LBrace), Symbol::NT(NT::Expr), Symbol::T(T::Comma), Symbol::NT(NT::ExprList), Symbol::T(T::RBrace),
    ]);
    let rest = vec![Expr::number("2", sp(1)), Expr::number("3", sp(1))];
    let args = vec![
        StackValue::Lexeme("{".to_string(), sp(1)),
        StackValue::Expr(Expr::number("1", sp(1))),
        StackValue::Lexeme(",".to_string(), sp(1)),
        StackValue::ExprList(rest),
        StackValue::Lexeme("}".to_string(), sp(1)),
    ];
    match reduce(0, &g, args, sp(1)) {
        Ok(StackValue::Expr(e)) => match e.kind {
            ExprKind::Vector(v) => match *v {
                VectorExpr::Explicit { elements, .. } => {
                    assert_eq!(elements.len(), 3);
                    assert!(elements[0] == Expr::number("1", sp(1)));
                    assert!(elements[1] == Expr::number("2", sp(1)));
                    assert!(elements[2] == Expr::number("3", sp(1)));
                }
                _ => panic!("not an explicit vector"),
            },
            _ => panic!("not a vector"),
        },
        _ => panic!("the vector was not built"),
    }
}

#[test]
fn reduce_hands_on_a_single_nonterminal() {
    let g = one_rule(NT::Expr, vec![Symbol::NT(NT::OrExpr)]);
    let args = vec![StackValue::Expr(Expr::number("7", sp(2)))];
    match reduce(0, &g, args, sp(2)) {
        Ok(StackValue::Expr(e)) => assert!(e == Expr::number("7", sp(2))),
        _ => panic!("the value was not handed on"),
    }
}
