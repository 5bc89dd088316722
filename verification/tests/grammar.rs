use hulk_compiler::lexer::token::{Token, TokenType};
use hulk_compiler::parser::grammar::hulk_grammar::build;
use hulk_compiler::parser::grammar::production::Production;
use hulk_compiler::parser::grammar::symbol::{NonTerminal, Symbol, Terminal};
use hulk_compiler::parser::grammar::token_translator::{token_to_terminal, TokenStream};

#[test]
fn epsilon_production_is_empty() {
    let p = Production::epsilon(NonTerminal::ElifChain);
    assert!(p.is_epsilon());
    assert_eq!(p.body_len(), 0);
}

#[test]
fn production_body_len() {
    let p = Production::new(
        NonTerminal::AddExpr,
        vec![Symbol::NT(NonTerminal::AddExpr), Symbol::T(Terminal::Plus), Symbol::NT(NonTerminal::MulExpr)],
    );
    assert_eq!(p.body_len(), 3);
    assert!(!p.is_epsilon());
}

#[test]
fn symbol_at_bounds() {
    let p = Production::new(NonTerminal::Expr, vec![Symbol::NT(NonTerminal::AddExpr)]);
    assert!(p.symbol_at(0).is_some());
    assert!(p.symbol_at(1).is_none());
}

#[test]
fn display_normal() {
    let mut p = Production::new(
        NonTerminal::AddExpr,
        vec![Symbol::NT(NonTerminal::AddExpr), Symbol::T(Terminal::Plus), Symbol::NT(NonTerminal::MulExpr)],
    );
    p.id = 7;
    let s = p.display();
    assert!(s.contains("[7]"));
    assert!(s.contains("+"));
}

#[test]
fn display_epsilon() {
    let mut p = Production::epsilon(NonTerminal::ElifChain);
    p.id = 3;
    let s = p.display();
    assert!(s.contains("ε"));
}

#[test]
fn grammar_has_productions() {
    let g = build();
    assert!(g.len() > 50, "the grammar should have more than 50 productions");
}

#[test]
fn start_production_is_first() {
    let g = build();
    let p = g.production(0);
    assert_eq!(p.head, NonTerminal::Start);
    assert_eq!(p.body.len(), 2);
}

#[test]
fn every_nonterminal_has_at_least_one_production() {
    let g = build();
    let required = [
        NonTerminal::Program, NonTerminal::DeclList, NonTerminal::Decl, NonTerminal::FuncDecl,
        NonTerminal::TypeDecl, NonTerminal::ProtocolDecl, NonTerminal::ParamList, NonTerminal::ParamListNonEmpty,
        NonTerminal::Param, NonTerminal::ArgList, NonTerminal::ArgListNonEmpty, NonTerminal::TypeName,
        NonTerminal::TypeArgs, NonTerminal::TypeArgList, NonTerminal::InheritClause, NonTerminal::TypeBody,
        NonTerminal::TypeMemberList, NonTerminal::TypeMember, NonTerminal::AttributeDef, NonTerminal::MethodDef,
        NonTerminal::ProtocolBody, NonTerminal::ProtocolMemberList, NonTerminal::ProtocolMember,
        NonTerminal::MethodSignature, NonTerminal::Expr, NonTerminal::AssignExpr, NonTerminal::OrExpr,
        NonTerminal::AndExpr, NonTerminal::CompareExpr, NonTerminal::IsAsExpr, NonTerminal::ConcatExpr,
        NonTerminal::AddExpr, NonTerminal::MulExpr, NonTerminal::PowerExpr, NonTerminal::UnaryExpr,
        NonTerminal::PostfixExpr, NonTerminal::CallOrAccess, NonTerminal::PrimaryExpr, NonTerminal::BlockExpr,
        NonTerminal::ExprList, NonTerminal::LetExpr, NonTerminal::LetBindingList, NonTerminal::LetBinding,
        NonTerminal::IfExpr, NonTerminal::ElifChain, NonTerminal::WhileExpr, NonTerminal::ForExpr,
        NonTerminal::NewExpr, NonTerminal::VectorLiteral,
    ];
    for nt in required {
        assert!(!g.productions_for(&nt).is_empty(), "no productions for {:?}", nt);
    }
}

#[test]
fn epsilon_productions_exist_where_expected() {
    let g = build();
    let should_have_epsilon = [
        NonTerminal::DeclList, NonTerminal::ParamList, NonTerminal::ArgList, NonTerminal::TypeArgs,
        NonTerminal::InheritClause, NonTerminal::TypeMemberList, NonTerminal::ProtocolMemberList,
        NonTerminal::ElifChain,
    ];
    for nt in should_have_epsilon {
        let has_eps = g.productions_for(&nt).iter().any(|&id| g.production(id).is_epsilon());
        assert!(has_eps, "{:?} should have an epsilon production", nt);
    }
}

fn make_token(tt: TokenType, lexeme: &str, skippable: bool) -> Token {
    Token::new(tt, lexeme.to_string(), 1, 1, skippable)
}

#[test]
fn whitespace_returns_none() {
    assert!(token_to_terminal(&TokenType::WHITESPACE).is_none());
    assert!(token_to_terminal(&TokenType::COMMENT).is_none());
    assert!(token_to_terminal(&TokenType::NEWLINE).is_none());
}

#[test]
fn keywords_translate_correctly() {
    assert_eq!(token_to_terminal(&TokenType::KW_IF), Some(Terminal::If));
    assert_eq!(token_to_terminal(&TokenType::KW_WHILE), Some(Terminal::While));
    assert_eq!(token_to_terminal(&TokenType::KW_LET), Some(Terminal::Let));
    assert_eq!(token_to_terminal(&TokenType::KW_TYPE), Some(Terminal::Type));
}

#[test]
fn operators_translate_correctly() {
    assert_eq!(token_to_terminal(&TokenType::OP_PLUS), Some(Terminal::Plus));
    assert_eq!(token_to_terminal(&TokenType::OP_DESTRUCT_ASSIGN), Some(Terminal::DestructAssign));
    assert_eq!(token_to_terminal(&TokenType::OP_EQUAL), Some(Terminal::Equal));
    assert_eq!(token_to_terminal(&TokenType::ARROW), Some(Terminal::Arrow));
}

#[test]
fn token_stream_skips_whitespace() {
    let tokens = vec![
        make_token(TokenType::KW_LET, "let", false),
        make_token(TokenType::WHITESPACE, " ", true),
        make_token(TokenType::IDENTIFIER, "x", false),
        make_token(TokenType::EOF, "", false),
    ];
    let mut stream = TokenStream::new(tokens);
    let t1 = stream.next().unwrap();
    assert_eq!(t1.terminal, Terminal::Let);
    assert_eq!(t1.lexeme, "let");
    let t2 = stream.next().unwrap();
    assert_eq!(t2.terminal, Terminal::Identifier);
    assert_eq!(t2.lexeme, "x");
    let t3 = stream.next().unwrap();
    assert_eq!(t3.terminal, Terminal::Eof);
    assert!(stream.next().is_none());
}

#[test]
fn token_stream_skips_errors() {
    let tokens = vec![make_token(TokenType::ERROR, "€", false), make_token(TokenType::IDENTIFIER, "ok", false)];
    let mut stream = TokenStream::new(tokens);
    let t = stream.next().unwrap();
    assert_eq!(t.terminal, Terminal::Identifier);
}
