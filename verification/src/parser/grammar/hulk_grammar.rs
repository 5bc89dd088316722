//! The complete grammar of HULK.
use vstd::prelude::*;
use crate::parser::grammar::Grammar;
use crate::parser::grammar::production::Production;
use crate::parser::grammar::symbol::{NonTerminal, Symbol, Terminal};

verus! {

/// Number of productions of the HULK grammar.
pub const HULK_GRAMMAR_LEN: usize = 131;

fn nt(n: NonTerminal) -> (s: Symbol)
    ensures
        s == Symbol::NT(n),
{
    Symbol::NT(n)
}

fn t(tok: Terminal) -> (s: Symbol)
    ensures
        s == Symbol::T(tok),
{
    Symbol::T(tok)
}

fn p(head: NonTerminal, body: Vec<Symbol>) -> (r: Production)
    ensures
        r.head == head,
        r.body@ == body@,
{
    Production::new(head, body)
}

fn eps(head: NonTerminal) -> (r: Production)
    ensures
        r.head == head,
        r.body@.len() == 0,
{
    Production::epsilon(head)
}

/// The rules of the HULK grammar, in production-id order: head and body.
pub open spec fn hulk_rules() -> Seq<(NonTerminal, Seq<Symbol>)> {
    seq![
        (NonTerminal::Start, seq![Symbol::NT(NonTerminal::Program), Symbol::T(Terminal::Eof)]),
        (NonTerminal::Program, seq![Symbol::NT(NonTerminal::DeclList), Symbol::NT(NonTerminal::Expr)]),
        (NonTerminal::Program, seq![Symbol::NT(NonTerminal::DeclList), Symbol::NT(NonTerminal::Expr), Symbol::T(Terminal::Semicolon)]),
        (NonTerminal::DeclList, Seq::empty()),
        (NonTerminal::DeclList, seq![Symbol::NT(NonTerminal::DeclList), Symbol::NT(NonTerminal::Decl)]),
        (NonTerminal::Decl, seq![Symbol::NT(NonTerminal::FuncDecl)]),
        (NonTerminal::Decl, seq![Symbol::NT(NonTerminal::TypeDecl)]),
        (NonTerminal::Decl, seq![Symbol::NT(NonTerminal::ProtocolDecl)]),
        (NonTerminal::FuncDecl, seq![Symbol::T(Terminal::Function), Symbol::T(Terminal::Identifier), Symbol::T(Terminal::LParen), Symbol::NT(NonTerminal::ParamList), Symbol::T(Terminal::RParen), Symbol::T(Terminal::Arrow), Symbol::NT(NonTerminal::Expr), Symbol::T(Terminal::Semicolon)]),
        (NonTerminal::FuncDecl, seq![Symbol::T(Terminal::Function), Symbol::T(Terminal::Identifier), Symbol::T(Terminal::LParen), Symbol::NT(NonTerminal::ParamList), Symbol::T(Terminal::RParen), Symbol::NT(NonTerminal::BlockExpr)]),
        (NonTerminal::FuncDecl, seq![Symbol::T(Terminal::Function), Symbol::T(Terminal::Identifier), Symbol::T(Terminal::LParen), Symbol::NT(NonTerminal::ParamList), Symbol::T(Terminal::RParen), Symbol::T(Terminal::Colon), Symbol::NT(NonTerminal::TypeName), Symbol::T(Terminal::Arrow), Symbol::NT(NonTerminal::Expr), Symbol::T(Terminal::Semicolon)]),
        (NonTerminal::FuncDecl, seq![Symbol::T(Terminal::Function), Symbol::T(Terminal::Identifier), Symbol::T(Terminal::LParen), Symbol::NT(NonTerminal::ParamList), Symbol::T(Terminal::RParen), Symbol::T(Terminal::Colon), Symbol::NT(NonTerminal::TypeName), Symbol::NT(NonTerminal::BlockExpr)]),
        (NonTerminal::ParamList, Seq::empty()),
        (NonTerminal::ParamList, seq![Symbol::NT(NonTerminal::ParamListNonEmpty)]),
        (NonTerminal::ParamListNonEmpty, seq![Symbol::NT(NonTerminal::Param)]),
        (NonTerminal::ParamListNonEmpty, seq![Symbol::NT(NonTerminal::ParamListNonEmpty), Symbol::T(Terminal::Comma), Symbol::NT(NonTerminal::Param)]),
        (NonTerminal::Param, seq![Symbol::T(Terminal::Identifier)]),
        (NonTerminal::Param, seq![Symbol::T(Terminal::Identifier), Symbol::T(Terminal::Colon), Symbol::NT(NonTerminal::TypeName)]),
        (NonTerminal::TypeDecl, seq![Symbol::T(Terminal::Type), Symbol::T(Terminal::Identifier), Symbol::NT(NonTerminal::TypeArgs), Symbol::NT(NonTerminal::InheritClause), Symbol::T(Terminal::LBrace), Symbol::NT(NonTerminal::TypeBody), Symbol::T(Terminal::RBrace)]),
        (NonTerminal::TypeArgs, Seq::empty()),
        (NonTerminal::TypeArgs, seq![Symbol::T(Terminal::LParen), Symbol::NT(NonTerminal::TypeArgList), Symbol::T(Terminal::RParen)]),
        (NonTerminal::TypeArgList, seq![Symbol::NT(NonTerminal::Param)]),
        (NonTerminal::TypeArgList, seq![Symbol::NT(NonTerminal::TypeArgList), Symbol::T(Terminal::Comma), Symbol::NT(NonTerminal::Param)]),
        (NonTerminal::InheritClause, Seq::empty()),
        (NonTerminal::InheritClause, seq![Symbol::T(Terminal::Inherits), Symbol::NT(NonTerminal::TypeName)]),
        (NonTerminal::InheritClause, seq![Symbol::T(Terminal::Inherits), Symbol::NT(NonTerminal::TypeName), Symbol::T(Terminal::LParen), Symbol::NT(NonTerminal::ArgList), Symbol::T(Terminal::RParen)]),
        (NonTerminal::TypeBody, seq![Symbol::NT(NonTerminal::TypeMemberList)]),
        (NonTerminal::TypeMemberList, Seq::empty()),
        (NonTerminal::TypeMemberList, seq![Symbol::NT(NonTerminal::TypeMemberList), Symbol::NT(NonTerminal::TypeMember)]),
        (NonTerminal::TypeMember, seq![Symbol::NT(NonTerminal::AttributeDef)]),
        (NonTerminal::TypeMember, seq![Symbol::NT(NonTerminal::MethodDef)]),
        (NonTerminal::AttributeDef, seq![Symbol::T(Terminal::Identifier), Symbol::T(Terminal::Assign), Symbol::NT(NonTerminal::Expr), Symbol::T(Terminal::Semicolon)]),
        (NonTerminal::AttributeDef, seq![Symbol::T(Terminal::Identifier), Symbol::T(Terminal::Colon), Symbol::NT(NonTerminal::TypeName), Symbol::T(Terminal::Assign), Symbol::NT(NonTerminal::Expr), Symbol::T(Terminal::Semicolon)]),
        (NonTerminal::MethodDef, seq![Symbol::T(Terminal::Identifier), Symbol::T(Terminal::LParen), Symbol::NT(NonTerminal::ParamList), Symbol::T(Terminal::RParen), Symbol::T(Terminal::Arrow), Symbol::NT(NonTerminal::Expr), Symbol::T(Terminal::Semicolon)]),
        (NonTerminal::MethodDef, seq![Symbol::T(Terminal::Identifier), Symbol::T(Terminal::LParen), Symbol::NT(NonTerminal::ParamList), Symbol::T(Terminal::RParen), Symbol::NT(NonTerminal::BlockExpr)]),
        (NonTerminal::MethodDef, seq![Symbol::T(Terminal::Identifier), Symbol::T(Terminal::LParen), Symbol::NT(NonTerminal::ParamList), Symbol::T(Terminal::RParen), Symbol::T(Terminal::Colon), Symbol::NT(NonTerminal::TypeName), Symbol::T(Terminal::Arrow), Symbol::NT(NonTerminal::Expr), Symbol::T(Terminal::Semicolon)]),
        (NonTerminal::MethodDef, seq![Symbol::T(Terminal::Identifier), Symbol::T(Terminal::LParen), Symbol::NT(NonTerminal::ParamList), Symbol::T(Terminal::RParen), Symbol::T(Terminal::Colon), Symbol::NT(NonTerminal::TypeName), Symbol::NT(NonTerminal::BlockExpr)]),
        (NonTerminal::ProtocolDecl, seq![Symbol::T(Terminal::Protocol), Symbol::T(Terminal::Identifier), Symbol::T(Terminal::LBrace), Symbol::NT(NonTerminal::ProtocolBody), Symbol::T(Terminal::RBrace)]),
        (NonTerminal::ProtocolDecl, seq![Symbol::T(Terminal::Protocol), Symbol::T(Terminal::Identifier), Symbol::T(Terminal::Extends), Symbol::NT(NonTerminal::TypeName), Symbol::T(Terminal::LBrace), Symbol::NT(NonTerminal::ProtocolBody), Symbol::T(Terminal::RBrace)]),
        (NonTerminal::ProtocolBody, seq![Symbol::NT(NonTerminal::ProtocolMemberList)]),
        (NonTerminal::ProtocolMemberList, Seq::empty()),
        (NonTerminal::ProtocolMemberList, seq![Symbol::NT(NonTerminal::ProtocolMemberList), Symbol::NT(NonTerminal::ProtocolMember)]),
        (NonTerminal::ProtocolMember, seq![Symbol::NT(NonTerminal::MethodSignature), Symbol::T(Terminal::Semicolon)]),
        (NonTerminal::MethodSignature, seq![Symbol::T(Terminal::Identifier), Symbol::T(Terminal::LParen), Symbol::NT(NonTerminal::ParamList), Symbol::T(Terminal::RParen), Symbol::T(Terminal::Colon), Symbol::NT(NonTerminal::TypeName)]),
        (NonTerminal::TypeName, seq![Symbol::T(Terminal::Identifier)]),
        (NonTerminal::TypeName, seq![Symbol::T(Terminal::Identifier), Symbol::T(Terminal::LBracket), Symbol::T(Terminal::RBracket)]),
        (NonTerminal::TypeName, seq![Symbol::T(Terminal::Identifier), Symbol::T(Terminal::Multiply)]),
        (NonTerminal::ArgList, Seq::empty()),
        (NonTerminal::ArgList, seq![Symbol::NT(NonTerminal::ArgListNonEmpty)]),
        (NonTerminal::ArgListNonEmpty, seq![Symbol::NT(NonTerminal::Expr)]),
        (NonTerminal::ArgListNonEmpty, seq![Symbol::NT(NonTerminal::ArgListNonEmpty), Symbol::T(Terminal::Comma), Symbol::NT(NonTerminal::Expr)]),
        (NonTerminal::Expr, seq![Symbol::NT(NonTerminal::AssignExpr)]),
        (NonTerminal::AssignExpr, seq![Symbol::NT(NonTerminal::OrExpr)]),
        (NonTerminal::AssignExpr, seq![Symbol::NT(NonTerminal::OrExpr), Symbol::T(Terminal::DestructAssign), Symbol::NT(NonTerminal::AssignExpr)]),
        (NonTerminal::AssignExpr, seq![Symbol::NT(NonTerminal::OrExpr), Symbol::T(Terminal::PlusAssign), Symbol::NT(NonTerminal::AssignExpr)]),
        (NonTerminal::AssignExpr, seq![Symbol::NT(NonTerminal::OrExpr), Symbol::T(Terminal::MinusAssign), Symbol::NT(NonTerminal::AssignExpr)]),
        (NonTerminal::AssignExpr, seq![Symbol::NT(NonTerminal::OrExpr), Symbol::T(Terminal::MultAssign), Symbol::NT(NonTerminal::AssignExpr)]),
        (NonTerminal::AssignExpr, seq![Symbol::NT(NonTerminal::OrExpr), Symbol::T(Terminal::DivAssign), Symbol::NT(NonTerminal::AssignExpr)]),
        (NonTerminal::AssignExpr, seq![Symbol::NT(NonTerminal::OrExpr), Symbol::T(Terminal::ModAssign), Symbol::NT(NonTerminal::AssignExpr)]),
        (NonTerminal::OrExpr, seq![Symbol::NT(NonTerminal::AndExpr)]),
        (NonTerminal::OrExpr, seq![Symbol::NT(NonTerminal::OrExpr), Symbol::T(Terminal::Or), Symbol::NT(NonTerminal::AndExpr)]),
        (NonTerminal::AndExpr, seq![Symbol::NT(NonTerminal::CompareExpr)]),
        (NonTerminal::AndExpr, seq![Symbol::NT(NonTerminal::AndExpr), Symbol::T(Terminal::And), Symbol::NT(NonTerminal::CompareExpr)]),
        (NonTerminal::CompareExpr, seq![Symbol::NT(NonTerminal::IsAsExpr)]),
        (NonTerminal::CompareExpr, seq![Symbol::NT(NonTerminal::CompareExpr), Symbol::T(Terminal::Equal), Symbol::NT(NonTerminal::IsAsExpr)]),
        (NonTerminal::CompareExpr, seq![Symbol::NT(NonTerminal::CompareExpr), Symbol::T(Terminal::NotEqual), Symbol::NT(NonTerminal::IsAsExpr)]),
        (NonTerminal::CompareExpr, seq![Symbol::NT(NonTerminal::CompareExpr), Symbol::T(Terminal::Less), Symbol::NT(NonTerminal::IsAsExpr)]),
        (NonTerminal::CompareExpr, seq![Symbol::NT(NonTerminal::CompareExpr), Symbol::T(Terminal::Greater), Symbol::NT(NonTerminal::IsAsExpr)]),
        (NonTerminal::CompareExpr, seq![Symbol::NT(NonTerminal::CompareExpr), Symbol::T(Terminal::LessEq), Symbol::NT(NonTerminal::IsAsExpr)]),
        (NonTerminal::CompareExpr, seq![Symbol::NT(NonTerminal::CompareExpr), Symbol::T(Terminal::GreaterEq), Symbol::NT(NonTerminal::IsAsExpr)]),
        (NonTerminal::IsAsExpr, seq![Symbol::NT(NonTerminal::ConcatExpr)]),
        (NonTerminal::IsAsExpr, seq![Symbol::NT(NonTerminal::IsAsExpr), Symbol::T(Terminal::Is), Symbol::NT(NonTerminal::TypeName)]),
        (NonTerminal::IsAsExpr, seq![Symbol::NT(NonTerminal::IsAsExpr), Symbol::T(Terminal::As), Symbol::NT(NonTerminal::TypeName)]),
        (NonTerminal::ConcatExpr, seq![Symbol::NT(NonTerminal::AddExpr)]),
        (NonTerminal::ConcatExpr, seq![Symbol::NT(NonTerminal::ConcatExpr), Symbol::T(Terminal::Concat), Symbol::NT(NonTerminal::AddExpr)]),
        (NonTerminal::ConcatExpr, seq![Symbol::NT(NonTerminal::ConcatExpr), Symbol::T(Terminal::DoubleConcat), Symbol::NT(NonTerminal::AddExpr)]),
        (NonTerminal::AddExpr, seq![Symbol::NT(NonTerminal::MulExpr)]),
        (NonTerminal::AddExpr, seq![Symbol::NT(NonTerminal::AddExpr), Symbol::T(Terminal::Plus), Symbol::NT(NonTerminal::MulExpr)]),
        (NonTerminal::AddExpr, seq![Symbol::NT(NonTerminal::AddExpr), Symbol::T(Terminal::Minus), Symbol::NT(NonTerminal::MulExpr)]),
        (NonTerminal::MulExpr, seq![Symbol::NT(NonTerminal::PowerExpr)]),
        (NonTerminal::MulExpr, seq![Symbol::NT(NonTerminal::MulExpr), Symbol::T(Terminal::Multiply), Symbol::NT(NonTerminal::PowerExpr)]),
        (NonTerminal::MulExpr, seq![Symbol::NT(NonTerminal::MulExpr), Symbol::T(Terminal::Divide), Symbol::NT(NonTerminal::PowerExpr)]),
        (NonTerminal::MulExpr, seq![Symbol::NT(NonTerminal::MulExpr), Symbol::T(Terminal::Modulo), Symbol::NT(NonTerminal::PowerExpr)]),
        (NonTerminal::PowerExpr, seq![Symbol::NT(NonTerminal::UnaryExpr)]),
        (NonTerminal::PowerExpr, seq![Symbol::NT(NonTerminal::UnaryExpr), Symbol::T(Terminal::PowerCaret), Symbol::NT(NonTerminal::PowerExpr)]),
        (NonTerminal::PowerExpr, seq![Symbol::NT(NonTerminal::UnaryExpr), Symbol::T(Terminal::PowerStar), Symbol::NT(NonTerminal::PowerExpr)]),
        (NonTerminal::UnaryExpr, seq![Symbol::NT(NonTerminal::PostfixExpr)]),
        (NonTerminal::UnaryExpr, seq![Symbol::T(Terminal::Minus), Symbol::NT(NonTerminal::UnaryExpr)]),
        (NonTerminal::UnaryExpr, seq![Symbol::T(Terminal::Not), Symbol::NT(NonTerminal::UnaryExpr)]),
        (NonTerminal::PostfixExpr, seq![Symbol::NT(NonTerminal::CallOrAccess)]),
        (NonTerminal::PostfixExpr, seq![Symbol::NT(NonTerminal::CallOrAccess), Symbol::T(Terminal::Increment)]),
        (NonTerminal::PostfixExpr, seq![Symbol::NT(NonTerminal::CallOrAccess), Symbol::T(Terminal::Decrement)]),
        (NonTerminal::CallOrAccess, seq![Symbol::NT(NonTerminal::PrimaryExpr)]),
        (NonTerminal::CallOrAccess, seq![Symbol::NT(NonTerminal::CallOrAccess), Symbol::T(Terminal::LParen), Symbol::NT(NonTerminal::ArgList), Symbol::T(Terminal::RParen)]),
        (NonTerminal::CallOrAccess, seq![Symbol::NT(NonTerminal::CallOrAccess), Symbol::T(Terminal::Dot), Symbol::T(Terminal::Identifier)]),
        (NonTerminal::CallOrAccess, seq![Symbol::NT(NonTerminal::CallOrAccess), Symbol::T(Terminal::Dot), Symbol::T(Terminal::Identifier), Symbol::T(Terminal::LParen), Symbol::NT(NonTerminal::ArgList), Symbol::T(Terminal::RParen)]),
        (NonTerminal::CallOrAccess, seq![Symbol::NT(NonTerminal::CallOrAccess), Symbol::T(Terminal::LBracket), Symbol::NT(NonTerminal::Expr), Symbol::T(Terminal::RBracket)]),
        (NonTerminal::PrimaryExpr, seq![Symbol::T(Terminal::Number)]),
        (NonTerminal::PrimaryExpr, seq![Symbol::T(Terminal::String)]),
        (NonTerminal::PrimaryExpr, seq![Symbol::T(Terminal::Char)]),
        (NonTerminal::PrimaryExpr, seq![Symbol::T(Terminal::True)]),
        (NonTerminal::PrimaryExpr, seq![Symbol::T(Terminal::False)]),
        (NonTerminal::PrimaryExpr, seq![Symbol::T(Terminal::Null)]),
        (NonTerminal::PrimaryExpr, seq![Symbol::T(Terminal::Identifier)]),
        (NonTerminal::PrimaryExpr, seq![Symbol::T(Terminal::Base)]),
        (NonTerminal::PrimaryExpr, seq![Symbol::T(Terminal::LParen), Symbol::NT(NonTerminal::Expr), Symbol::T(Terminal::RParen)]),
        (NonTerminal::PrimaryExpr, seq![Symbol::NT(NonTerminal::BlockExpr)]),
        (NonTerminal::PrimaryExpr, seq![Symbol::NT(NonTerminal::LetExpr)]),
        (NonTerminal::PrimaryExpr, seq![Symbol::NT(NonTerminal::IfExpr)]),
        (NonTerminal::PrimaryExpr, seq![Symbol::NT(NonTerminal::WhileExpr)]),
        (NonTerminal::PrimaryExpr, seq![Symbol::NT(NonTerminal::ForExpr)]),
        (NonTerminal::PrimaryExpr, seq![Symbol::NT(NonTerminal::NewExpr)]),
        (NonTerminal::PrimaryExpr, seq![Symbol::NT(NonTerminal::VectorLiteral)]),
        (NonTerminal::BlockExpr, seq![Symbol::T(Terminal::LBrace), Symbol::NT(NonTerminal::ExprList), Symbol::T(Terminal::RBrace)]),
        (NonTerminal::BlockExpr, seq![Symbol::T(Terminal::LBrace), Symbol::NT(NonTerminal::ExprList), Symbol::T(Terminal::Semicolon), Symbol::T(Terminal::RBrace)]),
        (NonTerminal::ExprList, seq![Symbol::NT(NonTerminal::Expr)]),
        (NonTerminal::ExprList, seq![Symbol::NT(NonTerminal::ExprList), Symbol::T(Terminal::Semicolon), Symbol::NT(NonTerminal::Expr)]),
        (NonTerminal::LetExpr, seq![Symbol::T(Terminal::Let), Symbol::NT(NonTerminal::LetBindingList), Symbol::T(Terminal::In), Symbol::NT(NonTerminal::Expr)]),
        (NonTerminal::LetBindingList, seq![Symbol::NT(NonTerminal::LetBinding)]),
        (NonTerminal::LetBindingList, seq![Symbol::NT(NonTerminal::LetBindingList), Symbol::T(Terminal::Comma), Symbol::NT(NonTerminal::LetBinding)]),
        (NonTerminal::LetBinding, seq![Symbol::T(Terminal::Identifier), Symbol::T(Terminal::Assign), Symbol::NT(NonTerminal::Expr)]),
        (NonTerminal::LetBinding, seq![Symbol::T(Terminal::Identifier), Symbol::T(Terminal::Colon), Symbol::NT(NonTerminal::TypeName), Symbol::T(Terminal::Assign), Symbol::NT(NonTerminal::Expr)]),
        (NonTerminal::IfExpr, seq![Symbol::T(Terminal::If), Symbol::T(Terminal::LParen), Symbol::NT(NonTerminal::Expr), Symbol::T(Terminal::RParen), Symbol::NT(NonTerminal::Expr), Symbol::NT(NonTerminal::ElifChain), Symbol::T(Terminal::Else), Symbol::NT(NonTerminal::Expr)]),
        (NonTerminal::ElifChain, Seq::empty()),
        (NonTerminal::ElifChain, seq![Symbol::NT(NonTerminal::ElifChain), Symbol::T(Terminal::Elif), Symbol::T(Terminal::LParen), Symbol::NT(NonTerminal::Expr), Symbol::T(Terminal::RParen), Symbol::NT(NonTerminal::Expr)]),
        (NonTerminal::WhileExpr, seq![Symbol::T(Terminal::While), Symbol::T(Terminal::LParen), Symbol::NT(NonTerminal::Expr), Symbol::T(Terminal::RParen), Symbol::NT(NonTerminal::Expr)]),
        (NonTerminal::ForExpr, seq![Symbol::T(Terminal::For), Symbol::T(Terminal::LParen), Symbol::T(Terminal::Identifier), Symbol::T(Terminal::In), Symbol::NT(NonTerminal::Expr), Symbol::T(Terminal::RParen), Symbol::NT(NonTerminal::Expr)]),
        (NonTerminal::NewExpr, seq![Symbol::T(Terminal::New), Symbol::NT(NonTerminal::TypeName), Symbol::T(Terminal::LParen), Symbol::NT(NonTerminal::ArgList), Symbol::T(Terminal::RParen)]),
        (NonTerminal::VectorLiteral, seq![Symbol::T(Terminal::LBracket), Symbol::T(Terminal::RBracket)]),
        (NonTerminal::VectorLiteral, seq![Symbol::T(Terminal::LBracket), Symbol::NT(NonTerminal::ArgListNonEmpty), Symbol::T(Terminal::RBracket)]),
        (NonTerminal::VectorLiteral, seq![Symbol::T(Terminal::LBracket), Symbol::NT(NonTerminal::Expr), Symbol::T(Terminal::Or), Symbol::T(Terminal::Identifier), Symbol::T(Terminal::In), Symbol::NT(NonTerminal::Expr), Symbol::T(Terminal::RBracket)]),
    ]
}

/// A rule body of a binary level `n` whose next tighter level is `next`:
/// either just `next`, or `n op next` with a terminal `op`, so that the
/// level's operators group to the left.
pub open spec fn left_level(b: Seq<Symbol>, n: NonTerminal, next: NonTerminal) -> bool {
    (b.len() == 1 && b[0] == Symbol::NT(next))
    || (b.len() == 3 && b[0] == Symbol::NT(n) && b[1] is T && b[2] == Symbol::NT(next))
}

/// The shape the precedence levels of expressions ask of a rule: `|`, `&`,
/// comparisons, `@`/`@@`, `+`/`-` and `*`/`/`/`%` group to the left, each
/// level over the next tighter one; powers group to the right over unary
/// expressions. Rules of other heads are not constrained.
pub open spec fn level_shape(r: (NonTerminal, Seq<Symbol>)) -> bool {
    let b = r.1;
    match r.0 {
        NonTerminal::OrExpr => left_level(b, NonTerminal::OrExpr, NonTerminal::AndExpr),
        NonTerminal::AndExpr => left_level(b, NonTerminal::AndExpr, NonTerminal::CompareExpr),
        NonTerminal::CompareExpr => left_level(b, NonTerminal::CompareExpr, NonTerminal::IsAsExpr),
        NonTerminal::ConcatExpr => left_level(b, NonTerminal::ConcatExpr, NonTerminal::AddExpr),
        NonTerminal::AddExpr => left_level(b, NonTerminal::AddExpr, NonTerminal::MulExpr),
        NonTerminal::MulExpr => left_level(b, NonTerminal::MulExpr, NonTerminal::PowerExpr),
        NonTerminal::PowerExpr => (b.len() == 1 && b[0] == Symbol::NT(NonTerminal::UnaryExpr))
            || (b.len() == 3 && b[0] == Symbol::NT(NonTerminal::UnaryExpr) && b[1] is T
                && b[2] == Symbol::NT(NonTerminal::PowerExpr)),
        _ => true,
    }
}

/// Every rule of the HULK grammar keeps the precedence levels: the binary
/// levels are left-recursive (so `a - b + c` is `(a - b) + c`) and powers
/// right-recursive; and `+` and `-` are operators of the additive level.
pub proof fn law_precedence_levels()
    ensures
        forall|i: int| 0 <= i < hulk_rules().len() ==> #[trigger] level_shape(hulk_rules()[i]),
        hulk_rules().contains((NonTerminal::AddExpr,
            seq![Symbol::NT(NonTerminal::AddExpr), Symbol::T(Terminal::Plus), Symbol::NT(NonTerminal::MulExpr)])),
        hulk_rules().contains((NonTerminal::AddExpr,
            seq![Symbol::NT(NonTerminal::AddExpr), Symbol::T(Terminal::Minus), Symbol::NT(NonTerminal::MulExpr)])),
{
    let r = hulk_rules();
    assert(r.len() == 131);
    assert forall|i: int| 0 <= i < r.len() implies #[trigger] level_shape(r[i]) by {
    }
    assert(r[77] == (NonTerminal::AddExpr,
        seq![Symbol::NT(NonTerminal::AddExpr), Symbol::T(Terminal::Plus), Symbol::NT(NonTerminal::MulExpr)]));
    assert(r[78] == (NonTerminal::AddExpr,
        seq![Symbol::NT(NonTerminal::AddExpr), Symbol::T(Terminal::Minus), Symbol::NT(NonTerminal::MulExpr)]));
}

/// Builds the complete HULK grammar. Production ids follow the order below;
/// production 0 is the augmented rule `Start → Program $`.
pub fn build() -> (g: Grammar)
    ensures
        g.wf(),
        g.start == NonTerminal::Start,
        g.productions@.len() == HULK_GRAMMAR_LEN,
        g.productions@[0].head == NonTerminal::Start,
        g.productions@[0].body@ == seq![Symbol::NT(NonTerminal::Program), Symbol::T(Terminal::Eof)],
        forall|i: int| 0 < i < HULK_GRAMMAR_LEN ==> (#[trigger] g.productions@[i]).head != NonTerminal::Start,
        forall|i: int| 0 <= i < HULK_GRAMMAR_LEN ==> (#[trigger] g.productions@[i]).body@.len() <= 10,
        forall|i: int| 0 <= i < HULK_GRAMMAR_LEN ==> (#[trigger] g.productions@[i]).head == hulk_rules()[i].0
            && g.productions@[i].body@ == hulk_rules()[i].1,
{
    let mut g = Grammar::new(NonTerminal::Start);
    let prods: Vec<Production> = vec![
        p(NonTerminal::Start, vec![nt(NonTerminal::Program), t(Terminal::Eof)]),
        p(NonTerminal::Program, vec![nt(NonTerminal::DeclList), nt(NonTerminal::Expr)]),
        p(NonTerminal::Program, vec![nt(NonTerminal::DeclList), nt(NonTerminal::Expr), t(Terminal::Semicolon)]),
        eps(NonTerminal::DeclList),
        p(NonTerminal::DeclList, vec![nt(NonTerminal::DeclList), nt(NonTerminal::Decl)]),
        p(NonTerminal::Decl, vec![nt(NonTerminal::FuncDecl)]),
        p(NonTerminal::Decl, vec![nt(NonTerminal::TypeDecl)]),
        p(NonTerminal::Decl, vec![nt(NonTerminal::ProtocolDecl)]),
        p(NonTerminal::FuncDecl, vec![t(Terminal::Function), t(Terminal::Identifier), t(Terminal::LParen), nt(NonTerminal::ParamList), t(Terminal::RParen), t(Terminal::Arrow), nt(NonTerminal::Expr), t(Terminal::Semicolon)]),
        p(NonTerminal::FuncDecl, vec![t(Terminal::Function), t(Terminal::Identifier), t(Terminal::LParen), nt(NonTerminal::ParamList), t(Terminal::RParen), nt(NonTerminal::BlockExpr)]),
        p(NonTerminal::FuncDecl, vec![t(Terminal::Function), t(Terminal::Identifier), t(Terminal::LParen), nt(NonTerminal::ParamList), t(Terminal::RParen), t(Terminal::Colon), nt(NonTerminal::TypeName), t(Terminal::Arrow), nt(NonTerminal::Expr), t(Terminal::Semicolon)]),
        p(NonTerminal::FuncDecl, vec![t(Terminal::Function), t(Terminal::Identifier), t(Terminal::LParen), nt(NonTerminal::ParamList), t(Terminal::RParen), t(Terminal::Colon), nt(NonTerminal::TypeName), nt(NonTerminal::BlockExpr)]),
        eps(NonTerminal::ParamList),
        p(NonTerminal::ParamList, vec![nt(NonTerminal::ParamListNonEmpty)]),
        p(NonTerminal::ParamListNonEmpty, vec![nt(NonTerminal::Param)]),
        p(NonTerminal::ParamListNonEmpty, vec![nt(NonTerminal::ParamListNonEmpty), t(Terminal::Comma), nt(NonTerminal::Param)]),
        p(NonTerminal::Param, vec![t(Terminal::Identifier)]),
        p(NonTerminal::Param, vec![t(Terminal::Identifier), t(Terminal::Colon), nt(NonTerminal::TypeName)]),
        p(NonTerminal::TypeDecl, vec![t(Terminal::Type), t(Terminal::Identifier), nt(NonTerminal::TypeArgs), nt(NonTerminal::InheritClause), t(Terminal::LBrace), nt(NonTerminal::TypeBody), t(Terminal::RBrace)]),
        eps(NonTerminal::TypeArgs),
        p(NonTerminal::TypeArgs, vec![t(Terminal::LParen), nt(NonTerminal::TypeArgList), t(Terminal::RParen)]),
        p(NonTerminal::TypeArgList, vec![nt(NonTerminal::Param)]),
        p(NonTerminal::TypeArgList, vec![nt(NonTerminal::TypeArgList), t(Terminal::Comma), nt(NonTerminal::Param)]),
        eps(NonTerminal::InheritClause),
        p(NonTerminal::InheritClause, vec![t(Terminal::Inherits), nt(NonTerminal::TypeName)]),
        p(NonTerminal::InheritClause, vec![t(Terminal::Inherits), nt(NonTerminal::TypeName), t(Terminal::LParen), nt(NonTerminal::ArgList), t(Terminal::RParen)]),
        p(NonTerminal::TypeBody, vec![nt(NonTerminal::TypeMemberList)]),
        eps(NonTerminal::TypeMemberList),
        p(NonTerminal::TypeMemberList, vec![nt(NonTerminal::TypeMemberList), nt(NonTerminal::TypeMember)]),
        p(NonTerminal::TypeMember, vec![nt(NonTerminal::AttributeDef)]),
        p(NonTerminal::TypeMember, vec![nt(NonTerminal::MethodDef)]),
        p(NonTerminal::AttributeDef, vec![t(Terminal::Identifier), t(Terminal::Assign), nt(NonTerminal::Expr), t(Terminal::Semicolon)]),
        p(NonTerminal::AttributeDef, vec![t(Terminal::Identifier), t(Terminal::Colon), nt(NonTerminal::TypeName), t(Terminal::Assign), nt(NonTerminal::Expr), t(Terminal::Semicolon)]),
        p(NonTerminal::MethodDef, vec![t(Terminal::Identifier), t(Terminal::LParen), nt(NonTerminal::ParamList), t(Terminal::RParen), t(Terminal::Arrow), nt(NonTerminal::Expr), t(Terminal::Semicolon)]),
        p(NonTerminal::MethodDef, vec![t(Terminal::Identifier), t(Terminal::LParen), nt(NonTerminal::ParamList), t(Terminal::RParen), nt(NonTerminal::BlockExpr)]),
        p(NonTerminal::MethodDef, vec![t(Terminal::Identifier), t(Terminal::LParen), nt(NonTerminal::ParamList), t(Terminal::RParen), t(Terminal::Colon), nt(NonTerminal::TypeName), t(Terminal::Arrow), nt(NonTerminal::Expr), t(Terminal::Semicolon)]),
        p(NonTerminal::MethodDef, vec![t(Terminal::Identifier), t(Terminal::LParen), nt(NonTerminal::ParamList), t(Terminal::RParen), t(Terminal::Colon), nt(NonTerminal::TypeName), nt(NonTerminal::BlockExpr)]),
        p(NonTerminal::ProtocolDecl, vec![t(Terminal::Protocol), t(Terminal::Identifier), t(Terminal::LBrace), nt(NonTerminal::ProtocolBody), t(Terminal::RBrace)]),
        p(NonTerminal::ProtocolDecl, vec![t(Terminal::Protocol), t(Terminal::Identifier), t(Terminal::Extends), nt(NonTerminal::TypeName), t(Terminal::LBrace), nt(NonTerminal::ProtocolBody), t(Terminal::RBrace)]),
        p(NonTerminal::ProtocolBody, vec![nt(NonTerminal::ProtocolMemberList)]),
        eps(NonTerminal::ProtocolMemberList),
        p(NonTerminal::ProtocolMemberList, vec![nt(NonTerminal::ProtocolMemberList), nt(NonTerminal::ProtocolMember)]),
        p(NonTerminal::ProtocolMember, vec![nt(NonTerminal::MethodSignature), t(Terminal::Semicolon)]),
        p(NonTerminal::MethodSignature, vec![t(Terminal::Identifier), t(Terminal::LParen), nt(NonTerminal::ParamList), t(Terminal::RParen), t(Terminal::Colon), nt(NonTerminal::TypeName)]),
        p(NonTerminal::TypeName, vec![t(Terminal::Identifier)]),
        p(NonTerminal::TypeName, vec![t(Terminal::Identifier), t(Terminal::LBracket), t(Terminal::RBracket)]),
        p(NonTerminal::TypeName, vec![t(Terminal::Identifier), t(Terminal::Multiply)]),
        eps(NonTerminal::ArgList),
        p(NonTerminal::ArgList, vec![nt(NonTerminal::ArgListNonEmpty)]),
        p(NonTerminal::ArgListNonEmpty, vec![nt(NonTerminal::Expr)]),
        p(NonTerminal::ArgListNonEmpty, vec![nt(NonTerminal::ArgListNonEmpty), t(Terminal::Comma), nt(NonTerminal::Expr)]),
        p(NonTerminal::Expr, vec![nt(NonTerminal::AssignExpr)]),
        p(NonTerminal::AssignExpr, vec![nt(NonTerminal::OrExpr)]),
        p(NonTerminal::AssignExpr, vec![nt(NonTerminal::OrExpr), t(Terminal::DestructAssign), nt(NonTerminal::AssignExpr)]),
        p(NonTerminal::AssignExpr, vec![nt(NonTerminal::OrExpr), t(Terminal::PlusAssign), nt(NonTerminal::AssignExpr)]),
        p(NonTerminal::AssignExpr, vec![nt(NonTerminal::OrExpr), t(Terminal::MinusAssign), nt(NonTerminal::AssignExpr)]),
        p(NonTerminal::AssignExpr, vec![nt(NonTerminal::OrExpr), t(Terminal::MultAssign), nt(NonTerminal::AssignExpr)]),
        p(NonTerminal::AssignExpr, vec![nt(NonTerminal::OrExpr), t(Terminal::DivAssign), nt(NonTerminal::AssignExpr)]),
        p(NonTerminal::AssignExpr, vec![nt(NonTerminal::OrExpr), t(Terminal::ModAssign), nt(NonTerminal::AssignExpr)]),
        p(NonTerminal::OrExpr, vec![nt(NonTerminal::AndExpr)]),
        p(NonTerminal::OrExpr, vec![nt(NonTerminal::OrExpr), t(Terminal::Or), nt(NonTerminal::AndExpr)]),
        p(NonTerminal::AndExpr, vec![nt(NonTerminal::CompareExpr)]),
        p(NonTerminal::AndExpr, vec![nt(NonTerminal::AndExpr), t(Terminal::And), nt(NonTerminal::CompareExpr)]),
        p(NonTerminal::CompareExpr, vec![nt(NonTerminal::IsAsExpr)]),
        p(NonTerminal::CompareExpr, vec![nt(NonTerminal::CompareExpr), t(Terminal::Equal), nt(NonTerminal::IsAsExpr)]),
        p(NonTerminal::CompareExpr, vec![nt(NonTerminal::CompareExpr), t(Terminal::NotEqual), nt(NonTerminal::IsAsExpr)]),
        p(NonTerminal::CompareExpr, vec![nt(NonTerminal::CompareExpr), t(Terminal::Less), nt(NonTerminal::IsAsExpr)]),
        p(NonTerminal::CompareExpr, vec![nt(NonTerminal::CompareExpr), t(Terminal::Greater), nt(NonTerminal::IsAsExpr)]),
        p(NonTerminal::CompareExpr, vec![nt(NonTerminal::CompareExpr), t(Terminal::LessEq), nt(NonTerminal::IsAsExpr)]),
        p(NonTerminal::CompareExpr, vec![nt(NonTerminal::CompareExpr), t(Terminal::GreaterEq), nt(NonTerminal::IsAsExpr)]),
        p(NonTerminal::IsAsExpr, vec![nt(NonTerminal::ConcatExpr)]),
        p(NonTerminal::IsAsExpr, vec![nt(NonTerminal::IsAsExpr), t(Terminal::Is), nt(NonTerminal::TypeName)]),
        p(NonTerminal::IsAsExpr, vec![nt(NonTerminal::IsAsExpr), t(Terminal::As), nt(NonTerminal::TypeName)]),
        p(NonTerminal::ConcatExpr, vec![nt(NonTerminal::AddExpr)]),
        p(NonTerminal::ConcatExpr, vec![nt(NonTerminal::ConcatExpr), t(Terminal::Concat), nt(NonTerminal::AddExpr)]),
        p(NonTerminal::ConcatExpr, vec![nt(NonTerminal::ConcatExpr), t(Terminal::DoubleConcat), nt(NonTerminal::AddExpr)]),
        p(NonTerminal::AddExpr, vec![nt(NonTerminal::MulExpr)]),
        p(NonTerminal::AddExpr, vec![nt(NonTerminal::AddExpr), t(Terminal::Plus), nt(NonTerminal::MulExpr)]),
        p(NonTerminal::AddExpr, vec![nt(NonTerminal::AddExpr), t(Terminal::Minus), nt(NonTerminal::MulExpr)]),
        p(NonTerminal::MulExpr, vec![nt(NonTerminal::PowerExpr)]),
        p(NonTerminal::MulExpr, vec![nt(NonTerminal::MulExpr), t(Terminal::Multiply), nt(NonTerminal::PowerExpr)]),
        p(NonTerminal::MulExpr, vec![nt(NonTerminal::MulExpr), t(Terminal::Divide), nt(NonTerminal::PowerExpr)]),
        p(NonTerminal::MulExpr, vec![nt(NonTerminal::MulExpr), t(Terminal::Modulo), nt(NonTerminal::PowerExpr)]),
        p(NonTerminal::PowerExpr, vec![nt(NonTerminal::UnaryExpr)]),
        p(NonTerminal::PowerExpr, vec![nt(NonTerminal::UnaryExpr), t(Terminal::PowerCaret), nt(NonTerminal::PowerExpr)]),
        p(NonTerminal::PowerExpr, vec![nt(NonTerminal::UnaryExpr), t(Terminal::PowerStar), nt(NonTerminal::PowerExpr)]),
        p(NonTerminal::UnaryExpr, vec![nt(NonTerminal::PostfixExpr)]),
        p(NonTerminal::UnaryExpr, vec![t(Terminal::Minus), nt(NonTerminal::UnaryExpr)]),
        p(NonTerminal::UnaryExpr, vec![t(Terminal::Not), nt(NonTerminal::UnaryExpr)]),
        p(NonTerminal::PostfixExpr, vec![nt(NonTerminal::CallOrAccess)]),
        p(NonTerminal::PostfixExpr, vec![nt(NonTerminal::CallOrAccess), t(Terminal::Increment)]),
        p(NonTerminal::PostfixExpr, vec![nt(NonTerminal::CallOrAccess), t(Terminal::Decrement)]),
        p(NonTerminal::CallOrAccess, vec![nt(NonTerminal::PrimaryExpr)]),
        p(NonTerminal::CallOrAccess, vec![nt(NonTerminal::CallOrAccess), t(Terminal::LParen), nt(NonTerminal::ArgList), t(Terminal::RParen)]),
        p(NonTerminal::CallOrAccess, vec![nt(NonTerminal::CallOrAccess), t(Terminal::Dot), t(Terminal::Identifier)]),
        p(NonTerminal::CallOrAccess, vec![nt(NonTerminal::CallOrAccess), t(Terminal::Dot), t(Terminal::Identifier), t(Terminal::LParen), nt(NonTerminal::ArgList), t(Terminal::RParen)]),
        p(NonTerminal::CallOrAccess, vec![nt(NonTerminal::CallOrAccess), t(Terminal::LBracket), nt(NonTerminal::Expr), t(Terminal::RBracket)]),
        p(NonTerminal::PrimaryExpr, vec![t(Terminal::Number)]),
        p(NonTerminal::PrimaryExpr, vec![t(Terminal::String)]),
        p(NonTerminal::PrimaryExpr, vec![t(Terminal::Char)]),
        p(NonTerminal::PrimaryExpr, vec![t(Terminal::True)]),
        p(NonTerminal::PrimaryExpr, vec![t(Terminal::False)]),
        p(NonTerminal::PrimaryExpr, vec![t(Terminal::Null)]),
        p(NonTerminal::PrimaryExpr, vec![t(Terminal::Identifier)]),
        p(NonTerminal::PrimaryExpr, vec![t(Terminal::Base)]),
        p(NonTerminal::PrimaryExpr, vec![t(Terminal::LParen), nt(NonTerminal::Expr), t(Terminal::RParen)]),
        p(NonTerminal::PrimaryExpr, vec![nt(NonTerminal::BlockExpr)]),
        p(NonTerminal::PrimaryExpr, vec![nt(NonTerminal::LetExpr)]),
        p(NonTerminal::PrimaryExpr, vec![nt(NonTerminal::IfExpr)]),
        p(NonTerminal::PrimaryExpr, vec![nt(NonTerminal::WhileExpr)]),
        p(NonTerminal::PrimaryExpr, vec![nt(NonTerminal::ForExpr)]),
        p(NonTerminal::PrimaryExpr, vec![nt(NonTerminal::NewExpr)]),
        p(NonTerminal::PrimaryExpr, vec![nt(NonTerminal::VectorLiteral)]),
        p(NonTerminal::BlockExpr, vec![t(Terminal::LBrace), nt(NonTerminal::ExprList), t(Terminal::RBrace)]),
        p(NonTerminal::BlockExpr, vec![t(Terminal::LBrace), nt(NonTerminal::ExprList), t(Terminal::Semicolon), t(Terminal::RBrace)]),
        p(NonTerminal::ExprList, vec![nt(NonTerminal::Expr)]),
        p(NonTerminal::ExprList, vec![nt(NonTerminal::ExprList), t(Terminal::Semicolon), nt(NonTerminal::Expr)]),
        p(NonTerminal::LetExpr, vec![t(Terminal::Let), nt(NonTerminal::LetBindingList), t(Terminal::In), nt(NonTerminal::Expr)]),
        p(NonTerminal::LetBindingList, vec![nt(NonTerminal::LetBinding)]),
        p(NonTerminal::LetBindingList, vec![nt(NonTerminal::LetBindingList), t(Terminal::Comma), nt(NonTerminal::LetBinding)]),
        p(NonTerminal::LetBinding, vec![t(Terminal::Identifier), t(Terminal::Assign), nt(NonTerminal::Expr)]),
        p(NonTerminal::LetBinding, vec![t(Terminal::Identifier), t(Terminal::Colon), nt(NonTerminal::TypeName), t(Terminal::Assign), nt(NonTerminal::Expr)]),
        p(NonTerminal::IfExpr, vec![t(Terminal::If), t(Terminal::LParen), nt(NonTerminal::Expr), t(Terminal::RParen), nt(NonTerminal::Expr), nt(NonTerminal::ElifChain), t(Terminal::Else), nt(NonTerminal::Expr)]),
        eps(NonTerminal::ElifChain),
        p(NonTerminal::ElifChain, vec![nt(NonTerminal::ElifChain), t(Terminal::Elif), t(Terminal::LParen), nt(NonTerminal::Expr), t(Terminal::RParen), nt(NonTerminal::Expr)]),
        p(NonTerminal::WhileExpr, vec![t(Terminal::While), t(Terminal::LParen), nt(NonTerminal::Expr), t(Terminal::RParen), nt(NonTerminal::Expr)]),
        p(NonTerminal::ForExpr, vec![t(Terminal::For), t(Terminal::LParen), t(Terminal::Identifier), t(Terminal::In), nt(NonTerminal::Expr), t(Terminal::RParen), nt(NonTerminal::Expr)]),
        p(NonTerminal::NewExpr, vec![t(Terminal::New), nt(NonTerminal::TypeName), t(Terminal::LParen), nt(NonTerminal::ArgList), t(Terminal::RParen)]),
        p(NonTerminal::VectorLiteral, vec![t(Terminal::LBracket), t(Terminal::RBracket)]),
        p(NonTerminal::VectorLiteral, vec![t(Terminal::LBracket), nt(NonTerminal::ArgListNonEmpty), t(Terminal::RBracket)]),
        p(NonTerminal::VectorLiteral, vec![t(Terminal::LBracket), nt(NonTerminal::Expr), t(Terminal::Or), t(Terminal::Identifier), t(Terminal::In), nt(NonTerminal::Expr), t(Terminal::RBracket)]),
    ];
    let ghost ps = prods@;
    g.add_all(prods);
    assert(g.productions@[0int + 0int].head == ps[0].head);
    assert(g.productions@[0int + 0int].body@ == ps[0].body@);
    assert(ps[0].body@ =~= seq![Symbol::NT(NonTerminal::Program), Symbol::T(Terminal::Eof)]);
    proof {
        assert(hulk_rules().len() == HULK_GRAMMAR_LEN);
    }
    assert forall|i: int| 0 <= i < HULK_GRAMMAR_LEN implies (#[trigger] g.productions@[i]).head == hulk_rules()[i].0
        && g.productions@[i].body@ == hulk_rules()[i].1 by {
        assert(g.productions@[0int + i].head == ps[i].head);
        assert(g.productions@[0int + i].body@ == ps[i].body@);
    }
    assert forall|i: int| 0 < i < HULK_GRAMMAR_LEN implies (#[trigger] g.productions@[i]).head != NonTerminal::Start by {
        assert(g.productions@[0int + i].head == ps[i].head);
    }
    assert forall|i: int| 0 <= i < HULK_GRAMMAR_LEN implies (#[trigger] g.productions@[i]).body@.len() <= 10 by {
        assert(g.productions@[0int + i].body@ == ps[i].body@);
    }
    g
}

} // verus!
