//! Terminal and non-terminal symbols of the HULK grammar.
use vstd::prelude::*;

verus! {

/// Number of terminal symbols.
pub const NUM_TERMINALS: usize = 63;

/// Number of non-terminal symbols.
pub const NUM_NONTERMINALS: usize = 54;

/// Terminal symbols, one per token kind of the lexer; `Eof` is the `$` of the LALR table.
#[derive(Debug, Clone, Copy, PartialEq, Eq, Hash, Structural)]
pub enum Terminal {
    Number,
    String,
    Char,
    True,
    False,
    Null,
    If,
    Elif,
    Else,
    While,
    For,
    Function,
    Let,
    In,
    Type,
    New,
    Inherits,
    Base,
    Protocol,
    Extends,
    Is,
    As,
    PowerStar,
    Increment,
    Decrement,
    DoubleConcat,
    DestructAssign,
    PlusAssign,
    MinusAssign,
    MultAssign,
    DivAssign,
    ModAssign,
    Equal,
    NotEqual,
    LessEq,
    GreaterEq,
    Arrow,
    RtArrow,
    Assign,
    Less,
    Greater,
    Plus,
    Minus,
    Multiply,
    Divide,
    Modulo,
    PowerCaret,
    And,
    Or,
    Not,
    Concat,
    Semicolon,
    Colon,
    Comma,
    Dot,
    LParen,
    RParen,
    LBrace,
    RBrace,
    LBracket,
    RBracket,
    Identifier,
    Eof,
}

/// Non-terminal symbols of the grammar, `Start` being the augmented start symbol.
#[derive(Debug, Clone, Copy, PartialEq, Eq, Hash, Structural)]
pub enum NonTerminal {
    Program,
    DeclList,
    Decl,
    FuncDecl,
    TypeDecl,
    ProtocolDecl,
    ParamList,
    ParamListNonEmpty,
    Param,
    ArgList,
    ArgListNonEmpty,
    TypeAnnotation,
    TypeName,
    TypeArgs,
    TypeArgList,
    InheritClause,
    TypeBody,
    TypeMemberList,
    TypeMember,
    AttributeDef,
    MethodDef,
    ProtocolBody,
    ProtocolMemberList,
    ProtocolMember,
    MethodSignature,
    Expr,
    AssignExpr,
    OrExpr,
    AndExpr,
    NotExpr,
    CompareExpr,
    IsAsExpr,
    ConcatExpr,
    AddExpr,
    MulExpr,
    PowerExpr,
    UnaryExpr,
    PostfixExpr,
    CallOrAccess,
    PrimaryExpr,
    BlockExpr,
    LetExpr,
    LetBindingList,
    LetBinding,
    IfExpr,
    ElifChain,
    WhileExpr,
    ForExpr,
    NewExpr,
    IndexExpr,
    ExprList,
    ExprListTail,
    VectorLiteral,
    Start,
}

/// A grammar symbol: the right-hand sides of productions are made of these.
#[derive(Debug, Clone, Copy, PartialEq, Eq, Hash, Structural)]
pub enum Symbol {
    T(Terminal),
    NT(NonTerminal),
}

/// Position of a terminal in the declaration order, in `0..NUM_TERMINALS`.
pub open spec fn terminal_index(t: Terminal) -> nat {
    match t {
        Terminal::Number => 0,
        Terminal::String => 1,
        Terminal::Char => 2,
        Terminal::True => 3,
        Terminal::False => 4,
        Terminal::Null => 5,
        Terminal::If => 6,
        Terminal::Elif => 7,
        Terminal::Else => 8,
        Terminal::While => 9,
        Terminal::For => 10,
        Terminal::Function => 11,
        Terminal::Let => 12,
        Terminal::In => 13,
        Terminal::Type => 14,
        Terminal::New => 15,
        Terminal::Inherits => 16,
        Terminal::Base => 17,
        Terminal::Protocol => 18,
        Terminal::Extends => 19,
        Terminal::Is => 20,
        Terminal::As => 21,
        Terminal::PowerStar => 22,
        Terminal::Increment => 23,
        Terminal::Decrement => 24,
        Terminal::DoubleConcat => 25,
        Terminal::DestructAssign => 26,
        Terminal::PlusAssign => 27,
        Terminal::MinusAssign => 28,
        Terminal::MultAssign => 29,
        Terminal::DivAssign => 30,
        Terminal::ModAssign => 31,
        Terminal::Equal => 32,
        Terminal::NotEqual => 33,
        Terminal::LessEq => 34,
        Terminal::GreaterEq => 35,
        Terminal::Arrow => 36,
        Terminal::RtArrow => 37,
        Terminal::Assign => 38,
        Terminal::Less => 39,
        Terminal::Greater => 40,
        Terminal::Plus => 41,
        Terminal::Minus => 42,
        Terminal::Multiply => 43,
        Terminal::Divide => 44,
        Terminal::Modulo => 45,
        Terminal::PowerCaret => 46,
        Terminal::And => 47,
        Terminal::Or => 48,
        Terminal::Not => 49,
        Terminal::Concat => 50,
        Terminal::Semicolon => 51,
        Terminal::Colon => 52,
        Terminal::Comma => 53,
        Terminal::Dot => 54,
        Terminal::LParen => 55,
        Terminal::RParen => 56,
        Terminal::LBrace => 57,
        Terminal::RBrace => 58,
        Terminal::LBracket => 59,
        Terminal::RBracket => 60,
        Terminal::Identifier => 61,
        Terminal::Eof => 62,
    }
}

/// Terminal at a position of the declaration order.
pub open spec fn terminal_at(i: nat) -> Terminal {
    if i == 0 { Terminal::Number }
    else if i == 1 { Terminal::String }
    else if i == 2 { Terminal::Char }
    else if i == 3 { Terminal::True }
    else if i == 4 { Terminal::False }
    else if i == 5 { Terminal::Null }
    else if i == 6 { Terminal::If }
    else if i == 7 { Terminal::Elif }
    else if i == 8 { Terminal::Else }
    else if i == 9 { Terminal::While }
    else if i == 10 { Terminal::For }
    else if i == 11 { Terminal::Function }
    else if i == 12 { Terminal::Let }
    else if i == 13 { Terminal::In }
    else if i == 14 { Terminal::Type }
    else if i == 15 { Terminal::New }
    else if i == 16 { Terminal::Inherits }
    else if i == 17 { Terminal::Base }
    else if i == 18 { Terminal::Protocol }
    else if i == 19 { Terminal::Extends }
    else if i == 20 { Terminal::Is }
    else if i == 21 { Terminal::As }
    else if i == 22 { Terminal::PowerStar }
    else if i == 23 { Terminal::Increment }
    else if i == 24 { Terminal::Decrement }
    else if i == 25 { Terminal::DoubleConcat }
    else if i == 26 { Terminal::DestructAssign }
    else if i == 27 { Terminal::PlusAssign }
    else if i == 28 { Terminal::MinusAssign }
    else if i == 29 { Terminal::MultAssign }
    else if i == 30 { Terminal::DivAssign }
    else if i == 31 { Terminal::ModAssign }
    else if i == 32 { Terminal::Equal }
    else if i == 33 { Terminal::NotEqual }
    else if i == 34 { Terminal::LessEq }
    else if i == 35 { Terminal::GreaterEq }
    else if i == 36 { Terminal::Arrow }
    else if i == 37 { Terminal::RtArrow }
    else if i == 38 { Terminal::Assign }
    else if i == 39 { Terminal::Less }
    else if i == 40 { Terminal::Greater }
    else if i == 41 { Terminal::Plus }
    else if i == 42 { Terminal::Minus }
    else if i == 43 { Terminal::Multiply }
    else if i == 44 { Terminal::Divide }
    else if i == 45 { Terminal::Modulo }
    else if i == 46 { Terminal::PowerCaret }
    else if i == 47 { Terminal::And }
    else if i == 48 { Terminal::Or }
    else if i == 49 { Terminal::Not }
    else if i == 50 { Terminal::Concat }
    else if i == 51 { Terminal::Semicolon }
    else if i == 52 { Terminal::Colon }
    else if i == 53 { Terminal::Comma }
    else if i == 54 { Terminal::Dot }
    else if i == 55 { Terminal::LParen }
    else if i == 56 { Terminal::RParen }
    else if i == 57 { Terminal::LBrace }
    else if i == 58 { Terminal::RBrace }
    else if i == 59 { Terminal::LBracket }
    else if i == 60 { Terminal::RBracket }
    else if i == 61 { Terminal::Identifier }
    else { Terminal::Eof }
}

/// Rank of a terminal when terminals are ordered by their variant name.
pub open spec fn terminal_name_rank(t: Terminal) -> nat {
    match t {
        Terminal::Number => 47,
        Terminal::String => 59,
        Terminal::Char => 5,
        Terminal::True => 60,
        Terminal::False => 20,
        Terminal::Null => 46,
        Terminal::If => 26,
        Terminal::Elif => 15,
        Terminal::Else => 16,
        Terminal::While => 62,
        Terminal::For => 21,
        Terminal::Function => 22,
        Terminal::Let => 36,
        Terminal::In => 27,
        Terminal::Type => 61,
        Terminal::New => 43,
        Terminal::Inherits => 29,
        Terminal::Base => 4,
        Terminal::Protocol => 53,
        Terminal::Extends => 19,
        Terminal::Is => 30,
        Terminal::As => 2,
        Terminal::PowerStar => 52,
        Terminal::Increment => 28,
        Terminal::Decrement => 9,
        Terminal::DoubleConcat => 14,
        Terminal::DestructAssign => 10,
        Terminal::PlusAssign => 50,
        Terminal::MinusAssign => 38,
        Terminal::MultAssign => 41,
        Terminal::DivAssign => 11,
        Terminal::ModAssign => 39,
        Terminal::Equal => 18,
        Terminal::NotEqual => 45,
        Terminal::LessEq => 35,
        Terminal::GreaterEq => 24,
        Terminal::Arrow => 1,
        Terminal::RtArrow => 57,
        Terminal::Assign => 3,
        Terminal::Less => 34,
        Terminal::Greater => 23,
        Terminal::Plus => 49,
        Terminal::Minus => 37,
        Terminal::Multiply => 42,
        Terminal::Divide => 12,
        Terminal::Modulo => 40,
        Terminal::PowerCaret => 51,
        Terminal::And => 0,
        Terminal::Or => 48,
        Terminal::Not => 44,
        Terminal::Concat => 8,
        Terminal::Semicolon => 58,
        Terminal::Colon => 6,
        Terminal::Comma => 7,
        Terminal::Dot => 13,
        Terminal::LParen => 33,
        Terminal::RParen => 56,
        Terminal::LBrace => 31,
        Terminal::RBrace => 54,
        Terminal::LBracket => 32,
        Terminal::RBracket => 55,
        Terminal::Identifier => 25,
        Terminal::Eof => 17,
    }
}

/// Text that a terminal is displayed as.
pub open spec fn terminal_text(t: Terminal) -> Seq<char> {
    match t {
        Terminal::Number => "NUMBER"@,
        Terminal::String => "STRING"@,
        Terminal::Char => "CHAR"@,
        Terminal::True => "true"@,
        Terminal::False => "false"@,
        Terminal::Null => "null"@,
        Terminal::If => "if"@,
        Terminal::Elif => "elif"@,
        Terminal::Else => "else"@,
        Terminal::While => "while"@,
        Terminal::For => "for"@,
        Terminal::Function => "function"@,
        Terminal::Let => "let"@,
        Terminal::In => "in"@,
        Terminal::Type => "type"@,
        Terminal::New => "new"@,
        Terminal::Inherits => "inherits"@,
        Terminal::Base => "base"@,
        Terminal::Protocol => "protocol"@,
        Terminal::Extends => "extends"@,
        Terminal::Is => "is"@,
        Terminal::As => "as"@,
        Terminal::PowerStar => "**"@,
        Terminal::Increment => "++"@,
        Terminal::Decrement => "--"@,
        Terminal::DoubleConcat => "@@"@,
        Terminal::DestructAssign => ":="@,
        Terminal::PlusAssign => "+="@,
        Terminal::MinusAssign => "-="@,
        Terminal::MultAssign => "*="@,
        Terminal::DivAssign => "/="@,
        Terminal::ModAssign => "%="@,
        Terminal::Equal => "=="@,
        Terminal::NotEqual => "!="@,
        Terminal::LessEq => "<="@,
        Terminal::GreaterEq => ">="@,
        Terminal::Arrow => "=>"@,
        Terminal::RtArrow => "->"@,
        Terminal::Assign => "="@,
        Terminal::Less => "<"@,
        Terminal::Greater => ">"@,
        Terminal::Plus => "+"@,
        Terminal::Minus => "-"@,
        Terminal::Multiply => "*"@,
        Terminal::Divide => "/"@,
        Terminal::Modulo => "%"@,
        Terminal::PowerCaret => "^"@,
        Terminal::And => "&"@,
        Terminal::Or => "|"@,
        Terminal::Not => "!"@,
        Terminal::Concat => "@"@,
        Terminal::Semicolon => ";"@,
        Terminal::Colon => ":"@,
        Terminal::Comma => ","@,
        Terminal::Dot => "."@,
        Terminal::LParen => "("@,
        Terminal::RParen => ")"@,
        Terminal::LBrace => "{"@,
        Terminal::RBrace => "}"@,
        Terminal::LBracket => "["@,
        Terminal::RBracket => "]"@,
        Terminal::Identifier => "IDENTIFIER"@,
        Terminal::Eof => "$"@,
    }
}

/// Name of a terminal variant.
pub open spec fn terminal_name(t: Terminal) -> Seq<char> {
    match t {
        Terminal::Number => "Number"@,
        Terminal::String => "String"@,
        Terminal::Char => "Char"@,
        Terminal::True => "True"@,
        Terminal::False => "False"@,
        Terminal::Null => "Null"@,
        Terminal::If => "If"@,
        Terminal::Elif => "Elif"@,
        Terminal::Else => "Else"@,
        Terminal::While => "While"@,
        Terminal::For => "For"@,
        Terminal::Function => "Function"@,
        Terminal::Let => "Let"@,
        Terminal::In => "In"@,
        Terminal::Type => "Type"@,
        Terminal::New => "New"@,
        Terminal::Inherits => "Inherits"@,
        Terminal::Base => "Base"@,
        Terminal::Protocol => "Protocol"@,
        Terminal::Extends => "Extends"@,
        Terminal::Is => "Is"@,
        Terminal::As => "As"@,
        Terminal::PowerStar => "PowerStar"@,
        Terminal::Increment => "Increment"@,
        Terminal::Decrement => "Decrement"@,
        Terminal::DoubleConcat => "DoubleConcat"@,
        Terminal::DestructAssign => "DestructAssign"@,
        Terminal::PlusAssign => "PlusAssign"@,
        Terminal::MinusAssign => "MinusAssign"@,
        Terminal::MultAssign => "MultAssign"@,
        Terminal::DivAssign => "DivAssign"@,
        Terminal::ModAssign => "ModAssign"@,
        Terminal::Equal => "Equal"@,
        Terminal::NotEqual => "NotEqual"@,
        Terminal::LessEq => "LessEq"@,
        Terminal::GreaterEq => "GreaterEq"@,
        Terminal::Arrow => "Arrow"@,
        Terminal::RtArrow => "RtArrow"@,
        Terminal::Assign => "Assign"@,
        Terminal::Less => "Less"@,
        Terminal::Greater => "Greater"@,
        Terminal::Plus => "Plus"@,
        Terminal::Minus => "Minus"@,
        Terminal::Multiply => "Multiply"@,
        Terminal::Divide => "Divide"@,
        Terminal::Modulo => "Modulo"@,
        Terminal::PowerCaret => "PowerCaret"@,
        Terminal::And => "And"@,
        Terminal::Or => "Or"@,
        Terminal::Not => "Not"@,
        Terminal::Concat => "Concat"@,
        Terminal::Semicolon => "Semicolon"@,
        Terminal::Colon => "Colon"@,
        Terminal::Comma => "Comma"@,
        Terminal::Dot => "Dot"@,
        Terminal::LParen => "LParen"@,
        Terminal::RParen => "RParen"@,
        Terminal::LBrace => "LBrace"@,
        Terminal::RBrace => "RBrace"@,
        Terminal::LBracket => "LBracket"@,
        Terminal::RBracket => "RBracket"@,
        Terminal::Identifier => "Identifier"@,
        Terminal::Eof => "Eof"@,
    }
}

/// Position of a non-terminal in the declaration order, in `0..NUM_NONTERMINALS`.
pub open spec fn nonterminal_index(n: NonTerminal) -> nat {
    match n {
        NonTerminal::Program => 0,
        NonTerminal::DeclList => 1,
        NonTerminal::Decl => 2,
        NonTerminal::FuncDecl => 3,
        NonTerminal::TypeDecl => 4,
        NonTerminal::ProtocolDecl => 5,
        NonTerminal::ParamList => 6,
        NonTerminal::ParamListNonEmpty => 7,
        NonTerminal::Param => 8,
        NonTerminal::ArgList => 9,
        NonTerminal::ArgListNonEmpty => 10,
        NonTerminal::TypeAnnotation => 11,
        NonTerminal::TypeName => 12,
        NonTerminal::TypeArgs => 13,
        NonTerminal::TypeArgList => 14,
        NonTerminal::InheritClause => 15,
        NonTerminal::TypeBody => 16,
        NonTerminal::TypeMemberList => 17,
        NonTerminal::TypeMember => 18,
        NonTerminal::AttributeDef => 19,
        NonTerminal::MethodDef => 20,
        NonTerminal::ProtocolBody => 21,
        NonTerminal::ProtocolMemberList => 22,
        NonTerminal::ProtocolMember => 23,
        NonTerminal::MethodSignature => 24,
        NonTerminal::Expr => 25,
        NonTerminal::AssignExpr => 26,
        NonTerminal::OrExpr => 27,
        NonTerminal::AndExpr => 28,
        NonTerminal::NotExpr => 29,
        NonTerminal::CompareExpr => 30,
        NonTerminal::IsAsExpr => 31,
        NonTerminal::ConcatExpr => 32,
        NonTerminal::AddExpr => 33,
        NonTerminal::MulExpr => 34,
        NonTerminal::PowerExpr => 35,
        NonTerminal::UnaryExpr => 36,
        NonTerminal::PostfixExpr => 37,
        NonTerminal::CallOrAccess => 38,
        NonTerminal::PrimaryExpr => 39,
        NonTerminal::BlockExpr => 40,
        NonTerminal::LetExpr => 41,
        NonTerminal::LetBindingList => 42,
        NonTerminal::LetBinding => 43,
        NonTerminal::IfExpr => 44,
        NonTerminal::ElifChain => 45,
        NonTerminal::WhileExpr => 46,
        NonTerminal::ForExpr => 47,
        NonTerminal::NewExpr => 48,
        NonTerminal::IndexExpr => 49,
        NonTerminal::ExprList => 50,
        NonTerminal::ExprListTail => 51,
        NonTerminal::VectorLiteral => 52,
        NonTerminal::Start => 53,
    }
}

/// Non-terminal at a position of the declaration order.
pub open spec fn nonterminal_at(i: nat) -> NonTerminal {
    if i == 0 { NonTerminal::Program }
    else if i == 1 { NonTerminal::DeclList }
    else if i == 2 { NonTerminal::Decl }
    else if i == 3 { NonTerminal::FuncDecl }
    else if i == 4 { NonTerminal::TypeDecl }
    else if i == 5 { NonTerminal::ProtocolDecl }
    else if i == 6 { NonTerminal::ParamList }
    else if i == 7 { NonTerminal::ParamListNonEmpty }
    else if i == 8 { NonTerminal::Param }
    else if i == 9 { NonTerminal::ArgList }
    else if i == 10 { NonTerminal::ArgListNonEmpty }
    else if i == 11 { NonTerminal::TypeAnnotation }
    else if i == 12 { NonTerminal::TypeName }
    else if i == 13 { NonTerminal::TypeArgs }
    else if i == 14 { NonTerminal::TypeArgList }
    else if i == 15 { NonTerminal::InheritClause }
    else if i == 16 { NonTerminal::TypeBody }
    else if i == 17 { NonTerminal::TypeMemberList }
    else if i == 18 { NonTerminal::TypeMember }
    else if i == 19 { NonTerminal::AttributeDef }
    else if i == 20 { NonTerminal::MethodDef }
    else if i == 21 { NonTerminal::ProtocolBody }
    else if i == 22 { NonTerminal::ProtocolMemberList }
    else if i == 23 { NonTerminal::ProtocolMember }
    else if i == 24 { NonTerminal::MethodSignature }
    else if i == 25 { NonTerminal::Expr }
    else if i == 26 { NonTerminal::AssignExpr }
    else if i == 27 { NonTerminal::OrExpr }
    else if i == 28 { NonTerminal::AndExpr }
    else if i == 29 { NonTerminal::NotExpr }
    else if i == 30 { NonTerminal::CompareExpr }
    else if i == 31 { NonTerminal::IsAsExpr }
    else if i == 32 { NonTerminal::ConcatExpr }
    else if i == 33 { NonTerminal::AddExpr }
    else if i == 34 { NonTerminal::MulExpr }
    else if i == 35 { NonTerminal::PowerExpr }
    else if i == 36 { NonTerminal::UnaryExpr }
    else if i == 37 { NonTerminal::PostfixExpr }
    else if i == 38 { NonTerminal::CallOrAccess }
    else if i == 39 { NonTerminal::PrimaryExpr }
    else if i == 40 { NonTerminal::BlockExpr }
    else if i == 41 { NonTerminal::LetExpr }
    else if i == 42 { NonTerminal::LetBindingList }
    else if i == 43 { NonTerminal::LetBinding }
    else if i == 44 { NonTerminal::IfExpr }
    else if i == 45 { NonTerminal::ElifChain }
    else if i == 46 { NonTerminal::WhileExpr }
    else if i == 47 { NonTerminal::ForExpr }
    else if i == 48 { NonTerminal::NewExpr }
    else if i == 49 { NonTerminal::IndexExpr }
    else if i == 50 { NonTerminal::ExprList }
    else if i == 51 { NonTerminal::ExprListTail }
    else if i == 52 { NonTerminal::VectorLiteral }
    else { NonTerminal::Start }
}

/// Name of a non-terminal variant (also its display text).
pub open spec fn nonterminal_name(n: NonTerminal) -> Seq<char> {
    match n {
        NonTerminal::Program => "Program"@,
        NonTerminal::DeclList => "DeclList"@,
        NonTerminal::Decl => "Decl"@,
        NonTerminal::FuncDecl => "FuncDecl"@,
        NonTerminal::TypeDecl => "TypeDecl"@,
        NonTerminal::ProtocolDecl => "ProtocolDecl"@,
        NonTerminal::ParamList => "ParamList"@,
        NonTerminal::ParamListNonEmpty => "ParamListNonEmpty"@,
        NonTerminal::Param => "Param"@,
        NonTerminal::ArgList => "ArgList"@,
        NonTerminal::ArgListNonEmpty => "ArgListNonEmpty"@,
        NonTerminal::TypeAnnotation => "TypeAnnotation"@,
        NonTerminal::TypeName => "TypeName"@,
        NonTerminal::TypeArgs => "TypeArgs"@,
        NonTerminal::TypeArgList => "TypeArgList"@,
        NonTerminal::InheritClause => "InheritClause"@,
        NonTerminal::TypeBody => "TypeBody"@,
        NonTerminal::TypeMemberList => "TypeMemberList"@,
        NonTerminal::TypeMember => "TypeMember"@,
        NonTerminal::AttributeDef => "AttributeDef"@,
        NonTerminal::MethodDef => "MethodDef"@,
        NonTerminal::ProtocolBody => "ProtocolBody"@,
        NonTerminal::ProtocolMemberList => "ProtocolMemberList"@,
        NonTerminal::ProtocolMember => "ProtocolMember"@,
        NonTerminal::MethodSignature => "MethodSignature"@,
        NonTerminal::Expr => "Expr"@,
        NonTerminal::AssignExpr => "AssignExpr"@,
        NonTerminal::OrExpr => "OrExpr"@,
        NonTerminal::AndExpr => "AndExpr"@,
        NonTerminal::NotExpr => "NotExpr"@,
        NonTerminal::CompareExpr => "CompareExpr"@,
        NonTerminal::IsAsExpr => "IsAsExpr"@,
        NonTerminal::ConcatExpr => "ConcatExpr"@,
        NonTerminal::AddExpr => "AddExpr"@,
        NonTerminal::MulExpr => "MulExpr"@,
        NonTerminal::PowerExpr => "PowerExpr"@,
        NonTerminal::UnaryExpr => "UnaryExpr"@,
        NonTerminal::PostfixExpr => "PostfixExpr"@,
        NonTerminal::CallOrAccess => "CallOrAccess"@,
        NonTerminal::PrimaryExpr => "PrimaryExpr"@,
        NonTerminal::BlockExpr => "BlockExpr"@,
        NonTerminal::LetExpr => "LetExpr"@,
        NonTerminal::LetBindingList => "LetBindingList"@,
        NonTerminal::LetBinding => "LetBinding"@,
        NonTerminal::IfExpr => "IfExpr"@,
        NonTerminal::ElifChain => "ElifChain"@,
        NonTerminal::WhileExpr => "WhileExpr"@,
        NonTerminal::ForExpr => "ForExpr"@,
        NonTerminal::NewExpr => "NewExpr"@,
        NonTerminal::IndexExpr => "IndexExpr"@,
        NonTerminal::ExprList => "ExprList"@,
        NonTerminal::ExprListTail => "ExprListTail"@,
        NonTerminal::VectorLiteral => "VectorLiteral"@,
        NonTerminal::Start => "Start"@,
    }
}

/// `terminal_at` undoes `terminal_index`, so the index is injective.
pub proof fn lemma_terminal_index(t: Terminal)
    ensures
        terminal_index(t) < NUM_TERMINALS,
        terminal_at(terminal_index(t)) == t,
{
}

/// `terminal_index` undoes `terminal_at` on the valid positions.
pub proof fn lemma_terminal_at(i: nat)
    requires
        i < NUM_TERMINALS,
    ensures
        terminal_index(terminal_at(i)) == i,
{
}

/// Two terminals with the same index are the same terminal.
pub proof fn lemma_terminal_index_injective(a: Terminal, b: Terminal)
    ensures
        terminal_index(a) == terminal_index(b) ==> a == b,
{
    lemma_terminal_index(a);
    lemma_terminal_index(b);
}

/// `nonterminal_at` undoes `nonterminal_index`, so the index is injective.
pub proof fn lemma_nonterminal_index(n: NonTerminal)
    ensures
        nonterminal_index(n) < NUM_NONTERMINALS,
        nonterminal_at(nonterminal_index(n)) == n,
{
}

/// Two non-terminals with the same index are the same non-terminal.
pub proof fn lemma_nonterminal_index_injective(a: NonTerminal, b: NonTerminal)
    ensures
        nonterminal_index(a) == nonterminal_index(b) ==> a == b,
{
    lemma_nonterminal_index(a);
    lemma_nonterminal_index(b);
}


/// Terminal with a given name rank.
pub open spec fn terminal_by_rank(r: nat) -> Terminal {
    if r == 0 { Terminal::And }
    else if r == 1 { Terminal::Arrow }
    else if r == 2 { Terminal::As }
    else if r == 3 { Terminal::Assign }
    else if r == 4 { Terminal::Base }
    else if r == 5 { Terminal::Char }
    else if r == 6 { Terminal::Colon }
    else if r == 7 { Terminal::Comma }
    else if r == 8 { Terminal::Concat }
    else if r == 9 { Terminal::Decrement }
    else if r == 10 { Terminal::DestructAssign }
    else if r == 11 { Terminal::DivAssign }
    else if r == 12 { Terminal::Divide }
    else if r == 13 { Terminal::Dot }
    else if r == 14 { Terminal::DoubleConcat }
    else if r == 15 { Terminal::Elif }
    else if r == 16 { Terminal::Else }
    else if r == 17 { Terminal::Eof }
    else if r == 18 { Terminal::Equal }
    else if r == 19 { Terminal::Extends }
    else if r == 20 { Terminal::False }
    else if r == 21 { Terminal::For }
    else if r == 22 { Terminal::Function }
    else if r == 23 { Terminal::Greater }
    else if r == 24 { Terminal::GreaterEq }
    else if r == 25 { Terminal::Identifier }
    else if r == 26 { Terminal::If }
    else if r == 27 { Terminal::In }
    else if r == 28 { Terminal::Increment }
    else if r == 29 { Terminal::Inherits }
    else if r == 30 { Terminal::Is }
    else if r == 31 { Terminal::LBrace }
    else if r == 32 { Terminal::LBracket }
    else if r == 33 { Terminal::LParen }
    else if r == 34 { Terminal::Less }
    else if r == 35 { Terminal::LessEq }
    else if r == 36 { Terminal::Let }
    else if r == 37 { Terminal::Minus }
    else if r == 38 { Terminal::MinusAssign }
    else if r == 39 { Terminal::ModAssign }
    else if r == 40 { Terminal::Modulo }
    else if r == 41 { Terminal::MultAssign }
    else if r == 42 { Terminal::Multiply }
    else if r == 43 { Terminal::New }
    else if r == 44 { Terminal::Not }
    else if r == 45 { Terminal::NotEqual }
    else if r == 46 { Terminal::Null }
    else if r == 47 { Terminal::Number }
    else if r == 48 { Terminal::Or }
    else if r == 49 { Terminal::Plus }
    else if r == 50 { Terminal::PlusAssign }
    else if r == 51 { Terminal::PowerCaret }
    else if r == 52 { Terminal::PowerStar }
    else if r == 53 { Terminal::Protocol }
    else if r == 54 { Terminal::RBrace }
    else if r == 55 { Terminal::RBracket }
    else if r == 56 { Terminal::RParen }
    else if r == 57 { Terminal::RtArrow }
    else if r == 58 { Terminal::Semicolon }
    else if r == 59 { Terminal::String }
    else if r == 60 { Terminal::True }
    else if r == 61 { Terminal::Type }
    else { Terminal::While }
}

/// `terminal_by_rank` undoes `terminal_name_rank`, so name ranks are injective.
pub proof fn lemma_terminal_name_rank(t: Terminal)
    ensures
        terminal_name_rank(t) < NUM_TERMINALS,
        terminal_by_rank(terminal_name_rank(t)) == t,
{
}

/// All terminals, ordered by variant name.
pub fn terminals_by_name() -> (v: Vec<Terminal>)
    ensures
        v@.len() == NUM_TERMINALS,
        forall|q: int| 0 <= q < NUM_TERMINALS ==> terminal_name_rank(#[trigger] v@[q]) == q,
{
    let v = vec![
        Terminal::And,
        Terminal::Arrow,
        Terminal::As,
        Terminal::Assign,
        Terminal::Base,
        Terminal::Char,
        Terminal::Colon,
        Terminal::Comma,
        Terminal::Concat,
        Terminal::Decrement,
        Terminal::DestructAssign,
        Terminal::DivAssign,
        Terminal::Divide,
        Terminal::Dot,
        Terminal::DoubleConcat,
        Terminal::Elif,
        Terminal::Else,
        Terminal::Eof,
        Terminal::Equal,
        Terminal::Extends,
        Terminal::False,
        Terminal::For,
        Terminal::Function,
        Terminal::Greater,
        Terminal::GreaterEq,
        Terminal::Identifier,
        Terminal::If,
        Terminal::In,
        Terminal::Increment,
        Terminal::Inherits,
        Terminal::Is,
        Terminal::LBrace,
        Terminal::LBracket,
        Terminal::LParen,
        Terminal::Less,
        Terminal::LessEq,
        Terminal::Let,
        Terminal::Minus,
        Terminal::MinusAssign,
        Terminal::ModAssign,
        Terminal::Modulo,
        Terminal::MultAssign,
        Terminal::Multiply,
        Terminal::New,
        Terminal::Not,
        Terminal::NotEqual,
        Terminal::Null,
        Terminal::Number,
        Terminal::Or,
        Terminal::Plus,
        Terminal::PlusAssign,
        Terminal::PowerCaret,
        Terminal::PowerStar,
        Terminal::Protocol,
        Terminal::RBrace,
        Terminal::RBracket,
        Terminal::RParen,
        Terminal::RtArrow,
        Terminal::Semicolon,
        Terminal::String,
        Terminal::True,
        Terminal::Type,
        Terminal::While,
    ];
    assert forall|q: int| 0 <= q < NUM_TERMINALS implies terminal_name_rank(#[trigger] v@[q]) == q by {
    }
    v
}

impl Terminal {
    /// Position of the terminal in the declaration order.
    pub fn index(&self) -> (r: usize)
        ensures
            r == terminal_index(*self),
            r < NUM_TERMINALS,
    {
        match self {
            Terminal::Number => 0,
            Terminal::String => 1,
            Terminal::Char => 2,
            Terminal::True => 3,
            Terminal::False => 4,
            Terminal::Null => 5,
            Terminal::If => 6,
            Terminal::Elif => 7,
            Terminal::Else => 8,
            Terminal::While => 9,
            Terminal::For => 10,
            Terminal::Function => 11,
            Terminal::Let => 12,
            Terminal::In => 13,
            Terminal::Type => 14,
            Terminal::New => 15,
            Terminal::Inherits => 16,
            Terminal::Base => 17,
            Terminal::Protocol => 18,
            Terminal::Extends => 19,
            Terminal::Is => 20,
            Terminal::As => 21,
            Terminal::PowerStar => 22,
            Terminal::Increment => 23,
            Terminal::Decrement => 24,
            Terminal::DoubleConcat => 25,
            Terminal::DestructAssign => 26,
            Terminal::PlusAssign => 27,
            Terminal::MinusAssign => 28,
            Terminal::MultAssign => 29,
            Terminal::DivAssign => 30,
            Terminal::ModAssign => 31,
            Terminal::Equal => 32,
            Terminal::NotEqual => 33,
            Terminal::LessEq => 34,
            Terminal::GreaterEq => 35,
            Terminal::Arrow => 36,
            Terminal::RtArrow => 37,
            Terminal::Assign => 38,
            Terminal::Less => 39,
            Terminal::Greater => 40,
            Terminal::Plus => 41,
            Terminal::Minus => 42,
            Terminal::Multiply => 43,
            Terminal::Divide => 44,
            Terminal::Modulo => 45,
            Terminal::PowerCaret => 46,
            Terminal::And => 47,
            Terminal::Or => 48,
            Terminal::Not => 49,
            Terminal::Concat => 50,
            Terminal::Semicolon => 51,
            Terminal::Colon => 52,
            Terminal::Comma => 53,
            Terminal::Dot => 54,
            Terminal::LParen => 55,
            Terminal::RParen => 56,
            Terminal::LBrace => 57,
            Terminal::RBrace => 58,
            Terminal::LBracket => 59,
            Terminal::RBracket => 60,
            Terminal::Identifier => 61,
            Terminal::Eof => 62,
        }
    }

    /// Terminal at position `i` of the declaration order.
    pub fn from_index(i: usize) -> (t: Terminal)
        requires
            i < NUM_TERMINALS,
        ensures
            t == terminal_at(i as nat),
            terminal_index(t) == i,
    {
        proof { lemma_terminal_at(i as nat); }
        if i == 0 { Terminal::Number }
        else if i == 1 { Terminal::String }
        else if i == 2 { Terminal::Char }
        else if i == 3 { Terminal::True }
        else if i == 4 { Terminal::False }
        else if i == 5 { Terminal::Null }
        else if i == 6 { Terminal::If }
        else if i == 7 { Terminal::Elif }
        else if i == 8 { Terminal::Else }
        else if i == 9 { Terminal::While }
        else if i == 10 { Terminal::For }
        else if i == 11 { Terminal::Function }
        else if i == 12 { Terminal::Let }
        else if i == 13 { Terminal::In }
        else if i == 14 { Terminal::Type }
        else if i == 15 { Terminal::New }
        else if i == 16 { Terminal::Inherits }
        else if i == 17 { Terminal::Base }
        else if i == 18 { Terminal::Protocol }
        else if i == 19 { Terminal::Extends }
        else if i == 20 { Terminal::Is }
        else if i == 21 { Terminal::As }
        else if i == 22 { Terminal::PowerStar }
        else if i == 23 { Terminal::Increment }
        else if i == 24 { Terminal::Decrement }
        else if i == 25 { Terminal::DoubleConcat }
        else if i == 26 { Terminal::DestructAssign }
        else if i == 27 { Terminal::PlusAssign }
        else if i == 28 { Terminal::MinusAssign }
        else if i == 29 { Terminal::MultAssign }
        else if i == 30 { Terminal::DivAssign }
        else if i == 31 { Terminal::ModAssign }
        else if i == 32 { Terminal::Equal }
        else if i == 33 { Terminal::NotEqual }
        else if i == 34 { Terminal::LessEq }
        else if i == 35 { Terminal::GreaterEq }
        else if i == 36 { Terminal::Arrow }
        else if i == 37 { Terminal::RtArrow }
        else if i == 38 { Terminal::Assign }
        else if i == 39 { Terminal::Less }
        else if i == 40 { Terminal::Greater }
        else if i == 41 { Terminal::Plus }
        else if i == 42 { Terminal::Minus }
        else if i == 43 { Terminal::Multiply }
        else if i == 44 { Terminal::Divide }
        else if i == 45 { Terminal::Modulo }
        else if i == 46 { Terminal::PowerCaret }
        else if i == 47 { Terminal::And }
        else if i == 48 { Terminal::Or }
        else if i == 49 { Terminal::Not }
        else if i == 50 { Terminal::Concat }
        else if i == 51 { Terminal::Semicolon }
        else if i == 52 { Terminal::Colon }
        else if i == 53 { Terminal::Comma }
        else if i == 54 { Terminal::Dot }
        else if i == 55 { Terminal::LParen }
        else if i == 56 { Terminal::RParen }
        else if i == 57 { Terminal::LBrace }
        else if i == 58 { Terminal::RBrace }
        else if i == 59 { Terminal::LBracket }
        else if i == 60 { Terminal::RBracket }
        else if i == 61 { Terminal::Identifier }
        else { Terminal::Eof }
    }

    /// Rank of the terminal when terminals are ordered by variant name.
    pub fn name_rank(&self) -> (r: usize)
        ensures
            r == terminal_name_rank(*self),
    {
        match self {
            Terminal::Number => 47,
            Terminal::String => 59,
            Terminal::Char => 5,
            Terminal::True => 60,
            Terminal::False => 20,
            Terminal::Null => 46,
            Terminal::If => 26,
            Terminal::Elif => 15,
            Terminal::Else => 16,
            Terminal::While => 62,
            Terminal::For => 21,
            Terminal::Function => 22,
            Terminal::Let => 36,
            Terminal::In => 27,
            Terminal::Type => 61,
            Terminal::New => 43,
            Terminal::Inherits => 29,
            Terminal::Base => 4,
            Terminal::Protocol => 53,
            Terminal::Extends => 19,
            Terminal::Is => 30,
            Terminal::As => 2,
            Terminal::PowerStar => 52,
            Terminal::Increment => 28,
            Terminal::Decrement => 9,
            Terminal::DoubleConcat => 14,
            Terminal::DestructAssign => 10,
            Terminal::PlusAssign => 50,
            Terminal::MinusAssign => 38,
            Terminal::MultAssign => 41,
            Terminal::DivAssign => 11,
            Terminal::ModAssign => 39,
            Terminal::Equal => 18,
            Terminal::NotEqual => 45,
            Terminal::LessEq => 35,
            Terminal::GreaterEq => 24,
            Terminal::Arrow => 1,
            Terminal::RtArrow => 57,
            Terminal::Assign => 3,
            Terminal::Less => 34,
            Terminal::Greater => 23,
            Terminal::Plus => 49,
            Terminal::Minus => 37,
            Terminal::Multiply => 42,
            Terminal::Divide => 12,
            Terminal::Modulo => 40,
            Terminal::PowerCaret => 51,
            Terminal::And => 0,
            Terminal::Or => 48,
            Terminal::Not => 44,
            Terminal::Concat => 8,
            Terminal::Semicolon => 58,
            Terminal::Colon => 6,
            Terminal::Comma => 7,
            Terminal::Dot => 13,
            Terminal::LParen => 33,
            Terminal::RParen => 56,
            Terminal::LBrace => 31,
            Terminal::RBrace => 54,
            Terminal::LBracket => 32,
            Terminal::RBracket => 55,
            Terminal::Identifier => 25,
            Terminal::Eof => 17,
        }
    }

    /// The text the terminal is displayed as: the token itself, `NUMBER`,
    /// `STRING`, `CHAR` and `IDENTIFIER` for token classes, `$` for the end of input.
    pub fn text(&self) -> (s: &'static str)
        ensures
            s@ == terminal_text(*self),
    {
        match self {
            Terminal::Number => "NUMBER",
            Terminal::String => "STRING",
            Terminal::Char => "CHAR",
            Terminal::True => "true",
            Terminal::False => "false",
            Terminal::Null => "null",
            Terminal::If => "if",
            Terminal::Elif => "elif",
            Terminal::Else => "else",
            Terminal::While => "while",
            Terminal::For => "for",
            Terminal::Function => "function",
            Terminal::Let => "let",
            Terminal::In => "in",
            Terminal::Type => "type",
            Terminal::New => "new",
            Terminal::Inherits => "inherits",
            Terminal::Base => "base",
            Terminal::Protocol => "protocol",
            Terminal::Extends => "extends",
            Terminal::Is => "is",
            Terminal::As => "as",
            Terminal::PowerStar => "**",
            Terminal::Increment => "++",
            Terminal::Decrement => "--",
            Terminal::DoubleConcat => "@@",
            Terminal::DestructAssign => ":=",
            Terminal::PlusAssign => "+=",
            Terminal::MinusAssign => "-=",
            Terminal::MultAssign => "*=",
            Terminal::DivAssign => "/=",
            Terminal::ModAssign => "%=",
            Terminal::Equal => "==",
            Terminal::NotEqual => "!=",
            Terminal::LessEq => "<=",
            Terminal::GreaterEq => ">=",
            Terminal::Arrow => "=>",
            Terminal::RtArrow => "->",
            Terminal::Assign => "=",
            Terminal::Less => "<",
            Terminal::Greater => ">",
            Terminal::Plus => "+",
            Terminal::Minus => "-",
            Terminal::Multiply => "*",
            Terminal::Divide => "/",
            Terminal::Modulo => "%",
            Terminal::PowerCaret => "^",
            Terminal::And => "&",
            Terminal::Or => "|",
            Terminal::Not => "!",
            Terminal::Concat => "@",
            Terminal::Semicolon => ";",
            Terminal::Colon => ":",
            Terminal::Comma => ",",
            Terminal::Dot => ".",
            Terminal::LParen => "(",
            Terminal::RParen => ")",
            Terminal::LBrace => "{",
            Terminal::RBrace => "}",
            Terminal::LBracket => "[",
            Terminal::RBracket => "]",
            Terminal::Identifier => "IDENTIFIER",
            Terminal::Eof => "$",
        }
    }

    /// Name of the terminal variant.
    pub fn name(&self) -> (s: &'static str)
        ensures
            s@ == terminal_name(*self),
    {
        match self {
            Terminal::Number => "Number",
            Terminal::String => "String",
            Terminal::Char => "Char",
            Terminal::True => "True",
            Terminal::False => "False",
            Terminal::Null => "Null",
            Terminal::If => "If",
            Terminal::Elif => "Elif",
            Terminal::Else => "Else",
            Terminal::While => "While",
            Terminal::For => "For",
            Terminal::Function => "Function",
            Terminal::Let => "Let",
            Terminal::In => "In",
            Terminal::Type => "Type",
            Terminal::New => "New",
            Terminal::Inherits => "Inherits",
            Terminal::Base => "Base",
            Terminal::Protocol => "Protocol",
            Terminal::Extends => "Extends",
            Terminal::Is => "Is",
            Terminal::As => "As",
            Terminal::PowerStar => "PowerStar",
            Terminal::Increment => "Increment",
            Terminal::Decrement => "Decrement",
            Terminal::DoubleConcat => "DoubleConcat",
            Terminal::DestructAssign => "DestructAssign",
            Terminal::PlusAssign => "PlusAssign",
            Terminal::MinusAssign => "MinusAssign",
            Terminal::MultAssign => "MultAssign",
            Terminal::DivAssign => "DivAssign",
            Terminal::ModAssign => "ModAssign",
            Terminal::Equal => "Equal",
            Terminal::NotEqual => "NotEqual",
            Terminal::LessEq => "LessEq",
            Terminal::GreaterEq => "GreaterEq",
            Terminal::Arrow => "Arrow",
            Terminal::RtArrow => "RtArrow",
            Terminal::Assign => "Assign",
            Terminal::Less => "Less",
            Terminal::Greater => "Greater",
            Terminal::Plus => "Plus",
            Terminal::Minus => "Minus",
            Terminal::Multiply => "Multiply",
            Terminal::Divide => "Divide",
            Terminal::Modulo => "Modulo",
            Terminal::PowerCaret => "PowerCaret",
            Terminal::And => "And",
            Terminal::Or => "Or",
            Terminal::Not => "Not",
            Terminal::Concat => "Concat",
            Terminal::Semicolon => "Semicolon",
            Terminal::Colon => "Colon",
            Terminal::Comma => "Comma",
            Terminal::Dot => "Dot",
            Terminal::LParen => "LParen",
            Terminal::RParen => "RParen",
            Terminal::LBrace => "LBrace",
            Terminal::RBrace => "RBrace",
            Terminal::LBracket => "LBracket",
            Terminal::RBracket => "RBracket",
            Terminal::Identifier => "Identifier",
            Terminal::Eof => "Eof",
        }
    }
}

impl NonTerminal {
    /// Position of the non-terminal in the declaration order.
    pub fn index(&self) -> (r: usize)
        ensures
            r == nonterminal_index(*self),
            r < NUM_NONTERMINALS,
    {
        match self {
            NonTerminal::Program => 0,
            NonTerminal::DeclList => 1,
            NonTerminal::Decl => 2,
            NonTerminal::FuncDecl => 3,
            NonTerminal::TypeDecl => 4,
            NonTerminal::ProtocolDecl => 5,
            NonTerminal::ParamList => 6,
            NonTerminal::ParamListNonEmpty => 7,
            NonTerminal::Param => 8,
            NonTerminal::ArgList => 9,
            NonTerminal::ArgListNonEmpty => 10,
            NonTerminal::TypeAnnotation => 11,
            NonTerminal::TypeName => 12,
            NonTerminal::TypeArgs => 13,
            NonTerminal::TypeArgList => 14,
            NonTerminal::InheritClause => 15,
            NonTerminal::TypeBody => 16,
            NonTerminal::TypeMemberList => 17,
            NonTerminal::TypeMember => 18,
            NonTerminal::AttributeDef => 19,
            NonTerminal::MethodDef => 20,
            NonTerminal::ProtocolBody => 21,
            NonTerminal::ProtocolMemberList => 22,
            NonTerminal::ProtocolMember => 23,
            NonTerminal::MethodSignature => 24,
            NonTerminal::Expr => 25,
            NonTerminal::AssignExpr => 26,
            NonTerminal::OrExpr => 27,
            NonTerminal::AndExpr => 28,
            NonTerminal::NotExpr => 29,
            NonTerminal::CompareExpr => 30,
            NonTerminal::IsAsExpr => 31,
            NonTerminal::ConcatExpr => 32,
            NonTerminal::AddExpr => 33,
            NonTerminal::MulExpr => 34,
            NonTerminal::PowerExpr => 35,
            NonTerminal::UnaryExpr => 36,
            NonTerminal::PostfixExpr => 37,
            NonTerminal::CallOrAccess => 38,
            NonTerminal::PrimaryExpr => 39,
            NonTerminal::BlockExpr => 40,
            NonTerminal::LetExpr => 41,
            NonTerminal::LetBindingList => 42,
            NonTerminal::LetBinding => 43,
            NonTerminal::IfExpr => 44,
            NonTerminal::ElifChain => 45,
            NonTerminal::WhileExpr => 46,
            NonTerminal::ForExpr => 47,
            NonTerminal::NewExpr => 48,
            NonTerminal::IndexExpr => 49,
            NonTerminal::ExprList => 50,
            NonTerminal::ExprListTail => 51,
            NonTerminal::VectorLiteral => 52,
            NonTerminal::Start => 53,
        }
    }

    /// Non-terminal at position `i` of the declaration order.
    pub fn from_index(i: usize) -> (n: NonTerminal)
        requires
            i < NUM_NONTERMINALS,
        ensures
            n == nonterminal_at(i as nat),
            nonterminal_index(n) == i,
    {
        if i == 0 { NonTerminal::Program }
        else if i == 1 { NonTerminal::DeclList }
        else if i == 2 { NonTerminal::Decl }
        else if i == 3 { NonTerminal::FuncDecl }
        else if i == 4 { NonTerminal::TypeDecl }
        else if i == 5 { NonTerminal::ProtocolDecl }
        else if i == 6 { NonTerminal::ParamList }
        else if i == 7 { NonTerminal::ParamListNonEmpty }
        else if i == 8 { NonTerminal::Param }
        else if i == 9 { NonTerminal::ArgList }
        else if i == 10 { NonTerminal::ArgListNonEmpty }
        else if i == 11 { NonTerminal::TypeAnnotation }
        else if i == 12 { NonTerminal::TypeName }
        else if i == 13 { NonTerminal::TypeArgs }
        else if i == 14 { NonTerminal::TypeArgList }
        else if i == 15 { NonTerminal::InheritClause }
        else if i == 16 { NonTerminal::TypeBody }
        else if i == 17 { NonTerminal::TypeMemberList }
        else if i == 18 { NonTerminal::TypeMember }
        else if i == 19 { NonTerminal::AttributeDef }
        else if i == 20 { NonTerminal::MethodDef }
        else if i == 21 { NonTerminal::ProtocolBody }
        else if i == 22 { NonTerminal::ProtocolMemberList }
        else if i == 23 { NonTerminal::ProtocolMember }
        else if i == 24 { NonTerminal::MethodSignature }
        else if i == 25 { NonTerminal::Expr }
        else if i == 26 { NonTerminal::AssignExpr }
        else if i == 27 { NonTerminal::OrExpr }
        else if i == 28 { NonTerminal::AndExpr }
        else if i == 29 { NonTerminal::NotExpr }
        else if i == 30 { NonTerminal::CompareExpr }
        else if i == 31 { NonTerminal::IsAsExpr }
        else if i == 32 { NonTerminal::ConcatExpr }
        else if i == 33 { NonTerminal::AddExpr }
        else if i == 34 { NonTerminal::MulExpr }
        else if i == 35 { NonTerminal::PowerExpr }
        else if i == 36 { NonTerminal::UnaryExpr }
        else if i == 37 { NonTerminal::PostfixExpr }
        else if i == 38 { NonTerminal::CallOrAccess }
        else if i == 39 { NonTerminal::PrimaryExpr }
        else if i == 40 { NonTerminal::BlockExpr }
        else if i == 41 { NonTerminal::LetExpr }
        else if i == 42 { NonTerminal::LetBindingList }
        else if i == 43 { NonTerminal::LetBinding }
        else if i == 44 { NonTerminal::IfExpr }
        else if i == 45 { NonTerminal::ElifChain }
        else if i == 46 { NonTerminal::WhileExpr }
        else if i == 47 { NonTerminal::ForExpr }
        else if i == 48 { NonTerminal::NewExpr }
        else if i == 49 { NonTerminal::IndexExpr }
        else if i == 50 { NonTerminal::ExprList }
        else if i == 51 { NonTerminal::ExprListTail }
        else if i == 52 { NonTerminal::VectorLiteral }
        else { NonTerminal::Start }
    }

    /// Name of the non-terminal variant, which is also how it is displayed.
    pub fn name(&self) -> (s: &'static str)
        ensures
            s@ == nonterminal_name(*self),
    {
        match self {
            NonTerminal::Program => "Program",
            NonTerminal::DeclList => "DeclList",
            NonTerminal::Decl => "Decl",
            NonTerminal::FuncDecl => "FuncDecl",
            NonTerminal::TypeDecl => "TypeDecl",
            NonTerminal::ProtocolDecl => "ProtocolDecl",
            NonTerminal::ParamList => "ParamList",
            NonTerminal::ParamListNonEmpty => "ParamListNonEmpty",
            NonTerminal::Param => "Param",
            NonTerminal::ArgList => "ArgList",
            NonTerminal::ArgListNonEmpty => "ArgListNonEmpty",
            NonTerminal::TypeAnnotation => "TypeAnnotation",
            NonTerminal::TypeName => "TypeName",
            NonTerminal::TypeArgs => "TypeArgs",
            NonTerminal::TypeArgList => "TypeArgList",
            NonTerminal::InheritClause => "InheritClause",
            NonTerminal::TypeBody => "TypeBody",
            NonTerminal::TypeMemberList => "TypeMemberList",
            NonTerminal::TypeMember => "TypeMember",
            NonTerminal::AttributeDef => "AttributeDef",
            NonTerminal::MethodDef => "MethodDef",
            NonTerminal::ProtocolBody => "ProtocolBody",
            NonTerminal::ProtocolMemberList => "ProtocolMemberList",
            NonTerminal::ProtocolMember => "ProtocolMember",
            NonTerminal::MethodSignature => "MethodSignature",
            NonTerminal::Expr => "Expr",
            NonTerminal::AssignExpr => "AssignExpr",
            NonTerminal::OrExpr => "OrExpr",
            NonTerminal::AndExpr => "AndExpr",
            NonTerminal::NotExpr => "NotExpr",
            NonTerminal::CompareExpr => "CompareExpr",
            NonTerminal::IsAsExpr => "IsAsExpr",
            NonTerminal::ConcatExpr => "ConcatExpr",
            NonTerminal::AddExpr => "AddExpr",
            NonTerminal::MulExpr => "MulExpr",
            NonTerminal::PowerExpr => "PowerExpr",
            NonTerminal::UnaryExpr => "UnaryExpr",
            NonTerminal::PostfixExpr => "PostfixExpr",
            NonTerminal::CallOrAccess => "CallOrAccess",
            NonTerminal::PrimaryExpr => "PrimaryExpr",
            NonTerminal::BlockExpr => "BlockExpr",
            NonTerminal::LetExpr => "LetExpr",
            NonTerminal::LetBindingList => "LetBindingList",
            NonTerminal::LetBinding => "LetBinding",
            NonTerminal::IfExpr => "IfExpr",
            NonTerminal::ElifChain => "ElifChain",
            NonTerminal::WhileExpr => "WhileExpr",
            NonTerminal::ForExpr => "ForExpr",
            NonTerminal::NewExpr => "NewExpr",
            NonTerminal::IndexExpr => "IndexExpr",
            NonTerminal::ExprList => "ExprList",
            NonTerminal::ExprListTail => "ExprListTail",
            NonTerminal::VectorLiteral => "VectorLiteral",
            NonTerminal::Start => "Start",
        }
    }
}

impl Symbol {
    pub fn is_terminal(&self) -> (b: bool)
        ensures
            b == (*self is T),
    {
        match self {
            Symbol::T(_) => true,
            Symbol::NT(_) => false,
        }
    }

    pub fn is_nonterminal(&self) -> (b: bool)
        ensures
            b == (*self is NT),
    {
        match self {
            Symbol::T(_) => false,
            Symbol::NT(_) => true,
        }
    }
}

/// Display text of a symbol: the terminal's text or the non-terminal's name.
pub open spec fn symbol_text(s: Symbol) -> Seq<char> {
    match s {
        Symbol::T(t) => terminal_text(t),
        Symbol::NT(n) => nonterminal_name(n),
    }
}

impl Symbol {
    /// Text the symbol is displayed as.
    pub fn text(&self) -> (s: &'static str)
        ensures
            s@ == symbol_text(*self),
    {
        match self {
            Symbol::T(t) => t.text(),
            Symbol::NT(n) => n.name(),
        }
    }
}

/// Rank of a non-terminal when non-terminals are ordered by their name.
pub open spec fn nonterminal_name_rank(x: NonTerminal) -> nat {
    match x {
        NonTerminal::AddExpr => 0,
        NonTerminal::AndExpr => 1,
        NonTerminal::ArgList => 2,
        NonTerminal::ArgListNonEmpty => 3,
        NonTerminal::AssignExpr => 4,
        NonTerminal::AttributeDef => 5,
        NonTerminal::BlockExpr => 6,
        NonTerminal::CallOrAccess => 7,
        NonTerminal::CompareExpr => 8,
        NonTerminal::ConcatExpr => 9,
        NonTerminal::Decl => 10,
        NonTerminal::DeclList => 11,
        NonTerminal::ElifChain => 12,
        NonTerminal::Expr => 13,
        NonTerminal::ExprList => 14,
        NonTerminal::ExprListTail => 15,
        NonTerminal::ForExpr => 16,
        NonTerminal::FuncDecl => 17,
        NonTerminal::IfExpr => 18,
        NonTerminal::IndexExpr => 19,
        NonTerminal::InheritClause => 20,
        NonTerminal::IsAsExpr => 21,
        NonTerminal::LetBinding => 22,
        NonTerminal::LetBindingList => 23,
        NonTerminal::LetExpr => 24,
        NonTerminal::MethodDef => 25,
        NonTerminal::MethodSignature => 26,
        NonTerminal::MulExpr => 27,
        NonTerminal::NewExpr => 28,
        NonTerminal::NotExpr => 29,
        NonTerminal::OrExpr => 30,
        NonTerminal::Param => 31,
        NonTerminal::ParamList => 32,
        NonTerminal::ParamListNonEmpty => 33,
        NonTerminal::PostfixExpr => 34,
        NonTerminal::PowerExpr => 35,
        NonTerminal::PrimaryExpr => 36,
        NonTerminal::Program => 37,
        NonTerminal::ProtocolBody => 38,
        NonTerminal::ProtocolDecl => 39,
        NonTerminal::ProtocolMember => 40,
        NonTerminal::ProtocolMemberList => 41,
        NonTerminal::Start => 42,
        NonTerminal::TypeAnnotation => 43,
        NonTerminal::TypeArgList => 44,
        NonTerminal::TypeArgs => 45,
        NonTerminal::TypeBody => 46,
        NonTerminal::TypeDecl => 47,
        NonTerminal::TypeMember => 48,
        NonTerminal::TypeMemberList => 49,
        NonTerminal::TypeName => 50,
        NonTerminal::UnaryExpr => 51,
        NonTerminal::VectorLiteral => 52,
        NonTerminal::WhileExpr => 53,
    }
}

/// The non-terminal with a given rank in that order.
pub open spec fn nonterminal_by_name_rank(r: nat) -> NonTerminal {
    if r == 0 { NonTerminal::AddExpr }
    else if r == 1 { NonTerminal::AndExpr }
    else if r == 2 { NonTerminal::ArgList }
    else if r == 3 { NonTerminal::ArgListNonEmpty }
    else if r == 4 { NonTerminal::AssignExpr }
    else if r == 5 { NonTerminal::AttributeDef }
    else if r == 6 { NonTerminal::BlockExpr }
    else if r == 7 { NonTerminal::CallOrAccess }
    else if r == 8 { NonTerminal::CompareExpr }
    else if r == 9 { NonTerminal::ConcatExpr }
    else if r == 10 { NonTerminal::Decl }
    else if r == 11 { NonTerminal::DeclList }
    else if r == 12 { NonTerminal::ElifChain }
    else if r == 13 { NonTerminal::Expr }
    else if r == 14 { NonTerminal::ExprList }
    else if r == 15 { NonTerminal::ExprListTail }
    else if r == 16 { NonTerminal::ForExpr }
    else if r == 17 { NonTerminal::FuncDecl }
    else if r == 18 { NonTerminal::IfExpr }
    else if r == 19 { NonTerminal::IndexExpr }
    else if r == 20 { NonTerminal::InheritClause }
    else if r == 21 { NonTerminal::IsAsExpr }
    else if r == 22 { NonTerminal::LetBinding }
    else if r == 23 { NonTerminal::LetBindingList }
    else if r == 24 { NonTerminal::LetExpr }
    else if r == 25 { NonTerminal::MethodDef }
    else if r == 26 { NonTerminal::MethodSignature }
    else if r == 27 { NonTerminal::MulExpr }
    else if r == 28 { NonTerminal::NewExpr }
    else if r == 29 { NonTerminal::NotExpr }
    else if r == 30 { NonTerminal::OrExpr }
    else if r == 31 { NonTerminal::Param }
    else if r == 32 { NonTerminal::ParamList }
    else if r == 33 { NonTerminal::ParamListNonEmpty }
    else if r == 34 { NonTerminal::PostfixExpr }
    else if r == 35 { NonTerminal::PowerExpr }
    else if r == 36 { NonTerminal::PrimaryExpr }
    else if r == 37 { NonTerminal::Program }
    else if r == 38 { NonTerminal::ProtocolBody }
    else if r == 39 { NonTerminal::ProtocolDecl }
    else if r == 40 { NonTerminal::ProtocolMember }
    else if r == 41 { NonTerminal::ProtocolMemberList }
    else if r == 42 { NonTerminal::Start }
    else if r == 43 { NonTerminal::TypeAnnotation }
    else if r == 44 { NonTerminal::TypeArgList }
    else if r == 45 { NonTerminal::TypeArgs }
    else if r == 46 { NonTerminal::TypeBody }
    else if r == 47 { NonTerminal::TypeDecl }
    else if r == 48 { NonTerminal::TypeMember }
    else if r == 49 { NonTerminal::TypeMemberList }
    else if r == 50 { NonTerminal::TypeName }
    else if r == 51 { NonTerminal::UnaryExpr }
    else if r == 52 { NonTerminal::VectorLiteral }
    else { NonTerminal::WhileExpr }
}

/// `nonterminal_by_name_rank` undoes `nonterminal_name_rank`.
pub proof fn lemma_nonterminal_name_rank(x: NonTerminal)
    ensures
        nonterminal_name_rank(x) < NUM_NONTERMINALS,
        nonterminal_by_name_rank(nonterminal_name_rank(x)) == x,
{
}

/// All non-terminals, ordered by their name.
pub fn nonterminals_by_name() -> (v: Vec<NonTerminal>)
    ensures
        v@.len() == NUM_NONTERMINALS,
        forall|q: int| 0 <= q < NUM_NONTERMINALS ==> nonterminal_name_rank(#[trigger] v@[q]) == q,
{
    let v = vec![
        NonTerminal::AddExpr,
        NonTerminal::AndExpr,
        NonTerminal::ArgList,
        NonTerminal::ArgListNonEmpty,
        NonTerminal::AssignExpr,
        NonTerminal::AttributeDef,
        NonTerminal::BlockExpr,
        NonTerminal::CallOrAccess,
        NonTerminal::CompareExpr,
        NonTerminal::ConcatExpr,
        NonTerminal::Decl,
        NonTerminal::DeclList,
        NonTerminal::ElifChain,
        NonTerminal::Expr,
        NonTerminal::ExprList,
        NonTerminal::ExprListTail,
        NonTerminal::ForExpr,
        NonTerminal::FuncDecl,
        NonTerminal::IfExpr,
        NonTerminal::IndexExpr,
        NonTerminal::InheritClause,
        NonTerminal::IsAsExpr,
        NonTerminal::LetBinding,
        NonTerminal::LetBindingList,
        NonTerminal::LetExpr,
        NonTerminal::MethodDef,
        NonTerminal::MethodSignature,
        NonTerminal::MulExpr,
        NonTerminal::NewExpr,
        NonTerminal::NotExpr,
        NonTerminal::OrExpr,
        NonTerminal::Param,
        NonTerminal::ParamList,
        NonTerminal::ParamListNonEmpty,
        NonTerminal::PostfixExpr,
        NonTerminal::PowerExpr,
        NonTerminal::PrimaryExpr,
        NonTerminal::Program,
        NonTerminal::ProtocolBody,
        NonTerminal::ProtocolDecl,
        NonTerminal::ProtocolMember,
        NonTerminal::ProtocolMemberList,
        NonTerminal::Start,
        NonTerminal::TypeAnnotation,
        NonTerminal::TypeArgList,
        NonTerminal::TypeArgs,
        NonTerminal::TypeBody,
        NonTerminal::TypeDecl,
        NonTerminal::TypeMember,
        NonTerminal::TypeMemberList,
        NonTerminal::TypeName,
        NonTerminal::UnaryExpr,
        NonTerminal::VectorLiteral,
        NonTerminal::WhileExpr,
    ];
    v
}

/// Rank of a terminal when terminals are ordered by their display text.
pub open spec fn terminal_text_rank(x: Terminal) -> nat {
    match x {
        Terminal::Not => 0,
        Terminal::NotEqual => 1,
        Terminal::Eof => 2,
        Terminal::Modulo => 3,
        Terminal::ModAssign => 4,
        Terminal::And => 5,
        Terminal::LParen => 6,
        Terminal::RParen => 7,
        Terminal::Multiply => 8,
        Terminal::PowerStar => 9,
        Terminal::MultAssign => 10,
        Terminal::Plus => 11,
        Terminal::Increment => 12,
        Terminal::PlusAssign => 13,
        Terminal::Comma => 14,
        Terminal::Minus => 15,
        Terminal::Decrement => 16,
        Terminal::MinusAssign => 17,
        Terminal::RtArrow => 18,
        Terminal::Dot => 19,
        Terminal::Divide => 20,
        Terminal::DivAssign => 21,
        Terminal::Colon => 22,
        Terminal::DestructAssign => 23,
        Terminal::Semicolon => 24,
        Terminal::Less => 25,
        Terminal::LessEq => 26,
        Terminal::Assign => 27,
        Terminal::Equal => 28,
        Terminal::Arrow => 29,
        Terminal::Greater => 30,
        Terminal::GreaterEq => 31,
        Terminal::Concat => 32,
        Terminal::DoubleConcat => 33,
        Terminal::Char => 34,
        Terminal::Identifier => 35,
        Terminal::Number => 36,
        Terminal::String => 37,
        Terminal::LBracket => 38,
        Terminal::RBracket => 39,
        Terminal::PowerCaret => 40,
        Terminal::As => 41,
        Terminal::Base => 42,
        Terminal::Elif => 43,
        Terminal::Else => 44,
        Terminal::Extends => 45,
        Terminal::False => 46,
        Terminal::For => 47,
        Terminal::Function => 48,
        Terminal::If => 49,
        Terminal::In => 50,
        Terminal::Inherits => 51,
        Terminal::Is => 52,
        Terminal::Let => 53,
        Terminal::New => 54,
        Terminal::Null => 55,
        Terminal::Protocol => 56,
        Terminal::True => 57,
        Terminal::Type => 58,
        Terminal::While => 59,
        Terminal::LBrace => 60,
        Terminal::Or => 61,
        Terminal::RBrace => 62,
    }
}

/// The terminal with a given rank in that order.
pub open spec fn terminal_by_text_rank(r: nat) -> Terminal {
    if r == 0 { Terminal::Not }
    else if r == 1 { Terminal::NotEqual }
    else if r == 2 { Terminal::Eof }
    else if r == 3 { Terminal::Modulo }
    else if r == 4 { Terminal::ModAssign }
    else if r == 5 { Terminal::And }
    else if r == 6 { Terminal::LParen }
    else if r == 7 { Terminal::RParen }
    else if r == 8 { Terminal::Multiply }
    else if r == 9 { Terminal::PowerStar }
    else if r == 10 { Terminal::MultAssign }
    else if r == 11 { Terminal::Plus }
    else if r == 12 { Terminal::Increment }
    else if r == 13 { Terminal::PlusAssign }
    else if r == 14 { Terminal::Comma }
    else if r == 15 { Terminal::Minus }
    else if r == 16 { Terminal::Decrement }
    else if r == 17 { Terminal::MinusAssign }
    else if r == 18 { Terminal::RtArrow }
    else if r == 19 { Terminal::Dot }
    else if r == 20 { Terminal::Divide }
    else if r == 21 { Terminal::DivAssign }
    else if r == 22 { Terminal::Colon }
    else if r == 23 { Terminal::DestructAssign }
    else if r == 24 { Terminal::Semicolon }
    else if r == 25 { Terminal::Less }
    else if r == 26 { Terminal::LessEq }
    else if r == 27 { Terminal::Assign }
    else if r == 28 { Terminal::Equal }
    else if r == 29 { Terminal::Arrow }
    else if r == 30 { Terminal::Greater }
    else if r == 31 { Terminal::GreaterEq }
    else if r == 32 { Terminal::Concat }
    else if r == 33 { Terminal::DoubleConcat }
    else if r == 34 { Terminal::Char }
    else if r == 35 { Terminal::Identifier }
    else if r == 36 { Terminal::Number }
    else if r == 37 { Terminal::String }
    else if r == 38 { Terminal::LBracket }
    else if r == 39 { Terminal::RBracket }
    else if r == 40 { Terminal::PowerCaret }
    else if r == 41 { Terminal::As }
    else if r == 42 { Terminal::Base }
    else if r == 43 { Terminal::Elif }
    else if r == 44 { Terminal::Else }
    else if r == 45 { Terminal::Extends }
    else if r == 46 { Terminal::False }
    else if r == 47 { Terminal::For }
    else if r == 48 { Terminal::Function }
    else if r == 49 { Terminal::If }
    else if r == 50 { Terminal::In }
    else if r == 51 { Terminal::Inherits }
    else if r == 52 { Terminal::Is }
    else if r == 53 { Terminal::Let }
    else if r == 54 { Terminal::New }
    else if r == 55 { Terminal::Null }
    else if r == 56 { Terminal::Protocol }
    else if r == 57 { Terminal::True }
    else if r == 58 { Terminal::Type }
    else if r == 59 { Terminal::While }
    else if r == 60 { Terminal::LBrace }
    else if r == 61 { Terminal::Or }
    else { Terminal::RBrace }
}

/// `terminal_by_text_rank` undoes `terminal_text_rank`.
pub proof fn lemma_terminal_text_rank(x: Terminal)
    ensures
        terminal_text_rank(x) < NUM_TERMINALS,
        terminal_by_text_rank(terminal_text_rank(x)) == x,
{
}

/// All terminals, ordered by their display text.
pub fn terminals_by_text() -> (v: Vec<Terminal>)
    ensures
        v@.len() == NUM_TERMINALS,
        forall|q: int| 0 <= q < NUM_TERMINALS ==> terminal_text_rank(#[trigger] v@[q]) == q,
{
    let v = vec![
        Terminal::Not,
        Terminal::NotEqual,
        Terminal::Eof,
        Terminal::Modulo,
        Terminal::ModAssign,
        Terminal::And,
        Terminal::LParen,
        Terminal::RParen,
        Terminal::Multiply,
        Terminal::PowerStar,
        Terminal::MultAssign,
        Terminal::Plus,
        Terminal::Increment,
        Terminal::PlusAssign,
        Terminal::Comma,
        Terminal::Minus,
        Terminal::Decrement,
        Terminal::MinusAssign,
        Terminal::RtArrow,
        Terminal::Dot,
        Terminal::Divide,
        Terminal::DivAssign,
        Terminal::Colon,
        Terminal::DestructAssign,
        Terminal::Semicolon,
        Terminal::Less,
        Terminal::LessEq,
        Terminal::Assign,
        Terminal::Equal,
        Terminal::Arrow,
        Terminal::Greater,
        Terminal::GreaterEq,
        Terminal::Concat,
        Terminal::DoubleConcat,
        Terminal::Char,
        Terminal::Identifier,
        Terminal::Number,
        Terminal::String,
        Terminal::LBracket,
        Terminal::RBracket,
        Terminal::PowerCaret,
        Terminal::As,
        Terminal::Base,
        Terminal::Elif,
        Terminal::Else,
        Terminal::Extends,
        Terminal::False,
        Terminal::For,
        Terminal::Function,
        Terminal::If,
        Terminal::In,
        Terminal::Inherits,
        Terminal::Is,
        Terminal::Let,
        Terminal::New,
        Terminal::Null,
        Terminal::Protocol,
        Terminal::True,
        Terminal::Type,
        Terminal::While,
        Terminal::LBrace,
        Terminal::Or,
        Terminal::RBrace,
    ];
    v
}

} // verus!
