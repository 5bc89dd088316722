//! Translation of lexer tokens into grammar terminals, and the token stream the parser reads.
use vstd::prelude::*;
use crate::lexer::token::{Token, TokenType};
use crate::parser::grammar::symbol::{Terminal, terminal_text};

verus! {

/// The terminal a token kind stands for; whitespace, comments, newlines and
/// lexical errors stand for none (the parser ignores them).
pub open spec fn token_terminal(tt: TokenType) -> Option<Terminal> {
    match tt {
        TokenType::WHITESPACE | TokenType::COMMENT | TokenType::NEWLINE | TokenType::ERROR => None,
        TokenType::EOF => Some(Terminal::Eof),
        TokenType::NUMBER => Some(Terminal::Number),
        TokenType::STRING => Some(Terminal::String),
        TokenType::CHAR => Some(Terminal::Char),
        TokenType::T_NULL => Some(Terminal::Null),
        TokenType::TRUE => Some(Terminal::True),
        TokenType::FALSE => Some(Terminal::False),
        TokenType::KW_IF => Some(Terminal::If),
        TokenType::KW_ELIF => Some(Terminal::Elif),
        TokenType::KW_ELSE => Some(Terminal::Else),
        TokenType::KW_WHILE => Some(Terminal::While),
        TokenType::KW_FOR => Some(Terminal::For),
        TokenType::KW_FUNCTION => Some(Terminal::Function),
        TokenType::KW_LET => Some(Terminal::Let),
        TokenType::KW_IN => Some(Terminal::In),
        TokenType::KW_TYPE => Some(Terminal::Type),
        TokenType::KW_NEW => Some(Terminal::New),
        TokenType::KW_INHERITS => Some(Terminal::Inherits),
        TokenType::KW_BASE => Some(Terminal::Base),
        TokenType::KW_PROTOCOL => Some(Terminal::Protocol),
        TokenType::KW_EXTENDS => Some(Terminal::Extends),
        TokenType::OP_IS => Some(Terminal::Is),
        TokenType::OP_AS => Some(Terminal::As),
        TokenType::OP_POWER_DOUBLE_STAR => Some(Terminal::PowerStar),
        TokenType::OP_INCREMENT => Some(Terminal::Increment),
        TokenType::OP_DECREMENT => Some(Terminal::Decrement),
        TokenType::OP_DOBLE_CONCAT => Some(Terminal::DoubleConcat),
        TokenType::OP_DESTRUCT_ASSIGN => Some(Terminal::DestructAssign),
        TokenType::OP_PLUS_ASSIGN => Some(Terminal::PlusAssign),
        TokenType::OP_MINUS_ASSIGN => Some(Terminal::MinusAssign),
        TokenType::OP_MULT_ASSIGN => Some(Terminal::MultAssign),
        TokenType::OP_DIV_ASSIGN => Some(Terminal::DivAssign),
        TokenType::OP_MOD_ASSIGN => Some(Terminal::ModAssign),
        TokenType::OP_EQUAL => Some(Terminal::Equal),
        TokenType::OP_NOT_EQUAL => Some(Terminal::NotEqual),
        TokenType::OP_LESS_EQ => Some(Terminal::LessEq),
        TokenType::OP_GREATER_EQ => Some(Terminal::GreaterEq),
        TokenType::ARROW => Some(Terminal::Arrow),
        TokenType::RT_ARROW => Some(Terminal::RtArrow),
        TokenType::OP_ASSIGN => Some(Terminal::Assign),
        TokenType::OP_LESS => Some(Terminal::Less),
        TokenType::OP_GREATER => Some(Terminal::Greater),
        TokenType::OP_PLUS => Some(Terminal::Plus),
        TokenType::OP_MINUS => Some(Terminal::Minus),
        TokenType::OP_MULTIPLY => Some(Terminal::Multiply),
        TokenType::OP_DIVIDE => Some(Terminal::Divide),
        TokenType::OP_MODULE => Some(Terminal::Modulo),
        TokenType::OP_POWER_CARET => Some(Terminal::PowerCaret),
        TokenType::OP_AND => Some(Terminal::And),
        TokenType::OP_OR => Some(Terminal::Or),
        TokenType::OP_NOT => Some(Terminal::Not),
        TokenType::OP_CONCAT => Some(Terminal::Concat),
        TokenType::SEMICOLON => Some(Terminal::Semicolon),
        TokenType::COLON => Some(Terminal::Colon),
        TokenType::COMMA => Some(Terminal::Comma),
        TokenType::DOT => Some(Terminal::Dot),
        TokenType::LPAREN => Some(Terminal::LParen),
        TokenType::RPAREN => Some(Terminal::RParen),
        TokenType::LBRACE => Some(Terminal::LBrace),
        TokenType::RBRACE => Some(Terminal::RBrace),
        TokenType::LBRACKET => Some(Terminal::LBracket),
        TokenType::RBRACKET => Some(Terminal::RBracket),
        TokenType::IDENTIFIER => Some(Terminal::Identifier),
    }
}

/// Translates a token kind to the terminal the parser sees, if any.
pub fn token_to_terminal(token_type: &TokenType) -> (r: Option<Terminal>)
    ensures
        r == token_terminal(*token_type),
{
    let terminal = match token_type {
        TokenType::WHITESPACE | TokenType::COMMENT | TokenType::NEWLINE => return None,
        TokenType::ERROR => return None,
        TokenType::EOF => Terminal::Eof,
        TokenType::NUMBER => Terminal::Number,
        TokenType::STRING => Terminal::String,
        TokenType::CHAR => Terminal::Char,
        TokenType::T_NULL => Terminal::Null,
        TokenType::TRUE => Terminal::True,
        TokenType::FALSE => Terminal::False,
        TokenType::KW_IF => Terminal::If,
        TokenType::KW_ELIF => Terminal::Elif,
        TokenType::KW_ELSE => Terminal::Else,
        TokenType::KW_WHILE => Terminal::While,
        TokenType::KW_FOR => Terminal::For,
        TokenType::KW_FUNCTION => Terminal::Function,
        TokenType::KW_LET => Terminal::Let,
        TokenType::KW_IN => Terminal::In,
        TokenType::KW_TYPE => Terminal::Type,
        TokenType::KW_NEW => Terminal::New,
        TokenType::KW_INHERITS => Terminal::Inherits,
        TokenType::KW_BASE => Terminal::Base,
        TokenType::KW_PROTOCOL => Terminal::Protocol,
        TokenType::KW_EXTENDS => Terminal::Extends,
        TokenType::OP_IS => Terminal::Is,
        TokenType::OP_AS => Terminal::As,
        TokenType::OP_POWER_DOUBLE_STAR => Terminal::PowerStar,
        TokenType::OP_INCREMENT => Terminal::Increment,
        TokenType::OP_DECREMENT => Terminal::Decrement,
        TokenType::OP_DOBLE_CONCAT => Terminal::DoubleConcat,
        TokenType::OP_DESTRUCT_ASSIGN => Terminal::DestructAssign,
        TokenType::OP_PLUS_ASSIGN => Terminal::PlusAssign,
        TokenType::OP_MINUS_ASSIGN => Terminal::MinusAssign,
        TokenType::OP_MULT_ASSIGN => Terminal::MultAssign,
        TokenType::OP_DIV_ASSIGN => Terminal::DivAssign,
        TokenType::OP_MOD_ASSIGN => Terminal::ModAssign,
        TokenType::OP_EQUAL => Terminal::Equal,
        TokenType::OP_NOT_EQUAL => Terminal::NotEqual,
        TokenType::OP_LESS_EQ => Terminal::LessEq,
        TokenType::OP_GREATER_EQ => Terminal::GreaterEq,
        TokenType::ARROW => Terminal::Arrow,
        TokenType::RT_ARROW => Terminal::RtArrow,
        TokenType::OP_ASSIGN => Terminal::Assign,
        TokenType::OP_LESS => Terminal::Less,
        TokenType::OP_GREATER => Terminal::Greater,
        TokenType::OP_PLUS => Terminal::Plus,
        TokenType::OP_MINUS => Terminal::Minus,
        TokenType::OP_MULTIPLY => Terminal::Multiply,
        TokenType::OP_DIVIDE => Terminal::Divide,
        TokenType::OP_MODULE => Terminal::Modulo,
        TokenType::OP_POWER_CARET => Terminal::PowerCaret,
        TokenType::OP_AND => Terminal::And,
        TokenType::OP_OR => Terminal::Or,
        TokenType::OP_NOT => Terminal::Not,
        TokenType::OP_CONCAT => Terminal::Concat,
        TokenType::SEMICOLON => Terminal::Semicolon,
        TokenType::COLON => Terminal::Colon,
        TokenType::COMMA => Terminal::Comma,
        TokenType::DOT => Terminal::Dot,
        TokenType::LPAREN => Terminal::LParen,
        TokenType::RPAREN => Terminal::RParen,
        TokenType::LBRACE => Terminal::LBrace,
        TokenType::RBRACE => Terminal::RBrace,
        TokenType::LBRACKET => Terminal::LBracket,
        TokenType::RBRACKET => Terminal::RBracket,
        TokenType::IDENTIFIER => Terminal::Identifier,
    };
    Some(terminal)
}

/// What the parser consumes at each step.
#[derive(Debug, Clone)]
pub struct ParserToken {
    pub terminal: Terminal,
    pub lexeme: String,
    pub line: usize,
    pub column: usize,
}

/// Whether the parser sees a token: it is not skippable and stands for a terminal.
pub open spec fn visible(t: Token) -> bool {
    !t.skippable && token_terminal(t.token_type) is Some
}

/// A stream over the lexer's tokens that skips what the parser ignores
/// and translates the rest.
pub struct TokenStream {
    pub tokens: Vec<Token>,
    pub pos: usize,
}

impl TokenStream {
    pub fn new(tokens: Vec<Token>) -> (s: Self)
        ensures
            s.tokens@ == tokens@,
            s.pos == 0,
    {
        TokenStream { tokens, pos: 0 }
    }

    /// The next visible token, translated; `None` once the tokens are exhausted.
    pub fn next(&mut self) -> (r: Option<ParserToken>)
        requires
            old(self).pos <= old(self).tokens@.len(),
        ensures
            final(self).tokens@ == old(self).tokens@,
            final(self).pos <= final(self).tokens@.len(),
            old(self).pos <= final(self).pos,
            forall|k: int| old(self).pos <= k < final(self).pos - 1 ==> !visible(#[trigger] old(self).tokens@[k]),
            r is None ==> final(self).pos == final(self).tokens@.len() && (old(self).pos < final(self).pos ==> !visible(old(self).tokens@[final(self).pos - 1])),
            r matches Some(pt) ==> {
                let t = old(self).tokens@[final(self).pos - 1];
                &&& old(self).pos < final(self).pos
                &&& visible(t)
                &&& token_terminal(t.token_type) == Some(pt.terminal)
                &&& pt.lexeme@ == t.lexeme@
                &&& pt.line == t.line
                &&& pt.column == t.column
            },
    {
        while self.pos < self.tokens.len()
            invariant
                self.tokens@ == old(self).tokens@,
                old(self).pos <= self.pos <= self.tokens@.len(),
                forall|k: int| old(self).pos <= k < self.pos ==> !visible(#[trigger] old(self).tokens@[k]),
            decreases self.tokens@.len() - self.pos,
        {
            let i = self.pos;
            self.pos = i + 1;
            let tok = &self.tokens[i];
            if tok.skippable {
                continue;
            }
            match token_to_terminal(&tok.token_type) {
                None => continue,
                Some(terminal) => {
                    return Some(ParserToken {
                        terminal,
                        lexeme: tok.lexeme.clone(),
                        line: tok.line,
                        column: tok.column,
                    });
                }
            }
        }
        None
    }
}

/// Distinct token kinds that the parser sees stand for distinct terminals:
/// no two kinds of token are read as the same terminal.
pub proof fn law_token_terminal_injective(a: TokenType, b: TokenType)
    requires
        token_terminal(a) is Some,
        token_terminal(a) == token_terminal(b),
    ensures
        a == b,
{
}

/// Each operator token stands for the terminal of the same operator, which
/// the grammar spells the way the operator is written.
pub proof fn law_operator_tokens()
    ensures
        token_terminal(TokenType::OP_LESS) == Some(Terminal::Less) && terminal_text(Terminal::Less) == "<"@,
        token_terminal(TokenType::OP_GREATER) == Some(Terminal::Greater) && terminal_text(Terminal::Greater) == ">"@,
        token_terminal(TokenType::OP_LESS_EQ) == Some(Terminal::LessEq) && terminal_text(Terminal::LessEq) == "<="@,
        token_terminal(TokenType::OP_GREATER_EQ) == Some(Terminal::GreaterEq) && terminal_text(Terminal::GreaterEq) == ">="@,
        token_terminal(TokenType::OP_EQUAL) == Some(Terminal::Equal) && terminal_text(Terminal::Equal) == "=="@,
        token_terminal(TokenType::OP_NOT_EQUAL) == Some(Terminal::NotEqual) && terminal_text(Terminal::NotEqual) == "!="@,
        token_terminal(TokenType::OP_PLUS) == Some(Terminal::Plus) && terminal_text(Terminal::Plus) == "+"@,
        token_terminal(TokenType::OP_MINUS) == Some(Terminal::Minus) && terminal_text(Terminal::Minus) == "-"@,
        token_terminal(TokenType::OP_MULTIPLY) == Some(Terminal::Multiply) && terminal_text(Terminal::Multiply) == "*"@,
        token_terminal(TokenType::OP_DIVIDE) == Some(Terminal::Divide) && terminal_text(Terminal::Divide) == "/"@,
        token_terminal(TokenType::OP_MODULE) == Some(Terminal::Modulo) && terminal_text(Terminal::Modulo) == "%"@,
        token_terminal(TokenType::OP_POWER_CARET) == Some(Terminal::PowerCaret) && terminal_text(Terminal::PowerCaret) == "^"@,
        token_terminal(TokenType::OP_POWER_DOUBLE_STAR) == Some(Terminal::PowerStar) && terminal_text(Terminal::PowerStar) == "**"@,
        token_terminal(TokenType::OP_AND) == Some(Terminal::And) && terminal_text(Terminal::And) == "&"@,
        token_terminal(TokenType::OP_OR) == Some(Terminal::Or) && terminal_text(Terminal::Or) == "|"@,
        token_terminal(TokenType::OP_NOT) == Some(Terminal::Not) && terminal_text(Terminal::Not) == "!"@,
        token_terminal(TokenType::OP_CONCAT) == Some(Terminal::Concat) && terminal_text(Terminal::Concat) == "@"@,
        token_terminal(TokenType::OP_DOBLE_CONCAT) == Some(Terminal::DoubleConcat) && terminal_text(Terminal::DoubleConcat) == "@@"@,
        token_terminal(TokenType::OP_ASSIGN) == Some(Terminal::Assign) && terminal_text(Terminal::Assign) == "="@,
        token_terminal(TokenType::OP_DESTRUCT_ASSIGN) == Some(Terminal::DestructAssign) && terminal_text(Terminal::DestructAssign) == ":="@,
        token_terminal(TokenType::OP_PLUS_ASSIGN) == Some(Terminal::PlusAssign) && terminal_text(Terminal::PlusAssign) == "+="@,
        token_terminal(TokenType::OP_MINUS_ASSIGN) == Some(Terminal::MinusAssign) && terminal_text(Terminal::MinusAssign) == "-="@,
        token_terminal(TokenType::OP_MULT_ASSIGN) == Some(Terminal::MultAssign) && terminal_text(Terminal::MultAssign) == "*="@,
        token_terminal(TokenType::OP_DIV_ASSIGN) == Some(Terminal::DivAssign) && terminal_text(Terminal::DivAssign) == "/="@,
        token_terminal(TokenType::OP_MOD_ASSIGN) == Some(Terminal::ModAssign) && terminal_text(Terminal::ModAssign) == "%="@,
        token_terminal(TokenType::OP_INCREMENT) == Some(Terminal::Increment) && terminal_text(Terminal::Increment) == "++"@,
        token_terminal(TokenType::OP_DECREMENT) == Some(Terminal::Decrement) && terminal_text(Terminal::Decrement) == "--"@,
{
}

/// Each keyword and punctuation token stands for the terminal spelled the
/// same way; literals, names and the end of input stand for their kinds;
/// layout, comments and lexical errors stand for nothing.
pub proof fn law_word_tokens()
    ensures
        token_terminal(TokenType::KW_IF) == Some(Terminal::If) && terminal_text(Terminal::If) == "if"@,
        token_terminal(TokenType::KW_ELIF) == Some(Terminal::Elif) && terminal_text(Terminal::Elif) == "elif"@,
        token_terminal(TokenType::KW_ELSE) == Some(Terminal::Else) && terminal_text(Terminal::Else) == "else"@,
        token_terminal(TokenType::KW_WHILE) == Some(Terminal::While) && terminal_text(Terminal::While) == "while"@,
        token_terminal(TokenType::KW_FOR) == Some(Terminal::For) && terminal_text(Terminal::For) == "for"@,
        token_terminal(TokenType::KW_FUNCTION) == Some(Terminal::Function) && terminal_text(Terminal::Function) == "function"@,
        token_terminal(TokenType::KW_LET) == Some(Terminal::Let) && terminal_text(Terminal::Let) == "let"@,
        token_terminal(TokenType::KW_IN) == Some(Terminal::In) && terminal_text(Terminal::In) == "in"@,
        token_terminal(TokenType::KW_TYPE) == Some(Terminal::Type) && terminal_text(Terminal::Type) == "type"@,
        token_terminal(TokenType::KW_NEW) == Some(Terminal::New) && terminal_text(Terminal::New) == "new"@,
        token_terminal(TokenType::KW_INHERITS) == Some(Terminal::Inherits) && terminal_text(Terminal::Inherits) == "inherits"@,
        token_terminal(TokenType::KW_BASE) == Some(Terminal::Base) && terminal_text(Terminal::Base) == "base"@,
        token_terminal(TokenType::KW_PROTOCOL) == Some(Terminal::Protocol) && terminal_text(Terminal::Protocol) == "protocol"@,
        token_terminal(TokenType::KW_EXTENDS) == Some(Terminal::Extends) && terminal_text(Terminal::Extends) == "extends"@,
        token_terminal(TokenType::OP_IS) == Some(Terminal::Is) && terminal_text(Terminal::Is) == "is"@,
        token_terminal(TokenType::OP_AS) == Some(Terminal::As) && terminal_text(Terminal::As) == "as"@,
        token_terminal(TokenType::TRUE) == Some(Terminal::True) && terminal_text(Terminal::True) == "true"@,
        token_terminal(TokenType::FALSE) == Some(Terminal::False) && terminal_text(Terminal::False) == "false"@,
        token_terminal(TokenType::T_NULL) == Some(Terminal::Null) && terminal_text(Terminal::Null) == "null"@,
        token_terminal(TokenType::ARROW) == Some(Terminal::Arrow) && terminal_text(Terminal::Arrow) == "=>"@,
        token_terminal(TokenType::RT_ARROW) == Some(Terminal::RtArrow) && terminal_text(Terminal::RtArrow) == "->"@,
        token_terminal(TokenType::SEMICOLON) == Some(Terminal::Semicolon) && terminal_text(Terminal::Semicolon) == ";"@,
        token_terminal(TokenType::COLON) == Some(Terminal::Colon) && terminal_text(Terminal::Colon) == ":"@,
        token_terminal(TokenType::COMMA) == Some(Terminal::Comma) && terminal_text(Terminal::Comma) == ","@,
        token_terminal(TokenType::DOT) == Some(Terminal::Dot) && terminal_text(Terminal::Dot) == "."@,
        token_terminal(TokenType::LPAREN) == Some(Terminal::LParen) && terminal_text(Terminal::LParen) == "("@,
        token_terminal(TokenType::RPAREN) == Some(Terminal::RParen) && terminal_text(Terminal::RParen) == ")"@,
        token_terminal(TokenType::LBRACE) == Some(Terminal::LBrace) && terminal_text(Terminal::LBrace) == "{"@,
        token_terminal(TokenType::RBRACE) == Some(Terminal::RBrace) && terminal_text(Terminal::RBrace) == "}"@,
        token_terminal(TokenType::LBRACKET) == Some(Terminal::LBracket) && terminal_text(Terminal::LBracket) == "["@,
        token_terminal(TokenType::RBRACKET) == Some(Terminal::RBracket) && terminal_text(Terminal::RBracket) == "]"@,
        token_terminal(TokenType::NUMBER) == Some(Terminal::Number),
        token_terminal(TokenType::STRING) == Some(Terminal::String),
        token_terminal(TokenType::CHAR) == Some(Terminal::Char),
        token_terminal(TokenType::IDENTIFIER) == Some(Terminal::Identifier),
        token_terminal(TokenType::EOF) == Some(Terminal::Eof),
        token_terminal(TokenType::WHITESPACE) is None,
        token_terminal(TokenType::COMMENT) is None,
        token_terminal(TokenType::NEWLINE) is None,
        token_terminal(TokenType::ERROR) is None,
{
}

} // verus!
