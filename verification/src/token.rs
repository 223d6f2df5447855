//! Tokens, as the tokenizer hands them to the parser.

use vstd::prelude::*;

verus! {

/// The class of a lexical unit.
#[derive(Clone, Copy, Debug, PartialEq, Eq, Structural)]
pub enum TokenType {
    LeftParen,
    RightParen,
    LeftBrace,
    RightBrace,
    Comma,
    Dot,
    Minus,
    Plus,
    Semicolon,
    Slash,
    Star,
    Bang,
    BangEqual,
    Equal,
    EqualEqual,
    Greater,
    GreaterEqual,
    Less,
    LessEqual,
    Identifier,
    String,
    Number,
    And,
    Class,
    Else,
    False,
    Fun,
    For,
    If,
    Let,
    Nil,
    Or,
    Print,
    Return,
    Super,
    This,
    True,
    While,
    Eof,
}

/// The payload of a literal token: the bit pattern of a binary64 number, or
/// the text between the quotes of a string.
#[derive(Debug, PartialEq)]
pub enum LiteralValue {
    Number(u64),
    Text(String),
}

impl Clone for LiteralValue {
    fn clone(&self) -> (copy: Self)
        ensures
            copy == *self,
    {
        match self {
            LiteralValue::Number(bits) => LiteralValue::Number(*bits),
            LiteralValue::Text(text) => LiteralValue::Text(text.clone()),
        }
    }
}

/// One lexical unit with its place in the source.
#[derive(Debug, PartialEq)]
pub struct Token {
    pub token_type: TokenType,
    pub lexeme: String,
    pub literal: Option<LiteralValue>,
    pub line_number: usize,
}

impl Clone for Token {
    fn clone(&self) -> (copy: Self)
        ensures
            copy == *self,
    {
        let literal = match &self.literal {
            Some(value) => Some(value.clone()),
            None => None,
        };
        Token {
            token_type: self.token_type,
            lexeme: self.lexeme.clone(),
            literal,
            line_number: self.line_number,
        }
    }
}

impl Token {
    /// A token with the given fields.
    pub fn new(
        token_type: TokenType,
        lexeme: String,
        literal: Option<LiteralValue>,
        line_number: usize,
    ) -> (token: Token)
        ensures
            token.token_type == token_type,
            token.lexeme == lexeme,
            token.literal == literal,
            token.line_number == line_number,
    {
        Token { token_type, lexeme, literal, line_number }
    }
}

} // verus!
