//! Tokens.
use vstd::prelude::*;
use crate::literal::Literal;
use crate::literal::Value;
use crate::token_type::TokenType;

verus! {

/// One lexeme of the source: its kind, its text, the value it denotes where
/// it denotes one, and the line it stands on (the first line is line 1).
#[derive(Debug)]
pub struct Token {
    pub token_type: TokenType,
    pub lexeme: String,
    pub literal: Option<Literal>,
    pub line: usize,
}

/// What a `Token` stands for, its strings by their characters.
pub struct TokenView {
    pub token_type: TokenType,
    pub lexeme: Seq<char>,
    pub literal: Option<Value>,
    pub line: nat,
}

impl View for Token {
    type V = TokenView;

    open spec fn view(&self) -> TokenView {
        TokenView {
            token_type: self.token_type,
            lexeme: self.lexeme@,
            literal: match self.literal {
                Some(l) => Some(l@),
                None => None,
            },
            line: self.line as nat,
        }
    }
}

impl Token {
    /// A token of the given kind, text, value and line.
    pub fn new(token_type: TokenType, lexeme: String, literal: Option<Literal>, line: usize) -> (r:
        Token)
        ensures
            r == (Token { token_type, lexeme, literal, line }),
    {
        Token { token_type, lexeme, literal, line }
    }

    /// Whether this token is of kind `ttype`.
    pub fn is(&self, ttype: TokenType) -> (r: bool)
        ensures
            r == (self.token_type == ttype),
    {
        self.token_type == ttype
    }

    /// The token's kind.
    pub fn token_type(&self) -> (r: TokenType)
        ensures
            r == self.token_type,
    {
        self.token_type
    }

    /// The token's text.
    pub fn as_string(&self) -> (r: &String)
        ensures
            *r == self.lexeme,
    {
        &self.lexeme
    }

    /// A copy of this token.
    pub fn dup(&self) -> (r: Token)
        ensures
            r == *self,
    {
        Token {
            token_type: self.token_type,
            lexeme: self.lexeme.clone(),
            literal: match &self.literal {
                Some(l) => Some(l.dup()),
                None => None,
            },
            line: self.line,
        }
    }

    /// The sentinel that ends every token stream.
    pub fn eof(line: usize) -> (r: Token)
        ensures
            r@ == (TokenView {
                token_type: TokenType::Eof,
                lexeme: Seq::empty(),
                literal: None,
                line: line as nat,
            }),
    {
        Token { token_type: TokenType::Eof, lexeme: String::new(), literal: None, line }
    }
}

impl Clone for Token {
    fn clone(&self) -> (r: Token)
        ensures
            r == *self,
    {
        self.dup()
    }
}

} // verus!
