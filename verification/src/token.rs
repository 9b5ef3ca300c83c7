//! The lexical units of the dialect and their mathematical model.

use vstd::prelude::*;

verus! {

/// The reserved words. Matching against source text ignores case.
#[derive(Debug, Clone, Copy, PartialEq, Eq, Structural)]
pub enum Keyword {
    Select,
    Create,
    Table,
    Where,
    Order,
    By,
    Asc,
    Desc,
    From,
    And,
    Or,
    Not,
    True,
    False,
    Primary,
    Key,
    Check,
    Int,
    Bool,
    Varchar,
    Null,
}

/// One lexical unit.
#[derive(Debug, PartialEq)]
pub enum Token {
    LeftParentheses,
    RightParentheses,
    Comma,
    Semicolon,
    Plus,
    Minus,
    Star,
    Divide,
    Equal,
    NotEqual,
    GreaterThan,
    GreaterThanOrEqual,
    LessThan,
    LessThanOrEqual,
    Number(u64),
    String(String),
    Identifier(String),
    Keyword(Keyword),
    /// A character that starts no token; the parser rejects it.
    Invalid(char),
    /// The end of the input.
    Eof,
}

/// What a [`Token`] stands for: the same variants, with text as a sequence
/// of characters.
pub enum SpecToken {
    LeftParentheses,
    RightParentheses,
    Comma,
    Semicolon,
    Plus,
    Minus,
    Star,
    Divide,
    Equal,
    NotEqual,
    GreaterThan,
    GreaterThanOrEqual,
    LessThan,
    LessThanOrEqual,
    Number(u64),
    String(Seq<char>),
    Identifier(Seq<char>),
    Keyword(Keyword),
    Invalid(char),
    Eof,
}

impl View for Token {
    type V = SpecToken;

    open spec fn view(&self) -> SpecToken {
        match self {
            Token::LeftParentheses => SpecToken::LeftParentheses,
            Token::RightParentheses => SpecToken::RightParentheses,
            Token::Comma => SpecToken::Comma,
            Token::Semicolon => SpecToken::Semicolon,
            Token::Plus => SpecToken::Plus,
            Token::Minus => SpecToken::Minus,
            Token::Star => SpecToken::Star,
            Token::Divide => SpecToken::Divide,
            Token::Equal => SpecToken::Equal,
            Token::NotEqual => SpecToken::NotEqual,
            Token::GreaterThan => SpecToken::GreaterThan,
            Token::GreaterThanOrEqual => SpecToken::GreaterThanOrEqual,
            Token::LessThan => SpecToken::LessThan,
            Token::LessThanOrEqual => SpecToken::LessThanOrEqual,
            Token::Number(n) => SpecToken::Number(*n),
            Token::String(s) => SpecToken::String(s@),
            Token::Identifier(s) => SpecToken::Identifier(s@),
            Token::Keyword(k) => SpecToken::Keyword(*k),
            Token::Invalid(c) => SpecToken::Invalid(*c),
            Token::Eof => SpecToken::Eof,
        }
    }
}

impl Token {
    /// Whether two tokens are the same: of one kind, and carrying the same.
    pub fn same_as(&self, other: &Token) -> (same: bool)
        ensures
            same == (self@ == other@),
    {
        match (self, other) {
            (Token::LeftParentheses, Token::LeftParentheses) => true,
            (Token::RightParentheses, Token::RightParentheses) => true,
            (Token::Comma, Token::Comma) => true,
            (Token::Semicolon, Token::Semicolon) => true,
            (Token::Plus, Token::Plus) => true,
            (Token::Minus, Token::Minus) => true,
            (Token::Star, Token::Star) => true,
            (Token::Divide, Token::Divide) => true,
            (Token::Equal, Token::Equal) => true,
            (Token::NotEqual, Token::NotEqual) => true,
            (Token::GreaterThan, Token::GreaterThan) => true,
            (Token::GreaterThanOrEqual, Token::GreaterThanOrEqual) => true,
            (Token::LessThan, Token::LessThan) => true,
            (Token::LessThanOrEqual, Token::LessThanOrEqual) => true,
            (Token::Number(a), Token::Number(b)) => *a == *b,
            (Token::String(a), Token::String(b)) => *a == *b,
            (Token::Identifier(a), Token::Identifier(b)) => *a == *b,
            (Token::Keyword(a), Token::Keyword(b)) => *a == *b,
            (Token::Invalid(a), Token::Invalid(b)) => *a == *b,
            (Token::Eof, Token::Eof) => true,
            _ => false,
        }
    }
}

impl Clone for Token {
    fn clone(&self) -> (res: Self)
        ensures
            res@ == self@,
    {
        match self {
            Token::LeftParentheses => Token::LeftParentheses,
            Token::RightParentheses => Token::RightParentheses,
            Token::Comma => Token::Comma,
            Token::Semicolon => Token::Semicolon,
            Token::Plus => Token::Plus,
            Token::Minus => Token::Minus,
            Token::Star => Token::Star,
            Token::Divide => Token::Divide,
            Token::Equal => Token::Equal,
            Token::NotEqual => Token::NotEqual,
            Token::GreaterThan => Token::GreaterThan,
            Token::GreaterThanOrEqual => Token::GreaterThanOrEqual,
            Token::LessThan => Token::LessThan,
            Token::LessThanOrEqual => Token::LessThanOrEqual,
            Token::Number(n) => Token::Number(*n),
            Token::String(s) => Token::String(s.clone()),
            Token::Identifier(s) => Token::Identifier(s.clone()),
            Token::Keyword(k) => Token::Keyword(*k),
            Token::Invalid(c) => Token::Invalid(*c),
            Token::Eof => Token::Eof,
        }
    }
}

/// The model of a token sequence: each token replaced by what it stands for.
pub open spec fn tokens_view(tokens: Seq<Token>) -> Seq<SpecToken> {
    tokens.map_values(|t: Token| t@)
}

} // verus!
