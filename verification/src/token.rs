//! Lexical units of the statement grammar: tokens, reserved words, and the
//! errors the tokenizer can report.

use vstd::prelude::*;

verus! {

/// Reserved words of the grammar. Matching against source text is
/// ASCII case-insensitive; see `spec_keyword_of`.
#[derive(Clone, Copy, Debug, PartialEq, Eq, Structural)]
pub enum Keyword {
    Select,
    Create,
    Table,
    Where,
    Order,
    By,
    Asc,
    Desc,
    From,
    And,
    Or,
    Not,
    True,
    False,
    Primary,
    Key,
    Check,
    Int,
    Bool,
    Varchar,
    Null,
}

/// One lexical unit. `Eof` is the end-of-input sentinel: once the input is
/// exhausted the tokenizer returns it on every further call.
#[derive(Debug, PartialEq)]
pub enum Token {
    Number(u64),
    String(String),
    Identifier(String),
    Keyword(Keyword),
    LeftParentheses,
    RightParentheses,
    Comma,
    Semicolon,
    Multiply,
    Divide,
    Plus,
    Minus,
    Equal,
    NotEqual,
    GreaterThan,
    GreaterThanOrEqual,
    LessThan,
    LessThanOrEqual,
    Eof,
}

/// The mathematical value of a token: text payloads become character
/// sequences.
pub enum SpecToken {
    Number(u64),
    String(Seq<char>),
    Identifier(Seq<char>),
    Keyword(Keyword),
    LeftParentheses,
    RightParentheses,
    Comma,
    Semicolon,
    Multiply,
    Divide,
    Plus,
    Minus,
    Equal,
    NotEqual,
    GreaterThan,
    GreaterThanOrEqual,
    LessThan,
    LessThanOrEqual,
    Eof,
}

impl View for Token {
    type V = SpecToken;

    open spec fn view(&self) -> SpecToken {
        match self {
            Token::Number(n) => SpecToken::Number(*n),
            Token::String(s) => SpecToken::String(s@),
            Token::Identifier(s) => SpecToken::Identifier(s@),
            Token::Keyword(k) => SpecToken::Keyword(*k),
            Token::LeftParentheses => SpecToken::LeftParentheses,
            Token::RightParentheses => SpecToken::RightParentheses,
            Token::Comma => SpecToken::Comma,
            Token::Semicolon => SpecToken::Semicolon,
            Token::Multiply => SpecToken::Multiply,
            Token::Divide => SpecToken::Divide,
            Token::Plus => SpecToken::Plus,
            Token::Minus => SpecToken::Minus,
            Token::Equal => SpecToken::Equal,
            Token::NotEqual => SpecToken::NotEqual,
            Token::GreaterThan => SpecToken::GreaterThan,
            Token::GreaterThanOrEqual => SpecToken::GreaterThanOrEqual,
            Token::LessThan => SpecToken::LessThan,
            Token::LessThanOrEqual => SpecToken::LessThanOrEqual,
            Token::Eof => SpecToken::Eof,
        }
    }
}

/// An error found while producing a token.
#[derive(Clone, Copy, Debug, PartialEq, Eq, Structural)]
pub enum LexError {
    /// A decimal point was followed by the given non-digit character.
    ExpectedDigitAfterDecimalPoint(char),
    /// The input ended right after a decimal point.
    UnexpectedEndAfterDecimalPoint,
    /// A numeric literal does not fit in 64 bits.
    NumberTooLarge,
    /// A string literal opened with the given quote character was never closed.
    UnterminatedString(char),
    /// `!` was not followed by `=`.
    ExpectedEqualsAfterBang,
    /// A character that cannot start any token.
    UnexpectedCharacter(char),
}

/// Structural equality of tokens, stated over their views.
pub fn token_eq(a: &Token, b: &Token) -> (r: bool)
    ensures
        r == (a@ == b@),
{
    match (a, b) {
        (Token::Number(x), Token::Number(y)) => *x == *y,
        (Token::String(x), Token::String(y)) => *x == *y,
        (Token::Identifier(x), Token::Identifier(y)) => *x == *y,
        (Token::Keyword(x), Token::Keyword(y)) => *x == *y,
        (Token::LeftParentheses, Token::LeftParentheses) => true,
        (Token::RightParentheses, Token::RightParentheses) => true,
        (Token::Comma, Token::Comma) => true,
        (Token::Semicolon, Token::Semicolon) => true,
        (Token::Multiply, Token::Multiply) => true,
        (Token::Divide, Token::Divide) => true,
        (Token::Plus, Token::Plus) => true,
        (Token::Minus, Token::Minus) => true,
        (Token::Equal, Token::Equal) => true,
        (Token::NotEqual, Token::NotEqual) => true,
        (Token::GreaterThan, Token::GreaterThan) => true,
        (Token::GreaterThanOrEqual, Token::GreaterThanOrEqual) => true,
        (Token::LessThan, Token::LessThan) => true,
        (Token::LessThanOrEqual, Token::LessThanOrEqual) => true,
        (Token::Eof, Token::Eof) => true,
        _ => false,
    }
}

} // verus!
