//! The parser: consumes tokens with one token of lookahead and assembles a
//! `Statement`. Expressions are parsed by precedence climbing; statements
//! and column definitions by recursive descent.
//!
//! The whole grammar is stated as a spec-level model: a family of total
//! spec functions over a `ParserModel` (the input text, the cursor, and the
//! current token). The model functions carry a fuel parameter so that they
//! are total; every executable parsing function is proved to return exactly
//! what its model function returns, for every sufficient fuel. Fuel needs
//! are measured by `pm_fuel`, which shrinks as the parser consumes input,
//! so the fuel bound given at the entry point always suffices.
//!
//! Parsing aborts on the first error. A lexical error found while reading
//! a token is carried through as `ParseError::Lexical` rather than being
//! flattened into a generic end-of-input report.

use vstd::prelude::*;

use crate::statement::{
    spec_expressions_view, BinaryOperator, Constraint, DBType, Expression, SpecConstraint,
    SpecExpression, SpecStatement, SpecTableColumn, Statement, TableColumn, UnaryOperator,
};
use crate::token::{Keyword, LexError, SpecToken, Token};
use crate::tokenizer::{lemma_lex_step_bounds, lex_result_view, lex_step, Tokenizer};

verus! {

broadcast use crate::tokenizer::lemma_tokenizer_wf;

// ---------------------------------------------------------------------------
// Errors.
// ---------------------------------------------------------------------------

/// Why a parse failed. `Lexical` wraps an error of the tokenizer; every
/// other variant is a syntax error and carries the offending token.
#[derive(Debug, PartialEq)]
pub enum ParseError {
    Lexical(LexError),
    UnexpectedEndOfInput,
    ExpectedSelectOrCreate(Token),
    ExpectedToken { expected: Token, got: Token },
    ExpectedKeyword { expected: Keyword, got: Token },
    ExpectedFromOrComma(Token),
    ExpectedTableName(Token),
    ExpectedSemicolonOrComma(Token),
    ExpectedCommaOrRightParentheses(Token),
    ExpectedColumnName(Token),
    ExpectedColumnType(Token),
    ExpectedLeftParenthesesAfterVarchar(Token),
    ExpectedVarcharLength(Token),
    ExpectedRightParenthesesAfterVarcharLength(Token),
    ExpectedKeyAfterPrimary(Token),
    ExpectedNullAfterNot(Token),
    ExpectedLeftParenthesesAfterCheck(Token),
    ExpectedRightParenthesesAfterCheck(Token),
    ExpectedRightParentheses(Token),
    UnexpectedTokenInPrefix(Token),
    InvalidInfixOperator(Token),
}

/// The mathematical value of a parse error.
pub enum SpecParseError {
    Lexical(LexError),
    UnexpectedEndOfInput,
    ExpectedSelectOrCreate(SpecToken),
    ExpectedToken { expected: SpecToken, got: SpecToken },
    ExpectedKeyword { expected: Keyword, got: SpecToken },
    ExpectedFromOrComma(SpecToken),
    ExpectedTableName(SpecToken),
    ExpectedSemicolonOrComma(SpecToken),
    ExpectedCommaOrRightParentheses(SpecToken),
    ExpectedColumnName(SpecToken),
    ExpectedColumnType(SpecToken),
    ExpectedLeftParenthesesAfterVarchar(SpecToken),
    ExpectedVarcharLength(SpecToken),
    ExpectedRightParenthesesAfterVarcharLength(SpecToken),
    ExpectedKeyAfterPrimary(SpecToken),
    ExpectedNullAfterNot(SpecToken),
    ExpectedLeftParenthesesAfterCheck(SpecToken),
    ExpectedRightParenthesesAfterCheck(SpecToken),
    ExpectedRightParentheses(SpecToken),
    UnexpectedTokenInPrefix(SpecToken),
    InvalidInfixOperator(SpecToken),
}

impl View for ParseError {
    type V = SpecParseError;

    open spec fn view(&self) -> SpecParseError {
        match self {
            ParseError::Lexical(e) => SpecParseError::Lexical(*e),
            ParseError::UnexpectedEndOfInput => SpecParseError::UnexpectedEndOfInput,
            ParseError::ExpectedSelectOrCreate(t) => SpecParseError::ExpectedSelectOrCreate(t@),
            ParseError::ExpectedToken { expected, got } => SpecParseError::ExpectedToken {
                expected: expected@,
                got: got@,
            },
            ParseError::ExpectedKeyword { expected, got } => SpecParseError::ExpectedKeyword {
                expected: *expected,
                got: got@,
            },
            ParseError::ExpectedFromOrComma(t) => SpecParseError::ExpectedFromOrComma(t@),
            ParseError::ExpectedTableName(t) => SpecParseError::ExpectedTableName(t@),
            ParseError::ExpectedSemicolonOrComma(t) => SpecParseError::ExpectedSemicolonOrComma(t@),
            ParseError::ExpectedCommaOrRightParentheses(t) =>
                SpecParseError::ExpectedCommaOrRightParentheses(t@),
            ParseError::ExpectedColumnName(t) => SpecParseError::ExpectedColumnName(t@),
            ParseError::ExpectedColumnType(t) => SpecParseError::ExpectedColumnType(t@),
            ParseError::ExpectedLeftParenthesesAfterVarchar(t) =>
                SpecParseError::ExpectedLeftParenthesesAfterVarchar(t@),
            ParseError::ExpectedVarcharLength(t) => SpecParseError::ExpectedVarcharLength(t@),
            ParseError::ExpectedRightParenthesesAfterVarcharLength(t) =>
                SpecParseError::ExpectedRightParenthesesAfterVarcharLength(t@),
            ParseError::ExpectedKeyAfterPrimary(t) => SpecParseError::ExpectedKeyAfterPrimary(t@),
            ParseError::ExpectedNullAfterNot(t) => SpecParseError::ExpectedNullAfterNot(t@),
            ParseError::ExpectedLeftParenthesesAfterCheck(t) =>
                SpecParseError::ExpectedLeftParenthesesAfterCheck(t@),
            ParseError::ExpectedRightParenthesesAfterCheck(t) =>
                SpecParseError::ExpectedRightParenthesesAfterCheck(t@),
            ParseError::ExpectedRightParentheses(t) => SpecParseError::ExpectedRightParentheses(t@),
            ParseError::UnexpectedTokenInPrefix(t) => SpecParseError::UnexpectedTokenInPrefix(t@),
            ParseError::InvalidInfixOperator(t) => SpecParseError::InvalidInfixOperator(t@),
        }
    }
}

// ---------------------------------------------------------------------------
// The parser state model.
// ---------------------------------------------------------------------------

/// The view of the result of reading one token.
pub open spec fn cur_view(c: Result<Token, LexError>) -> Result<SpecToken, LexError> {
    match c {
        Ok(t) => Ok(t@),
        Err(e) => Err(e),
    }
}

/// The parser state as the model sees it: the input, the cursor of the
/// tokenizer, and the current (one-token lookahead) token.
#[verifier::ext_equal]
pub struct ParserModel {
    pub text: Seq<char>,
    pub pos: int,
    pub cur: Result<SpecToken, LexError>,
}

/// A current token on which the grammar can still make progress: a real
/// token, not the `Eof` sentinel and not a lexical error.
pub open spec fn live_token(c: Result<SpecToken, LexError>) -> bool {
    match c {
        Ok(t) => !(t is Eof),
        Err(_) => false,
    }
}

/// How much input is left to consume: two units per unconsumed character,
/// one for a live current token. Every step of the parser keeps this from
/// growing, and consuming a token shrinks it.
pub open spec fn pm_measure(s: ParserModel) -> int {
    2 * (if s.pos <= s.text.len() {
        s.text.len() - s.pos
    } else {
        0
    }) + (if live_token(s.cur) {
        1int
    } else {
        0int
    })
}

/// Reading the next token: the current token becomes the one the lexical
/// model produces at the cursor, and the cursor moves past it.
pub open spec fn pm_advance(s: ParserModel) -> ParserModel {
    let st = lex_step(s.text, s.pos);
    ParserModel { text: s.text, pos: st.next, cur: st.tok }
}

/// The state a parser starts from: nothing consumed, then one advance to
/// load the first token.
pub open spec fn pm_init(text: Seq<char>) -> ParserModel {
    pm_advance(ParserModel { text, pos: 0, cur: Ok(SpecToken::Eof) })
}

// ---------------------------------------------------------------------------
// Fuel. Each model function consumes one unit per call; these bounds say
// how much fuel surely suffices from a given state. The bounds shrink as
// the state shrinks, which is what makes the bound at the entry point
// sufficient for the whole parse.
// ---------------------------------------------------------------------------

/// Fuel that surely suffices for a model function of the given rank.
pub open spec fn pm_fuel(s: ParserModel, rank: int) -> int {
    8 * pm_measure(s) + rank + 1
}

// ---------------------------------------------------------------------------
// Operator precedence.
// ---------------------------------------------------------------------------

/// The precedence band of a token seen in infix position; zero means the
/// token is no infix operator and ends the climb.
pub open spec fn spec_precedence(t: SpecToken) -> int {
    match t {
        SpecToken::Keyword(Keyword::Or) => 1,
        SpecToken::Keyword(Keyword::And) => 2,
        SpecToken::Equal | SpecToken::NotEqual => 3,
        SpecToken::GreaterThan | SpecToken::GreaterThanOrEqual | SpecToken::LessThan
            | SpecToken::LessThanOrEqual => 4,
        SpecToken::Plus | SpecToken::Minus => 5,
        SpecToken::Multiply | SpecToken::Divide => 6,
        _ => 0,
    }
}

/// The binary operator a token denotes in infix position, if any.
pub open spec fn spec_binary_operator_of(t: SpecToken) -> Option<BinaryOperator> {
    match t {
        SpecToken::Plus => Some(BinaryOperator::Plus),
        SpecToken::Minus => Some(BinaryOperator::Minus),
        SpecToken::Multiply => Some(BinaryOperator::Multiply),
        SpecToken::Divide => Some(BinaryOperator::Divide),
        SpecToken::GreaterThan => Some(BinaryOperator::GreaterThan),
        SpecToken::GreaterThanOrEqual => Some(BinaryOperator::GreaterThanOrEqual),
        SpecToken::LessThan => Some(BinaryOperator::LessThan),
        SpecToken::LessThanOrEqual => Some(BinaryOperator::LessThanOrEqual),
        SpecToken::Equal => Some(BinaryOperator::Equal),
        SpecToken::NotEqual => Some(BinaryOperator::NotEqual),
        SpecToken::Keyword(Keyword::And) => Some(BinaryOperator::And),
        SpecToken::Keyword(Keyword::Or) => Some(BinaryOperator::Or),
        _ => None,
    }
}

fn get_precedence(t: &Token) -> (p: u8)
    ensures
        p as int == spec_precedence(t@),
{
    match t {
        Token::Keyword(Keyword::Or) => 1,
        Token::Keyword(Keyword::And) => 2,
        Token::Equal | Token::NotEqual => 3,
        Token::GreaterThan | Token::GreaterThanOrEqual | Token::LessThan
            | Token::LessThanOrEqual => 4,
        Token::Plus | Token::Minus => 5,
        Token::Multiply | Token::Divide => 6,
        _ => 0,
    }
}

fn binary_operator_of(t: &Token) -> (r: Option<BinaryOperator>)
    ensures
        r == spec_binary_operator_of(t@),
{
    match t {
        Token::Plus => Some(BinaryOperator::Plus),
        Token::Minus => Some(BinaryOperator::Minus),
        Token::Multiply => Some(BinaryOperator::Multiply),
        Token::Divide => Some(BinaryOperator::Divide),
        Token::GreaterThan => Some(BinaryOperator::GreaterThan),
        Token::GreaterThanOrEqual => Some(BinaryOperator::GreaterThanOrEqual),
        Token::LessThan => Some(BinaryOperator::LessThan),
        Token::LessThanOrEqual => Some(BinaryOperator::LessThanOrEqual),
        Token::Equal => Some(BinaryOperator::Equal),
        Token::NotEqual => Some(BinaryOperator::NotEqual),
        Token::Keyword(Keyword::And) => Some(BinaryOperator::And),
        Token::Keyword(Keyword::Or) => Some(BinaryOperator::Or),
        _ => None,
    }
}

// ---------------------------------------------------------------------------
// The outcome of a model function.
// ---------------------------------------------------------------------------

/// What a model function produced: a value together with the state after
/// it, a parse error, or the marker that the given fuel ran out (which the
/// fuel bounds rule out for executable callers).
pub enum PStep<T> {
    OutOfFuel,
    Fail(SpecParseError),
    Done(T, ParserModel),
}

// ---------------------------------------------------------------------------
// One-token steps of the grammar.
// ---------------------------------------------------------------------------

/// The current token must equal `expected`, and is consumed.
pub open spec fn sp_expect_token(s: ParserModel, expected: SpecToken) -> Result<
    ParserModel,
    SpecParseError,
> {
    match s.cur {
        Ok(t) => if t == expected {
            Ok(pm_advance(s))
        } else {
            Err(SpecParseError::ExpectedToken { expected, got: t })
        },
        Err(e) => Err(SpecParseError::Lexical(e)),
    }
}

/// The current token must be the keyword `expected`, and is consumed.
pub open spec fn sp_expect_keyword(s: ParserModel, expected: Keyword) -> Result<
    ParserModel,
    SpecParseError,
> {
    match s.cur {
        Ok(SpecToken::Keyword(k)) => if k == expected {
            Ok(pm_advance(s))
        } else {
            Err(SpecParseError::ExpectedKeyword { expected, got: SpecToken::Keyword(k) })
        },
        Ok(t) => Err(SpecParseError::ExpectedKeyword { expected, got: t }),
        Err(e) => Err(SpecParseError::Lexical(e)),
    }
}

// ---------------------------------------------------------------------------
// The expression model: precedence climbing.
// ---------------------------------------------------------------------------

/// Fuel bound for `sp_prefix`.
pub open spec fn fuel_prefix(s: ParserModel) -> int {
    8 * pm_measure(s) + 1
}

/// Fuel bound for `sp_infix`.
pub open spec fn fuel_infix(s: ParserModel) -> int {
    8 * pm_measure(s) + 1
}

/// Fuel bound for `sp_climb`.
pub open spec fn fuel_climb(s: ParserModel) -> int {
    8 * pm_measure(s) + 2
}

/// Fuel bound for `sp_infix_chain`.
pub open spec fn fuel_infix_chain(s: ParserModel) -> int {
    8 * pm_measure(s) + 2
}

/// Fuel bound for `sp_expression`.
pub open spec fn fuel_expression(s: ParserModel) -> int {
    8 * pm_measure(s) + 3
}

/// One expression in prefix position: a literal, an identifier, a
/// parenthesized expression, or a unary operator applied at the unary
/// precedence band.
#[verifier::opaque]
pub open spec fn sp_prefix(s: ParserModel, fuel: nat) -> PStep<SpecExpression>
    decreases fuel,
{
    if fuel == 0 {
        PStep::OutOfFuel
    } else {
        match s.cur {
            Ok(SpecToken::Number(n)) => PStep::Done(SpecExpression::Number(n), pm_advance(s)),
            Ok(SpecToken::String(t)) => PStep::Done(SpecExpression::String(t), pm_advance(s)),
            Ok(SpecToken::Identifier(i)) => PStep::Done(
                SpecExpression::Identifier(i),
                pm_advance(s),
            ),
            Ok(SpecToken::Keyword(Keyword::True)) => PStep::Done(
                SpecExpression::Bool(true),
                pm_advance(s),
            ),
            Ok(SpecToken::Keyword(Keyword::False)) => PStep::Done(
                SpecExpression::Bool(false),
                pm_advance(s),
            ),
            Ok(SpecToken::LeftParentheses) => {
                match sp_expression(pm_advance(s), (fuel - 1) as nat) {
                    PStep::Done(e, s2) => match s2.cur {
                        Ok(SpecToken::RightParentheses) => PStep::Done(e, pm_advance(s2)),
                        Ok(t) => PStep::Fail(SpecParseError::ExpectedRightParentheses(t)),
                        Err(le) => PStep::Fail(SpecParseError::Lexical(le)),
                    },
                    PStep::Fail(e) => PStep::Fail(e),
                    PStep::OutOfFuel => PStep::OutOfFuel,
                }
            },
            Ok(SpecToken::Minus) => match sp_climb(pm_advance(s), 7, (fuel - 1) as nat) {
                PStep::Done(e, s2) => PStep::Done(
                    SpecExpression::UnaryOperation {
                        operator: UnaryOperator::Minus,
                        operand: Box::new(e),
                    },
                    s2,
                ),
                PStep::Fail(e) => PStep::Fail(e),
                PStep::OutOfFuel => PStep::OutOfFuel,
            },
            Ok(SpecToken::Plus) => match sp_climb(pm_advance(s), 7, (fuel - 1) as nat) {
                PStep::Done(e, s2) => PStep::Done(
                    SpecExpression::UnaryOperation {
                        operator: UnaryOperator::Plus,
                        operand: Box::new(e),
                    },
                    s2,
                ),
                PStep::Fail(e) => PStep::Fail(e),
                PStep::OutOfFuel => PStep::OutOfFuel,
            },
            Ok(SpecToken::Keyword(Keyword::Not)) => match sp_climb(
                pm_advance(s),
                7,
                (fuel - 1) as nat,
            ) {
                PStep::Done(e, s2) => PStep::Done(
                    SpecExpression::UnaryOperation {
                        operator: UnaryOperator::Not,
                        operand: Box::new(e),
                    },
                    s2,
                ),
                PStep::Fail(e) => PStep::Fail(e),
                PStep::OutOfFuel => PStep::OutOfFuel,
            },
            Ok(SpecToken::Eof) => PStep::Fail(SpecParseError::UnexpectedEndOfInput),
            Ok(t) => PStep::Fail(SpecParseError::UnexpectedTokenInPrefix(t)),
            Err(le) => PStep::Fail(SpecParseError::Lexical(le)),
        }
    }
}

/// One infix application: consume the operator, parse the right operand at
/// the operator's own precedence (which yields left-associative grouping),
/// and combine.
#[verifier::opaque]
pub open spec fn sp_infix(s: ParserModel, left: SpecExpression, fuel: nat) -> PStep<SpecExpression>
    decreases fuel,
{
    if fuel == 0 {
        PStep::OutOfFuel
    } else {
        match s.cur {
            Ok(t) => match sp_climb(pm_advance(s), spec_precedence(t), (fuel - 1) as nat) {
                PStep::Done(right, s2) => match spec_binary_operator_of(t) {
                    Some(op) => PStep::Done(
                        SpecExpression::BinaryOperation {
                            left_operand: Box::new(left),
                            operator: op,
                            right_operand: Box::new(right),
                        },
                        s2,
                    ),
                    None => PStep::Fail(SpecParseError::InvalidInfixOperator(t)),
                },
                PStep::Fail(e) => PStep::Fail(e),
                PStep::OutOfFuel => PStep::OutOfFuel,
            },
            Err(le) => PStep::Fail(SpecParseError::Lexical(le)),
        }
    }
}

/// The climbing loop: as long as the current token is an infix operator
/// whose precedence is strictly above the threshold, apply it to the left
/// operand; otherwise stop.
#[verifier::opaque]
pub open spec fn sp_infix_chain(
    s: ParserModel,
    left: SpecExpression,
    min_prec: int,
    fuel: nat,
) -> PStep<SpecExpression>
    decreases fuel,
{
    if fuel == 0 {
        PStep::OutOfFuel
    } else {
        match s.cur {
            Ok(t) => if spec_precedence(t) > min_prec {
                match sp_infix(s, left, (fuel - 1) as nat) {
                    PStep::Done(left2, s2) => sp_infix_chain(s2, left2, min_prec, (fuel - 1) as nat),
                    PStep::Fail(e) => PStep::Fail(e),
                    PStep::OutOfFuel => PStep::OutOfFuel,
                }
            } else {
                PStep::Done(left, s)
            },
            Err(_) => PStep::Done(left, s),
        }
    }
}

/// One expression at the given precedence threshold: a prefix, then the
/// climbing loop.
#[verifier::opaque]
pub open spec fn sp_climb(s: ParserModel, min_prec: int, fuel: nat) -> PStep<SpecExpression>
    decreases fuel,
{
    if fuel == 0 {
        PStep::OutOfFuel
    } else {
        match sp_prefix(s, (fuel - 1) as nat) {
            PStep::Done(left, s1) => sp_infix_chain(s1, left, min_prec, (fuel - 1) as nat),
            PStep::Fail(e) => PStep::Fail(e),
            PStep::OutOfFuel => PStep::OutOfFuel,
        }
    }
}

/// One full expression: the climb started below every operator band.
#[verifier::opaque]
pub open spec fn sp_expression(s: ParserModel, fuel: nat) -> PStep<SpecExpression>
    decreases fuel,
{
    if fuel == 0 {
        PStep::OutOfFuel
    } else {
        sp_climb(s, 0, (fuel - 1) as nat)
    }
}

// ---------------------------------------------------------------------------
// The statement model: recursive descent.
// ---------------------------------------------------------------------------

/// Fuel bound for `sp_order_by_expr`.
pub open spec fn fuel_order_by_expr(s: ParserModel) -> int {
    8 * pm_measure(s) + 4
}

/// Fuel bound for `sp_select_columns`.
pub open spec fn fuel_select_columns(s: ParserModel) -> int {
    8 * pm_measure(s) + 4
}

/// Fuel bound for `sp_order_by_list`.
pub open spec fn fuel_order_by_list(s: ParserModel) -> int {
    8 * pm_measure(s) + 5
}

/// Fuel bound for `sp_constraints`.
pub open spec fn fuel_constraints(s: ParserModel) -> int {
    8 * pm_measure(s) + 1
}

/// Fuel bound for `sp_column_definition`.
pub open spec fn fuel_column_definition(s: ParserModel) -> int {
    8 * pm_measure(s) + 1
}

/// Fuel bound for `sp_column_list`.
pub open spec fn fuel_column_list(s: ParserModel) -> int {
    8 * pm_measure(s) + 2
}

/// Fuel bound for `sp_select_orderby`.
pub open spec fn fuel_select_orderby(s: ParserModel) -> int {
    8 * pm_measure(s) + 1
}

/// Fuel bound for `sp_select_rest`.
pub open spec fn fuel_select_rest(s: ParserModel) -> int {
    8 * pm_measure(s) + 1
}

/// Fuel bound for `sp_select`.
pub open spec fn fuel_select(s: ParserModel) -> int {
    8 * pm_measure(s) + 1
}

/// Fuel bound for `sp_create_table`.
pub open spec fn fuel_create_table(s: ParserModel) -> int {
    8 * pm_measure(s) + 1
}

/// Fuel bound for `sp_statement`.
pub open spec fn fuel_statement(s: ParserModel) -> int {
    8 * pm_measure(s) + 2
}

/// One `ORDER BY` element: an expression, optionally suffixed by `ASC` or
/// `DESC`, which wrap it as a unary node; a bare expression is left bare.
#[verifier::opaque]
pub open spec fn sp_order_by_expr(s: ParserModel, fuel: nat) -> PStep<SpecExpression>
    decreases fuel,
{
    if fuel == 0 {
        PStep::OutOfFuel
    } else {
        match sp_expression(s, (fuel - 1) as nat) {
            PStep::Done(e, s1) => match s1.cur {
                Ok(SpecToken::Keyword(Keyword::Asc)) => PStep::Done(
                    SpecExpression::UnaryOperation {
                        operator: UnaryOperator::Asc,
                        operand: Box::new(e),
                    },
                    pm_advance(s1),
                ),
                Ok(SpecToken::Keyword(Keyword::Desc)) => PStep::Done(
                    SpecExpression::UnaryOperation {
                        operator: UnaryOperator::Desc,
                        operand: Box::new(e),
                    },
                    pm_advance(s1),
                ),
                _ => PStep::Done(e, s1),
            },
            PStep::Fail(e) => PStep::Fail(e),
            PStep::OutOfFuel => PStep::OutOfFuel,
        }
    }
}

/// The comma-separated, non-empty column list of a `SELECT`, ended by the
/// `FROM` keyword, which is left unconsumed.
#[verifier::opaque]
pub open spec fn sp_select_columns(s: ParserModel, fuel: nat) -> PStep<Seq<SpecExpression>>
    decreases fuel,
{
    if fuel == 0 {
        PStep::OutOfFuel
    } else {
        match sp_expression(s, (fuel - 1) as nat) {
            PStep::Done(e, s1) => match s1.cur {
                Ok(SpecToken::Comma) => match sp_select_columns(pm_advance(s1), (fuel - 1) as nat) {
                    PStep::Done(rest, s2) => PStep::Done(seq![e] + rest, s2),
                    PStep::Fail(err) => PStep::Fail(err),
                    PStep::OutOfFuel => PStep::OutOfFuel,
                },
                Ok(SpecToken::Keyword(Keyword::From)) => PStep::Done(seq![e], s1),
                Ok(t) => PStep::Fail(SpecParseError::ExpectedFromOrComma(t)),
                Err(le) => PStep::Fail(SpecParseError::Lexical(le)),
            },
            PStep::Fail(e) => PStep::Fail(e),
            PStep::OutOfFuel => PStep::OutOfFuel,
        }
    }
}

/// The comma-separated, non-empty `ORDER BY` list, ended by the semicolon,
/// which is left unconsumed.
#[verifier::opaque]
pub open spec fn sp_order_by_list(s: ParserModel, fuel: nat) -> PStep<Seq<SpecExpression>>
    decreases fuel,
{
    if fuel == 0 {
        PStep::OutOfFuel
    } else {
        match sp_order_by_expr(s, (fuel - 1) as nat) {
            PStep::Done(e, s1) => match s1.cur {
                Ok(SpecToken::Comma) => match sp_order_by_list(pm_advance(s1), (fuel - 1) as nat) {
                    PStep::Done(rest, s2) => PStep::Done(seq![e] + rest, s2),
                    PStep::Fail(err) => PStep::Fail(err),
                    PStep::OutOfFuel => PStep::OutOfFuel,
                },
                Ok(SpecToken::Semicolon) => PStep::Done(seq![e], s1),
                Ok(t) => PStep::Fail(SpecParseError::ExpectedSemicolonOrComma(t)),
                Err(le) => PStep::Fail(SpecParseError::Lexical(le)),
            },
            PStep::Fail(e) => PStep::Fail(e),
            PStep::OutOfFuel => PStep::OutOfFuel,
        }
    }
}

/// Zero or more column constraints, read by single-token dispatch until a
/// non-constraint token is seen (which is left unconsumed): `PRIMARY KEY`,
/// `NOT NULL`, or `CHECK (` expression `)`.
#[verifier::opaque]
pub open spec fn sp_constraints(s: ParserModel, fuel: nat) -> PStep<Seq<SpecConstraint>>
    decreases fuel,
{
    if fuel == 0 {
        PStep::OutOfFuel
    } else {
        match s.cur {
            Ok(SpecToken::Keyword(Keyword::Primary)) => {
                let s1 = pm_advance(s);
                match s1.cur {
                    Ok(SpecToken::Keyword(Keyword::Key)) => match sp_constraints(
                        pm_advance(s1),
                        (fuel - 1) as nat,
                    ) {
                        PStep::Done(rest, s2) => PStep::Done(
                            seq![SpecConstraint::PrimaryKey] + rest,
                            s2,
                        ),
                        PStep::Fail(err) => PStep::Fail(err),
                        PStep::OutOfFuel => PStep::OutOfFuel,
                    },
                    Ok(t) => PStep::Fail(SpecParseError::ExpectedKeyAfterPrimary(t)),
                    Err(le) => PStep::Fail(SpecParseError::Lexical(le)),
                }
            },
            Ok(SpecToken::Keyword(Keyword::Not)) => {
                let s1 = pm_advance(s);
                match s1.cur {
                    Ok(SpecToken::Keyword(Keyword::Null)) => match sp_constraints(
                        pm_advance(s1),
                        (fuel - 1) as nat,
                    ) {
                        PStep::Done(rest, s2) => PStep::Done(
                            seq![SpecConstraint::NotNull] + rest,
                            s2,
                        ),
                        PStep::Fail(err) => PStep::Fail(err),
                        PStep::OutOfFuel => PStep::OutOfFuel,
                    },
                    Ok(t) => PStep::Fail(SpecParseError::ExpectedNullAfterNot(t)),
                    Err(le) => PStep::Fail(SpecParseError::Lexical(le)),
                }
            },
            Ok(SpecToken::Keyword(Keyword::Check)) => {
                let s1 = pm_advance(s);
                match s1.cur {
                    Ok(SpecToken::LeftParentheses) => match sp_expression(
                        pm_advance(s1),
                        (fuel - 1) as nat,
                    ) {
                        PStep::Done(e, s3) => match s3.cur {
                            Ok(SpecToken::RightParentheses) => match sp_constraints(
                                pm_advance(s3),
                                (fuel - 1) as nat,
                            ) {
                                PStep::Done(rest, s4) => PStep::Done(
                                    seq![SpecConstraint::Check(e)] + rest,
                                    s4,
                                ),
                                PStep::Fail(err) => PStep::Fail(err),
                                PStep::OutOfFuel => PStep::OutOfFuel,
                            },
                            Ok(t) => PStep::Fail(
                                SpecParseError::ExpectedRightParenthesesAfterCheck(t),
                            ),
                            Err(le) => PStep::Fail(SpecParseError::Lexical(le)),
                        },
                        PStep::Fail(err) => PStep::Fail(err),
                        PStep::OutOfFuel => PStep::OutOfFuel,
                    },
                    Ok(t) => PStep::Fail(SpecParseError::ExpectedLeftParenthesesAfterCheck(t)),
                    Err(le) => PStep::Fail(SpecParseError::Lexical(le)),
                }
            },
            _ => PStep::Done(Seq::<SpecConstraint>::empty(), s),
        }
    }
}

/// The constraints of a column definition whose name and type have been
/// read, assembled into the column.
#[verifier::opaque]
pub open spec fn sp_column_tail(
    name: Seq<char>,
    column_type: DBType,
    s: ParserModel,
    fuel: nat,
) -> PStep<SpecTableColumn>
    decreases fuel,
{
    if fuel == 0 {
        PStep::OutOfFuel
    } else {
        match sp_constraints(s, (fuel - 1) as nat) {
            PStep::Done(cs, s1) => PStep::Done(
                SpecTableColumn { column_name: name, column_type, constraints: cs },
                s1,
            ),
            PStep::Fail(err) => PStep::Fail(err),
            PStep::OutOfFuel => PStep::OutOfFuel,
        }
    }
}

/// One column definition: a name, a type (`INT`, `BOOL`, or `VARCHAR`
/// with a parenthesized length), then constraints.
#[verifier::opaque]
pub open spec fn sp_column_definition(s: ParserModel, fuel: nat) -> PStep<SpecTableColumn>
    decreases fuel,
{
    if fuel == 0 {
        PStep::OutOfFuel
    } else {
        match s.cur {
            Ok(SpecToken::Identifier(name)) => {
                let s1 = pm_advance(s);
                match s1.cur {
                    Ok(SpecToken::Keyword(Keyword::Int)) => sp_column_tail(
                        name,
                        DBType::Int,
                        pm_advance(s1),
                        (fuel - 1) as nat,
                    ),
                    Ok(SpecToken::Keyword(Keyword::Bool)) => sp_column_tail(
                        name,
                        DBType::Bool,
                        pm_advance(s1),
                        (fuel - 1) as nat,
                    ),
                    Ok(SpecToken::Keyword(Keyword::Varchar)) => {
                        let s2 = pm_advance(s1);
                        match s2.cur {
                            Ok(SpecToken::LeftParentheses) => {
                                let s3 = pm_advance(s2);
                                match s3.cur {
                                    Ok(SpecToken::Number(n)) => {
                                        let s4 = pm_advance(s3);
                                        match s4.cur {
                                            Ok(SpecToken::RightParentheses) => sp_column_tail(
                                                name,
                                                DBType::Varchar(n),
                                                pm_advance(s4),
                                                (fuel - 1) as nat,
                                            ),
                                            Ok(t) => PStep::Fail(
                                                SpecParseError::ExpectedRightParenthesesAfterVarcharLength(
                                                    t,
                                                ),
                                            ),
                                            Err(le) => PStep::Fail(SpecParseError::Lexical(le)),
                                        }
                                    },
                                    Ok(t) => PStep::Fail(SpecParseError::ExpectedVarcharLength(t)),
                                    Err(le) => PStep::Fail(SpecParseError::Lexical(le)),
                                }
                            },
                            Ok(t) => PStep::Fail(
                                SpecParseError::ExpectedLeftParenthesesAfterVarchar(t),
                            ),
                            Err(le) => PStep::Fail(SpecParseError::Lexical(le)),
                        }
                    },
                    Ok(t) => PStep::Fail(SpecParseError::ExpectedColumnType(t)),
                    Err(le) => PStep::Fail(SpecParseError::Lexical(le)),
                }
            },
            Ok(t) => PStep::Fail(SpecParseError::ExpectedColumnName(t)),
            Err(le) => PStep::Fail(SpecParseError::Lexical(le)),
        }
    }
}

/// The comma-separated, non-empty column-definition list of a
/// `CREATE TABLE`, ended by a closing parenthesis, which is left
/// unconsumed.
#[verifier::opaque]
pub open spec fn sp_column_list(s: ParserModel, fuel: nat) -> PStep<Seq<SpecTableColumn>>
    decreases fuel,
{
    if fuel == 0 {
        PStep::OutOfFuel
    } else {
        match sp_column_definition(s, (fuel - 1) as nat) {
            PStep::Done(col, s1) => match s1.cur {
                Ok(SpecToken::Comma) => match sp_column_list(pm_advance(s1), (fuel - 1) as nat) {
                    PStep::Done(rest, s2) => PStep::Done(seq![col] + rest, s2),
                    PStep::Fail(err) => PStep::Fail(err),
                    PStep::OutOfFuel => PStep::OutOfFuel,
                },
                Ok(SpecToken::RightParentheses) => PStep::Done(seq![col], s1),
                Ok(t) => PStep::Fail(SpecParseError::ExpectedCommaOrRightParentheses(t)),
                Err(le) => PStep::Fail(SpecParseError::Lexical(le)),
            },
            PStep::Fail(e) => PStep::Fail(e),
            PStep::OutOfFuel => PStep::OutOfFuel,
        }
    }
}

/// The mandatory closing semicolon of a `SELECT`, and the assembled
/// statement.
pub open spec fn sp_select_finish(
    columns: Seq<SpecExpression>,
    from: Seq<char>,
    where_clause: Option<SpecExpression>,
    orderby: Seq<SpecExpression>,
    s: ParserModel,
) -> PStep<SpecStatement> {
    match sp_expect_token(s, SpecToken::Semicolon) {
        Ok(s1) => PStep::Done(
            SpecStatement::Select { columns, from, where_clause, orderby },
            s1,
        ),
        Err(e) => PStep::Fail(e),
    }
}

/// The optional `ORDER BY` clause of a `SELECT`, then the finish.
#[verifier::opaque]
pub open spec fn sp_select_orderby(
    columns: Seq<SpecExpression>,
    from: Seq<char>,
    where_clause: Option<SpecExpression>,
    s: ParserModel,
    fuel: nat,
) -> PStep<SpecStatement>
    decreases fuel,
{
    if fuel == 0 {
        PStep::OutOfFuel
    } else {
        match s.cur {
            Ok(SpecToken::Keyword(Keyword::Order)) => {
                let s1 = pm_advance(s);
                match sp_expect_keyword(s1, Keyword::By) {
                    Ok(s2) => match sp_order_by_list(s2, (fuel - 1) as nat) {
                        PStep::Done(obs, s3) => sp_select_finish(
                            columns,
                            from,
                            where_clause,
                            obs,
                            s3,
                        ),
                        PStep::Fail(err) => PStep::Fail(err),
                        PStep::OutOfFuel => PStep::OutOfFuel,
                    },
                    Err(e) => PStep::Fail(e),
                }
            },
            _ => sp_select_finish(
                columns,
                from,
                where_clause,
                Seq::<SpecExpression>::empty(),
                s,
            ),
        }
    }
}

/// Everything of a `SELECT` after its column list: the mandatory `FROM`
/// and table name, the optional `WHERE` expression, then the `ORDER BY`
/// clause and the semicolon.
#[verifier::opaque]
pub open spec fn sp_select_rest(
    columns: Seq<SpecExpression>,
    s: ParserModel,
    fuel: nat,
) -> PStep<SpecStatement>
    decreases fuel,
{
    if fuel == 0 {
        PStep::OutOfFuel
    } else {
        match sp_expect_keyword(s, Keyword::From) {
            Ok(s1) => match s1.cur {
                Ok(SpecToken::Identifier(name)) => {
                    let s2 = pm_advance(s1);
                    match s2.cur {
                        Ok(SpecToken::Keyword(Keyword::Where)) => match sp_expression(
                            pm_advance(s2),
                            (fuel - 1) as nat,
                        ) {
                            PStep::Done(w, s4) => sp_select_orderby(
                                columns,
                                name,
                                Some(w),
                                s4,
                                (fuel - 1) as nat,
                            ),
                            PStep::Fail(err) => PStep::Fail(err),
                            PStep::OutOfFuel => PStep::OutOfFuel,
                        },
                        _ => sp_select_orderby(columns, name, None, s2, (fuel - 1) as nat),
                    }
                },
                Ok(t) => PStep::Fail(SpecParseError::ExpectedTableName(t)),
                Err(le) => PStep::Fail(SpecParseError::Lexical(le)),
            },
            Err(e) => PStep::Fail(e),
        }
    }
}

/// Fuel bound for `sp_select_from_columns`.
pub open spec fn fuel_select_from_columns(s: ParserModel) -> int {
    8 * pm_measure(s) + 5
}

/// A `SELECT` without the `*` shorthand: its column list, then the rest.
#[verifier::opaque]
pub open spec fn sp_select_from_columns(s: ParserModel, fuel: nat) -> PStep<SpecStatement>
    decreases fuel,
{
    if fuel == 0 {
        PStep::OutOfFuel
    } else {
        match sp_select_columns(s, (fuel - 1) as nat) {
            PStep::Done(cols, s2) => sp_select_rest(cols, s2, (fuel - 1) as nat),
            PStep::Fail(e) => PStep::Fail(e),
            PStep::OutOfFuel => PStep::OutOfFuel,
        }
    }
}

/// Fuel bound for `sp_select_star`.
pub open spec fn fuel_select_star(s: ParserModel) -> int {
    8 * pm_measure(s) + 1
}

/// A `SELECT` with the `*` shorthand, the `*` still unconsumed: its one
/// column is the identifier `*`.
#[verifier::opaque]
pub open spec fn sp_select_star(s: ParserModel, fuel: nat) -> PStep<SpecStatement>
    decreases fuel,
{
    if fuel == 0 {
        PStep::OutOfFuel
    } else {
        sp_select_rest(seq![SpecExpression::Identifier("*"@)], pm_advance(s), (fuel - 1) as nat)
    }
}

/// A `SELECT` statement, its leading keyword still unconsumed: either the
/// `*` shorthand (one column, the identifier `*`) or a column list, then
/// the rest.
#[verifier::opaque]
pub open spec fn sp_select(s: ParserModel, fuel: nat) -> PStep<SpecStatement>
    decreases fuel,
{
    if fuel == 0 {
        PStep::OutOfFuel
    } else {
        let s1 = pm_advance(s);
        match s1.cur {
            Ok(SpecToken::Multiply) => sp_select_star(s1, (fuel - 1) as nat),
            _ => sp_select_from_columns(s1, (fuel - 1) as nat),
        }
    }
}

/// A `CREATE TABLE` statement, its leading keyword still unconsumed: the
/// `TABLE` keyword, a table name, a parenthesized column-definition list,
/// and the semicolon.
#[verifier::opaque]
pub open spec fn sp_create_table(s: ParserModel, fuel: nat) -> PStep<SpecStatement>
    decreases fuel,
{
    if fuel == 0 {
        PStep::OutOfFuel
    } else {
        let s1 = pm_advance(s);
        match sp_expect_keyword(s1, Keyword::Table) {
            Ok(s2) => match s2.cur {
                Ok(SpecToken::Identifier(name)) => {
                    let s3 = pm_advance(s2);
                    match sp_expect_token(s3, SpecToken::LeftParentheses) {
                        Ok(s4) => match sp_column_list(s4, (fuel - 1) as nat) {
                            PStep::Done(cols, s5) => match sp_expect_token(
                                s5,
                                SpecToken::RightParentheses,
                            ) {
                                Ok(s6) => match sp_expect_token(s6, SpecToken::Semicolon) {
                                    Ok(s7) => PStep::Done(
                                        SpecStatement::CreateTable {
                                            table_name: name,
                                            column_list: cols,
                                        },
                                        s7,
                                    ),
                                    Err(e) => PStep::Fail(e),
                                },
                                Err(e) => PStep::Fail(e),
                            },
                            PStep::Fail(err) => PStep::Fail(err),
                            PStep::OutOfFuel => PStep::OutOfFuel,
                        },
                        Err(e) => PStep::Fail(e),
                    }
                },
                Ok(t) => PStep::Fail(SpecParseError::ExpectedTableName(t)),
                Err(le) => PStep::Fail(SpecParseError::Lexical(le)),
            },
            Err(e) => PStep::Fail(e),
        }
    }
}

/// One statement: `SELECT` or `CREATE`, decided by the current token.
#[verifier::opaque]
pub open spec fn sp_statement(s: ParserModel, fuel: nat) -> PStep<SpecStatement>
    decreases fuel,
{
    if fuel == 0 {
        PStep::OutOfFuel
    } else {
        match s.cur {
            Ok(SpecToken::Keyword(Keyword::Select)) => sp_select(s, (fuel - 1) as nat),
            Ok(SpecToken::Keyword(Keyword::Create)) => sp_create_table(s, (fuel - 1) as nat),
            Ok(t) => PStep::Fail(SpecParseError::ExpectedSelectOrCreate(t)),
            Err(le) => PStep::Fail(SpecParseError::Lexical(le)),
        }
    }
}

/// What a whole parse of `text` yields. The fuel given is the bound that
/// `Parser::parse_statement` proves sufficient, so the out-of-fuel arm is
/// never taken.
pub open spec fn spec_parse(text: Seq<char>) -> Result<SpecStatement, SpecParseError> {
    let s = pm_init(text);
    match sp_statement(s, fuel_statement(s) as nat) {
        PStep::Done(st, s1) => Ok(st),
        PStep::Fail(e) => Err(e),
        PStep::OutOfFuel => Err(SpecParseError::UnexpectedEndOfInput),
    }
}

// ---------------------------------------------------------------------------
// Views packing an executable result together with the state after it, for
// comparison against a model outcome.
// ---------------------------------------------------------------------------

/// The view of an optional expression.
pub open spec fn option_expression_view(o: Option<Expression>) -> Option<SpecExpression> {
    match o {
        Some(e) => Some(e@),
        None => None,
    }
}

/// The model outcome matching an executable statement result.
pub open spec fn pack_statement(r: Result<Statement, ParseError>, s: ParserModel) -> PStep<
    SpecStatement,
> {
    match r {
        Ok(st) => PStep::Done(st@, s),
        Err(e) => PStep::Fail(e@),
    }
}

/// The model outcome matching an executable expression-list result.
pub open spec fn pack_expressions(r: Result<Vec<Expression>, ParseError>, s: ParserModel) -> PStep<
    Seq<SpecExpression>,
> {
    match r {
        Ok(v) => PStep::Done(spec_expressions_view(v@), s),
        Err(e) => PStep::Fail(e@),
    }
}

/// The model outcome matching an executable column result.
pub open spec fn pack_column(r: Result<TableColumn, ParseError>, s: ParserModel) -> PStep<
    SpecTableColumn,
> {
    match r {
        Ok(c) => PStep::Done(c@, s),
        Err(e) => PStep::Fail(e@),
    }
}

/// The model outcome matching an executable column-list result.
pub open spec fn pack_columns(r: Result<Vec<TableColumn>, ParseError>, s: ParserModel) -> PStep<
    Seq<SpecTableColumn>,
> {
    match r {
        Ok(v) => PStep::Done(v@.map_values(|c: TableColumn| c@), s),
        Err(e) => PStep::Fail(e@),
    }
}

/// The model outcome matching an executable constraint-list result.
pub open spec fn pack_constraints(r: Result<Vec<Constraint>, ParseError>, s: ParserModel) -> PStep<
    Seq<SpecConstraint>,
> {
    match r {
        Ok(v) => PStep::Done(v@.map_values(|c: Constraint| c@), s),
        Err(e) => PStep::Fail(e@),
    }
}

/// The model outcome matching an executable expression result.
pub open spec fn pack_expression(r: Result<Expression, ParseError>, s: ParserModel) -> PStep<
    SpecExpression,
> {
    match r {
        Ok(e) => PStep::Done(e@, s),
        Err(e) => PStep::Fail(e@),
    }
}

// ---------------------------------------------------------------------------
// The executable parser.
// ---------------------------------------------------------------------------

/// Parses one statement from the tokens of a `Tokenizer`, holding one
/// token of lookahead. Every parsing method follows its model function
/// exactly; see `sp_statement` and the functions it relies on.
pub struct Parser<'a> {
    tokenizer: Tokenizer<'a>,
    current: Result<Token, LexError>,
}

impl<'a> View for Parser<'a> {
    type V = ParserModel;

    closed spec fn view(&self) -> ParserModel {
        ParserModel {
            text: self.tokenizer.input(),
            pos: self.tokenizer.position(),
            cur: cur_view(self.current),
        }
    }
}

impl<'a> Parser<'a> {
    /// The tokenizer's cursor stays inside the input.
    pub closed spec fn wf(&self) -> bool {
        self.tokenizer.wf()
    }

    /// A parser over the given tokenizer, with the first token loaded.
    pub fn new(tokenizer: Tokenizer<'a>) -> (p: Parser<'a>)
        requires
            tokenizer.wf(),
        ensures
            p.wf(),
            p@ == pm_advance(
                ParserModel {
                    text: tokenizer.input(),
                    pos: tokenizer.position(),
                    cur: Ok(SpecToken::Eof),
                },
            ),
    {
        let mut p = Parser { tokenizer, current: Ok(Token::Eof) };
        p.advance();
        p
    }

    /// Loads the next token as the current one, following `pm_advance`.
    fn advance(&mut self)
        requires
            old(self).wf(),
        ensures
            final(self).wf(),
            final(self)@ == pm_advance(old(self)@),
            pm_measure(final(self)@) <= pm_measure(old(self)@),
            live_token(old(self)@.cur) ==> pm_measure(final(self)@) < pm_measure(old(self)@),
    {
        proof {
            lemma_lex_step_bounds(self.tokenizer.input(), self.tokenizer.position());
        }
        let t = self.tokenizer.next_token();
        self.current = t;
    }

    /// Moves the current token out, leaving the `Eof` sentinel in its
    /// place. The cursor does not move.
    fn take_current(&mut self) -> (r: Result<Token, LexError>)
        requires
            old(self).wf(),
        ensures
            final(self).wf(),
            cur_view(r) == old(self)@.cur,
            final(self)@.text == old(self)@.text,
            final(self)@.pos == old(self)@.pos,
            final(self)@.cur == Ok::<SpecToken, LexError>(SpecToken::Eof),
            pm_measure(final(self)@) <= pm_measure(old(self)@),
    {
        let mut taken: Result<Token, LexError> = Ok(Token::Eof);
        core::mem::swap(&mut taken, &mut self.current);
        taken
    }

    /// The current token must equal `expected`, and is consumed; relied on
    /// by the statement rules for mandatory punctuation.
    fn expect_token(&mut self, expected: Token) -> (r: Result<(), ParseError>)
        requires
            old(self).wf(),
        ensures
            final(self).wf(),
            final(self)@.text == old(self)@.text,
            pm_measure(final(self)@) <= pm_measure(old(self)@),
            match r {
                Ok(_) => sp_expect_token(old(self)@, expected@) == Ok::<
                    ParserModel,
                    SpecParseError,
                >(final(self)@),
                Err(e) => sp_expect_token(old(self)@, expected@) == Err::<
                    ParserModel,
                    SpecParseError,
                >(e@),
            },
    {
        let cur = self.take_current();
        match cur {
            Ok(t) => {
                if crate::token::token_eq(&t, &expected) {
                    self.advance();
                    Ok(())
                } else {
                    Err(ParseError::ExpectedToken { expected, got: t })
                }
            },
            Err(e) => Err(ParseError::Lexical(e)),
        }
    }

    /// The current token must be the keyword `expected`, and is consumed.
    fn expect_keyword(&mut self, expected: Keyword) -> (r: Result<(), ParseError>)
        requires
            old(self).wf(),
        ensures
            final(self).wf(),
            final(self)@.text == old(self)@.text,
            pm_measure(final(self)@) <= pm_measure(old(self)@),
            match r {
                Ok(_) => sp_expect_keyword(old(self)@, expected) == Ok::<
                    ParserModel,
                    SpecParseError,
                >(final(self)@),
                Err(e) => sp_expect_keyword(old(self)@, expected) == Err::<
                    ParserModel,
                    SpecParseError,
                >(e@),
            },
    {
        let cur = self.take_current();
        match cur {
            Ok(Token::Keyword(k)) => {
                if k == expected {
                    self.advance();
                    Ok(())
                } else {
                    Err(ParseError::ExpectedKeyword { expected, got: Token::Keyword(k) })
                }
            },
            Ok(t) => Err(ParseError::ExpectedKeyword { expected, got: t }),
            Err(e) => Err(ParseError::Lexical(e)),
        }
    }

    /// One expression in prefix position; follows `sp_prefix`.
    fn parse_prefix(&mut self) -> (r: Result<Expression, ParseError>)
        requires
            old(self).wf(),
        ensures
            final(self).wf(),
            final(self)@.text == old(self)@.text,
            pm_measure(final(self)@) <= pm_measure(old(self)@),
            r is Ok ==> pm_measure(final(self)@) < pm_measure(old(self)@),
            forall|fuel: nat|
                fuel >= fuel_prefix(old(self)@) ==> sp_prefix(old(self)@, fuel) == pack_expression(
                    r,
                    final(self)@,
                ),
        decreases 8 * pm_measure(self@),
    {
        reveal(sp_prefix);
        reveal(sp_infix);
        reveal(sp_infix_chain);
        reveal(sp_climb);
        reveal(sp_expression);
        reveal(sp_prefix);
        reveal(sp_infix);
        reveal(sp_infix_chain);
        reveal(sp_climb);
        reveal(sp_expression);
        reveal(sp_prefix);
        reveal(sp_infix);
        reveal(sp_infix_chain);
        reveal(sp_climb);
        reveal(sp_expression);
        reveal(sp_prefix);
        reveal(sp_infix);
        reveal(sp_infix_chain);
        reveal(sp_climb);
        reveal(sp_expression);
        reveal(sp_prefix);
        reveal(sp_infix);
        reveal(sp_infix_chain);
        reveal(sp_climb);
        reveal(sp_expression);
        let ghost s0 = self@;
        let cur = self.take_current();
        match cur {
            Ok(Token::Number(n)) => {
                self.advance();
                proof {
                    assert(self@ == pm_advance(s0));
                }
                Ok(Expression::Number(n))
            },
            Ok(Token::String(t)) => {
                self.advance();
                proof {
                    assert(self@ == pm_advance(s0));
                }
                Ok(Expression::String(t))
            },
            Ok(Token::Identifier(i)) => {
                self.advance();
                proof {
                    assert(self@ == pm_advance(s0));
                }
                Ok(Expression::Identifier(i))
            },
            Ok(Token::Keyword(Keyword::True)) => {
                self.advance();
                proof {
                    assert(self@ == pm_advance(s0));
                }
                Ok(Expression::Bool(true))
            },
            Ok(Token::Keyword(Keyword::False)) => {
                self.advance();
                proof {
                    assert(self@ == pm_advance(s0));
                }
                Ok(Expression::Bool(false))
            },
            Ok(Token::LeftParentheses) => {
                self.advance();
                proof {
                    assert(self@ == pm_advance(s0));
                }
                let ghost s1 = self@;
                match self.parse_expression() {
                    Ok(e) => {
                        let ghost ev = e@;
                        let ghost s2 = self@;
                        let cur2 = self.take_current();
                        match cur2 {
                            Ok(Token::RightParentheses) => {
                                self.advance();
                                proof {
                                    assert(self@ == pm_advance(s2));
                                    assert forall|fuel: nat| fuel >= fuel_prefix(s0) implies
                                        sp_prefix(s0, fuel) == PStep::<SpecExpression>::Done(
                                            ev,
                                            self@,
                                        ) by {
                                        reveal(sp_prefix);
                                        reveal(sp_infix);
                                        reveal(sp_infix_chain);
                                        reveal(sp_climb);
                                        reveal(sp_expression);
                                        assert((fuel - 1) as nat >= fuel_expression(s1));
                                        assert(sp_expression(s1, (fuel - 1) as nat)
                                            == PStep::<SpecExpression>::Done(ev, s2));
                                    }
                                }
                                Ok(e)
                            },
                            Ok(t) => {
                                let ghost tv = t@;
                                proof {
                                    assert forall|fuel: nat| fuel >= fuel_prefix(s0) implies
                                        sp_prefix(s0, fuel) == PStep::<SpecExpression>::Fail(
                                            SpecParseError::ExpectedRightParentheses(tv),
                                        ) by {
                                        reveal(sp_prefix);
                                        reveal(sp_infix);
                                        reveal(sp_infix_chain);
                                        reveal(sp_climb);
                                        reveal(sp_expression);
                                        assert((fuel - 1) as nat >= fuel_expression(s1));
                                        assert(sp_expression(s1, (fuel - 1) as nat)
                                            == PStep::<SpecExpression>::Done(ev, s2));
                                    }
                                }
                                Err(ParseError::ExpectedRightParentheses(t))
                            },
                            Err(le) => {
                                proof {
                                    assert forall|fuel: nat| fuel >= fuel_prefix(s0) implies
                                        sp_prefix(s0, fuel) == PStep::<SpecExpression>::Fail(
                                            SpecParseError::Lexical(le),
                                        ) by {
                                        reveal(sp_prefix);
                                        reveal(sp_infix);
                                        reveal(sp_infix_chain);
                                        reveal(sp_climb);
                                        reveal(sp_expression);
                                        assert((fuel - 1) as nat >= fuel_expression(s1));
                                        assert(sp_expression(s1, (fuel - 1) as nat)
                                            == PStep::<SpecExpression>::Done(ev, s2));
                                    }
                                }
                                Err(ParseError::Lexical(le))
                            },
                        }
                    },
                    Err(err) => {
                        proof {
                            assert forall|fuel: nat| fuel >= fuel_prefix(s0) implies sp_prefix(
                                s0,
                                fuel,
                            ) == PStep::<SpecExpression>::Fail(err@) by {
                                reveal(sp_prefix);
                                reveal(sp_infix);
                                reveal(sp_infix_chain);
                                reveal(sp_climb);
                                reveal(sp_expression);
                                assert((fuel - 1) as nat >= fuel_expression(s1));
                                assert(sp_expression(s1, (fuel - 1) as nat)
                                    == PStep::<SpecExpression>::Fail(err@));
                            }
                        }
                        Err(err)
                    },
                }
            },
            Ok(Token::Minus) => {
                self.advance();
                proof {
                    assert(self@ == pm_advance(s0));
                }
                let ghost s1 = self@;
                match self.parse_expression_with_precedence(7) {
                    Ok(e) => {
                        let ghost ev = e@;
                        proof {
                            assert forall|fuel: nat| fuel >= fuel_prefix(s0) implies sp_prefix(
                                s0,
                                fuel,
                            ) == PStep::<SpecExpression>::Done(
                                SpecExpression::UnaryOperation {
                                    operator: UnaryOperator::Minus,
                                    operand: Box::new(ev),
                                },
                                self@,
                            ) by {
                                reveal(sp_prefix);
                                reveal(sp_infix);
                                reveal(sp_infix_chain);
                                reveal(sp_climb);
                                reveal(sp_expression);
                                assert((fuel - 1) as nat >= fuel_climb(s1));
                                assert(sp_climb(s1, 7, (fuel - 1) as nat)
                                    == PStep::<SpecExpression>::Done(ev, self@));
                            }
                        }
                        Ok(
                            Expression::UnaryOperation {
                                operator: UnaryOperator::Minus,
                                operand: Box::new(e),
                            },
                        )
                    },
                    Err(err) => {
                        proof {
                            assert forall|fuel: nat| fuel >= fuel_prefix(s0) implies sp_prefix(
                                s0,
                                fuel,
                            ) == PStep::<SpecExpression>::Fail(err@) by {
                                reveal(sp_prefix);
                                reveal(sp_infix);
                                reveal(sp_infix_chain);
                                reveal(sp_climb);
                                reveal(sp_expression);
                                assert((fuel - 1) as nat >= fuel_climb(s1));
                                assert(sp_climb(s1, 7, (fuel - 1) as nat)
                                    == PStep::<SpecExpression>::Fail(err@));
                            }
                        }
                        Err(err)
                    },
                }
            },
            Ok(Token::Plus) => {
                self.advance();
                proof {
                    assert(self@ == pm_advance(s0));
                }
                let ghost s1 = self@;
                match self.parse_expression_with_precedence(7) {
                    Ok(e) => {
                        let ghost ev = e@;
                        proof {
                            assert forall|fuel: nat| fuel >= fuel_prefix(s0) implies sp_prefix(
                                s0,
                                fuel,
                            ) == PStep::<SpecExpression>::Done(
                                SpecExpression::UnaryOperation {
                                    operator: UnaryOperator::Plus,
                                    operand: Box::new(ev),
                                },
                                self@,
                            ) by {
                                reveal(sp_prefix);
                                reveal(sp_infix);
                                reveal(sp_infix_chain);
                                reveal(sp_climb);
                                reveal(sp_expression);
                                assert((fuel - 1) as nat >= fuel_climb(s1));
                                assert(sp_climb(s1, 7, (fuel - 1) as nat)
                                    == PStep::<SpecExpression>::Done(ev, self@));
                            }
                        }
                        Ok(
                            Expression::UnaryOperation {
                                operator: UnaryOperator::Plus,
                                operand: Box::new(e),
                            },
                        )
                    },
                    Err(err) => {
                        proof {
                            assert forall|fuel: nat| fuel >= fuel_prefix(s0) implies sp_prefix(
                                s0,
                                fuel,
                            ) == PStep::<SpecExpression>::Fail(err@) by {
                                reveal(sp_prefix);
                                reveal(sp_infix);
                                reveal(sp_infix_chain);
                                reveal(sp_climb);
                                reveal(sp_expression);
                                assert((fuel - 1) as nat >= fuel_climb(s1));
                                assert(sp_climb(s1, 7, (fuel - 1) as nat)
                                    == PStep::<SpecExpression>::Fail(err@));
                            }
                        }
                        Err(err)
                    },
                }
            },
            Ok(Token::Keyword(Keyword::Not)) => {
                self.advance();
                proof {
                    assert(self@ == pm_advance(s0));
                }
                let ghost s1 = self@;
                match self.parse_expression_with_precedence(7) {
                    Ok(e) => {
                        let ghost ev = e@;
                        proof {
                            assert forall|fuel: nat| fuel >= fuel_prefix(s0) implies sp_prefix(
                                s0,
                                fuel,
                            ) == PStep::<SpecExpression>::Done(
                                SpecExpression::UnaryOperation {
                                    operator: UnaryOperator::Not,
                                    operand: Box::new(ev),
                                },
                                self@,
                            ) by {
                                reveal(sp_prefix);
                                reveal(sp_infix);
                                reveal(sp_infix_chain);
                                reveal(sp_climb);
                                reveal(sp_expression);
                                assert((fuel - 1) as nat >= fuel_climb(s1));
                                assert(sp_climb(s1, 7, (fuel - 1) as nat)
                                    == PStep::<SpecExpression>::Done(ev, self@));
                            }
                        }
                        Ok(
                            Expression::UnaryOperation {
                                operator: UnaryOperator::Not,
                                operand: Box::new(e),
                            },
                        )
                    },
                    Err(err) => {
                        proof {
                            assert forall|fuel: nat| fuel >= fuel_prefix(s0) implies sp_prefix(
                                s0,
                                fuel,
                            ) == PStep::<SpecExpression>::Fail(err@) by {
                                reveal(sp_prefix);
                                reveal(sp_infix);
                                reveal(sp_infix_chain);
                                reveal(sp_climb);
                                reveal(sp_expression);
                                assert((fuel - 1) as nat >= fuel_climb(s1));
                                assert(sp_climb(s1, 7, (fuel - 1) as nat)
                                    == PStep::<SpecExpression>::Fail(err@));
                            }
                        }
                        Err(err)
                    },
                }
            },
            Ok(Token::Eof) => Err(ParseError::UnexpectedEndOfInput),
            Ok(t) => Err(ParseError::UnexpectedTokenInPrefix(t)),
            Err(le) => Err(ParseError::Lexical(le)),
        }
    }

    /// One infix application to `left`; follows `sp_infix`.
    fn parse_infix(&mut self, left: Expression) -> (r: Result<Expression, ParseError>)
        requires
            old(self).wf(),
            live_token(old(self)@.cur),
        ensures
            final(self).wf(),
            final(self)@.text == old(self)@.text,
            pm_measure(final(self)@) <= pm_measure(old(self)@),
            r is Ok ==> pm_measure(final(self)@) < pm_measure(old(self)@),
            forall|fuel: nat|
                fuel >= fuel_infix(old(self)@) ==> sp_infix(old(self)@, left@, fuel)
                    == pack_expression(r, final(self)@),
        decreases 8 * pm_measure(self@),
    {
        reveal(sp_prefix);
        reveal(sp_infix);
        reveal(sp_infix_chain);
        reveal(sp_climb);
        reveal(sp_expression);
        reveal(sp_prefix);
        reveal(sp_infix);
        reveal(sp_infix_chain);
        reveal(sp_climb);
        reveal(sp_expression);
        reveal(sp_prefix);
        reveal(sp_infix);
        reveal(sp_infix_chain);
        reveal(sp_climb);
        reveal(sp_expression);
        reveal(sp_prefix);
        reveal(sp_infix);
        reveal(sp_infix_chain);
        reveal(sp_climb);
        reveal(sp_expression);
        reveal(sp_prefix);
        reveal(sp_infix);
        reveal(sp_infix_chain);
        reveal(sp_climb);
        reveal(sp_expression);
        let ghost s0 = self@;
        let ghost lv = left@;
        let cur = self.take_current();
        match cur {
            Ok(t) => {
                let ghost tv = t@;
                let prec = get_precedence(&t);
                self.advance();
                proof {
                    assert(self@ == pm_advance(s0));
                }
                let ghost s1 = self@;
                match self.parse_expression_with_precedence(prec) {
                    Ok(right) => {
                        let ghost rv = right@;
                        let ghost s2 = self@;
                        proof {
                            assert forall|fuel: nat| fuel >= fuel_infix(s0) implies sp_infix(
                                s0,
                                lv,
                                fuel,
                            ) == (match spec_binary_operator_of(tv) {
                                Some(op) => PStep::<SpecExpression>::Done(
                                    SpecExpression::BinaryOperation {
                                        left_operand: Box::new(lv),
                                        operator: op,
                                        right_operand: Box::new(rv),
                                    },
                                    s2,
                                ),
                                None => PStep::<SpecExpression>::Fail(
                                    SpecParseError::InvalidInfixOperator(tv),
                                ),
                            }) by {
                                reveal(sp_prefix);
                                reveal(sp_infix);
                                reveal(sp_infix_chain);
                                reveal(sp_climb);
                                reveal(sp_expression);
                                assert((fuel - 1) as nat >= fuel_climb(s1));
                                assert(sp_climb(s1, spec_precedence(tv), (fuel - 1) as nat)
                                    == PStep::<SpecExpression>::Done(rv, s2));
                            }
                        }
                        match binary_operator_of(&t) {
                            Some(op) => Ok(
                                Expression::BinaryOperation {
                                    left_operand: Box::new(left),
                                    operator: op,
                                    right_operand: Box::new(right),
                                },
                            ),
                            None => Err(ParseError::InvalidInfixOperator(t)),
                        }
                    },
                    Err(err) => {
                        proof {
                            assert forall|fuel: nat| fuel >= fuel_infix(s0) implies sp_infix(
                                s0,
                                lv,
                                fuel,
                            ) == PStep::<SpecExpression>::Fail(err@) by {
                                reveal(sp_prefix);
                                reveal(sp_infix);
                                reveal(sp_infix_chain);
                                reveal(sp_climb);
                                reveal(sp_expression);
                                assert((fuel - 1) as nat >= fuel_climb(s1));
                                assert(sp_climb(s1, spec_precedence(tv), (fuel - 1) as nat)
                                    == PStep::<SpecExpression>::Fail(err@));
                            }
                        }
                        Err(err)
                    },
                }
            },
            Err(le) => Err(ParseError::Lexical(le)),
        }
    }

    /// The climbing loop over `left`; follows `sp_infix_chain`.
    fn parse_infix_chain(&mut self, left: Expression, min_prec: u8) -> (r: Result<
        Expression,
        ParseError,
    >)
        requires
            old(self).wf(),
        ensures
            final(self).wf(),
            final(self)@.text == old(self)@.text,
            pm_measure(final(self)@) <= pm_measure(old(self)@),
            forall|fuel: nat|
                fuel >= fuel_infix_chain(old(self)@) ==> sp_infix_chain(
                    old(self)@,
                    left@,
                    min_prec as int,
                    fuel,
                ) == pack_expression(r, final(self)@),
        decreases 8 * pm_measure(self@) + 1,
    {
        reveal(sp_prefix);
        reveal(sp_infix);
        reveal(sp_infix_chain);
        reveal(sp_climb);
        reveal(sp_expression);
        reveal(sp_prefix);
        reveal(sp_infix);
        reveal(sp_infix_chain);
        reveal(sp_climb);
        reveal(sp_expression);
        reveal(sp_prefix);
        reveal(sp_infix);
        reveal(sp_infix_chain);
        reveal(sp_climb);
        reveal(sp_expression);
        reveal(sp_prefix);
        reveal(sp_infix);
        reveal(sp_infix_chain);
        reveal(sp_climb);
        reveal(sp_expression);
        reveal(sp_prefix);
        reveal(sp_infix);
        reveal(sp_infix_chain);
        reveal(sp_climb);
        reveal(sp_expression);
        let ghost s0 = self@;
        let ghost lv = left@;
        let go = match &self.current {
            Ok(t) => get_precedence(t) > min_prec,
            Err(_) => false,
        };
        if !go {
            return Ok(left);
        }
        proof {
            assert(live_token(self@.cur));
        }
        match self.parse_infix(left) {
            Ok(left2) => {
                let ghost lv2 = left2@;
                let ghost s1 = self@;
                let r = self.parse_infix_chain(left2, min_prec);
                proof {
                    assert forall|fuel: nat| fuel >= fuel_infix_chain(s0) implies sp_infix_chain(
                        s0,
                        lv,
                        min_prec as int,
                        fuel,
                    ) == pack_expression(r, self@) by {
                        reveal(sp_prefix);
                        reveal(sp_infix);
                        reveal(sp_infix_chain);
                        reveal(sp_climb);
                        reveal(sp_expression);
                        assert((fuel - 1) as nat >= fuel_infix(s0));
                        assert(sp_infix(s0, lv, (fuel - 1) as nat)
                            == PStep::<SpecExpression>::Done(lv2, s1));
                        assert((fuel - 1) as nat >= fuel_infix_chain(s1));
                        assert(sp_infix_chain(s1, lv2, min_prec as int, (fuel - 1) as nat)
                            == pack_expression(r, self@));
                    }
                }
                r
            },
            Err(err) => {
                proof {
                    assert forall|fuel: nat| fuel >= fuel_infix_chain(s0) implies sp_infix_chain(
                        s0,
                        lv,
                        min_prec as int,
                        fuel,
                    ) == PStep::<SpecExpression>::Fail(err@) by {
                        reveal(sp_prefix);
                        reveal(sp_infix);
                        reveal(sp_infix_chain);
                        reveal(sp_climb);
                        reveal(sp_expression);
                        assert((fuel - 1) as nat >= fuel_infix(s0));
                        assert(sp_infix(s0, lv, (fuel - 1) as nat)
                            == PStep::<SpecExpression>::Fail(err@));
                    }
                }
                Err(err)
            },
        }
    }

    /// One expression at the given precedence threshold; follows `sp_climb`.
    fn parse_expression_with_precedence(&mut self, min_prec: u8) -> (r: Result<
        Expression,
        ParseError,
    >)
        requires
            old(self).wf(),
        ensures
            final(self).wf(),
            final(self)@.text == old(self)@.text,
            pm_measure(final(self)@) <= pm_measure(old(self)@),
            forall|fuel: nat|
                fuel >= fuel_climb(old(self)@) ==> sp_climb(old(self)@, min_prec as int, fuel)
                    == pack_expression(r, final(self)@),
        decreases 8 * pm_measure(self@) + 1,
    {
        reveal(sp_prefix);
        reveal(sp_infix);
        reveal(sp_infix_chain);
        reveal(sp_climb);
        reveal(sp_expression);
        reveal(sp_prefix);
        reveal(sp_infix);
        reveal(sp_infix_chain);
        reveal(sp_climb);
        reveal(sp_expression);
        reveal(sp_prefix);
        reveal(sp_infix);
        reveal(sp_infix_chain);
        reveal(sp_climb);
        reveal(sp_expression);
        reveal(sp_prefix);
        reveal(sp_infix);
        reveal(sp_infix_chain);
        reveal(sp_climb);
        reveal(sp_expression);
        reveal(sp_prefix);
        reveal(sp_infix);
        reveal(sp_infix_chain);
        reveal(sp_climb);
        reveal(sp_expression);
        let ghost s0 = self@;
        match self.parse_prefix() {
            Ok(left) => {
                let ghost lv = left@;
                let ghost s1 = self@;
                let r = self.parse_infix_chain(left, min_prec);
                proof {
                    assert forall|fuel: nat| fuel >= fuel_climb(s0) implies sp_climb(
                        s0,
                        min_prec as int,
                        fuel,
                    ) == pack_expression(r, self@) by {
                        reveal(sp_prefix);
                        reveal(sp_infix);
                        reveal(sp_infix_chain);
                        reveal(sp_climb);
                        reveal(sp_expression);
                        assert((fuel - 1) as nat >= fuel_prefix(s0));
                        assert(sp_prefix(s0, (fuel - 1) as nat) == PStep::<SpecExpression>::Done(
                            lv,
                            s1,
                        ));
                        assert((fuel - 1) as nat >= fuel_infix_chain(s1));
                        assert(sp_infix_chain(s1, lv, min_prec as int, (fuel - 1) as nat)
                            == pack_expression(r, self@));
                    }
                }
                r
            },
            Err(err) => {
                proof {
                    assert forall|fuel: nat| fuel >= fuel_climb(s0) implies sp_climb(
                        s0,
                        min_prec as int,
                        fuel,
                    ) == PStep::<SpecExpression>::Fail(err@) by {
                        reveal(sp_prefix);
                        reveal(sp_infix);
                        reveal(sp_infix_chain);
                        reveal(sp_climb);
                        reveal(sp_expression);
                        assert((fuel - 1) as nat >= fuel_prefix(s0));
                        assert(sp_prefix(s0, (fuel - 1) as nat) == PStep::<SpecExpression>::Fail(
                            err@,
                        ));
                    }
                }
                Err(err)
            },
        }
    }

    /// One full expression, every operator band admitted; follows
    /// `sp_expression`.
    pub fn parse_expression(&mut self) -> (r: Result<Expression, ParseError>)
        requires
            old(self).wf(),
        ensures
            final(self).wf(),
            final(self)@.text == old(self)@.text,
            pm_measure(final(self)@) <= pm_measure(old(self)@),
            forall|fuel: nat|
                fuel >= fuel_expression(old(self)@) ==> sp_expression(old(self)@, fuel)
                    == pack_expression(r, final(self)@),
        decreases 8 * pm_measure(self@) + 2,
    {
        reveal(sp_prefix);
        reveal(sp_infix);
        reveal(sp_infix_chain);
        reveal(sp_climb);
        reveal(sp_expression);
        reveal(sp_prefix);
        reveal(sp_infix);
        reveal(sp_infix_chain);
        reveal(sp_climb);
        reveal(sp_expression);
        reveal(sp_prefix);
        reveal(sp_infix);
        reveal(sp_infix_chain);
        reveal(sp_climb);
        reveal(sp_expression);
        reveal(sp_prefix);
        reveal(sp_infix);
        reveal(sp_infix_chain);
        reveal(sp_climb);
        reveal(sp_expression);
        reveal(sp_prefix);
        reveal(sp_infix);
        reveal(sp_infix_chain);
        reveal(sp_climb);
        reveal(sp_expression);
        let ghost s0 = self@;
        let r = self.parse_expression_with_precedence(0);
        proof {
            assert forall|fuel: nat| fuel >= fuel_expression(s0) implies sp_expression(s0, fuel)
                == pack_expression(r, self@) by {
                reveal(sp_prefix);
                reveal(sp_infix);
                reveal(sp_infix_chain);
                reveal(sp_climb);
                reveal(sp_expression);
                assert((fuel - 1) as nat >= fuel_climb(s0));
                assert(sp_climb(s0, 0u8 as int, (fuel - 1) as nat) == pack_expression(r, self@));
            }
        }
        r
    }

    /// One `ORDER BY` element; follows `sp_order_by_expr`.
    pub fn parse_order_by_expr(&mut self) -> (r: Result<Expression, ParseError>)
        requires
            old(self).wf(),
        ensures
            final(self).wf(),
            final(self)@.text == old(self)@.text,
            pm_measure(final(self)@) <= pm_measure(old(self)@),
            forall|fuel: nat|
                fuel >= fuel_order_by_expr(old(self)@) ==> sp_order_by_expr(old(self)@, fuel)
                    == pack_expression(r, final(self)@),
    {
        reveal(sp_order_by_expr);
        let ghost s0 = self@;
        match self.parse_expression() {
            Ok(e) => {
                let ghost ev = e@;
                let ghost s1 = self@;
                match &self.current {
                    Ok(Token::Keyword(Keyword::Asc)) => {
                        self.advance();
                        proof {
                            assert(self@ == pm_advance(s1));
                            assert forall|fuel: nat|
                                fuel >= fuel_order_by_expr(s0) implies sp_order_by_expr(s0, fuel)
                                == PStep::<SpecExpression>::Done(
                                SpecExpression::UnaryOperation {
                                    operator: UnaryOperator::Asc,
                                    operand: Box::new(ev),
                                },
                                self@,
                            ) by {
                                reveal(sp_order_by_expr);
                                assert((fuel - 1) as nat >= fuel_expression(s0));
                                assert(sp_expression(s0, (fuel - 1) as nat)
                                    == PStep::<SpecExpression>::Done(ev, s1));
                            }
                        }
                        Ok(
                            Expression::UnaryOperation {
                                operator: UnaryOperator::Asc,
                                operand: Box::new(e),
                            },
                        )
                    },
                    Ok(Token::Keyword(Keyword::Desc)) => {
                        self.advance();
                        proof {
                            assert(self@ == pm_advance(s1));
                            assert forall|fuel: nat|
                                fuel >= fuel_order_by_expr(s0) implies sp_order_by_expr(s0, fuel)
                                == PStep::<SpecExpression>::Done(
                                SpecExpression::UnaryOperation {
                                    operator: UnaryOperator::Desc,
                                    operand: Box::new(ev),
                                },
                                self@,
                            ) by {
                                reveal(sp_order_by_expr);
                                assert((fuel - 1) as nat >= fuel_expression(s0));
                                assert(sp_expression(s0, (fuel - 1) as nat)
                                    == PStep::<SpecExpression>::Done(ev, s1));
                            }
                        }
                        Ok(
                            Expression::UnaryOperation {
                                operator: UnaryOperator::Desc,
                                operand: Box::new(e),
                            },
                        )
                    },
                    _ => {
                        proof {
                            assert forall|fuel: nat|
                                fuel >= fuel_order_by_expr(s0) implies sp_order_by_expr(s0, fuel)
                                == PStep::<SpecExpression>::Done(ev, s1) by {
                                reveal(sp_order_by_expr);
                                assert((fuel - 1) as nat >= fuel_expression(s0));
                                assert(sp_expression(s0, (fuel - 1) as nat)
                                    == PStep::<SpecExpression>::Done(ev, s1));
                            }
                        }
                        Ok(e)
                    },
                }
            },
            Err(err) => {
                proof {
                    assert forall|fuel: nat| fuel >= fuel_order_by_expr(s0) implies sp_order_by_expr(
                        s0,
                        fuel,
                    ) == PStep::<SpecExpression>::Fail(err@) by {
                        reveal(sp_order_by_expr);
                        assert((fuel - 1) as nat >= fuel_expression(s0));
                        assert(sp_expression(s0, (fuel - 1) as nat) == PStep::<SpecExpression>::Fail(
                            err@,
                        ));
                    }
                }
                Err(err)
            },
        }
    }

    /// The `SELECT` column list; follows `sp_select_columns`.
    fn parse_select_columns(&mut self) -> (r: Result<Vec<Expression>, ParseError>)
        requires
            old(self).wf(),
        ensures
            final(self).wf(),
            final(self)@.text == old(self)@.text,
            pm_measure(final(self)@) <= pm_measure(old(self)@),
            forall|fuel: nat|
                fuel >= fuel_select_columns(old(self)@) ==> sp_select_columns(old(self)@, fuel)
                    == pack_expressions(r, final(self)@),
        decreases pm_measure(self@),
    {
        reveal(sp_select_columns);
        let ghost s0 = self@;
        match self.parse_expression() {
            Ok(e) => {
                let ghost ev = e@;
                let ghost s1 = self@;
                match &self.current {
                    Ok(Token::Comma) => {
                        self.advance();
                        proof {
                            assert(self@ == pm_advance(s1));
                        }
                        let ghost s2 = self@;
                        match self.parse_select_columns() {
                            Ok(mut rest) => {
                                let ghost restv = rest@;
                                rest.insert(0, e);
                                proof {
                                    assert(spec_expressions_view(rest@) =~= seq![ev]
                                        + spec_expressions_view(restv));
                                    assert forall|fuel: nat|
                                        fuel >= fuel_select_columns(s0) implies sp_select_columns(
                                        s0,
                                        fuel,
                                    ) == PStep::<Seq<SpecExpression>>::Done(
                                        spec_expressions_view(rest@),
                                        self@,
                                    ) by {
                                        reveal(sp_select_columns);
                                        assert((fuel - 1) as nat >= fuel_expression(s0));
                                        assert(sp_expression(s0, (fuel - 1) as nat)
                                            == PStep::<SpecExpression>::Done(ev, s1));
                                        assert((fuel - 1) as nat >= fuel_select_columns(s2));
                                        assert(sp_select_columns(s2, (fuel - 1) as nat)
                                            == PStep::<Seq<SpecExpression>>::Done(
                                            spec_expressions_view(restv),
                                            self@,
                                        ));
                                    }
                                }
                                Ok(rest)
                            },
                            Err(err) => {
                                proof {
                                    assert forall|fuel: nat|
                                        fuel >= fuel_select_columns(s0) implies sp_select_columns(
                                        s0,
                                        fuel,
                                    ) == PStep::<Seq<SpecExpression>>::Fail(err@) by {
                                        reveal(sp_select_columns);
                                        assert((fuel - 1) as nat >= fuel_expression(s0));
                                        assert(sp_expression(s0, (fuel - 1) as nat)
                                            == PStep::<SpecExpression>::Done(ev, s1));
                                        assert((fuel - 1) as nat >= fuel_select_columns(s2));
                                        assert(sp_select_columns(s2, (fuel - 1) as nat)
                                            == PStep::<Seq<SpecExpression>>::Fail(err@));
                                    }
                                }
                                Err(err)
                            },
                        }
                    },
                    Ok(Token::Keyword(Keyword::From)) => {
                        let mut v: Vec<Expression> = Vec::new();
                        v.push(e);
                        proof {
                            assert(spec_expressions_view(v@) =~= seq![ev]);
                            assert forall|fuel: nat|
                                fuel >= fuel_select_columns(s0) implies sp_select_columns(s0, fuel)
                                == PStep::<Seq<SpecExpression>>::Done(seq![ev], s1) by {
                                reveal(sp_select_columns);
                                assert((fuel - 1) as nat >= fuel_expression(s0));
                                assert(sp_expression(s0, (fuel - 1) as nat)
                                    == PStep::<SpecExpression>::Done(ev, s1));
                            }
                        }
                        Ok(v)
                    },
                    _ => {
                        let cur = self.take_current();
                        proof {
                            assert forall|f: nat|
                                f + 1 >= fuel_select_columns(s0) implies sp_expression(s0, f)
                                == PStep::<SpecExpression>::Done(ev, s1) by {
                                reveal(sp_select_columns);
                                assert(f >= fuel_expression(s0));
                            }
                        }
                        match cur {
                            Ok(t) => Err(ParseError::ExpectedFromOrComma(t)),
                            Err(le) => Err(ParseError::Lexical(le)),
                        }
                    },
                }
            },
            Err(err) => {
                proof {
                    assert forall|fuel: nat|
                        fuel >= fuel_select_columns(s0) implies sp_select_columns(s0, fuel)
                        == PStep::<Seq<SpecExpression>>::Fail(err@) by {
                        reveal(sp_select_columns);
                        assert((fuel - 1) as nat >= fuel_expression(s0));
                        assert(sp_expression(s0, (fuel - 1) as nat) == PStep::<SpecExpression>::Fail(
                            err@,
                        ));
                    }
                }
                Err(err)
            },
        }
    }

    /// The `ORDER BY` list; follows `sp_order_by_list`.
    fn parse_order_by_list(&mut self) -> (r: Result<Vec<Expression>, ParseError>)
        requires
            old(self).wf(),
        ensures
            final(self).wf(),
            final(self)@.text == old(self)@.text,
            pm_measure(final(self)@) <= pm_measure(old(self)@),
            forall|fuel: nat|
                fuel >= fuel_order_by_list(old(self)@) ==> sp_order_by_list(old(self)@, fuel)
                    == pack_expressions(r, final(self)@),
        decreases pm_measure(self@),
    {
        reveal(sp_order_by_list);
        let ghost s0 = self@;
        match self.parse_order_by_expr() {
            Ok(e) => {
                let ghost ev = e@;
                let ghost s1 = self@;
                match &self.current {
                    Ok(Token::Comma) => {
                        self.advance();
                        proof {
                            assert(self@ == pm_advance(s1));
                        }
                        let ghost s2 = self@;
                        match self.parse_order_by_list() {
                            Ok(mut rest) => {
                                let ghost restv = rest@;
                                rest.insert(0, e);
                                proof {
                                    assert(spec_expressions_view(rest@) =~= seq![ev]
                                        + spec_expressions_view(restv));
                                    assert forall|fuel: nat|
                                        fuel >= fuel_order_by_list(s0) implies sp_order_by_list(
                                        s0,
                                        fuel,
                                    ) == PStep::<Seq<SpecExpression>>::Done(
                                        spec_expressions_view(rest@),
                                        self@,
                                    ) by {
                                        reveal(sp_order_by_list);
                                        assert((fuel - 1) as nat >= fuel_order_by_expr(s0));
                                        assert(sp_order_by_expr(s0, (fuel - 1) as nat)
                                            == PStep::<SpecExpression>::Done(ev, s1));
                                        assert((fuel - 1) as nat >= fuel_order_by_list(s2));
                                        assert(sp_order_by_list(s2, (fuel - 1) as nat)
                                            == PStep::<Seq<SpecExpression>>::Done(
                                            spec_expressions_view(restv),
                                            self@,
                                        ));
                                    }
                                }
                                Ok(rest)
                            },
                            Err(err) => {
                                proof {
                                    assert forall|fuel: nat|
                                        fuel >= fuel_order_by_list(s0) implies sp_order_by_list(
                                        s0,
                                        fuel,
                                    ) == PStep::<Seq<SpecExpression>>::Fail(err@) by {
                                        reveal(sp_order_by_list);
                                        assert((fuel - 1) as nat >= fuel_order_by_expr(s0));
                                        assert(sp_order_by_expr(s0, (fuel - 1) as nat)
                                            == PStep::<SpecExpression>::Done(ev, s1));
                                        assert((fuel - 1) as nat >= fuel_order_by_list(s2));
                                        assert(sp_order_by_list(s2, (fuel - 1) as nat)
                                            == PStep::<Seq<SpecExpression>>::Fail(err@));
                                    }
                                }
                                Err(err)
                            },
                        }
                    },
                    Ok(Token::Semicolon) => {
                        let mut v: Vec<Expression> = Vec::new();
                        v.push(e);
                        proof {
                            assert(spec_expressions_view(v@) =~= seq![ev]);
                            assert forall|fuel: nat|
                                fuel >= fuel_order_by_list(s0) implies sp_order_by_list(s0, fuel)
                                == PStep::<Seq<SpecExpression>>::Done(seq![ev], s1) by {
                                reveal(sp_order_by_list);
                                assert((fuel - 1) as nat >= fuel_order_by_expr(s0));
                                assert(sp_order_by_expr(s0, (fuel - 1) as nat)
                                    == PStep::<SpecExpression>::Done(ev, s1));
                            }
                        }
                        Ok(v)
                    },
                    _ => {
                        let cur = self.take_current();
                        proof {
                            assert forall|f: nat|
                                f + 1 >= fuel_order_by_list(s0) implies sp_order_by_expr(s0, f)
                                == PStep::<SpecExpression>::Done(ev, s1) by {
                                reveal(sp_order_by_list);
                                assert(f >= fuel_order_by_expr(s0));
                            }
                        }
                        match cur {
                            Ok(t) => Err(ParseError::ExpectedSemicolonOrComma(t)),
                            Err(le) => Err(ParseError::Lexical(le)),
                        }
                    },
                }
            },
            Err(err) => {
                proof {
                    assert forall|fuel: nat|
                        fuel >= fuel_order_by_list(s0) implies sp_order_by_list(s0, fuel)
                        == PStep::<Seq<SpecExpression>>::Fail(err@) by {
                        reveal(sp_order_by_list);
                        assert((fuel - 1) as nat >= fuel_order_by_expr(s0));
                        assert(sp_order_by_expr(s0, (fuel - 1) as nat)
                            == PStep::<SpecExpression>::Fail(err@));
                    }
                }
                Err(err)
            },
        }
    }

    /// Zero or more column constraints; follows `sp_constraints`.
    #[verifier::rlimit(60)]
    fn parse_constraints(&mut self) -> (r: Result<Vec<Constraint>, ParseError>)
        requires
            old(self).wf(),
        ensures
            final(self).wf(),
            final(self)@.text == old(self)@.text,
            pm_measure(final(self)@) <= pm_measure(old(self)@),
            forall|fuel: nat|
                fuel >= fuel_constraints(old(self)@) ==> sp_constraints(old(self)@, fuel)
                    == pack_constraints(r, final(self)@),
        decreases pm_measure(self@),
    {
        reveal(sp_constraints);
        let ghost s0 = self@;
        match &self.current {
            Ok(Token::Keyword(Keyword::Primary)) => {
                self.advance();
                proof {
                    assert(self@ == pm_advance(s0));
                }
                let ghost s1 = self@;
                match &self.current {
                    Ok(Token::Keyword(Keyword::Key)) => {
                        self.advance();
                        proof {
                            assert(self@ == pm_advance(s1));
                        }
                        let ghost s2 = self@;
                        match self.parse_constraints() {
                            Ok(mut rest) => {
                                let ghost restv = rest@;
                                rest.insert(0, Constraint::PrimaryKey);
                                proof {
                                    assert(rest@.map_values(|c: Constraint| c@) =~= seq![
                                        SpecConstraint::PrimaryKey,
                                    ] + restv.map_values(|c: Constraint| c@));
                                    assert forall|fuel: nat|
                                        fuel >= fuel_constraints(s0) implies sp_constraints(
                                        s0,
                                        fuel,
                                    ) == PStep::<Seq<SpecConstraint>>::Done(
                                        rest@.map_values(|c: Constraint| c@),
                                        self@,
                                    ) by {
                                        reveal(sp_constraints);
                                        assert((fuel - 1) as nat >= fuel_constraints(s2));
                                        assert(sp_constraints(s2, (fuel - 1) as nat)
                                            == PStep::<Seq<SpecConstraint>>::Done(
                                            restv.map_values(|c: Constraint| c@),
                                            self@,
                                        ));
                                    }
                                }
                                Ok(rest)
                            },
                            Err(err) => {
                                proof {
                                    assert forall|fuel: nat|
                                        fuel >= fuel_constraints(s0) implies sp_constraints(
                                        s0,
                                        fuel,
                                    ) == PStep::<Seq<SpecConstraint>>::Fail(err@) by {
                                        reveal(sp_constraints);
                                        assert((fuel - 1) as nat >= fuel_constraints(s2));
                                        assert(sp_constraints(s2, (fuel - 1) as nat)
                                            == PStep::<Seq<SpecConstraint>>::Fail(err@));
                                    }
                                }
                                Err(err)
                            },
                        }
                    },
                    _ => {
                        let cur = self.take_current();
                        match cur {
                            Ok(t) => Err(ParseError::ExpectedKeyAfterPrimary(t)),
                            Err(le) => Err(ParseError::Lexical(le)),
                        }
                    },
                }
            },
            Ok(Token::Keyword(Keyword::Not)) => {
                self.advance();
                proof {
                    assert(self@ == pm_advance(s0));
                }
                let ghost s1 = self@;
                match &self.current {
                    Ok(Token::Keyword(Keyword::Null)) => {
                        self.advance();
                        proof {
                            assert(self@ == pm_advance(s1));
                        }
                        let ghost s2 = self@;
                        match self.parse_constraints() {
                            Ok(mut rest) => {
                                let ghost restv = rest@;
                                rest.insert(0, Constraint::NotNull);
                                proof {
                                    assert(rest@.map_values(|c: Constraint| c@) =~= seq![
                                        SpecConstraint::NotNull,
                                    ] + restv.map_values(|c: Constraint| c@));
                                    assert forall|fuel: nat|
                                        fuel >= fuel_constraints(s0) implies sp_constraints(
                                        s0,
                                        fuel,
                                    ) == PStep::<Seq<SpecConstraint>>::Done(
                                        rest@.map_values(|c: Constraint| c@),
                                        self@,
                                    ) by {
                                        reveal(sp_constraints);
                                        assert((fuel - 1) as nat >= fuel_constraints(s2));
                                        assert(sp_constraints(s2, (fuel - 1) as nat)
                                            == PStep::<Seq<SpecConstraint>>::Done(
                                            restv.map_values(|c: Constraint| c@),
                                            self@,
                                        ));
                                    }
                                }
                                Ok(rest)
                            },
                            Err(err) => {
                                proof {
                                    assert forall|fuel: nat|
                                        fuel >= fuel_constraints(s0) implies sp_constraints(
                                        s0,
                                        fuel,
                                    ) == PStep::<Seq<SpecConstraint>>::Fail(err@) by {
                                        reveal(sp_constraints);
                                        assert((fuel - 1) as nat >= fuel_constraints(s2));
                                        assert(sp_constraints(s2, (fuel - 1) as nat)
                                            == PStep::<Seq<SpecConstraint>>::Fail(err@));
                                    }
                                }
                                Err(err)
                            },
                        }
                    },
                    _ => {
                        let cur = self.take_current();
                        match cur {
                            Ok(t) => Err(ParseError::ExpectedNullAfterNot(t)),
                            Err(le) => Err(ParseError::Lexical(le)),
                        }
                    },
                }
            },
            Ok(Token::Keyword(Keyword::Check)) => {
                self.advance();
                proof {
                    assert(self@ == pm_advance(s0));
                }
                let ghost s1 = self@;
                match &self.current {
                    Ok(Token::LeftParentheses) => {
                        self.advance();
                        proof {
                            assert(self@ == pm_advance(s1));
                        }
                        let ghost s2 = self@;
                        match self.parse_expression() {
                            Ok(e) => {
                                let ghost ev = e@;
                                let ghost s3 = self@;
                                match &self.current {
                                    Ok(Token::RightParentheses) => {
                                        self.advance();
                                        proof {
                                            assert(self@ == pm_advance(s3));
                                        }
                                        let ghost s4 = self@;
                                        match self.parse_constraints() {
                                            Ok(mut rest) => {
                                                let ghost restv = rest@;
                                                rest.insert(0, Constraint::Check(e));
                                                proof {
                                                    assert(rest@.map_values(|c: Constraint| c@)
                                                        =~= seq![SpecConstraint::Check(ev)]
                                                        + restv.map_values(|c: Constraint| c@));
                                                    assert forall|fuel: nat|
                                                        fuel >= fuel_constraints(s0) implies
                                                        sp_constraints(s0, fuel)
                                                        == PStep::<Seq<SpecConstraint>>::Done(
                                                        rest@.map_values(|c: Constraint| c@),
                                                        self@,
                                                    ) by {
                                                        reveal(sp_constraints);
                                                        assert((fuel - 1) as nat
                                                            >= fuel_expression(s2));
                                                        assert(sp_expression(
                                                            s2,
                                                            (fuel - 1) as nat,
                                                        ) == PStep::<SpecExpression>::Done(ev, s3));
                                                        assert((fuel - 1) as nat
                                                            >= fuel_constraints(s4));
                                                        assert(sp_constraints(
                                                            s4,
                                                            (fuel - 1) as nat,
                                                        ) == PStep::<Seq<SpecConstraint>>::Done(
                                                            restv.map_values(|c: Constraint| c@),
                                                            self@,
                                                        ));
                                                    }
                                                }
                                                Ok(rest)
                                            },
                                            Err(err) => {
                                                proof {
                                                    assert forall|fuel: nat|
                                                        fuel >= fuel_constraints(s0) implies
                                                        sp_constraints(s0, fuel)
                                                        == PStep::<Seq<SpecConstraint>>::Fail(
                                                        err@,
                                                    ) by {
                                                        reveal(sp_constraints);
                                                        assert((fuel - 1) as nat
                                                            >= fuel_expression(s2));
                                                        assert(sp_expression(
                                                            s2,
                                                            (fuel - 1) as nat,
                                                        ) == PStep::<SpecExpression>::Done(ev, s3));
                                                        assert((fuel - 1) as nat
                                                            >= fuel_constraints(s4));
                                                        assert(sp_constraints(
                                                            s4,
                                                            (fuel - 1) as nat,
                                                        ) == PStep::<Seq<SpecConstraint>>::Fail(
                                                            err@,
                                                        ));
                                                    }
                                                }
                                                Err(err)
                                            },
                                        }
                                    },
                                    _ => {
                                        let cur = self.take_current();
                                        proof {
                                            assert forall|f: nat|
                                                f + 1 >= fuel_constraints(s0) implies sp_expression(
                                                s2,
                                                f,
                                            ) == PStep::<SpecExpression>::Done(ev, s3) by {
                                                reveal(sp_constraints);
                                                assert(f >= fuel_expression(s2));
                                            }
                                        }
                                        match cur {
                                            Ok(t) => Err(
                                                ParseError::ExpectedRightParenthesesAfterCheck(t),
                                            ),
                                            Err(le) => Err(ParseError::Lexical(le)),
                                        }
                                    },
                                }
                            },
                            Err(err) => {
                                proof {
                                    assert forall|fuel: nat|
                                        fuel >= fuel_constraints(s0) implies sp_constraints(
                                        s0,
                                        fuel,
                                    ) == PStep::<Seq<SpecConstraint>>::Fail(err@) by {
                                        reveal(sp_constraints);
                                        assert((fuel - 1) as nat >= fuel_expression(s2));
                                        assert(sp_expression(s2, (fuel - 1) as nat)
                                            == PStep::<SpecExpression>::Fail(err@));
                                    }
                                }
                                Err(err)
                            },
                        }
                    },
                    _ => {
                        let cur = self.take_current();
                        match cur {
                            Ok(t) => Err(ParseError::ExpectedLeftParenthesesAfterCheck(t)),
                            Err(le) => Err(ParseError::Lexical(le)),
                        }
                    },
                }
            },
            _ => {
                let v: Vec<Constraint> = Vec::new();
                proof {
                    assert(v@.map_values(|c: Constraint| c@) =~= Seq::<SpecConstraint>::empty());
                }
                Ok(v)
            },
        }
    }

    /// One column definition; follows `sp_column_definition`.
    fn parse_column_definition(&mut self) -> (r: Result<TableColumn, ParseError>)
        requires
            old(self).wf(),
        ensures
            final(self).wf(),
            final(self)@.text == old(self)@.text,
            pm_measure(final(self)@) <= pm_measure(old(self)@),
            forall|fuel: nat|
                fuel >= fuel_column_definition(old(self)@) ==> sp_column_definition(
                    old(self)@,
                    fuel,
                ) == pack_column(r, final(self)@),
    {
        reveal(sp_column_definition);
        reveal(sp_column_tail);
        let ghost s0 = self@;
        let cur = self.take_current();
        let column_name = match cur {
            Ok(Token::Identifier(name)) => {
                self.advance();
                name
            },
            Ok(t) => {
                return Err(ParseError::ExpectedColumnName(t));
            },
            Err(le) => {
                return Err(ParseError::Lexical(le));
            },
        };
        let ghost namev = column_name@;
        proof {
            assert(self@ == pm_advance(s0));
        }
        let ghost s1 = self@;
        let cur2 = self.take_current();
        let column_type = match cur2 {
            Ok(Token::Keyword(Keyword::Int)) => {
                self.advance();
                proof {
                    assert(self@ == pm_advance(s1));
                    assert(forall|fuel: nat|
                        fuel >= fuel_column_definition(s0) ==> sp_column_definition(s0, fuel)
                            == sp_column_tail(namev, DBType::Int, self@, (fuel - 1) as nat));
                }
                DBType::Int
            },
            Ok(Token::Keyword(Keyword::Bool)) => {
                self.advance();
                proof {
                    assert(self@ == pm_advance(s1));
                    assert(forall|fuel: nat|
                        fuel >= fuel_column_definition(s0) ==> sp_column_definition(s0, fuel)
                            == sp_column_tail(namev, DBType::Bool, self@, (fuel - 1) as nat));
                }
                DBType::Bool
            },
            Ok(Token::Keyword(Keyword::Varchar)) => {
                self.advance();
                proof {
                    assert(self@ == pm_advance(s1));
                }
                let ghost s2 = self@;
                let cur3 = self.take_current();
                match cur3 {
                    Ok(Token::LeftParentheses) => {
                        self.advance();
                    },
                    Ok(t) => {
                        return Err(ParseError::ExpectedLeftParenthesesAfterVarchar(t));
                    },
                    Err(le) => {
                        return Err(ParseError::Lexical(le));
                    },
                }
                proof {
                    assert(self@ == pm_advance(s2));
                }
                let ghost s3 = self@;
                let cur4 = self.take_current();
                let length = match cur4 {
                    Ok(Token::Number(n)) => {
                        self.advance();
                        n
                    },
                    Ok(t) => {
                        return Err(ParseError::ExpectedVarcharLength(t));
                    },
                    Err(le) => {
                        return Err(ParseError::Lexical(le));
                    },
                };
                proof {
                    assert(self@ == pm_advance(s3));
                }
                let ghost s4 = self@;
                let cur5 = self.take_current();
                match cur5 {
                    Ok(Token::RightParentheses) => {
                        self.advance();
                    },
                    Ok(t) => {
                        return Err(ParseError::ExpectedRightParenthesesAfterVarcharLength(t));
                    },
                    Err(le) => {
                        return Err(ParseError::Lexical(le));
                    },
                }
                proof {
                    assert(self@ == pm_advance(s4));
                    assert(forall|fuel: nat|
                        fuel >= fuel_column_definition(s0) ==> sp_column_definition(s0, fuel)
                            == sp_column_tail(
                            namev,
                            DBType::Varchar(length),
                            self@,
                            (fuel - 1) as nat,
                        ));
                }
                DBType::Varchar(length)
            },
            Ok(t) => {
                return Err(ParseError::ExpectedColumnType(t));
            },
            Err(le) => {
                return Err(ParseError::Lexical(le));
            },
        };
        let ghost s5 = self@;
        match self.parse_constraints() {
            Ok(constraints) => {
                let ghost csv = constraints@.map_values(|c: Constraint| c@);
                proof {
                    assert forall|fuel: nat|
                        fuel >= fuel_column_definition(s0) implies sp_column_definition(s0, fuel)
                        == PStep::<SpecTableColumn>::Done(
                        SpecTableColumn { column_name: namev, column_type, constraints: csv },
                        self@,
                    ) by {
                        reveal(sp_column_definition);
                        reveal(sp_column_tail);
                        assert(((fuel - 1) as nat - 1) as nat >= fuel_constraints(s5));
                        assert(sp_constraints(s5, (((fuel - 1) as nat - 1) as nat))
                            == PStep::<Seq<SpecConstraint>>::Done(csv, self@));
                        assert(sp_column_definition(s0, fuel) == sp_column_tail(
                            namev,
                            column_type,
                            s5,
                            (fuel - 1) as nat,
                        ));
                    }
                }
                Ok(TableColumn { column_name, column_type, constraints })
            },
            Err(err) => {
                proof {
                    assert forall|fuel: nat|
                        fuel >= fuel_column_definition(s0) implies sp_column_definition(s0, fuel)
                        == PStep::<SpecTableColumn>::Fail(err@) by {
                        reveal(sp_column_definition);
                        reveal(sp_column_tail);
                        assert(((fuel - 1) as nat - 1) as nat >= fuel_constraints(s5));
                        assert(sp_constraints(s5, (((fuel - 1) as nat - 1) as nat))
                            == PStep::<Seq<SpecConstraint>>::Fail(err@));
                        assert(sp_column_definition(s0, fuel) == sp_column_tail(
                            namev,
                            column_type,
                            s5,
                            (fuel - 1) as nat,
                        ));
                    }
                }
                Err(err)
            },
        }
    }

    /// The column-definition list of a `CREATE TABLE`; follows
    /// `sp_column_list`.
    fn parse_column_list(&mut self) -> (r: Result<Vec<TableColumn>, ParseError>)
        requires
            old(self).wf(),
        ensures
            final(self).wf(),
            final(self)@.text == old(self)@.text,
            pm_measure(final(self)@) <= pm_measure(old(self)@),
            forall|fuel: nat|
                fuel >= fuel_column_list(old(self)@) ==> sp_column_list(old(self)@, fuel)
                    == pack_columns(r, final(self)@),
        decreases pm_measure(self@),
    {
        reveal(sp_column_list);
        let ghost s0 = self@;
        match self.parse_column_definition() {
            Ok(col) => {
                let ghost colv = col@;
                let ghost s1 = self@;
                match &self.current {
                    Ok(Token::Comma) => {
                        self.advance();
                        proof {
                            assert(self@ == pm_advance(s1));
                        }
                        let ghost s2 = self@;
                        match self.parse_column_list() {
                            Ok(mut rest) => {
                                let ghost restv = rest@;
                                rest.insert(0, col);
                                proof {
                                    assert(rest@.map_values(|c: TableColumn| c@) =~= seq![colv]
                                        + restv.map_values(|c: TableColumn| c@));
                                    assert forall|fuel: nat|
                                        fuel >= fuel_column_list(s0) implies sp_column_list(
                                        s0,
                                        fuel,
                                    ) == PStep::<Seq<SpecTableColumn>>::Done(
                                        rest@.map_values(|c: TableColumn| c@),
                                        self@,
                                    ) by {
                                        reveal(sp_column_list);
                                        assert((fuel - 1) as nat >= fuel_column_definition(s0));
                                        assert(sp_column_definition(s0, (fuel - 1) as nat)
                                            == PStep::<SpecTableColumn>::Done(colv, s1));
                                        assert((fuel - 1) as nat >= fuel_column_list(s2));
                                        assert(sp_column_list(s2, (fuel - 1) as nat)
                                            == PStep::<Seq<SpecTableColumn>>::Done(
                                            restv.map_values(|c: TableColumn| c@),
                                            self@,
                                        ));
                                    }
                                }
                                Ok(rest)
                            },
                            Err(err) => {
                                proof {
                                    assert forall|fuel: nat|
                                        fuel >= fuel_column_list(s0) implies sp_column_list(
                                        s0,
                                        fuel,
                                    ) == PStep::<Seq<SpecTableColumn>>::Fail(err@) by {
                                        reveal(sp_column_list);
                                        assert((fuel - 1) as nat >= fuel_column_definition(s0));
                                        assert(sp_column_definition(s0, (fuel - 1) as nat)
                                            == PStep::<SpecTableColumn>::Done(colv, s1));
                                        assert((fuel - 1) as nat >= fuel_column_list(s2));
                                        assert(sp_column_list(s2, (fuel - 1) as nat)
                                            == PStep::<Seq<SpecTableColumn>>::Fail(err@));
                                    }
                                }
                                Err(err)
                            },
                        }
                    },
                    Ok(Token::RightParentheses) => {
                        let mut v: Vec<TableColumn> = Vec::new();
                        v.push(col);
                        proof {
                            assert(v@.map_values(|c: TableColumn| c@) =~= seq![colv]);
                            assert forall|fuel: nat|
                                fuel >= fuel_column_list(s0) implies sp_column_list(s0, fuel)
                                == PStep::<Seq<SpecTableColumn>>::Done(seq![colv], s1) by {
                                reveal(sp_column_list);
                                assert((fuel - 1) as nat >= fuel_column_definition(s0));
                                assert(sp_column_definition(s0, (fuel - 1) as nat)
                                    == PStep::<SpecTableColumn>::Done(colv, s1));
                            }
                        }
                        Ok(v)
                    },
                    _ => {
                        let cur = self.take_current();
                        proof {
                            assert forall|f: nat|
                                f + 1 >= fuel_column_list(s0) implies sp_column_definition(s0, f)
                                == PStep::<SpecTableColumn>::Done(colv, s1) by {
                                reveal(sp_column_list);
                                assert(f >= fuel_column_definition(s0));
                            }
                        }
                        match cur {
                            Ok(t) => Err(ParseError::ExpectedCommaOrRightParentheses(t)),
                            Err(le) => Err(ParseError::Lexical(le)),
                        }
                    },
                }
            },
            Err(err) => {
                proof {
                    assert forall|fuel: nat| fuel >= fuel_column_list(s0) implies sp_column_list(
                        s0,
                        fuel,
                    ) == PStep::<Seq<SpecTableColumn>>::Fail(err@) by {
                        reveal(sp_column_list);
                        assert((fuel - 1) as nat >= fuel_column_definition(s0));
                        assert(sp_column_definition(s0, (fuel - 1) as nat)
                            == PStep::<SpecTableColumn>::Fail(err@));
                    }
                }
                Err(err)
            },
        }
    }

    /// The mandatory closing semicolon of a `SELECT`, and the assembled
    /// statement; follows `sp_select_finish`.
    fn parse_select_finish(
        &mut self,
        columns: Vec<Expression>,
        from_name: String,
        where_clause: Option<Expression>,
        orderby: Vec<Expression>,
    ) -> (r: Result<Statement, ParseError>)
        requires
            old(self).wf(),
        ensures
            final(self).wf(),
            final(self)@.text == old(self)@.text,
            pm_measure(final(self)@) <= pm_measure(old(self)@),
            sp_select_finish(
                spec_expressions_view(columns@),
                from_name@,
                option_expression_view(where_clause),
                spec_expressions_view(orderby@),
                old(self)@,
            ) == pack_statement(r, final(self)@),
    {
        match self.expect_token(Token::Semicolon) {
            Ok(_) => Ok(
                Statement::Select { columns, from: from_name, where_clause, orderby },
            ),
            Err(e) => Err(e),
        }
    }

    /// The optional `ORDER BY` clause of a `SELECT`, then the finish;
    /// follows `sp_select_orderby`.
    fn parse_select_orderby(
        &mut self,
        columns: Vec<Expression>,
        from_name: String,
        where_clause: Option<Expression>,
    ) -> (r: Result<Statement, ParseError>)
        requires
            old(self).wf(),
        ensures
            final(self).wf(),
            final(self)@.text == old(self)@.text,
            pm_measure(final(self)@) <= pm_measure(old(self)@),
            forall|fuel: nat|
                fuel >= fuel_select_orderby(old(self)@) ==> sp_select_orderby(
                    spec_expressions_view(columns@),
                    from_name@,
                    option_expression_view(where_clause),
                    old(self)@,
                    fuel,
                ) == pack_statement(r, final(self)@),
    {
        reveal(sp_select_orderby);
        let ghost s0 = self@;
        let ghost colsv = spec_expressions_view(columns@);
        let ghost namev = from_name@;
        let ghost wv = option_expression_view(where_clause);
        match &self.current {
            Ok(Token::Keyword(Keyword::Order)) => {
                self.advance();
                proof {
                    assert(self@ == pm_advance(s0));
                }
                let ghost s1 = self@;
                match self.expect_keyword(Keyword::By) {
                    Ok(_) => {
                        let ghost s2 = self@;
                        match self.parse_order_by_list() {
                            Ok(orderby) => {
                                let ghost obsv = spec_expressions_view(orderby@);
                                let ghost s3 = self@;
                                let r = self.parse_select_finish(
                                    columns,
                                    from_name,
                                    where_clause,
                                    orderby,
                                );
                                proof {
                                    assert forall|fuel: nat|
                                        fuel >= fuel_select_orderby(s0) implies sp_select_orderby(
                                        colsv,
                                        namev,
                                        wv,
                                        s0,
                                        fuel,
                                    ) == pack_statement(r, self@) by {
                                        reveal(sp_select_orderby);
                                        assert((fuel - 1) as nat >= fuel_order_by_list(s2));
                                        assert(sp_order_by_list(s2, (fuel - 1) as nat)
                                            == PStep::<Seq<SpecExpression>>::Done(obsv, s3));
                                    }
                                }
                                r
                            },
                            Err(err) => {
                                proof {
                                    assert forall|fuel: nat|
                                        fuel >= fuel_select_orderby(s0) implies sp_select_orderby(
                                        colsv,
                                        namev,
                                        wv,
                                        s0,
                                        fuel,
                                    ) == PStep::<SpecStatement>::Fail(err@) by {
                                        reveal(sp_select_orderby);
                                        assert((fuel - 1) as nat >= fuel_order_by_list(s2));
                                        assert(sp_order_by_list(s2, (fuel - 1) as nat)
                                            == PStep::<Seq<SpecExpression>>::Fail(err@));
                                    }
                                }
                                Err(err)
                            },
                        }
                    },
                    Err(e) => Err(e),
                }
            },
            _ => {
                let ghost obsv = Seq::<SpecExpression>::empty();
                let orderby: Vec<Expression> = Vec::new();
                proof {
                    assert(spec_expressions_view(orderby@) =~= obsv);
                }
                self.parse_select_finish(columns, from_name, where_clause, orderby)
            },
        }
    }

    /// Everything of a `SELECT` after its column list; follows
    /// `sp_select_rest`.
    fn parse_select_rest(&mut self, columns: Vec<Expression>) -> (r: Result<Statement, ParseError>)
        requires
            old(self).wf(),
        ensures
            final(self).wf(),
            final(self)@.text == old(self)@.text,
            pm_measure(final(self)@) <= pm_measure(old(self)@),
            forall|fuel: nat|
                fuel >= fuel_select_rest(old(self)@) ==> sp_select_rest(
                    spec_expressions_view(columns@),
                    old(self)@,
                    fuel,
                ) == pack_statement(r, final(self)@),
    {
        reveal(sp_select_rest);
        let ghost s0 = self@;
        let ghost colsv = spec_expressions_view(columns@);
        match self.expect_keyword(Keyword::From) {
            Ok(_) => {},
            Err(e) => {
                return Err(e);
            },
        }
        let ghost s1 = self@;
        let cur = self.take_current();
        let from_name = match cur {
            Ok(Token::Identifier(name)) => {
                self.advance();
                name
            },
            Ok(t) => {
                return Err(ParseError::ExpectedTableName(t));
            },
            Err(le) => {
                return Err(ParseError::Lexical(le));
            },
        };
        let ghost namev = from_name@;
        proof {
            assert(self@ == pm_advance(s1));
        }
        let ghost s2 = self@;
        match &self.current {
            Ok(Token::Keyword(Keyword::Where)) => {
                self.advance();
                proof {
                    assert(self@ == pm_advance(s2));
                }
                let ghost s3 = self@;
                match self.parse_expression() {
                    Ok(w) => {
                        let ghost wv = w@;
                        let ghost s4 = self@;
                        let r = self.parse_select_orderby(columns, from_name, Some(w));
                        proof {
                            assert forall|fuel: nat|
                                fuel >= fuel_select_rest(s0) implies sp_select_rest(
                                colsv,
                                s0,
                                fuel,
                            ) == pack_statement(r, self@) by {
                                reveal(sp_select_rest);
                                assert((fuel - 1) as nat >= fuel_expression(s3));
                                assert(sp_expression(s3, (fuel - 1) as nat)
                                    == PStep::<SpecExpression>::Done(wv, s4));
                                assert((fuel - 1) as nat >= fuel_select_orderby(s4));
                                assert(sp_select_orderby(
                                    colsv,
                                    namev,
                                    Some(wv),
                                    s4,
                                    (fuel - 1) as nat,
                                ) == pack_statement(r, self@));
                            }
                        }
                        r
                    },
                    Err(err) => {
                        proof {
                            assert forall|fuel: nat|
                                fuel >= fuel_select_rest(s0) implies sp_select_rest(
                                colsv,
                                s0,
                                fuel,
                            ) == PStep::<SpecStatement>::Fail(err@) by {
                                reveal(sp_select_rest);
                                assert((fuel - 1) as nat >= fuel_expression(s3));
                                assert(sp_expression(s3, (fuel - 1) as nat)
                                    == PStep::<SpecExpression>::Fail(err@));
                            }
                        }
                        Err(err)
                    },
                }
            },
            _ => {
                let r = self.parse_select_orderby(columns, from_name, None);
                proof {
                    assert forall|fuel: nat| fuel >= fuel_select_rest(s0) implies sp_select_rest(
                        colsv,
                        s0,
                        fuel,
                    ) == pack_statement(r, self@) by {
                        reveal(sp_select_rest);
                        assert((fuel - 1) as nat >= fuel_select_orderby(s2));
                        assert(sp_select_orderby(colsv, namev, None, s2, (fuel - 1) as nat)
                            == pack_statement(r, self@));
                    }
                }
                r
            },
        }
    }

    /// Whether the current token is the `*` shorthand.
    fn current_is_star(&self) -> (b: bool)
        ensures
            b == (self@.cur == Ok::<SpecToken, LexError>(SpecToken::Multiply)),
    {
        match &self.current {
            Ok(Token::Multiply) => true,
            _ => false,
        }
    }

    /// A `SELECT` statement; follows `sp_select`.
    #[verifier::rlimit(60)]
    fn parse_select(&mut self) -> (r: Result<Statement, ParseError>)
        requires
            old(self).wf(),
            live_token(old(self)@.cur),
        ensures
            final(self).wf(),
            final(self)@.text == old(self)@.text,
            pm_measure(final(self)@) <= pm_measure(old(self)@),
            forall|fuel: nat|
                fuel >= fuel_select(old(self)@) ==> sp_select(old(self)@, fuel) == pack_statement(
                    r,
                    final(self)@,
                ),
    {
        reveal(sp_select);
        let ghost s0 = self@;
        self.advance();
        proof {
            assert(self@ == pm_advance(s0));
        }
        let ghost s1 = self@;
        if self.current_is_star() {
            let r = self.parse_select_star();
            proof {
                assert forall|fuel: nat| fuel >= fuel_select(s0) implies sp_select(s0, fuel)
                    == pack_statement(r, self@) by {
                    reveal(sp_select);
                    assert((fuel - 1) as nat >= fuel_select_star(s1));
                    assert(sp_select_star(s1, (fuel - 1) as nat) == pack_statement(r, self@));
                }
            }
            r
        } else {
            let r = self.parse_select_from_columns();
            proof {
                assert forall|fuel: nat| fuel >= fuel_select(s0) implies sp_select(s0, fuel)
                    == pack_statement(r, self@) by {
                    reveal(sp_select);
                    assert((fuel - 1) as nat >= fuel_select_from_columns(s1));
                    assert(sp_select_from_columns(s1, (fuel - 1) as nat) == pack_statement(
                        r,
                        self@,
                    ));
                }
            }
            r
        }
    }

    /// A `SELECT` with the `*` shorthand; follows `sp_select_star`.
    fn parse_select_star(&mut self) -> (r: Result<Statement, ParseError>)
        requires
            old(self).wf(),
            live_token(old(self)@.cur),
        ensures
            final(self).wf(),
            final(self)@.text == old(self)@.text,
            pm_measure(final(self)@) <= pm_measure(old(self)@),
            forall|fuel: nat|
                fuel >= fuel_select_star(old(self)@) ==> sp_select_star(old(self)@, fuel)
                    == pack_statement(r, final(self)@),
    {
        reveal(sp_select_star);
        let ghost s0 = self@;
        self.advance();
        proof {
            assert(self@ == pm_advance(s0));
        }
        let ghost s2 = self@;
        let mut columns: Vec<Expression> = Vec::new();
        columns.push(Expression::Identifier("*".to_owned()));
        proof {
            reveal_strlit("*");
            assert(spec_expressions_view(columns@) =~= seq![SpecExpression::Identifier("*"@)]);
        }
        let ghost colsv = spec_expressions_view(columns@);
        let r = self.parse_select_rest(columns);
        proof {
            assert forall|fuel: nat| fuel >= fuel_select_star(s0) implies sp_select_star(s0, fuel)
                == pack_statement(r, self@) by {
                reveal(sp_select_star);
                reveal_strlit("*");
                assert((fuel - 1) as nat >= fuel_select_rest(s2));
                assert(sp_select_rest(colsv, s2, (fuel - 1) as nat) == pack_statement(r, self@));
                assert(sp_select_rest(
                    seq![SpecExpression::Identifier("*"@)],
                    s2,
                    (fuel - 1) as nat,
                ) == pack_statement(r, self@));
            }
        }
        r
    }

    /// A `SELECT` without the `*` shorthand; follows
    /// `sp_select_from_columns`.
    fn parse_select_from_columns(&mut self) -> (r: Result<Statement, ParseError>)
        requires
            old(self).wf(),
        ensures
            final(self).wf(),
            final(self)@.text == old(self)@.text,
            pm_measure(final(self)@) <= pm_measure(old(self)@),
            forall|fuel: nat|
                fuel >= fuel_select_from_columns(old(self)@) ==> sp_select_from_columns(
                    old(self)@,
                    fuel,
                ) == pack_statement(r, final(self)@),
    {
        reveal(sp_select_from_columns);
        let ghost s0 = self@;
        match self.parse_select_columns() {
            Ok(columns) => {
                let ghost colsv = spec_expressions_view(columns@);
                let ghost s2 = self@;
                let r = self.parse_select_rest(columns);
                proof {
                    assert forall|fuel: nat|
                        fuel >= fuel_select_from_columns(s0) implies sp_select_from_columns(
                        s0,
                        fuel,
                    ) == pack_statement(r, self@) by {
                        reveal(sp_select_from_columns);
                        assert((fuel - 1) as nat >= fuel_select_columns(s0));
                        assert(sp_select_columns(s0, (fuel - 1) as nat)
                            == PStep::<Seq<SpecExpression>>::Done(colsv, s2));
                        assert((fuel - 1) as nat >= fuel_select_rest(s2));
                        assert(sp_select_rest(colsv, s2, (fuel - 1) as nat) == pack_statement(
                            r,
                            self@,
                        ));
                    }
                }
                r
            },
            Err(err) => {
                proof {
                    assert forall|fuel: nat|
                        fuel >= fuel_select_from_columns(s0) implies sp_select_from_columns(
                        s0,
                        fuel,
                    ) == PStep::<SpecStatement>::Fail(err@) by {
                        reveal(sp_select_from_columns);
                        assert((fuel - 1) as nat >= fuel_select_columns(s0));
                        assert(sp_select_columns(s0, (fuel - 1) as nat)
                            == PStep::<Seq<SpecExpression>>::Fail(err@));
                    }
                }
                Err(err)
            },
        }
    }

    /// A `CREATE TABLE` statement; follows `sp_create_table`.
    fn parse_create_table(&mut self) -> (r: Result<Statement, ParseError>)
        requires
            old(self).wf(),
            live_token(old(self)@.cur),
        ensures
            final(self).wf(),
            final(self)@.text == old(self)@.text,
            pm_measure(final(self)@) <= pm_measure(old(self)@),
            forall|fuel: nat|
                fuel >= fuel_create_table(old(self)@) ==> sp_create_table(old(self)@, fuel)
                    == pack_statement(r, final(self)@),
    {
        reveal(sp_create_table);
        let ghost s0 = self@;
        self.advance();
        proof {
            assert(self@ == pm_advance(s0));
        }
        let ghost s1 = self@;
        match self.expect_keyword(Keyword::Table) {
            Ok(_) => {},
            Err(e) => {
                return Err(e);
            },
        }
        let ghost s2 = self@;
        let cur = self.take_current();
        let table_name = match cur {
            Ok(Token::Identifier(name)) => {
                self.advance();
                name
            },
            Ok(t) => {
                return Err(ParseError::ExpectedTableName(t));
            },
            Err(le) => {
                return Err(ParseError::Lexical(le));
            },
        };
        let ghost namev = table_name@;
        proof {
            assert(self@ == pm_advance(s2));
        }
        let ghost s3 = self@;
        match self.expect_token(Token::LeftParentheses) {
            Ok(_) => {},
            Err(e) => {
                return Err(e);
            },
        }
        let ghost s4 = self@;
        match self.parse_column_list() {
            Ok(column_list) => {
                let ghost colsv = column_list@.map_values(|c: TableColumn| c@);
                let ghost s5 = self@;
                match self.expect_token(Token::RightParentheses) {
                    Ok(_) => {},
                    Err(e) => {
                        proof {
                            assert forall|f: nat|
                                f + 1 >= fuel_create_table(s0) implies sp_column_list(s4, f)
                                == PStep::<Seq<SpecTableColumn>>::Done(colsv, s5) by {
                                reveal(sp_create_table);
                                assert(f >= fuel_column_list(s4));
                            }
                        }
                        return Err(e);
                    },
                }
                match self.expect_token(Token::Semicolon) {
                    Ok(_) => {},
                    Err(e) => {
                        proof {
                            assert forall|f: nat|
                                f + 1 >= fuel_create_table(s0) implies sp_column_list(s4, f)
                                == PStep::<Seq<SpecTableColumn>>::Done(colsv, s5) by {
                                reveal(sp_create_table);
                                assert(f >= fuel_column_list(s4));
                            }
                        }
                        return Err(e);
                    },
                }
                proof {
                    assert forall|f: nat|
                        f + 1 >= fuel_create_table(s0) implies sp_column_list(s4, f)
                        == PStep::<Seq<SpecTableColumn>>::Done(colsv, s5) by {
                        reveal(sp_create_table);
                        assert(f >= fuel_column_list(s4));
                    }
                }
                Ok(Statement::CreateTable { table_name, column_list })
            },
            Err(err) => {
                proof {
                    assert forall|fuel: nat| fuel >= fuel_create_table(s0) implies sp_create_table(
                        s0,
                        fuel,
                    ) == PStep::<SpecStatement>::Fail(err@) by {
                        reveal(sp_create_table);
                        assert((fuel - 1) as nat >= fuel_column_list(s4));
                        assert(sp_column_list(s4, (fuel - 1) as nat)
                            == PStep::<Seq<SpecTableColumn>>::Fail(err@));
                    }
                }
                Err(err)
            },
        }
    }

    /// One statement, decided by the current token; follows `sp_statement`.
    pub fn parse_statement(&mut self) -> (r: Result<Statement, ParseError>)
        requires
            old(self).wf(),
        ensures
            final(self).wf(),
            final(self)@.text == old(self)@.text,
            pm_measure(final(self)@) <= pm_measure(old(self)@),
            forall|fuel: nat|
                fuel >= fuel_statement(old(self)@) ==> sp_statement(old(self)@, fuel)
                    == pack_statement(r, final(self)@),
    {
        reveal(sp_statement);
        let ghost s0 = self@;
        match &self.current {
            Ok(Token::Keyword(Keyword::Select)) => {
                let r = self.parse_select();
                proof {
                    assert forall|fuel: nat| fuel >= fuel_statement(s0) implies sp_statement(
                        s0,
                        fuel,
                    ) == pack_statement(r, self@) by {
                        reveal(sp_statement);
                        assert((fuel - 1) as nat >= fuel_select(s0));
                        assert(sp_select(s0, (fuel - 1) as nat) == pack_statement(r, self@));
                    }
                }
                r
            },
            Ok(Token::Keyword(Keyword::Create)) => {
                let r = self.parse_create_table();
                proof {
                    assert forall|fuel: nat| fuel >= fuel_statement(s0) implies sp_statement(
                        s0,
                        fuel,
                    ) == pack_statement(r, self@) by {
                        reveal(sp_statement);
                        assert((fuel - 1) as nat >= fuel_create_table(s0));
                        assert(sp_create_table(s0, (fuel - 1) as nat) == pack_statement(r, self@));
                    }
                }
                r
            },
            _ => {
                let cur = self.take_current();
                match cur {
                    Ok(t) => Err(ParseError::ExpectedSelectOrCreate(t)),
                    Err(le) => Err(ParseError::Lexical(le)),
                }
            },
        }
    }
}

} // verus!
