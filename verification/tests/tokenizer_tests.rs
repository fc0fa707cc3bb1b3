use sql_parser::parser::Parser;
use sql_parser::statement::{BinaryOperator, Expression, UnaryOperator};
use sql_parser::token::{Keyword, LexError, Token};
use sql_parser::tokenizer::Tokenizer;

#[test]
fn tokenizes_a_simple_statement() {
    let mut t = Tokenizer::new("SELECT a, 42 FROM t;");
    assert_eq!(t.next_token(), Ok(Token::Keyword(Keyword::Select)));
    assert_eq!(t.next_token(), Ok(Token::Identifier("a".to_string())));
    assert_eq!(t.next_token(), Ok(Token::Comma));
    assert_eq!(t.next_token(), Ok(Token::Number(42)));
    assert_eq!(t.next_token(), Ok(Token::Keyword(Keyword::From)));
    assert_eq!(t.next_token(), Ok(Token::Identifier("t".to_string())));
    assert_eq!(t.next_token(), Ok(Token::Semicolon));
    assert_eq!(t.next_token(), Ok(Token::Eof));
}

#[test]
fn end_of_input_sentinel_repeats_forever() {
    let mut t = Tokenizer::new("  ");
    for _ in 0..5 {
        assert_eq!(t.next_token(), Ok(Token::Eof));
    }
}

#[test]
fn two_character_operators_need_one_char_lookahead() {
    let mut t = Tokenizer::new(">= <= != > < =");
    assert_eq!(t.next_token(), Ok(Token::GreaterThanOrEqual));
    assert_eq!(t.next_token(), Ok(Token::LessThanOrEqual));
    assert_eq!(t.next_token(), Ok(Token::NotEqual));
    assert_eq!(t.next_token(), Ok(Token::GreaterThan));
    assert_eq!(t.next_token(), Ok(Token::LessThan));
    assert_eq!(t.next_token(), Ok(Token::Equal));
    assert_eq!(t.next_token(), Ok(Token::Eof));
}

#[test]
fn punctuation_and_arithmetic_tokens() {
    let mut t = Tokenizer::new("( ) , ; * / + -");
    assert_eq!(t.next_token(), Ok(Token::LeftParentheses));
    assert_eq!(t.next_token(), Ok(Token::RightParentheses));
    assert_eq!(t.next_token(), Ok(Token::Comma));
    assert_eq!(t.next_token(), Ok(Token::Semicolon));
    assert_eq!(t.next_token(), Ok(Token::Multiply));
    assert_eq!(t.next_token(), Ok(Token::Divide));
    assert_eq!(t.next_token(), Ok(Token::Plus));
    assert_eq!(t.next_token(), Ok(Token::Minus));
}

#[test]
fn pseudo_decimal_number_value() {
    let mut t = Tokenizer::new("1.5");
    assert_eq!(t.next_token(), Ok(Token::Number(15)));
    let mut t2 = Tokenizer::new("12.34");
    assert_eq!(t2.next_token(), Ok(Token::Number(154)));
}

#[test]
fn lexing_continues_after_an_error() {
    let mut t = Tokenizer::new("1.x");
    assert_eq!(
        t.next_token(),
        Err(LexError::ExpectedDigitAfterDecimalPoint('x'))
    );
    // The cursor stands before the offending character, which then lexes
    // as an identifier.
    assert_eq!(t.next_token(), Ok(Token::Identifier("x".to_string())));
    assert_eq!(t.next_token(), Ok(Token::Eof));
}

#[test]
fn string_literal_consumes_verbatim() {
    let mut t = Tokenizer::new("'a \"b\" c'");
    assert_eq!(t.next_token(), Ok(Token::String("a \"b\" c".to_string())));
    assert_eq!(t.next_token(), Ok(Token::Eof));
}

#[test]
fn unterminated_string_reports_its_quote() {
    let mut t = Tokenizer::new("\"abc");
    assert_eq!(t.next_token(), Err(LexError::UnterminatedString('"')));
}

#[test]
fn every_keyword_is_recognized() {
    let words = [
        ("SELECT", Keyword::Select),
        ("CREATE", Keyword::Create),
        ("TABLE", Keyword::Table),
        ("WHERE", Keyword::Where),
        ("ORDER", Keyword::Order),
        ("BY", Keyword::By),
        ("ASC", Keyword::Asc),
        ("DESC", Keyword::Desc),
        ("FROM", Keyword::From),
        ("AND", Keyword::And),
        ("OR", Keyword::Or),
        ("NOT", Keyword::Not),
        ("TRUE", Keyword::True),
        ("FALSE", Keyword::False),
        ("PRIMARY", Keyword::Primary),
        ("KEY", Keyword::Key),
        ("CHECK", Keyword::Check),
        ("INT", Keyword::Int),
        ("BOOL", Keyword::Bool),
        ("VARCHAR", Keyword::Varchar),
        ("NULL", Keyword::Null),
    ];
    for (word, kw) in words {
        let mut upper = Tokenizer::new(word);
        assert_eq!(upper.next_token(), Ok(Token::Keyword(kw)));
        let lower = word.to_lowercase();
        let mut low = Tokenizer::new(&lower);
        assert_eq!(low.next_token(), Ok(Token::Keyword(kw)));
    }
}

#[test]
fn near_keywords_stay_identifiers() {
    let mut t = Tokenizer::new("SELECTED froms tab");
    assert_eq!(t.next_token(), Ok(Token::Identifier("SELECTED".to_string())));
    assert_eq!(t.next_token(), Ok(Token::Identifier("froms".to_string())));
    assert_eq!(t.next_token(), Ok(Token::Identifier("tab".to_string())));
}

#[test]
fn adjacent_tokens_without_whitespace() {
    let mut t = Tokenizer::new("a=1and(b)");
    assert_eq!(t.next_token(), Ok(Token::Identifier("a".to_string())));
    assert_eq!(t.next_token(), Ok(Token::Equal));
    // "1and" lexes as the number 1 followed by the keyword AND.
    assert_eq!(t.next_token(), Ok(Token::Number(1)));
    assert_eq!(t.next_token(), Ok(Token::Keyword(Keyword::And)));
    assert_eq!(t.next_token(), Ok(Token::LeftParentheses));
    assert_eq!(t.next_token(), Ok(Token::Identifier("b".to_string())));
    assert_eq!(t.next_token(), Ok(Token::RightParentheses));
    assert_eq!(t.next_token(), Ok(Token::Eof));
}

#[test]
fn parser_entry_points_work_standalone() {
    let mut p = Parser::new(Tokenizer::new("1 + 2"));
    assert_eq!(
        p.parse_expression(),
        Ok(Expression::BinaryOperation {
            left_operand: Box::new(Expression::Number(1)),
            operator: BinaryOperator::Plus,
            right_operand: Box::new(Expression::Number(2)),
        })
    );
    let mut q = Parser::new(Tokenizer::new("a ASC"));
    assert_eq!(
        q.parse_order_by_expr(),
        Ok(Expression::UnaryOperation {
            operator: UnaryOperator::Asc,
            operand: Box::new(Expression::Identifier("a".to_string())),
        })
    );
    let mut s = Parser::new(Tokenizer::new("SELECT x FROM y;"));
    assert!(s.parse_statement().is_ok());
}
