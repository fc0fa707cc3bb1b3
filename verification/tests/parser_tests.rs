use sql_parser::parse_sql;
use sql_parser::parser::ParseError;
use sql_parser::statement::{
    BinaryOperator, Constraint, DBType, Expression, Statement, TableColumn, UnaryOperator,
};
use sql_parser::token::{LexError, Token};

fn num(n: u64) -> Expression {
    Expression::Number(n)
}

fn ident(s: &str) -> Expression {
    Expression::Identifier(s.to_string())
}

fn binary(left: Expression, op: BinaryOperator, right: Expression) -> Expression {
    Expression::BinaryOperation {
        left_operand: Box::new(left),
        operator: op,
        right_operand: Box::new(right),
    }
}

fn unary(op: UnaryOperator, operand: Expression) -> Expression {
    Expression::UnaryOperation {
        operator: op,
        operand: Box::new(operand),
    }
}

#[test]
fn select_star() {
    let r = parse_sql("SELECT * FROM t;").unwrap();
    assert_eq!(
        r,
        Statement::Select {
            columns: vec![ident("*")],
            from: "t".to_string(),
            where_clause: None,
            orderby: vec![],
        }
    );
}

#[test]
fn precedence_multiplication_over_addition() {
    let r = parse_sql("SELECT 1 + 2 * 3 FROM t;").unwrap();
    match r {
        Statement::Select { columns, .. } => {
            assert_eq!(
                columns,
                vec![binary(
                    num(1),
                    BinaryOperator::Plus,
                    binary(num(2), BinaryOperator::Multiply, num(3))
                )]
            );
        }
        _ => panic!("expected a SELECT"),
    }
}

#[test]
fn subtraction_is_left_associative() {
    let r = parse_sql("SELECT a FROM t WHERE 10 - 3 - 2 = 5;").unwrap();
    match r {
        Statement::Select { where_clause, .. } => {
            assert_eq!(
                where_clause,
                Some(binary(
                    binary(
                        binary(num(10), BinaryOperator::Minus, num(3)),
                        BinaryOperator::Minus,
                        num(2)
                    ),
                    BinaryOperator::Equal,
                    num(5)
                ))
            );
        }
        _ => panic!("expected a SELECT"),
    }
}

#[test]
fn create_table_with_constraints() {
    let r = parse_sql("CREATE TABLE t (id INT PRIMARY KEY NOT NULL CHECK (id > 0));").unwrap();
    assert_eq!(
        r,
        Statement::CreateTable {
            table_name: "t".to_string(),
            column_list: vec![TableColumn {
                column_name: "id".to_string(),
                column_type: DBType::Int,
                constraints: vec![
                    Constraint::PrimaryKey,
                    Constraint::NotNull,
                    Constraint::Check(binary(ident("id"), BinaryOperator::GreaterThan, num(0))),
                ],
            }],
        }
    );
}

#[test]
fn varchar_without_length_is_a_syntax_error() {
    let r = parse_sql("CREATE TABLE t (name VARCHAR);");
    assert_eq!(
        r,
        Err(ParseError::ExpectedLeftParenthesesAfterVarchar(
            Token::RightParentheses
        ))
    );
}

#[test]
fn order_by_desc() {
    let r = parse_sql("SELECT a FROM t ORDER BY a DESC;").unwrap();
    match r {
        Statement::Select { orderby, .. } => {
            assert_eq!(orderby, vec![unary(UnaryOperator::Desc, ident("a"))]);
        }
        _ => panic!("expected a SELECT"),
    }
}

#[test]
fn unterminated_string_is_a_lexical_error_and_deterministic() {
    let first = parse_sql("SELECT a FROM 'x;");
    let second = parse_sql("SELECT a FROM 'x;");
    assert_eq!(
        first,
        Err(ParseError::Lexical(LexError::UnterminatedString('\'')))
    );
    assert_eq!(first, second);
}

#[test]
fn parsing_is_deterministic_on_well_formed_input() {
    let a = parse_sql("SELECT a, b FROM t WHERE a = 1 ORDER BY b;");
    let b = parse_sql("SELECT a, b FROM t WHERE a = 1 ORDER BY b;");
    assert_eq!(a, b);
    assert!(a.is_ok());
}

#[test]
fn keywords_are_case_insensitive() {
    let lower = parse_sql("select a from t where a = 1;").unwrap();
    let mixed = parse_sql("SeLeCt a FrOm t WhErE a = 1;").unwrap();
    let upper = parse_sql("SELECT a FROM t WHERE a = 1;").unwrap();
    assert_eq!(lower, upper);
    assert_eq!(mixed, upper);
}

#[test]
fn pseudo_decimal_literals() {
    let r = parse_sql("SELECT 1.5, 12.34 FROM t;").unwrap();
    match r {
        Statement::Select { columns, .. } => {
            assert_eq!(columns, vec![num(15), num(154)]);
        }
        _ => panic!("expected a SELECT"),
    }
}

#[test]
fn decimal_point_needs_a_digit() {
    assert_eq!(
        parse_sql("SELECT 1. FROM t;"),
        Err(ParseError::Lexical(LexError::ExpectedDigitAfterDecimalPoint(
            ' '
        )))
    );
    assert_eq!(
        parse_sql("SELECT 1."),
        Err(ParseError::Lexical(LexError::UnexpectedEndAfterDecimalPoint))
    );
}

#[test]
fn oversized_number_is_a_lexical_error() {
    assert_eq!(
        parse_sql("SELECT 99999999999999999999 FROM t;"),
        Err(ParseError::Lexical(LexError::NumberTooLarge))
    );
    // The largest value that fits is accepted.
    let r = parse_sql("SELECT 18446744073709551615 FROM t;").unwrap();
    match r {
        Statement::Select { columns, .. } => assert_eq!(columns, vec![num(u64::MAX)]),
        _ => panic!("expected a SELECT"),
    }
}

#[test]
fn bang_without_equals_is_a_lexical_error() {
    assert_eq!(
        parse_sql("SELECT a ! b FROM t;"),
        Err(ParseError::Lexical(LexError::ExpectedEqualsAfterBang))
    );
}

#[test]
fn unexpected_character_is_a_lexical_error() {
    assert_eq!(
        parse_sql("SELECT @ FROM t;"),
        Err(ParseError::Lexical(LexError::UnexpectedCharacter('@')))
    );
}

#[test]
fn parentheses_group_tighter() {
    let r = parse_sql("SELECT (1 + 2) * 3 FROM t;").unwrap();
    match r {
        Statement::Select { columns, .. } => {
            assert_eq!(
                columns,
                vec![binary(
                    binary(num(1), BinaryOperator::Plus, num(2)),
                    BinaryOperator::Multiply,
                    num(3)
                )]
            );
        }
        _ => panic!("expected a SELECT"),
    }
}

#[test]
fn and_binds_tighter_than_or() {
    let r = parse_sql("SELECT x FROM t WHERE a = 1 OR b = 2 AND c = 3;").unwrap();
    match r {
        Statement::Select { where_clause, .. } => {
            assert_eq!(
                where_clause,
                Some(binary(
                    binary(ident("a"), BinaryOperator::Equal, num(1)),
                    BinaryOperator::Or,
                    binary(
                        binary(ident("b"), BinaryOperator::Equal, num(2)),
                        BinaryOperator::And,
                        binary(ident("c"), BinaryOperator::Equal, num(3))
                    )
                ))
            );
        }
        _ => panic!("expected a SELECT"),
    }
}

#[test]
fn unary_minus_binds_tighter_than_addition() {
    let r = parse_sql("SELECT -1 + 2 FROM t;").unwrap();
    match r {
        Statement::Select { columns, .. } => {
            assert_eq!(
                columns,
                vec![binary(
                    unary(UnaryOperator::Minus, num(1)),
                    BinaryOperator::Plus,
                    num(2)
                )]
            );
        }
        _ => panic!("expected a SELECT"),
    }
}

#[test]
fn not_and_boolean_literals() {
    let r = parse_sql("SELECT NOT TRUE, FALSE FROM t;").unwrap();
    match r {
        Statement::Select { columns, .. } => {
            assert_eq!(
                columns,
                vec![
                    unary(UnaryOperator::Not, Expression::Bool(true)),
                    Expression::Bool(false)
                ]
            );
        }
        _ => panic!("expected a SELECT"),
    }
}

#[test]
fn string_literals_both_quote_kinds() {
    let r = parse_sql("SELECT 'abc', \"x y\" FROM t;").unwrap();
    match r {
        Statement::Select { columns, .. } => {
            assert_eq!(
                columns,
                vec![
                    Expression::String("abc".to_string()),
                    Expression::String("x y".to_string())
                ]
            );
        }
        _ => panic!("expected a SELECT"),
    }
}

#[test]
fn create_table_several_columns() {
    let r = parse_sql("CREATE TABLE t (a VARCHAR(10), b BOOL, c INT);").unwrap();
    assert_eq!(
        r,
        Statement::CreateTable {
            table_name: "t".to_string(),
            column_list: vec![
                TableColumn {
                    column_name: "a".to_string(),
                    column_type: DBType::Varchar(10),
                    constraints: vec![],
                },
                TableColumn {
                    column_name: "b".to_string(),
                    column_type: DBType::Bool,
                    constraints: vec![],
                },
                TableColumn {
                    column_name: "c".to_string(),
                    column_type: DBType::Int,
                    constraints: vec![],
                },
            ],
        }
    );
}

#[test]
fn repeated_constraints_are_kept_in_order() {
    let r = parse_sql("CREATE TABLE t (a INT NOT NULL NOT NULL);").unwrap();
    match r {
        Statement::CreateTable { column_list, .. } => {
            assert_eq!(
                column_list[0].constraints,
                vec![Constraint::NotNull, Constraint::NotNull]
            );
        }
        _ => panic!("expected a CREATE TABLE"),
    }
}

#[test]
fn missing_from_is_reported() {
    assert_eq!(
        parse_sql("SELECT a;"),
        Err(ParseError::ExpectedFromOrComma(Token::Semicolon))
    );
}

#[test]
fn missing_semicolon_is_reported() {
    assert_eq!(
        parse_sql("SELECT a FROM t"),
        Err(ParseError::ExpectedToken {
            expected: Token::Semicolon,
            got: Token::Eof
        })
    );
}

#[test]
fn wrong_leading_keyword_is_reported() {
    assert_eq!(
        parse_sql("DELETE FROM t;"),
        Err(ParseError::ExpectedSelectOrCreate(Token::Identifier(
            "DELETE".to_string()
        )))
    );
}

#[test]
fn empty_input_is_reported() {
    assert_eq!(
        parse_sql(""),
        Err(ParseError::ExpectedSelectOrCreate(Token::Eof))
    );
}

#[test]
fn keyword_in_prefix_position_is_reported() {
    assert_eq!(
        parse_sql("SELECT FROM t;"),
        Err(ParseError::UnexpectedTokenInPrefix(Token::Keyword(
            sql_parser::token::Keyword::From
        )))
    );
}

#[test]
fn order_by_several_keys() {
    let r = parse_sql("SELECT a FROM t ORDER BY a, b DESC, c ASC;").unwrap();
    match r {
        Statement::Select { orderby, .. } => {
            assert_eq!(
                orderby,
                vec![
                    ident("a"),
                    unary(UnaryOperator::Desc, ident("b")),
                    unary(UnaryOperator::Asc, ident("c")),
                ]
            );
        }
        _ => panic!("expected a SELECT"),
    }
}

#[test]
fn whitespace_variants_are_skipped() {
    let r = parse_sql("SELECT\t a \n FROM \r\n t ;").unwrap();
    match r {
        Statement::Select { columns, from, .. } => {
            assert_eq!(columns, vec![ident("a")]);
            assert_eq!(from, "t".to_string());
        }
        _ => panic!("expected a SELECT"),
    }
}

#[test]
fn identifiers_with_underscores_and_digits() {
    let r = parse_sql("SELECT _x1, y_2 FROM tab_3;").unwrap();
    match r {
        Statement::Select { columns, from, .. } => {
            assert_eq!(columns, vec![ident("_x1"), ident("y_2")]);
            assert_eq!(from, "tab_3".to_string());
        }
        _ => panic!("expected a SELECT"),
    }
}

#[test]
fn input_after_the_semicolon_is_not_read() {
    // The token stream is consumed lazily: parsing stops at the statement's
    // semicolon (plus one token of lookahead), so later garbage is never seen.
    let r = parse_sql("SELECT a FROM t; ~ ~ ~");
    assert!(r.is_ok());
}

#[test]
fn comparison_operators_parse() {
    let r = parse_sql("SELECT x FROM t WHERE a >= 1 AND b <= 2 AND c != 3;").unwrap();
    match r {
        Statement::Select { where_clause, .. } => {
            assert_eq!(
                where_clause,
                Some(binary(
                    binary(
                        binary(ident("a"), BinaryOperator::GreaterThanOrEqual, num(1)),
                        BinaryOperator::And,
                        binary(ident("b"), BinaryOperator::LessThanOrEqual, num(2))
                    ),
                    BinaryOperator::And,
                    binary(ident("c"), BinaryOperator::NotEqual, num(3))
                ))
            );
        }
        _ => panic!("expected a SELECT"),
    }
}

#[test]
fn check_constraint_with_boolean_connectives() {
    let r = parse_sql("CREATE TABLE t (a INT CHECK (a > 0 AND a < 10));").unwrap();
    match r {
        Statement::CreateTable { column_list, .. } => {
            assert_eq!(
                column_list[0].constraints,
                vec![Constraint::Check(binary(
                    binary(ident("a"), BinaryOperator::GreaterThan, num(0)),
                    BinaryOperator::And,
                    binary(ident("a"), BinaryOperator::LessThan, num(10))
                ))]
            );
        }
        _ => panic!("expected a CREATE TABLE"),
    }
}

#[test]
fn primary_without_key_is_reported() {
    assert_eq!(
        parse_sql("CREATE TABLE t (a INT PRIMARY);"),
        Err(ParseError::ExpectedKeyAfterPrimary(Token::RightParentheses))
    );
}

#[test]
fn not_without_null_is_reported() {
    assert_eq!(
        parse_sql("CREATE TABLE t (a INT NOT 5);"),
        Err(ParseError::ExpectedNullAfterNot(Token::Number(5)))
    );
}

#[test]
fn varchar_length_must_be_a_number() {
    assert_eq!(
        parse_sql("CREATE TABLE t (a VARCHAR(x));"),
        Err(ParseError::ExpectedVarcharLength(Token::Identifier(
            "x".to_string()
        )))
    );
}

#[test]
fn equal_precedence_chains_group_left() {
    let r = parse_sql("SELECT 1 - 2 + 3, 8 / 4 * 2 FROM t;").unwrap();
    match r {
        Statement::Select { columns, .. } => {
            assert_eq!(
                columns,
                vec![
                    binary(
                        binary(num(1), BinaryOperator::Minus, num(2)),
                        BinaryOperator::Plus,
                        num(3)
                    ),
                    binary(
                        binary(num(8), BinaryOperator::Divide, num(4)),
                        BinaryOperator::Multiply,
                        num(2)
                    ),
                ]
            );
        }
        _ => panic!("expected a SELECT"),
    }
}

#[test]
fn where_clause_is_optional_and_order_by_needs_by() {
    let r = parse_sql("SELECT a FROM t;").unwrap();
    match r {
        Statement::Select { where_clause, orderby, .. } => {
            assert_eq!(where_clause, None);
            assert!(orderby.is_empty());
        }
        _ => panic!("expected a SELECT"),
    }
    assert_eq!(
        parse_sql("SELECT a FROM t ORDER a;"),
        Err(ParseError::ExpectedKeyword {
            expected: sql_parser::token::Keyword::By,
            got: Token::Identifier("a".to_string()),
        })
    );
}
