use lox_frontend::lexer::Lexer;
use lox_frontend::parser::Parser;
use lox_frontend::expr::Expr;
use lox_frontend::token::Literal;
use lox_frontend::token::Token;
use lox_frontend::token::TokenType;
use lox_frontend::interpreter::Interpreter;

fn parse(source: &str) -> Result<Expr, lox_frontend::error::LoxError> {
    let mut lexer = Lexer::new(source.to_string());
    let tokens = lexer.scan_tokens();
    assert!(lexer.errors.is_empty());
    let mut parser = Parser::new(tokens);
    parser.parse()
}

fn number_leaf(text: &str) -> Expr {
    Expr::Literal { value: Literal::Number(text.to_string()) }
}

fn operator(token_type: TokenType, lexeme: &str, line_number: usize) -> Token {
    Token { token_type, lexeme: lexeme.to_string(), literal: Literal::Absent, line_number }
}

#[test]
fn multiplication_binds_tighter_than_addition() {
    let expr = parse("1 + 2 * 3").unwrap();
    let expected = Expr::Binary {
        left: Box::new(number_leaf("1")),
        operator: operator(TokenType::Plus, "+", 1),
        right: Box::new(Expr::Binary {
            left: Box::new(number_leaf("2")),
            operator: operator(TokenType::Star, "*", 1),
            right: Box::new(number_leaf("3")),
        }),
    };
    assert_eq!(expr, expected);
}

#[test]
fn subtraction_is_left_associative() {
    let expr = parse("1 - 2 - 3").unwrap();
    let expected = Expr::Binary {
        left: Box::new(Expr::Binary {
            left: Box::new(number_leaf("1")),
            operator: operator(TokenType::Minus, "-", 1),
            right: Box::new(number_leaf("2")),
        }),
        operator: operator(TokenType::Minus, "-", 1),
        right: Box::new(number_leaf("3")),
    };
    assert_eq!(expr, expected);
}

#[test]
fn grouping_overrides_precedence() {
    let expr = parse("(1 + 2) * 3").unwrap();
    let expected = Expr::Binary {
        left: Box::new(Expr::Grouping {
            expr: Box::new(Expr::Binary {
                left: Box::new(number_leaf("1")),
                operator: operator(TokenType::Plus, "+", 1),
                right: Box::new(number_leaf("2")),
            }),
        }),
        operator: operator(TokenType::Star, "*", 1),
        right: Box::new(number_leaf("3")),
    };
    assert_eq!(expr, expected);
}

#[test]
fn unary_nests_right_recursively() {
    let expr = parse("!!true").unwrap();
    let expected = Expr::Unary {
        operator: operator(TokenType::Bang, "!", 1),
        right: Box::new(Expr::Unary {
            operator: operator(TokenType::Bang, "!", 1),
            right: Box::new(Expr::Literal { value: Literal::Boolean(true) }),
        }),
    };
    assert_eq!(expr, expected);
}

#[test]
fn unary_minus_nests() {
    let expr = parse("--1").unwrap();
    let expected = Expr::Unary {
        operator: operator(TokenType::Minus, "-", 1),
        right: Box::new(Expr::Unary {
            operator: operator(TokenType::Minus, "-", 1),
            right: Box::new(number_leaf("1")),
        }),
    };
    assert_eq!(expr, expected);
}

#[test]
fn literal_primaries() {
    assert_eq!(parse("true").unwrap(), Expr::Literal { value: Literal::Boolean(true) });
    assert_eq!(parse("false").unwrap(), Expr::Literal { value: Literal::Boolean(false) });
    assert_eq!(parse("nil").unwrap(), Expr::Literal { value: Literal::Nil });
    assert_eq!(parse("42").unwrap(), Expr::Literal { value: Literal::Number("42".to_string()) });
    assert_eq!(
        parse("\"hello\"").unwrap(),
        Expr::Literal { value: Literal::Text("hello".to_string()) },
    );
}

#[test]
fn comparison_and_equality_layer() {
    let expr = parse("1 < 2 == true").unwrap();
    let expected = Expr::Binary {
        left: Box::new(Expr::Binary {
            left: Box::new(number_leaf("1")),
            operator: operator(TokenType::Less, "<", 1),
            right: Box::new(number_leaf("2")),
        }),
        operator: operator(TokenType::EqualEqual, "==", 1),
        right: Box::new(Expr::Literal { value: Literal::Boolean(true) }),
    };
    assert_eq!(expr, expected);
}

#[test]
fn division_and_multiplication_are_left_associative() {
    let expr = parse("8 / 2 * 4").unwrap();
    let expected = Expr::Binary {
        left: Box::new(Expr::Binary {
            left: Box::new(number_leaf("8")),
            operator: operator(TokenType::Slash, "/", 1),
            right: Box::new(number_leaf("2")),
        }),
        operator: operator(TokenType::Star, "*", 1),
        right: Box::new(number_leaf("4")),
    };
    assert_eq!(expr, expected);
}

#[test]
fn missing_right_paren_is_a_syntax_error() {
    let err = parse("(1 + 2").unwrap_err();
    assert_eq!(err.reason, "Expect ')' after expression.");
    assert_eq!(err.line_number, 1);
}

#[test]
fn token_that_begins_no_expression_is_a_syntax_error() {
    let err = parse("+").unwrap_err();
    assert_eq!(err.reason, "Expect expression.");
    assert_eq!(err.line_number, 1);
}

#[test]
fn syntax_error_reports_the_offending_line() {
    let err = parse("1 +\n)").unwrap_err();
    assert_eq!(err.reason, "Expect expression.");
    assert_eq!(err.line_number, 2);
}

#[test]
fn operator_tokens_keep_their_source_line() {
    let expr = parse("1 +\n2").unwrap();
    match expr {
        Expr::Binary { operator, .. } => {
            assert_eq!(operator.token_type, TokenType::Plus);
            assert_eq!(operator.line_number, 1);
        },
        other => panic!("expected a binary node, got {:?}", other),
    }
}

#[test]
fn evaluate_returns_the_literal_value() {
    let interpreter = Interpreter::new();
    let expr = parse("42").unwrap();
    assert_eq!(interpreter.evaluate(&expr), Literal::Number("42".to_string()));
    let expr = parse("\"hi\"").unwrap();
    assert_eq!(interpreter.evaluate(&expr), Literal::Text("hi".to_string()));
}
