//! Parser behaviour on concrete token sequences: precedence, associativity,
//! grouping, and the two structural errors; and the pretty-printer.

use rlox::expr::{Expr, Printer};
use rlox::parser::{ParseError, ParseErrorKind, Parser};
use rlox::token::{Token, TokenType};

fn parse(source: &str) -> Result<Expr, ParseError> {
    let (tokens, diagnostics) = rlox::run(source.as_bytes().to_vec());
    assert!(diagnostics.is_empty());
    let mut parser = Parser::new(tokens);
    parser.parse()
}

fn printed(source: &str) -> String {
    let expr = parse(source).unwrap();
    let printer = Printer {};
    String::from_utf8(printer.print(&expr)).unwrap()
}

fn literal_lexeme(e: &Expr) -> &[u8] {
    match e {
        Expr::Literal(l) => &l.token.lexeme,
        _ => panic!("not a literal"),
    }
}

#[test]
fn equality_builds_a_binary_node() {
    let expr = parse("1 == 2").unwrap();
    match expr {
        Expr::Binary(b) => {
            assert_eq!(b.operator.ty, TokenType::EqualEqual);
            assert_eq!(literal_lexeme(&b.left), b"1");
            assert_eq!(literal_lexeme(&b.right), b"2");
        },
        _ => panic!("expected a binary node"),
    }
}

#[test]
fn multiplication_binds_tighter_than_addition() {
    let expr = parse("1 + 2 * 3").unwrap();
    match expr {
        Expr::Binary(b) => {
            assert_eq!(b.operator.ty, TokenType::Plus);
            assert_eq!(literal_lexeme(&b.left), b"1");
            match b.right.as_ref() {
                Expr::Binary(inner) => {
                    assert_eq!(inner.operator.ty, TokenType::Star);
                    assert_eq!(literal_lexeme(&inner.left), b"2");
                    assert_eq!(literal_lexeme(&inner.right), b"3");
                },
                _ => panic!("expected the right child to be binary"),
            }
        },
        _ => panic!("expected a binary node"),
    }
}

#[test]
fn same_precedence_chains_are_left_associative() {
    let expr = parse("1 - 2 - 3").unwrap();
    match expr {
        Expr::Binary(b) => {
            assert_eq!(b.operator.ty, TokenType::Minus);
            assert_eq!(literal_lexeme(&b.right), b"3");
            match b.left.as_ref() {
                Expr::Binary(inner) => {
                    assert_eq!(inner.operator.ty, TokenType::Minus);
                    assert_eq!(literal_lexeme(&inner.left), b"1");
                    assert_eq!(literal_lexeme(&inner.right), b"2");
                },
                _ => panic!("expected the left child to be binary"),
            }
        },
        _ => panic!("expected a binary node"),
    }
}

#[test]
fn unclosed_grouping_is_a_parse_error() {
    let err = parse("(1 + 2").unwrap_err();
    assert_eq!(err.kind, ParseErrorKind::ExpectedRightParen);
    assert_eq!(err.line, 1);
}

#[test]
fn empty_input_is_an_expected_expression_error() {
    let tokens = vec![Token::new(TokenType::Eof, Vec::new(), None, 1)];
    let mut parser = Parser::new(tokens);
    let err = parser.parse().unwrap_err();
    assert_eq!(err.kind, ParseErrorKind::ExpectedExpression);
    assert_eq!(err.line, 1);
}

#[test]
fn operator_without_operand_is_an_expected_expression_error() {
    let err = parse("1 + ;").unwrap_err();
    assert_eq!(err.kind, ParseErrorKind::ExpectedExpression);
}

#[test]
fn grouping_wraps_the_inner_expression() {
    let expr = parse("(1 + 2)").unwrap();
    match expr {
        Expr::Grouping(g) => match g.expr.as_ref() {
            Expr::Binary(b) => assert_eq!(b.operator.ty, TokenType::Plus),
            _ => panic!("expected a binary node inside"),
        },
        _ => panic!("expected a grouping"),
    }
}

#[test]
fn unary_binds_to_the_right() {
    let expr = parse("!!true").unwrap();
    match expr {
        Expr::Unary(u) => {
            assert_eq!(u.operator.ty, TokenType::Bang);
            match u.right.as_ref() {
                Expr::Unary(inner) => {
                    assert_eq!(inner.operator.ty, TokenType::Bang);
                    match inner.right.as_ref() {
                        Expr::Literal(l) => assert_eq!(l.token.ty, TokenType::True),
                        _ => panic!("expected a literal"),
                    }
                },
                _ => panic!("expected a nested unary"),
            }
        },
        _ => panic!("expected a unary node"),
    }
}

#[test]
fn comparison_level_parses() {
    let expr = parse("1 < 2").unwrap();
    match expr {
        Expr::Binary(b) => assert_eq!(b.operator.ty, TokenType::Less),
        _ => panic!("expected a binary node"),
    }
}

#[test]
fn keyword_literals_parse() {
    for (source, ty) in
        [("true", TokenType::True), ("false", TokenType::False), ("nil", TokenType::Nil)] {
        let expr = parse(source).unwrap();
        match expr {
            Expr::Literal(l) => assert_eq!(l.token.ty, ty),
            _ => panic!("expected a literal"),
        }
    }
}

#[test]
fn printer_renders_prefix_form() {
    assert_eq!(printed("1 + 2 * 3"), "(+ 1 (* 2 3))");
    assert_eq!(printed("(1)"), "(group 1)");
    assert_eq!(printed("-5"), "(- 5)");
    assert_eq!(printed("\"hi\""), "\"hi\"");
    assert_eq!(printed("1 - 2 - 3"), "(- (- 1 2) 3)");
}
