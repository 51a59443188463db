//! Visitor dispatch over expression trees: children are visited before the
//! parent's own operation runs.

use rlox::expr::{BinaryExpr, Expr, GroupingExpr, LiteralExpr, UnaryExpr, Visitor};
use rlox::token::{Literal, Token, TokenType};

#[derive(Default)]
struct CountingVisitor {
    binary: usize,
    literal: usize,
    grouping: usize,
    unary: usize,
}

impl Visitor<usize> for CountingVisitor {
    fn visit_binary(&mut self, _: &BinaryExpr) -> usize {
        self.binary += 1;
        self.binary
    }

    fn visit_literal(&mut self, _: &LiteralExpr) -> usize {
        self.literal += 1;
        self.literal
    }

    fn visit_grouping(&mut self, _: &GroupingExpr) -> usize {
        self.grouping += 1;
        self.grouping
    }

    fn visit_unary(&mut self, _: &UnaryExpr) -> usize {
        self.unary += 1;
        self.unary
    }
}

fn literal_num(digits: &[u8]) -> Expr {
    Expr::Literal(LiteralExpr {
        token: Token::new(
            TokenType::Number,
            digits.to_vec(),
            Some(Literal::Number(digits.to_vec())),
            1,
        ),
    })
}

#[test]
fn test_visit_binary() {
    let expr = Expr::Binary(BinaryExpr {
        left: Box::new(literal_num(b"1")),
        operator: Token::new(TokenType::Plus, b"+".to_vec(), None, 1),
        right: Box::new(literal_num(b"2")),
    });

    let mut visitor = CountingVisitor::default();

    expr.accept(&mut visitor);

    assert_eq!(1, visitor.binary);
    assert_eq!(2, visitor.literal);
    assert_eq!(0, visitor.unary);
    assert_eq!(0, visitor.grouping);
}

#[test]
fn test_visit_unary() {
    let expr = Expr::Unary(UnaryExpr {
        operator: Token::new(TokenType::Minus, b"-".to_vec(), None, 1),
        right: Box::new(literal_num(b"2")),
    });

    let mut visitor = CountingVisitor::default();

    expr.accept(&mut visitor);

    assert_eq!(0, visitor.binary);
    assert_eq!(1, visitor.literal);
    assert_eq!(1, visitor.unary);
    assert_eq!(0, visitor.grouping);
}

#[test]
fn test_visit_grouping() {
    let expr = Expr::Grouping(GroupingExpr { expr: Box::new(literal_num(b"3")) });

    let mut visitor = CountingVisitor::default();

    expr.accept(&mut visitor);

    assert_eq!(0, visitor.binary);
    assert_eq!(1, visitor.literal);
    assert_eq!(0, visitor.unary);
    assert_eq!(1, visitor.grouping);
}
