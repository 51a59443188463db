//! The expression syntax tree: a closed set of node kinds — binary, unary,
//! grouping, literal — where every node exclusively owns its children, plus
//! the visitor abstraction for external traversals and a pretty-printer.

use vstd::prelude::*;

use crate::token::{SpecToken, Token};

verus! {

/// A left-associative application of a binary operator.
#[derive(Debug)]
pub struct BinaryExpr {
    pub left: Box<Expr>,
    pub operator: Token,
    pub right: Box<Expr>,
}

/// A literal leaf: the token it was read from. The token's category tells a
/// number from a string from `true`, `false` and `nil`; its literal payload
/// carries the value for numbers and strings.
#[derive(Debug)]
pub struct LiteralExpr {
    pub token: Token,
}

/// A parenthesized expression.
#[derive(Debug)]
pub struct GroupingExpr {
    pub expr: Box<Expr>,
}

/// A prefix operator applied to one operand.
#[derive(Debug)]
pub struct UnaryExpr {
    pub operator: Token,
    pub right: Box<Expr>,
}

/// One node of the expression tree.
#[derive(Debug)]
pub enum Expr {
    Binary(BinaryExpr),
    Literal(LiteralExpr),
    Grouping(GroupingExpr),
    Unary(UnaryExpr),
}

/// Mathematical model of an [`Expr`]: the same tree over token models.
pub enum SpecExpr {
    Binary { left: Box<SpecExpr>, op: SpecToken, right: Box<SpecExpr> },
    Literal { token: SpecToken },
    Grouping { inner: Box<SpecExpr> },
    Unary { op: SpecToken, right: Box<SpecExpr> },
}

pub open spec fn spec_expr_view(e: Expr) -> SpecExpr
    decreases e,
{
    match e {
        Expr::Binary(b) => SpecExpr::Binary {
            left: Box::new(spec_expr_view(*b.left)),
            op: b.operator@,
            right: Box::new(spec_expr_view(*b.right)),
        },
        Expr::Literal(l) => SpecExpr::Literal { token: l.token@ },
        Expr::Grouping(g) => SpecExpr::Grouping { inner: Box::new(spec_expr_view(*g.expr)) },
        Expr::Unary(u) => SpecExpr::Unary {
            op: u.operator@,
            right: Box::new(spec_expr_view(*u.right)),
        },
    }
}

impl View for Expr {
    type V = SpecExpr;

    open spec fn view(&self) -> SpecExpr {
        spec_expr_view(*self)
    }
}

/// An operation over each node kind; `accept` dispatches to it.
pub trait Visitor<R> {
    fn visit_binary(&mut self, expr: &BinaryExpr) -> R;

    fn visit_literal(&mut self, expr: &LiteralExpr) -> R;

    fn visit_grouping(&mut self, expr: &GroupingExpr) -> R;

    fn visit_unary(&mut self, expr: &UnaryExpr) -> R;
}

impl Expr {
    /// Post-order double dispatch: children are visited before the visitor's
    /// own operation runs on the node, whose result is returned.
    pub fn accept<R, V: Visitor<R>>(&self, visitor: &mut V) -> R
        decreases *self,
    {
        match self {
            Expr::Binary(e) => {
                let _ = e.left.accept(visitor);
                let _ = e.right.accept(visitor);
                visitor.visit_binary(e)
            },
            Expr::Literal(e) => visitor.visit_literal(e),
            Expr::Grouping(e) => {
                let _ = e.expr.accept(visitor);
                visitor.visit_grouping(e)
            },
            Expr::Unary(e) => {
                let _ = e.right.accept(visitor);
                visitor.visit_unary(e)
            },
        }
    }
}

/// The rendering of an expression in fully parenthesized prefix form:
/// `(op left right)` for binary nodes, `(op operand)` for unary ones,
/// `(group inner)` for groupings, and a literal's own lexeme.
pub open spec fn spec_print(e: SpecExpr) -> Seq<u8>
    decreases e,
{
    match e {
        SpecExpr::Binary { left, op, right } => seq![40u8] + op.lexeme + seq![32u8] + spec_print(
            *left,
        ) + seq![32u8] + spec_print(*right) + seq![41u8],
        SpecExpr::Literal { token } => token.lexeme,
        SpecExpr::Grouping { inner } => seq![40u8, 103, 114, 111, 117, 112, 32]  // "(group "
         + spec_print(*inner) + seq![41u8],
        SpecExpr::Unary { op, right } => seq![40u8] + op.lexeme + seq![32u8] + spec_print(*right)
            + seq![41u8],
    }
}

/// Appends all of `bytes` to `out`.
fn append_bytes(out: &mut Vec<u8>, bytes: &Vec<u8>)
    ensures
        final(out)@ == old(out)@ + bytes@,
{
    let mut j: usize = 0;
    while j < bytes.len()
        invariant
            j <= bytes@.len(),
            out@ == old(out)@ + bytes@.subrange(0, j as int),
        decreases bytes@.len() - j,
    {
        out.push(bytes[j]);
        j = j + 1;
        assert(out@ =~= old(out)@ + bytes@.subrange(0, j as int));
    }
    assert(old(out)@ + bytes@.subrange(0, j as int) =~= old(out)@ + bytes@);
}

/// Renders expression trees as parenthesized prefix text.
pub struct Printer {}

impl Printer {
    /// Renders the whole tree; the result is exactly [`spec_print`] of it.
    pub fn print(&self, expr: &Expr) -> (out: Vec<u8>)
        ensures
            out@ == spec_print(expr@),
    {
        let mut out: Vec<u8> = Vec::new();
        self.write_expr(expr, &mut out);
        assert(Seq::<u8>::empty() + spec_print(expr@) =~= spec_print(expr@));
        out
    }

    /// Appends the rendering of one node (and, recursively, its children).
    fn write_expr(&self, expr: &Expr, out: &mut Vec<u8>)
        ensures
            final(out)@ == old(out)@ + spec_print(expr@),
        decreases *expr,
    {
        match expr {
            Expr::Binary(e) => {
                out.push(40);
                append_bytes(out, &e.operator.lexeme);
                out.push(32);
                self.write_expr(&e.left, out);
                out.push(32);
                self.write_expr(&e.right, out);
                out.push(41);
                assert(out@ =~= old(out)@ + spec_print(expr@));
            },
            Expr::Literal(e) => {
                append_bytes(out, &e.token.lexeme);
                assert(out@ =~= old(out)@ + spec_print(expr@));
            },
            Expr::Grouping(e) => {
                out.push(40);
                out.push(103);
                out.push(114);
                out.push(111);
                out.push(117);
                out.push(112);
                out.push(32);
                self.write_expr(&e.expr, out);
                out.push(41);
                assert(out@ =~= old(out)@ + spec_print(expr@));
            },
            Expr::Unary(e) => {
                out.push(40);
                append_bytes(out, &e.operator.lexeme);
                out.push(32);
                self.write_expr(&e.right, out);
                out.push(41);
                assert(out@ =~= old(out)@ + spec_print(expr@));
            },
        }
    }
}

} // verus!
