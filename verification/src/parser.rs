//! The parser: recursive descent with an explicit precedence ladder over a
//! finished token sequence, producing one expression tree or the first
//! structural error.
//!
//! The grammar, lowest to highest binding:
//!
//! ```text
//! expression -> equality
//! equality   -> comparison ( ( "!=" | "==" ) comparison )*
//! comparison -> term       ( ( ">" | ">=" | "<" | "<=" ) term )*
//! term       -> factor     ( ( "-" | "+" ) factor )*
//! factor     -> unary      ( ( "/" | "*" ) unary )*
//! unary      -> ( "!" | "-" ) unary | primary
//! primary    -> NUMBER | STRING | "true" | "false" | "nil" | "(" expression ")"
//! ```
//!
//! Each rule has a specification twin (`spec_expression`, ...) over token
//! models; the executable methods are proved to return exactly what the
//! twin says, success and error alike.

use vstd::prelude::*;

use crate::expr::{BinaryExpr, Expr, GroupingExpr, LiteralExpr, SpecExpr, UnaryExpr};
use crate::scanner::tokens_view;
use crate::token::{SpecToken, Token, TokenType};

verus! {

/// The two structural parse errors.
#[derive(Debug, Clone, Copy, PartialEq, Eq, Structural)]
pub enum ParseErrorKind {
    /// A token that can begin no expression stood where an operand belongs.
    ExpectedExpression,
    /// A parenthesized expression was not closed.
    ExpectedRightParen,
}

/// Mathematical model of a [`ParseError`].
pub struct SpecParseError {
    pub kind: ParseErrorKind,
    pub line: nat,
}

/// The first structural error met while parsing, with the 1-based line of
/// the offending token.
#[derive(Debug, Clone, Copy, PartialEq, Eq, Structural)]
pub struct ParseError {
    pub kind: ParseErrorKind,
    pub line: usize,
}

impl View for ParseError {
    type V = SpecParseError;

    open spec fn view(&self) -> SpecParseError {
        SpecParseError { kind: self.kind, line: self.line as nat }
    }
}

/// A finished token sequence: non-empty, with the end-of-input marker as its
/// last token and nowhere else — exactly what the scanner produces.
pub open spec fn tokens_wf(ts: Seq<SpecToken>) -> bool {
    &&& ts.len() >= 1
    &&& ts.last().ty == TokenType::Eof
    &&& forall|k: int| 0 <= k < ts.len() - 1 ==> ts[k].ty != TokenType::Eof
}

/// The line of the token at `p`, for error reports.
pub open spec fn line_at(ts: Seq<SpecToken>, p: int) -> nat {
    if 0 <= p < ts.len() {
        ts[p].line
    } else {
        0
    }
}

// ---------------------------------------------------------------------------
// The specification grammar. Each function takes the token models and a
// cursor and yields the parsed tree and the cursor after it, or the error.
// The `pos < p` guards satisfy the termination checker; they always hold,
// since a successful parse consumes at least one token.
// ---------------------------------------------------------------------------

pub open spec fn spec_expression(ts: Seq<SpecToken>, pos: int) -> Result<
    (SpecExpr, int),
    SpecParseError,
>
    decreases ts.len() - pos, 10int,
{
    spec_equality(ts, pos)
}

pub open spec fn spec_equality(ts: Seq<SpecToken>, pos: int) -> Result<
    (SpecExpr, int),
    SpecParseError,
>
    decreases ts.len() - pos, 9int,
{
    match spec_comparison(ts, pos) {
        Err(e) => Err(e),
        Ok((left, p)) => if pos < p <= ts.len() {
            spec_equality_rest(ts, left, p)
        } else {
            Ok((left, p))
        },
    }
}

pub open spec fn spec_equality_rest(ts: Seq<SpecToken>, left: SpecExpr, pos: int) -> Result<
    (SpecExpr, int),
    SpecParseError,
>
    decreases ts.len() - pos, 0int,
{
    if 0 <= pos < ts.len() && (ts[pos].ty == TokenType::EqualEqual || ts[pos].ty
        == TokenType::BangEqual) {
        let op = ts[pos];
        match spec_comparison(ts, pos + 1) {
            Err(e) => Err(e),
            Ok((right, p2)) => {
                let combined = SpecExpr::Binary {
                    left: Box::new(left),
                    op,
                    right: Box::new(right),
                };
                if pos < p2 <= ts.len() {
                    spec_equality_rest(ts, combined, p2)
                } else {
                    Ok((combined, p2))
                }
            },
        }
    } else {
        Ok((left, pos))
    }
}

pub open spec fn spec_comparison(ts: Seq<SpecToken>, pos: int) -> Result<
    (SpecExpr, int),
    SpecParseError,
>
    decreases ts.len() - pos, 8int,
{
    match spec_term(ts, pos) {
        Err(e) => Err(e),
        Ok((left, p)) => if pos < p <= ts.len() {
            spec_comparison_rest(ts, left, p)
        } else {
            Ok((left, p))
        },
    }
}

pub open spec fn spec_comparison_rest(ts: Seq<SpecToken>, left: SpecExpr, pos: int) -> Result<
    (SpecExpr, int),
    SpecParseError,
>
    decreases ts.len() - pos, 0int,
{
    if 0 <= pos < ts.len() && (ts[pos].ty == TokenType::Greater || ts[pos].ty
        == TokenType::GreaterEqual || ts[pos].ty == TokenType::Less || ts[pos].ty
        == TokenType::LessEqual) {
        let op = ts[pos];
        match spec_term(ts, pos + 1) {
            Err(e) => Err(e),
            Ok((right, p2)) => {
                let combined = SpecExpr::Binary {
                    left: Box::new(left),
                    op,
                    right: Box::new(right),
                };
                if pos < p2 <= ts.len() {
                    spec_comparison_rest(ts, combined, p2)
                } else {
                    Ok((combined, p2))
                }
            },
        }
    } else {
        Ok((left, pos))
    }
}

pub open spec fn spec_term(ts: Seq<SpecToken>, pos: int) -> Result<
    (SpecExpr, int),
    SpecParseError,
>
    decreases ts.len() - pos, 7int,
{
    match spec_factor(ts, pos) {
        Err(e) => Err(e),
        Ok((left, p)) => if pos < p <= ts.len() {
            spec_term_rest(ts, left, p)
        } else {
            Ok((left, p))
        },
    }
}

pub open spec fn spec_term_rest(ts: Seq<SpecToken>, left: SpecExpr, pos: int) -> Result<
    (SpecExpr, int),
    SpecParseError,
>
    decreases ts.len() - pos, 0int,
{
    if 0 <= pos < ts.len() && (ts[pos].ty == TokenType::Minus || ts[pos].ty == TokenType::Plus) {
        let op = ts[pos];
        match spec_factor(ts, pos + 1) {
            Err(e) => Err(e),
            Ok((right, p2)) => {
                let combined = SpecExpr::Binary {
                    left: Box::new(left),
                    op,
                    right: Box::new(right),
                };
                if pos < p2 <= ts.len() {
                    spec_term_rest(ts, combined, p2)
                } else {
                    Ok((combined, p2))
                }
            },
        }
    } else {
        Ok((left, pos))
    }
}

pub open spec fn spec_factor(ts: Seq<SpecToken>, pos: int) -> Result<
    (SpecExpr, int),
    SpecParseError,
>
    decreases ts.len() - pos, 6int,
{
    match spec_unary(ts, pos) {
        Err(e) => Err(e),
        Ok((left, p)) => if pos < p <= ts.len() {
            spec_factor_rest(ts, left, p)
        } else {
            Ok((left, p))
        },
    }
}

pub open spec fn spec_factor_rest(ts: Seq<SpecToken>, left: SpecExpr, pos: int) -> Result<
    (SpecExpr, int),
    SpecParseError,
>
    decreases ts.len() - pos, 0int,
{
    if 0 <= pos < ts.len() && (ts[pos].ty == TokenType::Slash || ts[pos].ty == TokenType::Star) {
        let op = ts[pos];
        match spec_unary(ts, pos + 1) {
            Err(e) => Err(e),
            Ok((right, p2)) => {
                let combined = SpecExpr::Binary {
                    left: Box::new(left),
                    op,
                    right: Box::new(right),
                };
                if pos < p2 <= ts.len() {
                    spec_factor_rest(ts, combined, p2)
                } else {
                    Ok((combined, p2))
                }
            },
        }
    } else {
        Ok((left, pos))
    }
}

pub open spec fn spec_unary(ts: Seq<SpecToken>, pos: int) -> Result<
    (SpecExpr, int),
    SpecParseError,
>
    decreases ts.len() - pos, 5int,
{
    if 0 <= pos < ts.len() && (ts[pos].ty == TokenType::Bang || ts[pos].ty == TokenType::Minus) {
        let op = ts[pos];
        match spec_unary(ts, pos + 1) {
            Err(e) => Err(e),
            Ok((right, p2)) => Ok((SpecExpr::Unary { op, right: Box::new(right) }, p2)),
        }
    } else {
        spec_primary(ts, pos)
    }
}

pub open spec fn spec_primary(ts: Seq<SpecToken>, pos: int) -> Result<
    (SpecExpr, int),
    SpecParseError,
>
    decreases ts.len() - pos, 4int,
{
    if 0 <= pos < ts.len() {
        let t = ts[pos];
        if t.ty == TokenType::False || t.ty == TokenType::True || t.ty == TokenType::Nil || t.ty
            == TokenType::Number || t.ty == TokenType::String {
            Ok((SpecExpr::Literal { token: t }, pos + 1))
        } else if t.ty == TokenType::LeftParen {
            match spec_expression(ts, pos + 1) {
                Err(e) => Err(e),
                Ok((inner, p2)) => if 0 <= p2 < ts.len() && ts[p2].ty == TokenType::RightParen {
                    Ok((SpecExpr::Grouping { inner: Box::new(inner) }, p2 + 1))
                } else {
                    Err(
                        SpecParseError {
                            kind: ParseErrorKind::ExpectedRightParen,
                            line: line_at(ts, p2),
                        },
                    )
                },
            }
        } else {
            Err(SpecParseError { kind: ParseErrorKind::ExpectedExpression, line: t.line })
        }
    } else {
        Err(SpecParseError { kind: ParseErrorKind::ExpectedExpression, line: 0 })
    }
}

/// The whole parse: one expression from the front of the sequence.
pub open spec fn spec_parse(ts: Seq<SpecToken>) -> Result<SpecExpr, SpecParseError> {
    match spec_expression(ts, 0) {
        Ok((e, p)) => Ok(e),
        Err(pe) => Err(pe),
    }
}


// ---------------------------------------------------------------------------
// The executable parser.
// ---------------------------------------------------------------------------

/// Recursive-descent parser state: the token sequence and one cursor over it.
pub struct Parser {
    tokens: Vec<Token>,
    current: usize,
}

impl Parser {
    /// The models of the tokens being parsed.
    pub closed spec fn toks(&self) -> Seq<SpecToken> {
        tokens_view(self.tokens@)
    }

    /// The cursor.
    pub closed spec fn pos(&self) -> int {
        self.current as int
    }

    /// The cursor stands on a token of a finished sequence. It never passes
    /// the end-of-input marker.
    pub closed spec fn wf(&self) -> bool {
        &&& tokens_wf(self.toks())
        &&& self.current < self.tokens@.len()
    }

    pub fn new(tokens: Vec<Token>) -> (p: Parser)
        ensures
            p.toks() == tokens_view(tokens@),
            p.pos() == 0,
            tokens_wf(tokens_view(tokens@)) ==> p.wf(),
    {
        Parser { tokens, current: 0 }
    }

    /// The token under the cursor.
    fn peek(&self) -> (t: &Token)
        requires
            self.wf(),
        ensures
            t@ == self.toks()[self.pos()],
    {
        &self.tokens[self.current]
    }

    /// The token just before the cursor.
    fn previous(&self) -> (t: &Token)
        requires
            self.wf(),
            self.current >= 1,
        ensures
            t@ == self.toks()[self.pos() - 1],
    {
        &self.tokens[self.current - 1]
    }

    /// Whether the cursor has reached the end-of-input marker.
    fn at_end(&self) -> (r: bool)
        requires
            self.wf(),
        ensures
            r == (self.toks()[self.pos()].ty == TokenType::Eof),
    {
        self.peek().ty == TokenType::Eof
    }

    /// Moves the cursor past the current token, unless it is the end marker.
    fn advance(&mut self)
        requires
            old(self).wf(),
        ensures
            final(self).wf(),
            final(self).toks() == old(self).toks(),
            final(self).pos() == if old(self).toks()[old(self).pos()].ty == TokenType::Eof {
                old(self).pos()
            } else {
                old(self).pos() + 1
            },
    {
        if !self.at_end() {
            proof {
                assert(self.toks()[self.pos()].ty != TokenType::Eof);
                assert(self.pos() != self.toks().len() - 1);
            }
            let n = self.tokens.len();
            assert(self.current < n);
            self.current = self.current + 1;
        }
    }

    /// Whether the current token has category `ty` (never true at the end).
    fn check(&self, ty: TokenType) -> (r: bool)
        requires
            self.wf(),
        ensures
            r == (self.toks()[self.pos()].ty != TokenType::Eof && self.toks()[self.pos()].ty
                == ty),
    {
        if self.at_end() {
            false
        } else {
            self.peek().ty == ty
        }
    }

    /// Consumes the current token when its category is among `types`.
    fn matches_any(&mut self, types: &[TokenType]) -> (r: bool)
        requires
            old(self).wf(),
        ensures
            final(self).wf(),
            final(self).toks() == old(self).toks(),
            r == (old(self).toks()[old(self).pos()].ty != TokenType::Eof && types@.contains(
                old(self).toks()[old(self).pos()].ty,
            )),
            final(self).pos() == if r {
                old(self).pos() + 1
            } else {
                old(self).pos()
            },
    {
        let n = types.len();
        let mut k: usize = 0;
        while k < n
            invariant
                self == old(self),
                self.wf(),
                k <= n,
                n == types@.len(),
                forall|j: int|
                    0 <= j < k ==> !(self.toks()[self.pos()].ty != TokenType::Eof
                        && self.toks()[self.pos()].ty == types@[j]),
            decreases n - k,
        {
            if self.check(types[k]) {
                self.advance();
                return true;
            }
            k = k + 1;
        }
        false
    }

    /// What every grammar-rule method guarantees: the tokens are untouched,
    /// and the result — tree and cursor on success, error on failure — is
    /// exactly what the rule's specification twin `sr` says.
    pub open spec fn rule_post(
        pre: Parser,
        post: Parser,
        r: Result<Expr, ParseError>,
        sr: Result<(SpecExpr, int), SpecParseError>,
    ) -> bool {
        &&& post.wf()
        &&& post.toks() == pre.toks()
        &&& match r {
            Ok(e) => sr == Ok::<(SpecExpr, int), SpecParseError>((e@, post.pos())) && post.pos()
                > pre.pos(),
            Err(pe) => sr == Err::<(SpecExpr, int), SpecParseError>(pe@),
        }
    }

    /// equality -> comparison ( ( "!=" | "==" ) comparison )*
    #[verifier::rlimit(100)]
    fn equality(&mut self) -> (r: Result<Expr, ParseError>)
        requires
            old(self).wf(),
        ensures
            Self::rule_post(
                *old(self),
                *final(self),
                r,
                spec_equality(old(self).toks(), old(self).pos()),
            ),
        decreases old(self).toks().len() - old(self).pos(), 9int,
    {
        let ghost ts = old(self).toks();
        let ghost pos0 = old(self).pos();
        let mut expr = match self.comparison() {
            Ok(e) => e,
            Err(pe) => {
                proof {
                    assert(spec_equality(ts, pos0) == Err::<(SpecExpr, int), SpecParseError>(pe@));
                }
                return Err(pe);
            },
        };
        proof {
            let sr = spec_comparison(ts, pos0);
            assert(sr->Ok_0.0 == expr@);
            assert(sr->Ok_0.1 == self.pos());
            assert(spec_equality(ts, pos0) == spec_equality_rest(ts, sr->Ok_0.0, sr->Ok_0.1));
            assert(spec_equality(ts, pos0) == spec_equality_rest(ts, expr@, self.pos()));
        }
        let ops: [TokenType; 2] = [TokenType::EqualEqual, TokenType::BangEqual];
        loop
            invariant
                old(self).toks() == ts,
                old(self).pos() == pos0,
                ops@.len() == 2 && ops@[0] == TokenType::EqualEqual && ops@[1] == TokenType::BangEqual,
                self.wf(),
                self.toks() == ts,
                pos0 < self.pos(),
                spec_equality(ts, pos0) == spec_equality_rest(ts, expr@, self.pos()),
            ensures
                self.wf(),
                self.toks() == ts,
                pos0 < self.pos(),
                spec_equality(ts, pos0) == Ok::<(SpecExpr, int), SpecParseError>((expr@, self.pos())),
            decreases ts.len() - self.pos(),
        {
            let ghost p = self.pos();
            let ghost left0 = expr@;
            let m = self.matches_any(&ops);
            if !m {
                proof {
                    assert(ts[p].ty != TokenType::EqualEqual && ts[p].ty != TokenType::BangEqual);
                    assert(spec_equality_rest(ts, left0, p) == Ok::<(SpecExpr, int), SpecParseError>(
                        (left0, p),
                    ));
                }
                break ;
            }
            let operator = self.previous().clone();
            let ghost op0 = operator@;
            proof {
                assert(ts[p].ty == TokenType::EqualEqual || ts[p].ty == TokenType::BangEqual);
                assert(op0 == ts[p]);
            }
            let right = match self.comparison() {
                Ok(e) => e,
                Err(pe) => {
                    proof {
                        assert(spec_comparison(ts, p + 1) == Err::<(SpecExpr, int), SpecParseError>(
                            pe@,
                        ));
                        assert(spec_equality_rest(ts, left0, p) == Err::<(SpecExpr, int), SpecParseError>(
                            pe@,
                        ));
                    }
                    return Err(pe);
                },
            };
            let ghost right0 = right@;
            expr = Expr::Binary(
                BinaryExpr { left: Box::new(expr), operator, right: Box::new(right) },
            );
            proof {
                let sr = spec_comparison(ts, p + 1);
                assert(sr->Ok_0.0 == right0);
                assert(sr->Ok_0.1 == self.pos());
                assert(expr@ == (SpecExpr::Binary {
                    left: Box::new(left0),
                    op: op0,
                    right: Box::new(right0),
                }));
                assert(spec_equality_rest(ts, left0, p) == spec_equality_rest(ts, expr@, self.pos()));
            }
        }
        Ok(expr)
    }

    /// comparison -> term ( ( ">" | ">=" | "<" | "<=" ) term )*
    #[verifier::rlimit(100)]
    fn comparison(&mut self) -> (r: Result<Expr, ParseError>)
        requires
            old(self).wf(),
        ensures
            Self::rule_post(
                *old(self),
                *final(self),
                r,
                spec_comparison(old(self).toks(), old(self).pos()),
            ),
        decreases old(self).toks().len() - old(self).pos(), 8int,
    {
        let ghost ts = old(self).toks();
        let ghost pos0 = old(self).pos();
        let mut expr = match self.term() {
            Ok(e) => e,
            Err(pe) => {
                proof {
                    assert(spec_comparison(ts, pos0) == Err::<(SpecExpr, int), SpecParseError>(pe@));
                }
                return Err(pe);
            },
        };
        proof {
            let sr = spec_term(ts, pos0);
            assert(sr->Ok_0.0 == expr@);
            assert(sr->Ok_0.1 == self.pos());
            assert(spec_comparison(ts, pos0) == spec_comparison_rest(ts, sr->Ok_0.0, sr->Ok_0.1));
            assert(spec_comparison(ts, pos0) == spec_comparison_rest(ts, expr@, self.pos()));
        }
        let ops: [TokenType; 4] = [TokenType::Greater, TokenType::GreaterEqual, TokenType::Less, TokenType::LessEqual];
        loop
            invariant
                old(self).toks() == ts,
                old(self).pos() == pos0,
                ops@.len() == 4 && ops@[0] == TokenType::Greater && ops@[1] == TokenType::GreaterEqual && ops@[2] == TokenType::Less && ops@[3] == TokenType::LessEqual,
                self.wf(),
                self.toks() == ts,
                pos0 < self.pos(),
                spec_comparison(ts, pos0) == spec_comparison_rest(ts, expr@, self.pos()),
            ensures
                self.wf(),
                self.toks() == ts,
                pos0 < self.pos(),
                spec_comparison(ts, pos0) == Ok::<(SpecExpr, int), SpecParseError>((expr@, self.pos())),
            decreases ts.len() - self.pos(),
        {
            let ghost p = self.pos();
            let ghost left0 = expr@;
            let m = self.matches_any(&ops);
            if !m {
                proof {
                    assert(ts[p].ty != TokenType::Greater && ts[p].ty != TokenType::GreaterEqual && ts[p].ty != TokenType::Less && ts[p].ty != TokenType::LessEqual);
                    assert(spec_comparison_rest(ts, left0, p) == Ok::<(SpecExpr, int), SpecParseError>(
                        (left0, p),
                    ));
                }
                break ;
            }
            let operator = self.previous().clone();
            let ghost op0 = operator@;
            proof {
                assert(ts[p].ty == TokenType::Greater || ts[p].ty == TokenType::GreaterEqual || ts[p].ty == TokenType::Less || ts[p].ty == TokenType::LessEqual);
                assert(op0 == ts[p]);
            }
            let right = match self.term() {
                Ok(e) => e,
                Err(pe) => {
                    proof {
                        assert(spec_term(ts, p + 1) == Err::<(SpecExpr, int), SpecParseError>(
                            pe@,
                        ));
                        assert(spec_comparison_rest(ts, left0, p) == Err::<(SpecExpr, int), SpecParseError>(
                            pe@,
                        ));
                    }
                    return Err(pe);
                },
            };
            let ghost right0 = right@;
            expr = Expr::Binary(
                BinaryExpr { left: Box::new(expr), operator, right: Box::new(right) },
            );
            proof {
                let sr = spec_term(ts, p + 1);
                assert(sr->Ok_0.0 == right0);
                assert(sr->Ok_0.1 == self.pos());
                assert(expr@ == (SpecExpr::Binary {
                    left: Box::new(left0),
                    op: op0,
                    right: Box::new(right0),
                }));
                assert(spec_comparison_rest(ts, left0, p) == spec_comparison_rest(ts, expr@, self.pos()));
            }
        }
        Ok(expr)
    }

    /// term -> factor ( ( "-" | "+" ) factor )*
    #[verifier::rlimit(100)]
    fn term(&mut self) -> (r: Result<Expr, ParseError>)
        requires
            old(self).wf(),
        ensures
            Self::rule_post(
                *old(self),
                *final(self),
                r,
                spec_term(old(self).toks(), old(self).pos()),
            ),
        decreases old(self).toks().len() - old(self).pos(), 7int,
    {
        let ghost ts = old(self).toks();
        let ghost pos0 = old(self).pos();
        let mut expr = match self.factor() {
            Ok(e) => e,
            Err(pe) => {
                proof {
                    assert(spec_term(ts, pos0) == Err::<(SpecExpr, int), SpecParseError>(pe@));
                }
                return Err(pe);
            },
        };
        proof {
            let sr = spec_factor(ts, pos0);
            assert(sr->Ok_0.0 == expr@);
            assert(sr->Ok_0.1 == self.pos());
            assert(spec_term(ts, pos0) == spec_term_rest(ts, sr->Ok_0.0, sr->Ok_0.1));
            assert(spec_term(ts, pos0) == spec_term_rest(ts, expr@, self.pos()));
        }
        let ops: [TokenType; 2] = [TokenType::Minus, TokenType::Plus];
        loop
            invariant
                old(self).toks() == ts,
                old(self).pos() == pos0,
                ops@.len() == 2 && ops@[0] == TokenType::Minus && ops@[1] == TokenType::Plus,
                self.wf(),
                self.toks() == ts,
                pos0 < self.pos(),
                spec_term(ts, pos0) == spec_term_rest(ts, expr@, self.pos()),
            ensures
                self.wf(),
                self.toks() == ts,
                pos0 < self.pos(),
                spec_term(ts, pos0) == Ok::<(SpecExpr, int), SpecParseError>((expr@, self.pos())),
            decreases ts.len() - self.pos(),
        {
            let ghost p = self.pos();
            let ghost left0 = expr@;
            let m = self.matches_any(&ops);
            if !m {
                proof {
                    assert(ts[p].ty != TokenType::Minus && ts[p].ty != TokenType::Plus);
                    assert(spec_term_rest(ts, left0, p) == Ok::<(SpecExpr, int), SpecParseError>(
                        (left0, p),
                    ));
                }
                break ;
            }
            let operator = self.previous().clone();
            let ghost op0 = operator@;
            proof {
                assert(ts[p].ty == TokenType::Minus || ts[p].ty == TokenType::Plus);
                assert(op0 == ts[p]);
            }
            let right = match self.factor() {
                Ok(e) => e,
                Err(pe) => {
                    proof {
                        assert(spec_factor(ts, p + 1) == Err::<(SpecExpr, int), SpecParseError>(
                            pe@,
                        ));
                        assert(spec_term_rest(ts, left0, p) == Err::<(SpecExpr, int), SpecParseError>(
                            pe@,
                        ));
                    }
                    return Err(pe);
                },
            };
            let ghost right0 = right@;
            expr = Expr::Binary(
                BinaryExpr { left: Box::new(expr), operator, right: Box::new(right) },
            );
            proof {
                let sr = spec_factor(ts, p + 1);
                assert(sr->Ok_0.0 == right0);
                assert(sr->Ok_0.1 == self.pos());
                assert(expr@ == (SpecExpr::Binary {
                    left: Box::new(left0),
                    op: op0,
                    right: Box::new(right0),
                }));
                assert(spec_term_rest(ts, left0, p) == spec_term_rest(ts, expr@, self.pos()));
            }
        }
        Ok(expr)
    }

    /// factor -> unary ( ( "/" | "*" ) unary )*
    #[verifier::rlimit(100)]
    fn factor(&mut self) -> (r: Result<Expr, ParseError>)
        requires
            old(self).wf(),
        ensures
            Self::rule_post(
                *old(self),
                *final(self),
                r,
                spec_factor(old(self).toks(), old(self).pos()),
            ),
        decreases old(self).toks().len() - old(self).pos(), 6int,
    {
        let ghost ts = old(self).toks();
        let ghost pos0 = old(self).pos();
        let mut expr = match self.unary() {
            Ok(e) => e,
            Err(pe) => {
                proof {
                    assert(spec_factor(ts, pos0) == Err::<(SpecExpr, int), SpecParseError>(pe@));
                }
                return Err(pe);
            },
        };
        proof {
            let sr = spec_unary(ts, pos0);
            assert(sr->Ok_0.0 == expr@);
            assert(sr->Ok_0.1 == self.pos());
            assert(spec_factor(ts, pos0) == spec_factor_rest(ts, sr->Ok_0.0, sr->Ok_0.1));
            assert(spec_factor(ts, pos0) == spec_factor_rest(ts, expr@, self.pos()));
        }
        let ops: [TokenType; 2] = [TokenType::Slash, TokenType::Star];
        loop
            invariant
                old(self).toks() == ts,
                old(self).pos() == pos0,
                ops@.len() == 2 && ops@[0] == TokenType::Slash && ops@[1] == TokenType::Star,
                self.wf(),
                self.toks() == ts,
                pos0 < self.pos(),
                spec_factor(ts, pos0) == spec_factor_rest(ts, expr@, self.pos()),
            ensures
                self.wf(),
                self.toks() == ts,
                pos0 < self.pos(),
                spec_factor(ts, pos0) == Ok::<(SpecExpr, int), SpecParseError>((expr@, self.pos())),
            decreases ts.len() - self.pos(),
        {
            let ghost p = self.pos();
            let ghost left0 = expr@;
            let m = self.matches_any(&ops);
            if !m {
                proof {
                    assert(ts[p].ty != TokenType::Slash && ts[p].ty != TokenType::Star);
                    assert(spec_factor_rest(ts, left0, p) == Ok::<(SpecExpr, int), SpecParseError>(
                        (left0, p),
                    ));
                }
                break ;
            }
            let operator = self.previous().clone();
            let ghost op0 = operator@;
            proof {
                assert(ts[p].ty == TokenType::Slash || ts[p].ty == TokenType::Star);
                assert(op0 == ts[p]);
            }
            let right = match self.unary() {
                Ok(e) => e,
                Err(pe) => {
                    proof {
                        assert(spec_unary(ts, p + 1) == Err::<(SpecExpr, int), SpecParseError>(
                            pe@,
                        ));
                        assert(spec_factor_rest(ts, left0, p) == Err::<(SpecExpr, int), SpecParseError>(
                            pe@,
                        ));
                    }
                    return Err(pe);
                },
            };
            let ghost right0 = right@;
            expr = Expr::Binary(
                BinaryExpr { left: Box::new(expr), operator, right: Box::new(right) },
            );
            proof {
                let sr = spec_unary(ts, p + 1);
                assert(sr->Ok_0.0 == right0);
                assert(sr->Ok_0.1 == self.pos());
                assert(expr@ == (SpecExpr::Binary {
                    left: Box::new(left0),
                    op: op0,
                    right: Box::new(right0),
                }));
                assert(spec_factor_rest(ts, left0, p) == spec_factor_rest(ts, expr@, self.pos()));
            }
        }
        Ok(expr)
    }

    /// unary -> ( "!" | "-" ) unary | primary
    #[verifier::rlimit(100)]
    fn unary(&mut self) -> (r: Result<Expr, ParseError>)
        requires
            old(self).wf(),
        ensures
            Self::rule_post(
                *old(self),
                *final(self),
                r,
                spec_unary(old(self).toks(), old(self).pos()),
            ),
        decreases old(self).toks().len() - old(self).pos(), 5int,
    {
        let ghost ts = old(self).toks();
        let ghost pos0 = old(self).pos();
        let ops: [TokenType; 2] = [TokenType::Bang, TokenType::Minus];
        proof {
            assert(ops@.len() == 2 && ops@[0] == TokenType::Bang && ops@[1] == TokenType::Minus);
        }
        let m = self.matches_any(&ops);
        if m {
            proof {
                assert(ts[pos0].ty == TokenType::Bang || ts[pos0].ty == TokenType::Minus);
            }
            let operator = self.previous().clone();
            let ghost op0 = operator@;
            proof {
                assert(op0 == ts[pos0]);
            }
            match self.unary() {
                Ok(right) => {
                    let ghost right0 = right@;
                    let e = Expr::Unary(UnaryExpr { operator, right: Box::new(right) });
                    proof {
                        let sr = spec_unary(ts, pos0 + 1);
                        assert(sr->Ok_0.0 == right0);
                        assert(sr->Ok_0.1 == self.pos());
                        assert(e@ == (SpecExpr::Unary { op: op0, right: Box::new(right0) }));
                        assert(spec_unary(ts, pos0) == Ok::<(SpecExpr, int), SpecParseError>(
                            (e@, self.pos()),
                        ));
                    }
                    Ok(e)
                },
                Err(pe) => {
                    proof {
                        assert(spec_unary(ts, pos0) == Err::<(SpecExpr, int), SpecParseError>(
                            pe@,
                        ));
                    }
                    Err(pe)
                },
            }
        } else {
            proof {
                assert(ts[pos0].ty != TokenType::Bang && ts[pos0].ty != TokenType::Minus);
                assert(spec_unary(ts, pos0) == spec_primary(ts, pos0));
            }
            self.primary()
        }
    }

    /// primary -> NUMBER | STRING | "true" | "false" | "nil" | "(" expression ")"
    #[verifier::rlimit(100)]
    fn primary(&mut self) -> (r: Result<Expr, ParseError>)
        requires
            old(self).wf(),
        ensures
            Self::rule_post(
                *old(self),
                *final(self),
                r,
                spec_primary(old(self).toks(), old(self).pos()),
            ),
        decreases old(self).toks().len() - old(self).pos(), 4int,
    {
        let ghost ts = old(self).toks();
        let ghost pos0 = old(self).pos();
        let lit_ops: [TokenType; 5] = [
            TokenType::False,
            TokenType::True,
            TokenType::Nil,
            TokenType::Number,
            TokenType::String,
        ];
        proof {
            assert(lit_ops@.len() == 5 && lit_ops@[0] == TokenType::False && lit_ops@[1]
                == TokenType::True && lit_ops@[2] == TokenType::Nil && lit_ops@[3]
                == TokenType::Number && lit_ops@[4] == TokenType::String);
        }
        let m = self.matches_any(&lit_ops);
        if m {
            let token = self.previous().clone();
            let ghost tok0 = token@;
            let e = Expr::Literal(LiteralExpr { token });
            proof {
                assert(tok0 == ts[pos0]);
                assert(e@ == (SpecExpr::Literal { token: tok0 }));
                assert(spec_primary(ts, pos0) == Ok::<(SpecExpr, int), SpecParseError>(
                    (e@, self.pos()),
                ));
            }
            return Ok(e);
        }
        proof {
            assert(ts[pos0].ty != TokenType::False && ts[pos0].ty != TokenType::True
                && ts[pos0].ty != TokenType::Nil && ts[pos0].ty != TokenType::Number
                && ts[pos0].ty != TokenType::String);
        }
        let paren_ops: [TokenType; 1] = [TokenType::LeftParen];
        proof {
            assert(paren_ops@.len() == 1 && paren_ops@[0] == TokenType::LeftParen);
        }
        let lp = self.matches_any(&paren_ops);
        if lp {
            proof {
                assert(ts[pos0].ty == TokenType::LeftParen);
            }
            match self.expression() {
                Ok(inner) => {
                    let ghost inner0 = inner@;
                    let ghost p2 = self.pos();
                    proof {
                        let sr = spec_expression(ts, pos0 + 1);
                        assert(sr->Ok_0.0 == inner0);
                        assert(sr->Ok_0.1 == p2);
                    }
                    if self.check(TokenType::RightParen) {
                        self.advance();
                        let e = Expr::Grouping(GroupingExpr { expr: Box::new(inner) });
                        proof {
                            assert(e@ == (SpecExpr::Grouping { inner: Box::new(inner0) }));
                            assert(spec_primary(ts, pos0) == Ok::<
                                (SpecExpr, int),
                                SpecParseError,
                            >((e@, self.pos())));
                        }
                        Ok(e)
                    } else {
                        // The grouping was never closed.
                        let line = self.peek().line;
                        proof {
                            assert(line_at(ts, p2) == ts[p2].line);
                        }
                        Err(ParseError { kind: ParseErrorKind::ExpectedRightParen, line })
                    }
                },
                Err(pe) => {
                    proof {
                        assert(spec_primary(ts, pos0) == Err::<(SpecExpr, int), SpecParseError>(
                            pe@,
                        ));
                    }
                    Err(pe)
                },
            }
        } else {
            proof {
                assert(ts[pos0].ty != TokenType::LeftParen);
            }
            // No token that can begin an expression stands here.
            let line = self.peek().line;
            Err(ParseError { kind: ParseErrorKind::ExpectedExpression, line })
        }
    }

    /// expression -> equality
    fn expression(&mut self) -> (r: Result<Expr, ParseError>)
        requires
            old(self).wf(),
        ensures
            Self::rule_post(
                *old(self),
                *final(self),
                r,
                spec_expression(old(self).toks(), old(self).pos()),
            ),
        decreases old(self).toks().len() - old(self).pos(), 10int,
    {
        let ghost ts = old(self).toks();
        let ghost pos0 = old(self).pos();
        let r = self.equality();
        proof {
            assert(spec_expression(ts, pos0) == spec_equality(ts, pos0));
        }
        r
    }

    /// Parses one expression from the front of the token sequence, returning
    /// its tree, or the first structural error. The result is exactly the
    /// model [`spec_parse`] of the tokens.
    pub fn parse(&mut self) -> (r: Result<Expr, ParseError>)
        requires
            old(self).wf(),
            old(self).pos() == 0,
        ensures
            final(self).toks() == old(self).toks(),
            match r {
                Ok(e) => spec_parse(old(self).toks()) == Ok::<SpecExpr, SpecParseError>(e@),
                Err(pe) => spec_parse(old(self).toks()) == Err::<SpecExpr, SpecParseError>(pe@),
            },
    {
        self.expression()
    }
}

} // verus!
