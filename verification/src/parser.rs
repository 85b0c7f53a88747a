//! Recursive descent over the fixed precedence ladder
//! `equality < comparison < term < factor < unary < primary`, with
//! left-associative folding at each binary level and right-recursive
//! unary. The grammar itself is stated as ghost functions over token
//! sequences; the executable parser is proved to return exactly their
//! result. A syntax error is fail-fast: the first problem ends parsing
//! with an error value and no partial tree.

use vstd::prelude::*;
use vstd::pervasive::arbitrary;
use crate::token::Token;
use crate::token::TokenType;
use crate::token::SpecToken;
use crate::token::SpecLiteral;
use crate::expr::Expr;
use crate::expr::SpecExpr;
use crate::error::LoxError;
use crate::error::SpecError;
use crate::error::expect_right_paren_message;
use crate::error::expect_expression_message;
use crate::error::expect_right_paren_reason;
use crate::error::expect_expression_reason;

verus! {

/// A successful parse at some grammar level: the tree built and the
/// position of the first token not consumed.
pub struct ParseOk {
    pub expr: SpecExpr,
    pub next: int,
}

pub open spec fn is_equality_op(k: TokenType) -> bool {
    k == TokenType::BangEqual || k == TokenType::EqualEqual
}

pub open spec fn is_comparison_op(k: TokenType) -> bool {
    ||| k == TokenType::Greater
    ||| k == TokenType::GreaterEqual
    ||| k == TokenType::Less
    ||| k == TokenType::LessEqual
}

pub open spec fn is_term_op(k: TokenType) -> bool {
    k == TokenType::Minus || k == TokenType::Plus
}

pub open spec fn is_factor_op(k: TokenType) -> bool {
    k == TokenType::Slash || k == TokenType::Star
}

/// The innermost level: a literal keyword, a number or string literal
/// carrying its value, or a parenthesized expression that must find its
/// `)`. Any other token is a syntax error naming its line.
pub open spec fn spec_primary(toks: Seq<SpecToken>, i: int) -> Result<ParseOk, SpecError>
    decreases toks.len() - i, 0int,
{
    if i < 0 || i >= toks.len() {
        Err(arbitrary())
    } else {
        let t = toks[i];
        if t.kind == TokenType::False {
            Ok(ParseOk { expr: SpecExpr::Literal { value: SpecLiteral::Boolean(false) }, next: i + 1 })
        } else if t.kind == TokenType::True {
            Ok(ParseOk { expr: SpecExpr::Literal { value: SpecLiteral::Boolean(true) }, next: i + 1 })
        } else if t.kind == TokenType::Nil {
            Ok(ParseOk { expr: SpecExpr::Literal { value: SpecLiteral::Nil }, next: i + 1 })
        } else if t.kind == TokenType::Number || t.kind == TokenType::String {
            Ok(ParseOk { expr: SpecExpr::Literal { value: t.literal }, next: i + 1 })
        } else if t.kind == TokenType::LeftParen {
            match spec_expression(toks, i + 1) {
                Err(e) => Err(e),
                Ok(po) => {
                    if i + 1 <= po.next && po.next < toks.len() {
                        if toks[po.next].kind == TokenType::RightParen {
                            Ok(ParseOk { expr: SpecExpr::Grouping { expr: Box::new(po.expr) }, next: po.next + 1 })
                        } else {
                            Err(SpecError { line: toks[po.next].line, reason: expect_right_paren_message() })
                        }
                    } else {
                        Err(arbitrary())
                    }
                },
            }
        } else {
            Err(SpecError { line: t.line, reason: expect_expression_message() })
        }
    }
}

/// Prefix `!` or `-`, right-recursive, binding tighter than any binary
/// operator.
pub open spec fn spec_unary(toks: Seq<SpecToken>, i: int) -> Result<ParseOk, SpecError>
    decreases toks.len() - i, 1int,
{
    if 0 <= i < toks.len() && (toks[i].kind == TokenType::Bang || toks[i].kind == TokenType::Minus) {
        match spec_unary(toks, i + 1) {
            Err(e) => Err(e),
            Ok(po) => Ok(
                ParseOk {
                    expr: SpecExpr::Unary { operator: toks[i], right: Box::new(po.expr) },
                    next: po.next,
                },
            ),
        }
    } else {
        spec_primary(toks, i)
    }
}

/// The left-associative fold at the factor level: while the next token is
/// `/` or `*`, consume it, parse one more unary operand, and nest to the
/// left.
pub open spec fn spec_factor_rest(toks: Seq<SpecToken>, j: int, left: SpecExpr) -> Result<
    ParseOk,
    SpecError,
>
    decreases toks.len() - j, 2int,
{
    if 0 <= j < toks.len() && is_factor_op(toks[j].kind) {
        match spec_unary(toks, j + 1) {
            Err(e) => Err(e),
            Ok(po) => {
                if j + 1 <= po.next <= toks.len() {
                    spec_factor_rest(
                        toks,
                        po.next,
                        SpecExpr::Binary {
                            left: Box::new(left),
                            operator: toks[j],
                            right: Box::new(po.expr),
                        },
                    )
                } else {
                    Err(arbitrary())
                }
            },
        }
    } else {
        Ok(ParseOk { expr: left, next: j })
    }
}

pub open spec fn spec_factor(toks: Seq<SpecToken>, i: int) -> Result<ParseOk, SpecError>
    decreases toks.len() - i, 3int,
{
    match spec_unary(toks, i) {
        Err(e) => Err(e),
        Ok(po) => {
            if i <= po.next <= toks.len() {
                spec_factor_rest(toks, po.next, po.expr)
            } else {
                Err(arbitrary())
            }
        },
    }
}

/// The left-associative fold at the term level, over `-` and `+`.
pub open spec fn spec_term_rest(toks: Seq<SpecToken>, j: int, left: SpecExpr) -> Result<
    ParseOk,
    SpecError,
>
    decreases toks.len() - j, 4int,
{
    if 0 <= j < toks.len() && is_term_op(toks[j].kind) {
        match spec_factor(toks, j + 1) {
            Err(e) => Err(e),
            Ok(po) => {
                if j + 1 <= po.next <= toks.len() {
                    spec_term_rest(
                        toks,
                        po.next,
                        SpecExpr::Binary {
                            left: Box::new(left),
                            operator: toks[j],
                            right: Box::new(po.expr),
                        },
                    )
                } else {
                    Err(arbitrary())
                }
            },
        }
    } else {
        Ok(ParseOk { expr: left, next: j })
    }
}

pub open spec fn spec_term(toks: Seq<SpecToken>, i: int) -> Result<ParseOk, SpecError>
    decreases toks.len() - i, 5int,
{
    match spec_factor(toks, i) {
        Err(e) => Err(e),
        Ok(po) => {
            if i <= po.next <= toks.len() {
                spec_term_rest(toks, po.next, po.expr)
            } else {
                Err(arbitrary())
            }
        },
    }
}

/// The left-associative fold at the comparison level, over `>` `>=` `<`
/// `<=`.
pub open spec fn spec_comparison_rest(toks: Seq<SpecToken>, j: int, left: SpecExpr) -> Result<
    ParseOk,
    SpecError,
>
    decreases toks.len() - j, 6int,
{
    if 0 <= j < toks.len() && is_comparison_op(toks[j].kind) {
        match spec_term(toks, j + 1) {
            Err(e) => Err(e),
            Ok(po) => {
                if j + 1 <= po.next <= toks.len() {
                    spec_comparison_rest(
                        toks,
                        po.next,
                        SpecExpr::Binary {
                            left: Box::new(left),
                            operator: toks[j],
                            right: Box::new(po.expr),
                        },
                    )
                } else {
                    Err(arbitrary())
                }
            },
        }
    } else {
        Ok(ParseOk { expr: left, next: j })
    }
}

pub open spec fn spec_comparison(toks: Seq<SpecToken>, i: int) -> Result<ParseOk, SpecError>
    decreases toks.len() - i, 7int,
{
    match spec_term(toks, i) {
        Err(e) => Err(e),
        Ok(po) => {
            if i <= po.next <= toks.len() {
                spec_comparison_rest(toks, po.next, po.expr)
            } else {
                Err(arbitrary())
            }
        },
    }
}

/// The left-associative fold at the equality level, over `!=` and `==`.
pub open spec fn spec_equality_rest(toks: Seq<SpecToken>, j: int, left: SpecExpr) -> Result<
    ParseOk,
    SpecError,
>
    decreases toks.len() - j, 8int,
{
    if 0 <= j < toks.len() && is_equality_op(toks[j].kind) {
        match spec_comparison(toks, j + 1) {
            Err(e) => Err(e),
            Ok(po) => {
                if j + 1 <= po.next <= toks.len() {
                    spec_equality_rest(
                        toks,
                        po.next,
                        SpecExpr::Binary {
                            left: Box::new(left),
                            operator: toks[j],
                            right: Box::new(po.expr),
                        },
                    )
                } else {
                    Err(arbitrary())
                }
            },
        }
    } else {
        Ok(ParseOk { expr: left, next: j })
    }
}

pub open spec fn spec_equality(toks: Seq<SpecToken>, i: int) -> Result<ParseOk, SpecError>
    decreases toks.len() - i, 9int,
{
    match spec_comparison(toks, i) {
        Err(e) => Err(e),
        Ok(po) => {
            if i <= po.next <= toks.len() {
                spec_equality_rest(toks, po.next, po.expr)
            } else {
                Err(arbitrary())
            }
        },
    }
}

/// The top of the ladder: an expression is an equality.
pub open spec fn spec_expression(toks: Seq<SpecToken>, i: int) -> Result<ParseOk, SpecError>
    decreases toks.len() - i, 10int,
{
    spec_equality(toks, i)
}

/// The parser's per-call state: the token sequence (which must end with
/// the end-of-input marker) and the cursor.
pub struct Parser {
    pub tokens: Vec<Token>,
    pub current: usize,
}

impl Parser {
    /// The tokens as the ghost sequence the grammar functions range over.
    pub open spec fn toks(&self) -> Seq<SpecToken> {
        self.tokens.deep_view()
    }

    /// The sequence ends with the end-of-input marker and the cursor never
    /// passes it.
    pub open spec fn wf(&self) -> bool {
        &&& self.toks().len() >= 1
        &&& self.toks()[self.toks().len() - 1].kind == TokenType::EOF
        &&& self.current < self.toks().len()
    }

    /// A parser over a complete token sequence. The sequence must end with
    /// the end-of-input marker; behavior on any other sequence is not part
    /// of the grammar's contract.
    pub fn new(tokens: Vec<Token>) -> (p: Parser)
        requires
            tokens.deep_view().len() >= 1,
            tokens.deep_view()[tokens.deep_view().len() - 1].kind == TokenType::EOF,
        ensures
            p.wf(),
            p.toks() == tokens.deep_view(),
            p.current == 0,
    {
        Parser { tokens, current: 0 }
    }

    fn peek(&self) -> (t: &Token)
        requires
            self.wf(),
        ensures
            t@ == self.toks()[self.current as int],
    {
        &self.tokens[self.current]
    }

    fn previous(&self) -> (t: &Token)
        requires
            self.wf(),
            self.current >= 1,
        ensures
            t@ == self.toks()[self.current - 1],
    {
        &self.tokens[self.current - 1]
    }

    fn is_at_end(&self) -> (r: bool)
        requires
            self.wf(),
        ensures
            r == (self.toks()[self.current as int].kind == TokenType::EOF),
    {
        self.peek().token_type == TokenType::EOF
    }

    fn check(&self, token_type: TokenType) -> (r: bool)
        requires
            self.wf(),
            token_type != TokenType::EOF,
        ensures
            r == (self.toks()[self.current as int].kind == token_type),
    {
        if self.is_at_end() {
            return false;
        }
        self.peek().token_type == token_type
    }

    /// Consumes one token, except at the end marker, which is never passed.
    fn advance(&mut self)
        requires
            old(self).wf(),
        ensures
            final(self).wf(),
            final(self).tokens == old(self).tokens,
            final(self).current == old(self).current + (if old(self).toks()[old(
                self,
            ).current as int].kind == TokenType::EOF {
                0int
            } else {
                1int
            }),
    {
        if !self.is_at_end() {
            let n: usize = self.tokens.len();
            assert(self.current < n);
            self.current = self.current + 1;
        }
    }

    /// Consumes the next token exactly when its kind is the given one.
    fn match_one(&mut self, a: TokenType) -> (r: bool)
        requires
            old(self).wf(),
            a != TokenType::EOF,
        ensures
            final(self).wf(),
            final(self).tokens == old(self).tokens,
            r == (old(self).toks()[old(self).current as int].kind == a),
            final(self).current == old(self).current + (if r {
                1int
            } else {
                0int
            }),
    {
        if self.check(a) {
            self.advance();
            return true;
        }
        false
    }

    /// Consumes the next token exactly when its kind is one of the two.
    fn match_two(&mut self, a: TokenType, b: TokenType) -> (r: bool)
        requires
            old(self).wf(),
            a != TokenType::EOF,
            b != TokenType::EOF,
        ensures
            final(self).wf(),
            final(self).tokens == old(self).tokens,
            r == (old(self).toks()[old(self).current as int].kind == a || old(self).toks()[old(
                self,
            ).current as int].kind == b),
            final(self).current == old(self).current + (if r {
                1int
            } else {
                0int
            }),
    {
        if self.check(a) {
            self.advance();
            return true;
        }
        if self.check(b) {
            self.advance();
            return true;
        }
        false
    }

    /// Consumes the next token exactly when its kind is one of the four.
    fn match_four(&mut self, a: TokenType, b: TokenType, c: TokenType, d: TokenType) -> (r: bool)
        requires
            old(self).wf(),
            a != TokenType::EOF,
            b != TokenType::EOF,
            c != TokenType::EOF,
            d != TokenType::EOF,
        ensures
            final(self).wf(),
            final(self).tokens == old(self).tokens,
            r == (old(self).toks()[old(self).current as int].kind == a || old(self).toks()[old(
                self,
            ).current as int].kind == b || old(self).toks()[old(self).current as int].kind == c
                || old(self).toks()[old(self).current as int].kind == d),
            final(self).current == old(self).current + (if r {
                1int
            } else {
                0int
            }),
    {
        if self.match_two(a, b) {
            return true;
        }
        self.match_two(c, d)
    }

    /// Consumes a token of the expected kind, or reports a syntax error at
    /// the line of the token found instead, consuming nothing.
    fn consume(&mut self, token_type: TokenType, message: std::string::String) -> (r: Result<
        (),
        LoxError,
    >)
        requires
            old(self).wf(),
            token_type != TokenType::EOF,
        ensures
            final(self).wf(),
            final(self).tokens == old(self).tokens,
            if old(self).toks()[old(self).current as int].kind == token_type {
                r is Ok && final(self).current == old(self).current + 1
            } else {
                r matches Err(e) && final(self).current == old(self).current && e@ == (SpecError {
                    line: old(self).toks()[old(self).current as int].line,
                    reason: message@,
                })
            },
    {
        if self.check(token_type) {
            self.advance();
            return Ok(());
        }
        let line_number = self.peek().line_number;
        Err(LoxError { line_number, reason: message })
    }

    /// Parses one expression starting at the cursor: the result is exactly
    /// what the ghost grammar says, tree and cursor alike, or its syntax
    /// error.
    pub fn parse(&mut self) -> (r: Result<Expr, LoxError>)
        requires
            old(self).wf(),
        ensures
            final(self).wf(),
            final(self).tokens == old(self).tokens,
            ({
                let res = spec_parse_from(old(self).toks(), old(self).current as int);
                match r {
                    Ok(e) => res matches Ok(po) && e.deep_view() == po.expr && final(self).current
                        == po.next,
                    Err(err) => res matches Err(se) && err@ == se,
                }
            }),
    {
        self.expression()
    }

    fn expression(&mut self) -> (r: Result<Expr, LoxError>)
        requires
            old(self).wf(),
        ensures
            final(self).wf(),
            final(self).tokens == old(self).tokens,
            old(self).current <= final(self).current,
            r is Ok ==> old(self).current < final(self).current,
            ({
                let res = spec_expression(old(self).toks(), old(self).current as int);
                match r {
                    Ok(e) => res matches Ok(po) && e.deep_view() == po.expr && final(self).current
                        == po.next,
                    Err(err) => res matches Err(se) && err@ == se,
                }
            }),
        decreases old(self).toks().len() - old(self).current, 10int,
    {
        self.equality()
    }

    #[verifier::loop_isolation(false)]
    fn equality(&mut self) -> (r: Result<Expr, LoxError>)
        requires
            old(self).wf(),
        ensures
            final(self).wf(),
            final(self).tokens == old(self).tokens,
            old(self).current <= final(self).current,
            r is Ok ==> old(self).current < final(self).current,
            ({
                let res = spec_equality(old(self).toks(), old(self).current as int);
                match r {
                    Ok(e) => res matches Ok(po) && e.deep_view() == po.expr && final(self).current
                        == po.next,
                    Err(err) => res matches Err(se) && err@ == se,
                }
            }),
        decreases old(self).toks().len() - old(self).current, 9int,
    {
        let ghost toks = self.toks();
        let ghost i0 = self.current as int;
        let mut expr = match self.comparison() {
            Ok(e) => e,
            Err(e) => {
                return Err(e);
            },
        };
        while self.match_two(TokenType::BangEqual, TokenType::EqualEqual)
            invariant
                self.wf(),
                self.tokens == old(self).tokens,
                i0 < self.current < toks.len(),
                spec_equality(toks, i0) == spec_equality_rest(
                    toks,
                    self.current as int,
                    expr.deep_view(),
                ),
            decreases toks.len() - self.current,
        {
            let operator = self.previous().duplicate();
            let right = match self.comparison() {
                Ok(e) => e,
                Err(e) => {
                    return Err(e);
                },
            };
            expr = Expr::Binary { left: Box::new(expr), operator, right: Box::new(right) };
        }
        Ok(expr)
    }

    #[verifier::loop_isolation(false)]
    #[verifier::rlimit(60)]
    fn comparison(&mut self) -> (r: Result<Expr, LoxError>)
        requires
            old(self).wf(),
        ensures
            final(self).wf(),
            final(self).tokens == old(self).tokens,
            old(self).current <= final(self).current,
            r is Ok ==> old(self).current < final(self).current,
            ({
                let res = spec_comparison(old(self).toks(), old(self).current as int);
                match r {
                    Ok(e) => res matches Ok(po) && e.deep_view() == po.expr && final(self).current
                        == po.next,
                    Err(err) => res matches Err(se) && err@ == se,
                }
            }),
        decreases old(self).toks().len() - old(self).current, 7int,
    {
        let ghost toks = self.toks();
        let ghost i0 = self.current as int;
        let mut expr = match self.term() {
            Ok(e) => e,
            Err(e) => {
                return Err(e);
            },
        };
        while self.match_four(
            TokenType::Greater,
            TokenType::GreaterEqual,
            TokenType::Less,
            TokenType::LessEqual,
        )
            invariant
                self.wf(),
                self.tokens == old(self).tokens,
                i0 < self.current < toks.len(),
                spec_comparison(toks, i0) == spec_comparison_rest(
                    toks,
                    self.current as int,
                    expr.deep_view(),
                ),
            decreases toks.len() - self.current,
        {
            let operator = self.previous().duplicate();
            let right = match self.term() {
                Ok(e) => e,
                Err(e) => {
                    return Err(e);
                },
            };
            expr = Expr::Binary { left: Box::new(expr), operator, right: Box::new(right) };
        }
        Ok(expr)
    }

    #[verifier::loop_isolation(false)]
    #[verifier::rlimit(60)]
    fn term(&mut self) -> (r: Result<Expr, LoxError>)
        requires
            old(self).wf(),
        ensures
            final(self).wf(),
            final(self).tokens == old(self).tokens,
            old(self).current <= final(self).current,
            r is Ok ==> old(self).current < final(self).current,
            ({
                let res = spec_term(old(self).toks(), old(self).current as int);
                match r {
                    Ok(e) => res matches Ok(po) && e.deep_view() == po.expr && final(self).current
                        == po.next,
                    Err(err) => res matches Err(se) && err@ == se,
                }
            }),
        decreases old(self).toks().len() - old(self).current, 5int,
    {
        let ghost toks = self.toks();
        let ghost i0 = self.current as int;
        let mut expr = match self.factor() {
            Ok(e) => e,
            Err(e) => {
                return Err(e);
            },
        };
        while self.match_two(TokenType::Minus, TokenType::Plus)
            invariant
                self.wf(),
                self.tokens == old(self).tokens,
                i0 < self.current < toks.len(),
                spec_term(toks, i0) == spec_term_rest(toks, self.current as int, expr.deep_view()),
            decreases toks.len() - self.current,
        {
            let operator = self.previous().duplicate();
            let right = match self.factor() {
                Ok(e) => e,
                Err(e) => {
                    return Err(e);
                },
            };
            expr = Expr::Binary { left: Box::new(expr), operator, right: Box::new(right) };
        }
        Ok(expr)
    }

    #[verifier::loop_isolation(false)]
    fn factor(&mut self) -> (r: Result<Expr, LoxError>)
        requires
            old(self).wf(),
        ensures
            final(self).wf(),
            final(self).tokens == old(self).tokens,
            old(self).current <= final(self).current,
            r is Ok ==> old(self).current < final(self).current,
            ({
                let res = spec_factor(old(self).toks(), old(self).current as int);
                match r {
                    Ok(e) => res matches Ok(po) && e.deep_view() == po.expr && final(self).current
                        == po.next,
                    Err(err) => res matches Err(se) && err@ == se,
                }
            }),
        decreases old(self).toks().len() - old(self).current, 3int,
    {
        let ghost toks = self.toks();
        let ghost i0 = self.current as int;
        let mut expr = match self.unary() {
            Ok(e) => e,
            Err(e) => {
                return Err(e);
            },
        };
        while self.match_two(TokenType::Slash, TokenType::Star)
            invariant
                self.wf(),
                self.tokens == old(self).tokens,
                i0 < self.current < toks.len(),
                spec_factor(toks, i0) == spec_factor_rest(
                    toks,
                    self.current as int,
                    expr.deep_view(),
                ),
            decreases toks.len() - self.current,
        {
            let operator = self.previous().duplicate();
            let right = match self.unary() {
                Ok(e) => e,
                Err(e) => {
                    return Err(e);
                },
            };
            expr = Expr::Binary { left: Box::new(expr), operator, right: Box::new(right) };
        }
        Ok(expr)
    }

    fn unary(&mut self) -> (r: Result<Expr, LoxError>)
        requires
            old(self).wf(),
        ensures
            final(self).wf(),
            final(self).tokens == old(self).tokens,
            old(self).current <= final(self).current,
            r is Ok ==> old(self).current < final(self).current,
            ({
                let res = spec_unary(old(self).toks(), old(self).current as int);
                match r {
                    Ok(e) => res matches Ok(po) && e.deep_view() == po.expr && final(self).current
                        == po.next,
                    Err(err) => res matches Err(se) && err@ == se,
                }
            }),
        decreases old(self).toks().len() - old(self).current, 1int,
    {
        if self.match_two(TokenType::Bang, TokenType::Minus) {
            let operator = self.previous().duplicate();
            let right = match self.unary() {
                Ok(e) => e,
                Err(e) => {
                    return Err(e);
                },
            };
            return Ok(Expr::Unary { operator, right: Box::new(right) });
        }
        self.primary()
    }

    fn primary(&mut self) -> (r: Result<Expr, LoxError>)
        requires
            old(self).wf(),
        ensures
            final(self).wf(),
            final(self).tokens == old(self).tokens,
            old(self).current <= final(self).current,
            r is Ok ==> old(self).current < final(self).current,
            ({
                let res = spec_primary(old(self).toks(), old(self).current as int);
                match r {
                    Ok(e) => res matches Ok(po) && e.deep_view() == po.expr && final(self).current
                        == po.next,
                    Err(err) => res matches Err(se) && err@ == se,
                }
            }),
        decreases old(self).toks().len() - old(self).current, 0int,
    {
        if self.match_one(TokenType::False) {
            return Ok(Expr::Literal { value: crate::token::Literal::Boolean(false) });
        }
        if self.match_one(TokenType::True) {
            return Ok(Expr::Literal { value: crate::token::Literal::Boolean(true) });
        }
        if self.match_one(TokenType::Nil) {
            return Ok(Expr::Literal { value: crate::token::Literal::Nil });
        }
        if self.match_two(TokenType::Number, TokenType::String) {
            let value = self.previous().literal.duplicate();
            return Ok(Expr::Literal { value });
        }
        if self.match_one(TokenType::LeftParen) {
            let inner = match self.expression() {
                Ok(e) => e,
                Err(e) => {
                    return Err(e);
                },
            };
            match self.consume(TokenType::RightParen, expect_right_paren_reason()) {
                Ok(u) => u,
                Err(e) => {
                    return Err(e);
                },
            }
            return Ok(Expr::Grouping { expr: Box::new(inner) });
        }
        let line_number = self.peek().line_number;
        Err(LoxError { line_number, reason: expect_expression_reason() })
    }
}

/// Parsing from a given position: what `Parser::parse` does at its cursor.
pub open spec fn spec_parse_from(toks: Seq<SpecToken>, i: int) -> Result<ParseOk, SpecError> {
    spec_expression(toks, i)
}

} // verus!
