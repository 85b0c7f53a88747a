//! The expression tree: four shapes, built bottom-up by the parser and
//! immutable afterwards. Operator nodes keep the originating token so
//! later stages can report the source line of an evaluation error.

use vstd::prelude::*;
use crate::token::Token;
use crate::token::SpecToken;
use crate::token::Literal;
use crate::token::SpecLiteral;

verus! {

/// One parsed expression: a literal leaf, a parenthesized group, a prefix
/// operator application, or an infix operator application. Each node owns
/// its children outright.
#[derive(Debug, PartialEq)]
pub enum Expr {
    Binary { left: Box<Expr>, operator: Token, right: Box<Expr> },
    Unary { operator: Token, right: Box<Expr> },
    Literal { value: Literal },
    Grouping { expr: Box<Expr> },
}

/// Ghost image of an expression tree.
pub enum SpecExpr {
    Binary { left: Box<SpecExpr>, operator: SpecToken, right: Box<SpecExpr> },
    Unary { operator: SpecToken, right: Box<SpecExpr> },
    Literal { value: SpecLiteral },
    Grouping { expr: Box<SpecExpr> },
}

/// The ghost image of an expression tree, shape for shape.
pub open spec fn view_expr(e: Expr) -> SpecExpr
    decreases e,
{
    match e {
        Expr::Binary { left, operator, right } => SpecExpr::Binary {
            left: Box::new(view_expr(*left)),
            operator: operator@,
            right: Box::new(view_expr(*right)),
        },
        Expr::Unary { operator, right } => SpecExpr::Unary {
            operator: operator@,
            right: Box::new(view_expr(*right)),
        },
        Expr::Literal { value } => SpecExpr::Literal { value: value@ },
        Expr::Grouping { expr } => SpecExpr::Grouping { expr: Box::new(view_expr(*expr)) },
    }
}

impl DeepView for Expr {
    type V = SpecExpr;

    open spec fn deep_view(&self) -> SpecExpr {
        view_expr(*self)
    }
}

} // verus!
