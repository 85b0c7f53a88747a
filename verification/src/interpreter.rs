//! The evaluator stub of this snapshot: it understands literal leaves
//! only. Everything further (operators, grouping) belongs to a later
//! stage; printing the result is the shell's business.

use vstd::prelude::*;
use crate::expr::Expr;
use crate::expr::SpecExpr;
use crate::token::Literal;

verus! {

/// Holds no state: evaluation in this snapshot is a pure function of the
/// expression.
pub struct Interpreter;

impl Interpreter {
    pub fn new() -> (i: Interpreter) {
        Interpreter {  }
    }

    /// Evaluates the one expression shape this snapshot understands: a
    /// literal leaf yields its own value. Other shapes are outside this
    /// evaluator's domain.
    pub fn evaluate(&self, expr: &Expr) -> (r: Literal)
        requires
            expr is Literal,
        ensures
            (expr.deep_view() matches SpecExpr::Literal { value } && r@ == value),
    {
        match expr {
            Expr::Literal { value } => value.duplicate(),
            _ => unreached(),
        }
    }
}

} // verus!
