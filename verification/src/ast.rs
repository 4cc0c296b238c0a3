//! The expression tree that the parser builds and the evaluator walks.

use vstd::prelude::*;

verus! {

/// An expression: a literal, or an operator over two owned sub-expressions.
#[derive(Debug, PartialEq)]
pub enum Expr {
    Integer(i64),
    Operator(ExprOp, Box<Expr>, Box<Expr>),
}

/// The binary operators of the notation.
#[derive(Clone, Copy, Debug, PartialEq)]
pub enum ExprOp {
    Add,
    Sub,
    Mult,
    Div,
    Pow,
    Roll,
}

impl Expr {
    /// The number of operators in the tree.
    pub open spec fn size(self) -> nat
        decreases self,
    {
        match self {
            Expr::Integer(_) => 0,
            Expr::Operator(_, left, right) => 1 + left.size() + right.size(),
        }
    }

    /// Whether a roll occurs anywhere in the tree.
    pub open spec fn has_roll(self) -> bool
        decreases self,
    {
        match self {
            Expr::Integer(_) => false,
            Expr::Operator(op, left, right) => op is Roll || left.has_roll() || right.has_roll(),
        }
    }
}

impl Clone for Expr {
    fn clone(&self) -> (copy: Self)
        ensures
            copy == *self,
        decreases self,
    {
        match self {
            Expr::Integer(n) => Expr::Integer(*n),
            Expr::Operator(op, left, right) => Expr::Operator(
                *op,
                Box::new((&**left).clone()),
                Box::new((&**right).clone()),
            ),
        }
    }
}

} // verus!
