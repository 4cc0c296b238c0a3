//! Evaluation of expression trees: arithmetic, and dice thrown with a seedable
//! random source.

pub mod error;
pub mod maths;
pub mod output;
pub mod source;

pub use crate::eval::error::Error;
pub use crate::eval::output::Output;

use vstd::prelude::*;
use rand::rngs::StdRng;
use crate::ast::{Expr, ExprOp};
use crate::eval::maths::{divided, raised, rolled, within_dice_bounds, wrapped};
use crate::eval::source::{entropy, seed_from_u64, seeded, state_of};

verus! {

/// What an operator makes of the values of its two operands, and the state of the
/// generator afterwards. Only a roll touches the generator.
pub open spec fn applied(op: ExprOp, left: i64, right: i64, state: Seq<u8>) -> (
    Result<i64, Error>,
    Seq<u8>,
) {
    match op {
        ExprOp::Add => (Ok(wrapped(left + right) as i64), state),
        ExprOp::Sub => (Ok(wrapped(left - right) as i64), state),
        ExprOp::Mult => (Ok(wrapped(left * right) as i64), state),
        ExprOp::Div => (divided(left, right), state),
        ExprOp::Pow => (raised(left, right), state),
        ExprOp::Roll => {
            let (total, next) = rolled(state, left as int, right, 0);
            (Ok(total), next)
        },
    }
}

/// The value of a tree on a generator in the state `state`, and the state
/// afterwards.
/// The left operand comes first, then the right one, then the operator; the
/// first error ends the evaluation.
pub open spec fn value_of(ast: Expr, state: Seq<u8>) -> (Result<i64, Error>, Seq<u8>)
    decreases ast,
{
    match ast {
        Expr::Integer(n) => (Ok(n), state),
        Expr::Operator(op, left_expr, right_expr) => {
            let (left, after_left) = value_of(*left_expr, state);
            match left {
                Err(e) => (Err(e), after_left),
                Ok(l) => {
                    let (right, after_right) = value_of(*right_expr, after_left);
                    match right {
                        Err(e) => (Err(e), after_right),
                        Ok(r) => applied(op, l, r, after_right),
                    }
                },
            }
        },
    }
}

/// What `eval` returns for a tree on a generator in the state `state`, and the
/// state afterwards.
pub open spec fn evaluated(ast: Expr, state: Seq<u8>) -> (Result<Output, Error>, Seq<u8>) {
    let (value, next) = value_of(ast, state);
    match value {
        Ok(total) => (Ok(Output::Integer(total)), next),
        Err(e) => (Err(e), next),
    }
}

/// What evaluating the trees one after the other returns on a generator in
/// the state `state`, and the state afterwards. An error in one tree does not keep
/// the next from being evaluated.
pub open spec fn evaluated_all(asts: Seq<Expr>, state: Seq<u8>) -> (
    Seq<Result<Output, Error>>,
    Seq<u8>,
)
    decreases asts.len(),
{
    if asts.len() == 0 {
        (Seq::empty(), state)
    } else {
        let (earlier, before_last) = evaluated_all(asts.drop_last(), state);
        let (last, next) = evaluated(asts.last(), before_last);
        (earlier.push(last), next)
    }
}

/// An evaluator: it owns the random source that its dice are thrown with.
pub struct Eval {
    rng: StdRng,
}

impl View for Eval {
    type V = Seq<u8>;

    /// The state of the evaluator's random source.
    closed spec fn view(&self) -> Seq<u8> {
        state_of(self.rng)
    }
}

impl Eval {
    /// An evaluator seeded from the operating system's entropy source.
    pub fn new() -> (fresh: Self)
        ensures
            exists|seed: u64| fresh@ == seeded(seed),
    {
        Self::new_with_seed(entropy())
    }

    /// An evaluator whose dice depend on `seed` alone.
    pub fn new_with_seed(seed: u64) -> (fresh: Self)
        ensures
            fresh@ == seeded(seed),
    {
        Self { rng: seed_from_u64(seed) }
    }

    /// Evaluates one tree. The dice of a roll of two literals stay between
    /// `num_die` and `num_die * num_sides`.
    pub fn eval(&mut self, ast: Expr) -> (result: Result<Output, Error>)
        ensures
            (result, final(self)@) == evaluated(ast, old(self)@),
            forall|num_die: i64, num_sides: i64|
                ast == roll_of(num_die, num_sides) ==> (result matches Ok(Output::Integer(total))
                    && within_dice_bounds(num_die as int, num_sides as int, total as int)),
    {
        match self.visit(ast) {
            Ok(total) => Ok(Output::Integer(total)),
            Err(e) => Err(e),
        }
    }

    fn visit(&mut self, ast: Expr) -> (result: Result<i64, Error>)
        ensures
            (result, final(self)@) == value_of(ast, old(self)@),
            forall|num_die: i64, num_sides: i64|
                ast == roll_of(num_die, num_sides) ==> (result matches Ok(total)
                    && within_dice_bounds(num_die as int, num_sides as int, total as int)),
        decreases ast.size(), 1nat,
    {
        match ast {
            Expr::Integer(n) => Ok(n),
            Expr::Operator(op, left_expr, right_expr) => self.visit_op(op, *left_expr, *right_expr),
        }
    }

    fn visit_op(&mut self, op: ExprOp, left_expr: Expr, right_expr: Expr) -> (result: Result<
        i64,
        Error,
    >)
        ensures
            (result, final(self)@) == value_of(
                Expr::Operator(op, Box::new(left_expr), Box::new(right_expr)),
                old(self)@,
            ),
            forall|num_die: i64, num_sides: i64|
                op is Roll && left_expr == Expr::Integer(num_die) && right_expr == Expr::Integer(
                    num_sides,
                ) ==> (result matches Ok(total) && within_dice_bounds(
                    num_die as int,
                    num_sides as int,
                    total as int,
                )),
        decreases 1 + left_expr.size() + right_expr.size(), 0nat,
    {
        let left = match self.visit(left_expr) {
            Ok(value) => value,
            Err(e) => {
                return Err(e);
            },
        };
        let right = match self.visit(right_expr) {
            Ok(value) => value,
            Err(e) => {
                return Err(e);
            },
        };
        match op {
            ExprOp::Add => crate::eval::maths::add(left, right),
            ExprOp::Sub => crate::eval::maths::sub(left, right),
            ExprOp::Mult => crate::eval::maths::mult(left, right),
            ExprOp::Div => crate::eval::maths::divide(left, right),
            ExprOp::Pow => crate::eval::maths::power(left, right),
            ExprOp::Roll => crate::eval::maths::roll(&mut self.rng, left, right),
        }
    }
}

/// The tree of `num_die` dice of `num_sides` sides, both written as literals.
pub open spec fn roll_of(num_die: i64, num_sides: i64) -> Expr {
    Expr::Operator(
        ExprOp::Roll,
        Box::new(Expr::Integer(num_die)),
        Box::new(Expr::Integer(num_sides)),
    )
}

/// Two evaluators that were built from the same seed return the same results
/// for the same trees in the same order, and so do any two whose random sources
/// are in the same state.
pub proof fn same_seed_same_results(first: Eval, second: Eval, seed: u64, asts: Seq<Expr>)
    ensures
        first@ == seeded(seed) && second@ == seeded(seed) ==> evaluated_all(asts, first@).0
            == evaluated_all(asts, second@).0,
        first@ == second@ ==> evaluated_all(asts, first@) == evaluated_all(asts, second@),
{
}

/// A tree without a roll leaves the generator as it was, and its value is the
/// same on every generator.
pub proof fn tree_without_roll_needs_no_generator(ast: Expr, state: Seq<u8>, other: Seq<u8>)
    requires
        !ast.has_roll(),
    ensures
        value_of(ast, state).1 == state,
        value_of(ast, state).0 == value_of(ast, other).0,
    decreases ast,
{
    match ast {
        Expr::Integer(_) => {},
        Expr::Operator(op, left_expr, right_expr) => {
            tree_without_roll_needs_no_generator(*left_expr, state, other);
            tree_without_roll_needs_no_generator(*left_expr, other, state);
            tree_without_roll_needs_no_generator(*right_expr, state, other);
            lemma_arithmetic_needs_no_generator(op, state, other);
        },
    }
}

/// An operator other than a roll leaves the generator as it was, and gives
/// the same on every generator.
proof fn lemma_arithmetic_needs_no_generator(op: ExprOp, state: Seq<u8>, other: Seq<u8>)
    requires
        !(op is Roll),
    ensures
        forall|left: i64, right: i64| (#[trigger] applied(op, left, right, state)).1 == state,
        forall|left: i64, right: i64|
            (#[trigger] applied(op, left, right, state)).0 == applied(op, left, right, other).0,
{
}

/// Dice of no sides add nothing and leave the generator as it was, however
/// many are thrown.
pub proof fn dice_of_no_sides_add_nothing(state: Seq<u8>, num_die: int, total: i64)
    ensures
        rolled(state, num_die, 0, total) == (total, state),
    decreases num_die,
{
    if num_die > 0 {
        dice_of_no_sides_add_nothing(state, num_die - 1, total);
    }
}

} // verus!
