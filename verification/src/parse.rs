//! The grammar of dice notation, and the parser that reads it.
//!
//! An input is a list of expressions. Between two of them stands a comma,
//! with or without blanks round it, or one blank or more; blanks may lead and
//! trail the list. An expression is built in five levels, loosest first:
//!
//! ```text
//! sum     = product [ ("+" | "-") sum ]
//! product = power   [ ("*" | "/") product ]
//! power   = dice    [ "^" power ]
//! dice    = [ atom ] "d" dice  |  atom
//! atom    = "(" sum ")"  |  number
//! ```
//!
//! Every operator groups to the right. Blanks may stand round an operator and
//! inside brackets, but not between the count of a roll and its `d`. A roll
//! without a count is a roll of one die. Where an operator is not followed by
//! an operand the expression ends before the operator.

pub mod number;
pub mod op;
pub mod space;
pub mod written;

use vstd::prelude::*;
use vstd::string::{StringExecFns, StringSliceAdditionalSpecFns};
use crate::ast::{Expr, ExprOp};
use crate::decimal::{decimal, decimal_bytes, digit_bytes, push_digits};
use crate::ascii::{CARET, CLOSE, LOWER_D, MINUS, OPEN, ZERO};
use crate::parse::number::{agrees, is_digit, number_at};
use crate::parse::op::{additive, multiplicative, symbol};
use crate::parse::space::{blanks, has_byte, separator};

verus! {

/// Why an input is not a list of expressions: the byte at `position` is where
/// the list of expressions ended, and `found` is that byte.
#[derive(Clone, Copy, Debug, PartialEq)]
pub struct ParseError {
    pub position: usize,
    pub found: u8,
}

impl ParseError {
    /// The error as text: that the input should have ended, the byte found
    /// instead as a number, and its position.
    pub open spec fn message(self) -> Seq<char> {
        "Mismatch { message: \"expect end of input, found: "@ + digit_bytes(
            self.found as nat,
        ).map_values(|byte: u8| byte as char) + "\", position: "@ + digit_bytes(
            self.position as nat,
        ).map_values(|byte: u8| byte as char) + " }"@
    }

    /// The error as text.
    pub fn to_string(&self) -> (text: String)
        ensures
            text@ == self.message(),
    {
        let mut text = String::from_str("Mismatch { message: \"expect end of input, found: ");
        push_digits(&mut text, self.found as u64);
        text.append("\", position: ");
        push_digits(&mut text, self.position as u64);
        text.append(" }");
        text
    }
}

/// The number of bytes from `at` to the end of the input.
pub open spec fn bytes_left(input: Seq<u8>, at: nat) -> nat {
    if at < input.len() {
        (input.len() - at) as nat
    } else {
        0
    }
}

/// The tree of an operator and its two operands.
pub open spec fn joined(op: ExprOp, left: Expr, right: Expr) -> Expr {
    Expr::Operator(op, Box::new(left), Box::new(right))
}

/// The sum at `at`: its tree and its length in bytes.
pub open spec fn sum_at(input: Seq<u8>, at: nat) -> Option<(Expr, nat)>
    decreases bytes_left(input, at), 9nat,
{
    match add_sub_at(input, at) {
        Some(found) => Some(found),
        None => product_at(input, at),
    }
}

/// A product, `+` or `-`, and a sum.
pub open spec fn add_sub_at(input: Seq<u8>, at: nat) -> Option<(Expr, nat)>
    decreases bytes_left(input, at), 8nat,
{
    match product_at(input, at) {
        None => None,
        Some((left, length)) => {
            let op_at = at + length + blanks(input, at + length);
            let right_at = op_at + 1 + blanks(input, op_at + 1);
            match additive(input, op_at) {
                None => None,
                Some(op) => match sum_at(input, right_at) {
                    None => None,
                    Some((right, more)) => Some(
                        (joined(op, left, right), (right_at + more - at) as nat),
                    ),
                },
            }
        },
    }
}

/// The product at `at`: its tree and its length in bytes.
pub open spec fn product_at(input: Seq<u8>, at: nat) -> Option<(Expr, nat)>
    decreases bytes_left(input, at), 7nat,
{
    match mult_div_at(input, at) {
        Some(found) => Some(found),
        None => power_at(input, at),
    }
}

/// A power, `*` or `/`, and a product.
pub open spec fn mult_div_at(input: Seq<u8>, at: nat) -> Option<(Expr, nat)>
    decreases bytes_left(input, at), 6nat,
{
    match power_at(input, at) {
        None => None,
        Some((left, length)) => {
            let op_at = at + length + blanks(input, at + length);
            let right_at = op_at + 1 + blanks(input, op_at + 1);
            match multiplicative(input, op_at) {
                None => None,
                Some(op) => match product_at(input, right_at) {
                    None => None,
                    Some((right, more)) => Some(
                        (joined(op, left, right), (right_at + more - at) as nat),
                    ),
                },
            }
        },
    }
}

/// The power at `at`: its tree and its length in bytes.
pub open spec fn power_at(input: Seq<u8>, at: nat) -> Option<(Expr, nat)>
    decreases bytes_left(input, at), 5nat,
{
    match pow_at(input, at) {
        Some(found) => Some(found),
        None => dice_at(input, at),
    }
}

/// Dice, `^`, and a power.
pub open spec fn pow_at(input: Seq<u8>, at: nat) -> Option<(Expr, nat)>
    decreases bytes_left(input, at), 4nat,
{
    match dice_at(input, at) {
        None => None,
        Some((left, length)) => {
            let op_at = at + length + blanks(input, at + length);
            let right_at = op_at + 1 + blanks(input, op_at + 1);
            match symbol(input, op_at, CARET, ExprOp::Pow) {
                None => None,
                Some(op) => match power_at(input, right_at) {
                    None => None,
                    Some((right, more)) => Some(
                        (joined(op, left, right), (right_at + more - at) as nat),
                    ),
                },
            }
        },
    }
}

/// The dice at `at`: their tree and their length in bytes.
pub open spec fn dice_at(input: Seq<u8>, at: nat) -> Option<(Expr, nat)>
    decreases bytes_left(input, at), 3nat,
{
    match roll_at(input, at) {
        Some(found) => Some(found),
        None => atom_at(input, at),
    }
}

/// An atom or nothing, which stands for the literal 1; `d` right after it;
/// and dice.
pub open spec fn roll_at(input: Seq<u8>, at: nat) -> Option<(Expr, nat)>
    decreases bytes_left(input, at), 2nat,
{
    let (count, length) = match atom_at(input, at) {
        Some((tree, length)) => (tree, length),
        None => (Expr::Integer(1), 0nat),
    };
    let op_at = at + length;
    let right_at = op_at + 1 + blanks(input, op_at + 1);
    match symbol(input, op_at, LOWER_D, ExprOp::Roll) {
        None => None,
        Some(op) => match dice_at(input, right_at) {
            None => None,
            Some((sides, more)) => Some((joined(op, count, sides), (right_at + more - at) as nat)),
        },
    }
}

/// The atom at `at`: its tree and its length in bytes.
pub open spec fn atom_at(input: Seq<u8>, at: nat) -> Option<(Expr, nat)>
    decreases bytes_left(input, at), 1nat,
{
    match brackets_at(input, at) {
        Some(found) => Some(found),
        None => number_at(input, at),
    }
}

/// `(`, a sum, and `)`.
pub open spec fn brackets_at(input: Seq<u8>, at: nat) -> Option<(Expr, nat)>
    decreases bytes_left(input, at), 0nat,
{
    let inner_at = at + 1 + blanks(input, at + 1);
    if has_byte(input, at, OPEN) {
        match sum_at(input, inner_at) {
            None => None,
            Some((tree, length)) => {
                let close_at = inner_at + length + blanks(input, inner_at + length);
                if has_byte(input, close_at, CLOSE) {
                    Some((tree, (close_at + 1 - at) as nat))
                } else {
                    None
                }
            },
        }
    } else {
        None
    }
}

/// The expressions that follow an expression which ended at `at`, each after a
/// separator: their trees, and the length of all of it in bytes.
pub open spec fn more_at(input: Seq<u8>, at: nat) -> (Seq<Expr>, nat)
    decreases bytes_left(input, at),
{
    match separator(input, at) {
        None => (Seq::empty(), 0),
        Some(gap) => match sum_at(input, at + gap) {
            None => (Seq::empty(), 0),
            Some((tree, length)) => {
                let (rest, more) = more_at(input, at + gap + length);
                (seq![tree] + rest, gap + length + more)
            },
        },
    }
}

/// The list of expressions at `at`, which may be empty: their trees, and the
/// length of the list in bytes.
pub open spec fn listed(input: Seq<u8>, at: nat) -> (Seq<Expr>, nat) {
    match sum_at(input, at) {
        None => (Seq::empty(), 0),
        Some((first, length)) => {
            let (rest, more) = more_at(input, at + length);
            (seq![first] + rest, length + more)
        },
    }
}

/// What the input reads as: the trees of its expressions, where the list with
/// the blanks round it is the whole input; else the place where the list ended.
pub open spec fn parsed(input: Seq<u8>) -> Result<Seq<Expr>, ParseError> {
    let start = blanks(input, 0);
    let (trees, length) = listed(input, start);
    let stop = start + length + blanks(input, start + length);
    if stop >= input.len() {
        Ok(trees)
    } else {
        Err(ParseError { position: stop as usize, found: input[stop as int] })
    }
}

/// Whether `result` is the outcome `expected`.
pub open spec fn same_outcome(
    result: Result<Vec<Expr>, ParseError>,
    expected: Result<Seq<Expr>, ParseError>,
) -> bool {
    match result {
        Ok(trees) => expected == Ok::<Seq<Expr>, ParseError>(trees@),
        Err(error) => expected == Err::<Seq<Expr>, ParseError>(error),
    }
}

/// Reads a line of dice notation: the trees of its expressions in the order
/// in which they stand, or the place where the line stops being a list of
/// expressions.
pub fn parse(expression: &str) -> (result: Result<Vec<Expr>, ParseError>)
    ensures
        same_outcome(result, parsed(expression.spec_bytes())),
{
    exprs(expression.as_bytes())
}

/// Reads the bytes of a line of dice notation.
pub fn exprs(input: &[u8]) -> (result: Result<Vec<Expr>, ParseError>)
    ensures
        same_outcome(result, parsed(input@)),
{
    let start = crate::parse::space::optional(input, 0);
    let mut items: Vec<Expr> = Vec::new();
    let mut pos: usize = start;
    match expr_0(input, start) {
        None => {},
        Some((first, end)) => {
            items.push(first);
            pos = end;
            loop
                invariant
                    start <= pos <= input@.len(),
                    listed(input@, start as nat).0 == items@ + more_at(input@, pos as nat).0,
                    listed(input@, start as nat).1 == pos - start + more_at(input@, pos as nat).1,
                ensures
                    start <= pos <= input@.len(),
                    listed(input@, start as nat) == (items@, (pos - start) as nat),
                decreases input@.len() - pos,
            {
                let next = match crate::parse::space::comma(input, pos) {
                    None => {
                        break ;
                    },
                    Some(next) => next,
                };
                match expr_0(input, next) {
                    None => {
                        break ;
                    },
                    Some((tree, end)) => {
                        proof {
                            let rest = more_at(input@, end as nat).0;
                            assert((items@ + seq![tree]) + rest == items@ + (seq![tree] + rest));
                            assert(items@.push(tree) == items@ + seq![tree]);
                        }
                        items.push(tree);
                        pos = end;
                    },
                }
            }
        },
    }
    let stop = crate::parse::space::optional(input, pos);
    if stop >= input.len() {
        Ok(items)
    } else {
        Err(ParseError { position: stop, found: input[stop] })
    }
}

fn expr_0(input: &[u8], at: usize) -> (found: Option<(Expr, usize)>)
    requires
        at <= input@.len(),
    ensures
        agrees(found, at, sum_at(input@, at as nat)),
        found matches Some((_, end)) ==> at < end <= input@.len(),
    decreases bytes_left(input@, at as nat), 9nat,
{
    let (left, end) = match expr_1(input, at) {
        None => {
            return None;
        },
        Some(found) => found,
    };
    let op_at = crate::parse::space::optional(input, end);
    let (op, after_op) = match crate::parse::op::add_sub(input, op_at) {
        None => {
            return Some((left, end));
        },
        Some(found) => found,
    };
    let right_at = crate::parse::space::optional(input, after_op);
    match expr_0(input, right_at) {
        None => Some((left, end)),
        Some((right, stop)) => Some((Expr::Operator(op, Box::new(left), Box::new(right)), stop)),
    }
}

fn expr_1(input: &[u8], at: usize) -> (found: Option<(Expr, usize)>)
    requires
        at <= input@.len(),
    ensures
        agrees(found, at, product_at(input@, at as nat)),
        found matches Some((_, end)) ==> at < end <= input@.len(),
    decreases bytes_left(input@, at as nat), 7nat,
{
    let (left, end) = match expr_2(input, at) {
        None => {
            return None;
        },
        Some(found) => found,
    };
    let op_at = crate::parse::space::optional(input, end);
    let (op, after_op) = match crate::parse::op::mult_div(input, op_at) {
        None => {
            return Some((left, end));
        },
        Some(found) => found,
    };
    let right_at = crate::parse::space::optional(input, after_op);
    match expr_1(input, right_at) {
        None => Some((left, end)),
        Some((right, stop)) => Some((Expr::Operator(op, Box::new(left), Box::new(right)), stop)),
    }
}

fn expr_2(input: &[u8], at: usize) -> (found: Option<(Expr, usize)>)
    requires
        at <= input@.len(),
    ensures
        agrees(found, at, power_at(input@, at as nat)),
        found matches Some((_, end)) ==> at < end <= input@.len(),
    decreases bytes_left(input@, at as nat), 5nat,
{
    let (left, end) = match expr_3(input, at) {
        None => {
            return None;
        },
        Some(found) => found,
    };
    let op_at = crate::parse::space::optional(input, end);
    let (op, after_op) = match crate::parse::op::power(input, op_at) {
        None => {
            return Some((left, end));
        },
        Some(found) => found,
    };
    let right_at = crate::parse::space::optional(input, after_op);
    match expr_2(input, right_at) {
        None => Some((left, end)),
        Some((right, stop)) => Some((Expr::Operator(op, Box::new(left), Box::new(right)), stop)),
    }
}

fn expr_3(input: &[u8], at: usize) -> (found: Option<(Expr, usize)>)
    requires
        at <= input@.len(),
    ensures
        agrees(found, at, dice_at(input@, at as nat)),
        found matches Some((_, end)) ==> at < end <= input@.len(),
    decreases bytes_left(input@, at as nat), 3nat,
{
    let left = expr_4(input, at);
    let op_at = match &left {
        Some((_, end)) => *end,
        None => at,
    };
    let (op, after_op) = match crate::parse::op::roll(input, op_at) {
        None => {
            return left;
        },
        Some(found) => found,
    };
    let right_at = crate::parse::space::optional(input, after_op);
    match expr_3(input, right_at) {
        None => left,
        Some((sides, stop)) => {
            let count = match left {
                Some((tree, _)) => tree,
                None => Expr::Integer(1),
            };
            Some((Expr::Operator(op, Box::new(count), Box::new(sides)), stop))
        },
    }
}

fn expr_4(input: &[u8], at: usize) -> (found: Option<(Expr, usize)>)
    requires
        at <= input@.len(),
    ensures
        agrees(found, at, atom_at(input@, at as nat)),
        found matches Some((_, end)) ==> at < end <= input@.len(),
    decreases bytes_left(input@, at as nat), 1nat,
{
    match expr_with_brackets(input, at) {
        Some(found) => Some(found),
        None => crate::parse::number::number(input, at),
    }
}

fn expr_with_brackets(input: &[u8], at: usize) -> (found: Option<(Expr, usize)>)
    requires
        at <= input@.len(),
    ensures
        agrees(found, at, brackets_at(input@, at as nat)),
        found matches Some((_, end)) ==> at < end <= input@.len(),
    decreases bytes_left(input@, at as nat), 0nat,
{
    if at >= input.len() || input[at] != OPEN {
        return None;
    }
    let inner_at = crate::parse::space::optional(input, at + 1);
    let inner = expr_0(input, inner_at);
    match inner {
        None => None,
        Some((tree, end)) => {
            let close_at = crate::parse::space::optional(input, end);
            if close_at < input.len() && input[close_at] == CLOSE {
                assert(brackets_at(input@, at as nat) == Some((tree, (close_at + 1 - at) as nat)));
                Some((tree, close_at + 1))
            } else {
                None
            }
        },
    }
}

/// An integer of the 64-bit signed range, written in base ten, reads as the
/// one tree that is its literal.
pub proof fn decimal_reads_back(value: i64)
    ensures
        parsed(decimal_bytes(value as int)) == Ok::<Seq<Expr>, ParseError>(
            seq![Expr::Integer(value)],
        ),
{
    crate::parse::written::written_tree_reads_back(Expr::Integer(value));
}

/// The text of an integer of the 64-bit signed range in base ten, such as an
/// output renders it, reads as the one tree that is its literal.
pub proof fn decimal_text_reads_back(text: &str, value: i64)
    requires
        text@ == decimal(value as int),
    ensures
        parsed(text.spec_bytes()) == Ok::<Seq<Expr>, ParseError>(seq![Expr::Integer(value)]),
{
    crate::decimal::lemma_decimal_encodes_as_its_bytes(value as int);
    decimal_reads_back(value);
}

/// Digits that start with `0` and go on, with or without `-` before them, do
/// not read: the list of expressions ends after the `0`.
pub proof fn leading_zero_is_rejected(input: Seq<u8>, sign: nat)
    requires
        sign == 0 || (sign == 1 && has_byte(input, 0, MINUS)),
        has_byte(input, sign, ZERO),
        sign + 1 < input.len(),
        is_digit(input[sign as int + 1]),
    ensures
        parsed(input) == Err::<Seq<Expr>, ParseError>(
            ParseError { position: (sign + 1) as usize, found: input[sign as int + 1] },
        ),
{
    let after = sign + 1;
    assert(blanks(input, 0) == 0);
    assert(blanks(input, after) == 0);
    assert(number_at(input, 0) == Some((Expr::Integer(0), after)));
    assert(brackets_at(input, 0) is None);
    assert(roll_at(input, 0) is None);
    assert(dice_at(input, 0) == atom_at(input, 0));
    assert(pow_at(input, 0) is None);
    assert(power_at(input, 0) == atom_at(input, 0));
    assert(mult_div_at(input, 0) is None);
    assert(product_at(input, 0) == atom_at(input, 0));
    assert(add_sub_at(input, 0) is None);
    assert(separator(input, after) is None);
    assert(more_at(input, after) == (Seq::<Expr>::empty(), 0nat));
    assert(seq![Expr::Integer(0)] + Seq::<Expr>::empty() =~= seq![Expr::Integer(0)]);
}

} // verus!
