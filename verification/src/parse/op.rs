//! The operator symbols. Each is one byte long.

use vstd::prelude::*;
use crate::ast::ExprOp;
use crate::ascii::{CARET, LOWER_D, MINUS, PLUS, SLASH, STAR};
use crate::parse::space::has_byte;

verus! {

/// `op` where the byte at `at` is `byte`, else nothing.
pub open spec fn symbol(input: Seq<u8>, at: nat, byte: u8, op: ExprOp) -> Option<ExprOp> {
    if has_byte(input, at, byte) {
        Some(op)
    } else {
        None
    }
}

/// The operator of a sum at `at`: `+` or `-`.
pub open spec fn additive(input: Seq<u8>, at: nat) -> Option<ExprOp> {
    match symbol(input, at, PLUS, ExprOp::Add) {
        Some(op) => Some(op),
        None => symbol(input, at, MINUS, ExprOp::Sub),
    }
}

/// The operator of a product at `at`: `*` or `/`.
pub open spec fn multiplicative(input: Seq<u8>, at: nat) -> Option<ExprOp> {
    match symbol(input, at, STAR, ExprOp::Mult) {
        Some(op) => Some(op),
        None => symbol(input, at, SLASH, ExprOp::Div),
    }
}

/// Whether an executable parser found at `at` the operator that the grammar
/// says, and ended one byte after `at`.
pub open spec fn finds(
    found: Option<(ExprOp, usize)>,
    at: usize,
    expected: Option<ExprOp>,
) -> bool {
    match found {
        Some((op, end)) => expected == Some(op) && end == at + 1,
        None => expected is None,
    }
}

fn sym(input: &[u8], at: usize, byte: u8, op: ExprOp) -> (found: Option<(ExprOp, usize)>)
    ensures
        finds(found, at, symbol(input@, at as nat, byte, op)),
{
    if at < input.len() && input[at] == byte {
        Some((op, at + 1))
    } else {
        None
    }
}

/// `*` or `/` at `at`, and the position after it.
pub fn mult_div(input: &[u8], at: usize) -> (found: Option<(ExprOp, usize)>)
    ensures
        finds(found, at, multiplicative(input@, at as nat)),
{
    match mult(input, at) {
        Some(found) => Some(found),
        None => div(input, at),
    }
}

/// `+` or `-` at `at`, and the position after it.
pub fn add_sub(input: &[u8], at: usize) -> (found: Option<(ExprOp, usize)>)
    ensures
        finds(found, at, additive(input@, at as nat)),
{
    match self::add(input, at) {
        Some(found) => Some(found),
        None => self::sub(input, at),
    }
}

/// `+` at `at`, and the position after it.
pub fn add(input: &[u8], at: usize) -> (found: Option<(ExprOp, usize)>)
    ensures
        finds(found, at, symbol(input@, at as nat, PLUS, ExprOp::Add)),
{
    sym(input, at, PLUS, ExprOp::Add)
}

/// `-` at `at`, and the position after it.
pub fn sub(input: &[u8], at: usize) -> (found: Option<(ExprOp, usize)>)
    ensures
        finds(found, at, symbol(input@, at as nat, MINUS, ExprOp::Sub)),
{
    sym(input, at, MINUS, ExprOp::Sub)
}

/// `*` at `at`, and the position after it.
pub fn mult(input: &[u8], at: usize) -> (found: Option<(ExprOp, usize)>)
    ensures
        finds(found, at, symbol(input@, at as nat, STAR, ExprOp::Mult)),
{
    sym(input, at, STAR, ExprOp::Mult)
}

/// `/` at `at`, and the position after it.
pub fn div(input: &[u8], at: usize) -> (found: Option<(ExprOp, usize)>)
    ensures
        finds(found, at, symbol(input@, at as nat, SLASH, ExprOp::Div)),
{
    sym(input, at, SLASH, ExprOp::Div)
}

/// `^` at `at`, and the position after it.
pub fn power(input: &[u8], at: usize) -> (found: Option<(ExprOp, usize)>)
    ensures
        finds(found, at, symbol(input@, at as nat, CARET, ExprOp::Pow)),
{
    sym(input, at, CARET, ExprOp::Pow)
}

/// `d` at `at`, and the position after it.
pub fn roll(input: &[u8], at: usize) -> (found: Option<(ExprOp, usize)>)
    ensures
        finds(found, at, symbol(input@, at as nat, LOWER_D, ExprOp::Roll)),
{
    sym(input, at, LOWER_D, ExprOp::Roll)
}

} // verus!
