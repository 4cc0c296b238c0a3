//! Dice notation: text such as `2d6+3` is read into expression trees, and each
//! tree is evaluated to a number with a seedable random source.

pub mod ascii;
pub mod ast;
pub mod decimal;
pub mod eval;
pub mod format;
pub mod moorgate;
pub mod parse;
pub mod slack;

use vstd::prelude::*;
use vstd::string::StringSliceAdditionalSpecFns;
use crate::eval::{evaluated_all, Error, Eval, Output};
use crate::format::{format_result, outcomes, response};
use crate::parse::{parse, parsed, ParseError};
use crate::eval::source::seeded;

verus! {

/// What a line comes to on a generator in the state `state`: the outcome of
/// each of its expressions in their order, or the parse failure; and the state
/// afterwards, which a line that does not parse leaves as it was.
pub open spec fn ran(input: Seq<u8>, state: Seq<u8>) -> (
    Result<Seq<Result<Output, Error>>, ParseError>,
    Seq<u8>,
) {
    match parsed(input) {
        Ok(asts) => {
            let (outputs, next) = evaluated_all(asts, state);
            (Ok(outputs), next)
        },
        Err(parse_err) => (Err(parse_err), state),
    }
}

/// Reads a line and evaluates each of its expressions with a fresh evaluator,
/// seeded from the operating system.
pub fn run(input: &str) -> (result: Result<Vec<Result<Output, Error>>, ParseError>)
    ensures
        exists|seed: u64| outcomes(result) == ran(input.spec_bytes(), seeded(seed)).0,
{
    let mut eval = Eval::new();
    run_with(&mut eval, input)
}

/// Reads a line and evaluates each of its expressions, first to last, with
/// the evaluator given.
pub fn run_with(eval: &mut Eval, input: &str) -> (result: Result<
    Vec<Result<Output, Error>>,
    ParseError,
>)
    ensures
        (outcomes(result), final(eval)@) == ran(input.spec_bytes(), old(eval)@),
{
    let asts = match parse(input) {
        Ok(asts) => asts,
        Err(parse_err) => {
            return Err(parse_err);
        },
    };
    let mut eval_results: Vec<Result<Output, Error>> = Vec::new();
    let mut i: usize = 0;
    while i < asts.len()
        invariant
            i <= asts@.len(),
            (eval_results@, eval@) == evaluated_all(asts@.take(i as int), old(eval)@),
        decreases asts@.len() - i,
    {
        let output = eval.eval(asts[i].clone());
        eval_results.push(output);
        proof {
            let next = asts@.take(i + 1);
            assert(next.drop_last() =~= asts@.take(i as int));
            assert(next.last() == asts@[i as int]);
        }
        i = i + 1;
    }
    assert(asts@.take(asts@.len() as int) =~= asts@);
    Ok(eval_results)
}

/// The response to the line `input` of the user `username`.
pub fn respond(eval: &mut Eval, username: &str, input: &str) -> (msg: String)
    ensures
        msg@ == response(username@, input@, ran(input.spec_bytes(), old(eval)@).0),
        final(eval)@ == ran(input.spec_bytes(), old(eval)@).1,
{
    let result = run_with(eval, input);
    format_result(username, input, result)
}

} // verus!
