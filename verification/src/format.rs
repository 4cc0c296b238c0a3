//! The response to one line of dice notation, as text.

use vstd::prelude::*;
use vstd::string::StringExecFns;
use crate::eval::error::Error;
use crate::eval::output::Output;
use crate::parse::ParseError;

verus! {

/// The text of one expression's outcome: its value, or its error in words.
pub open spec fn output_text(output_result: Result<Output, Error>) -> Seq<char> {
    match output_result {
        Ok(output) => output.rendered(),
        Err(err) => err.message(),
    }
}

/// The outcomes in their order, with one space between two of them.
pub open spec fn outputs_text(outputs: Seq<Result<Output, Error>>) -> Seq<char>
    decreases outputs.len(),
{
    if outputs.len() == 0 {
        Seq::empty()
    } else if outputs.len() == 1 {
        output_text(outputs[0])
    } else {
        outputs_text(outputs.drop_last()) + " "@ + output_text(outputs.last())
    }
}

/// What a line came to: its outcomes, or the parse failure after `error ... `.
pub open spec fn result_text(result: Result<Seq<Result<Output, Error>>, ParseError>) -> Seq<char> {
    match result {
        Ok(outputs) => outputs_text(outputs),
        Err(parse_err) => "error ... "@ + parse_err.message(),
    }
}

/// The response: who rolled what, and what they got, on two lines.
pub open spec fn response(
    name: Seq<char>,
    input: Seq<char>,
    result: Result<Seq<Result<Output, Error>>, ParseError>,
) -> Seq<char> {
    name + " rolled ... "@ + input + "\nThey got ... "@ + result_text(result) + "\n"@
}

/// What a line came to, with the view of its list of outcomes in place of the list.
pub open spec fn outcomes(result: Result<Vec<Result<Output, Error>>, ParseError>) -> Result<
    Seq<Result<Output, Error>>,
    ParseError,
> {
    match result {
        Ok(outputs) => Ok(outputs@),
        Err(parse_err) => Err(parse_err),
    }
}

/// The response to the line `input` of the user `name`, which came to `result`.
pub fn format_result(
    name: &str,
    input: &str,
    result: Result<Vec<Result<Output, Error>>, ParseError>,
) -> (msg: String)
    ensures
        msg@ == response(name@, input@, outcomes(result)),
{
    let mut msg = String::new();
    msg.append(name);
    msg.append(" rolled ... ");
    msg.append(input);
    msg.append("\nThey got ... ");
    match result {
        Ok(outputs) => format_parse_ok(&mut msg, outputs),
        Err(parse_err) => format_parse_err(&mut msg, &parse_err),
    }
    msg.append("\n");
    assert(msg@ =~= response(name@, input@, outcomes(result)));
    msg
}

/// Appends the outcomes, with one space between two of them.
pub fn format_parse_ok(msg: &mut String, outputs: Vec<Result<Output, Error>>)
    ensures
        final(msg)@ == old(msg)@ + outputs_text(outputs@),
{
    let mut i: usize = 0;
    while i < outputs.len()
        invariant
            i <= outputs@.len(),
            msg@ == old(msg)@ + outputs_text(outputs@.take(i as int)),
        decreases outputs@.len() - i,
    {
        let ghost before = msg@;
        if i > 0 {
            msg.append(" ");
        }
        format_output(msg, outputs[i]);
        proof {
            let done = outputs@.take(i as int);
            let next = outputs@.take(i + 1);
            assert(next.drop_last() =~= done);
            assert(next.last() == outputs@[i as int]);
            if i > 0 {
                assert(msg@ =~= old(msg)@ + (outputs_text(done) + " "@ + output_text(
                    outputs@[i as int],
                )));
            } else {
                assert(outputs_text(done) =~= Seq::<char>::empty());
                assert(next[0] == outputs@[0]);
                assert(msg@ =~= old(msg)@ + output_text(outputs@[0]));
            }
        }
        i = i + 1;
    }
    assert(outputs@.take(outputs@.len() as int) =~= outputs@);
}

/// Appends a parse failure.
pub fn format_parse_err(msg: &mut String, err: &ParseError)
    ensures
        final(msg)@ == old(msg)@ + ("error ... "@ + err.message()),
{
    msg.append("error ... ");
    let details = err.to_string();
    msg.append(details.as_str());
    assert(msg@ =~= old(msg)@ + ("error ... "@ + err.message()));
}

/// Appends one expression's outcome.
pub fn format_output(msg: &mut String, output_result: Result<Output, Error>)
    ensures
        final(msg)@ == old(msg)@ + output_text(output_result),
{
    match output_result {
        Ok(output) => format_output_ok(msg, output),
        Err(err) => format_output_err(msg, err),
    }
}

/// Appends a value.
pub fn format_output_ok(msg: &mut String, output: Output)
    ensures
        final(msg)@ == old(msg)@ + output.rendered(),
{
    let text = output.to_string();
    msg.append(text.as_str());
}

/// Appends an error in words.
pub fn format_output_err(msg: &mut String, err: Error)
    ensures
        final(msg)@ == old(msg)@ + err.message(),
{
    let text = err.to_string();
    msg.append(text.as_str());
}

} // verus!
