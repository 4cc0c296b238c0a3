//! Blanks, and what separates one expression from the next.

use vstd::prelude::*;
use crate::ascii::{CARRIAGE_RETURN, COMMA, LINE_FEED, SPACE, TAB};

verus! {

/// Whether `byte` is a space, a tab, a carriage return or a line feed.
pub open spec fn is_blank(byte: u8) -> bool {
    byte == SPACE || byte == TAB || byte == CARRIAGE_RETURN || byte == LINE_FEED
}

/// Whether the byte at `at` exists and is `byte`.
pub open spec fn has_byte(input: Seq<u8>, at: nat, byte: u8) -> bool {
    at < input.len() && input[at as int] == byte
}

/// The number of blanks in a row that start at `at`.
pub open spec fn blanks(input: Seq<u8>, at: nat) -> nat
    decreases input.len() - at,
{
    if at < input.len() && is_blank(input[at as int]) {
        1 + blanks(input, at + 1)
    } else {
        0
    }
}

/// The number of bytes that separate two expressions at `at`: blanks, a comma
/// and blanks, or else one blank or more.
pub open spec fn separator(input: Seq<u8>, at: nat) -> Option<nat> {
    let before = blanks(input, at);
    if has_byte(input, at + before, COMMA) {
        Some(before + 1 + blanks(input, at + before + 1))
    } else if before >= 1 {
        Some(before)
    } else {
        None
    }
}

fn blank(byte: u8) -> (yes: bool)
    ensures
        yes == is_blank(byte),
{
    byte == SPACE || byte == TAB || byte == CARRIAGE_RETURN || byte == LINE_FEED
}

/// Skips the blanks at `at`: the position after them.
pub fn optional(input: &[u8], at: usize) -> (end: usize)
    ensures
        end == at + blanks(input@, at as nat),
        at <= input@.len() ==> end <= input@.len(),
{
    let mut end = at;
    while end < input.len() && blank(input[end])
        invariant
            at <= end,
            at <= input@.len() ==> end <= input@.len(),
            end + blanks(input@, end as nat) == at + blanks(input@, at as nat),
        decreases input.len() - end,
    {
        end = end + 1;
    }
    end
}

/// Skips one blank or more at `at`: the position after them, or `None` where
/// no blank stands at `at`.
pub fn required(input: &[u8], at: usize) -> (end: Option<usize>)
    ensures
        match end {
            Some(after) => blanks(input@, at as nat) >= 1 && after == at + blanks(
                input@,
                at as nat,
            ),
            None => blanks(input@, at as nat) == 0,
        },
{
    let end = optional(input, at);
    if end > at {
        Some(end)
    } else {
        None
    }
}

/// Skips what separates two expressions at `at`: the position after it, or
/// `None` where neither a comma nor a blank is found.
pub fn comma(input: &[u8], at: usize) -> (end: Option<usize>)
    ensures
        match end {
            Some(after) => separator(input@, at as nat) == Some((after - at) as nat) && at < after
                <= input@.len(),
            None => separator(input@, at as nat) is None,
        },
{
    let before = optional(input, at);
    if before < input.len() && input[before] == COMMA {
        Some(optional(input, before + 1))
    } else if before > at {
        Some(before)
    } else {
        None
    }
}

} // verus!
