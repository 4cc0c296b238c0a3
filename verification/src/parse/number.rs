//! Integer literals: an optional `-`, then `0` alone or digits that start with
//! `1` to `9`. A literal outside the 64-bit signed range is no literal.

use vstd::prelude::*;
use crate::ast::Expr;
use crate::decimal::{decimal_bytes, digit_bytes, lemma_digit_bytes_are_digits};
use crate::ascii::{MINUS, NINE, ZERO};
use crate::parse::space::has_byte;

verus! {

/// Whether `byte` is one of `0` to `9`.
pub open spec fn is_digit(byte: u8) -> bool {
    ZERO <= byte <= NINE
}

/// The number of digits in a row that start at `at`.
pub open spec fn digit_run(input: Seq<u8>, at: nat) -> nat
    decreases input.len() - at,
{
    if at < input.len() && is_digit(input[at as int]) {
        1 + digit_run(input, at + 1)
    } else {
        0
    }
}

/// The number that the `count` digits from `at` on spell in base ten.
pub open spec fn digits_value(input: Seq<u8>, at: nat, count: nat) -> nat
    decreases count,
{
    if count == 0 {
        0
    } else {
        (digits_value(input, at, (count - 1) as nat) * 10 + (input[at + count - 1] - ZERO)) as nat
    }
}

/// The literal at `at`: its tree and its length in bytes.
pub open spec fn number_at(input: Seq<u8>, at: nat) -> Option<(Expr, nat)> {
    let sign: nat = if has_byte(input, at, MINUS) {
        1
    } else {
        0
    };
    let first = at + sign;
    if has_byte(input, first, ZERO) {
        Some((Expr::Integer(0), sign + 1))
    } else if first < input.len() && is_digit(input[first as int]) {
        let count = digit_run(input, first);
        let size = digits_value(input, first, count);
        let value = if sign == 1 {
            -size
        } else {
            size as int
        };
        if i64::MIN <= value <= i64::MAX {
            Some((Expr::Integer(value as i64), sign + count))
        } else {
            None
        }
    } else {
        None
    }
}

/// Whether what an executable parser returned at `at` is what the grammar says:
/// the same tree, ending `length` bytes after `at`.
pub open spec fn agrees(
    found: Option<(Expr, usize)>,
    at: usize,
    expected: Option<(Expr, nat)>,
) -> bool {
    match found {
        Some((tree, end)) => expected == Some((tree, (end - at) as nat)) && at <= end,
        None => expected is None,
    }
}

/// The literal at `at`: its tree and the position after it.
pub fn number(input: &[u8], at: usize) -> (found: Option<(Expr, usize)>)
    ensures
        agrees(found, at, number_at(input@, at as nat)),
        found matches Some((_, end)) ==> at < end <= input@.len(),
{
    integer(input, at)
}

fn digit(byte: u8) -> (yes: bool)
    ensures
        yes == is_digit(byte),
{
    ZERO <= byte && byte <= NINE
}

fn integer(input: &[u8], at: usize) -> (found: Option<(Expr, usize)>)
    ensures
        agrees(found, at, number_at(input@, at as nat)),
        found matches Some((_, end)) ==> at < end <= input@.len(),
{
    let negative = at < input.len() && input[at] == MINUS;
    let first: usize = if negative {
        at + 1
    } else {
        at
    };
    if first >= input.len() || !digit(input[first]) {
        return None;
    }
    if input[first] == ZERO {
        return Some((Expr::Integer(0), first + 1));
    }
    let mut end: usize = first;
    let mut size: u64 = 0;
    let mut fits = true;
    while end < input.len() && digit(input[end])
        invariant
            first <= end <= input@.len(),
            end - first + digit_run(input@, end as nat) == digit_run(input@, first as nat),
            fits ==> size == digits_value(input@, first as nat, (end - first) as nat),
            fits ==> size <= 0x8000_0000_0000_0000,
            !fits ==> digits_value(input@, first as nat, (end - first) as nat)
                > 0x8000_0000_0000_0000,
        decreases input.len() - end,
    {
        let value: u64 = (input[end] - ZERO) as u64;
        if fits {
            if size > (0x8000_0000_0000_0000u64 - value) / 10 {
                fits = false;
            } else {
                size = size * 10 + value;
            }
        }
        end = end + 1;
    }
    if !fits {
        None
    } else if negative {
        if size == 0x8000_0000_0000_0000 {
            Some((Expr::Integer(i64::MIN), end))
        } else {
            Some((Expr::Integer(-(size as i64)), end))
        }
    } else if size <= 0x7fff_ffff_ffff_ffff {
        Some((Expr::Integer(size as i64), end))
    } else {
        None
    }
}

/// Where digits alone stand from `at` up to `end`, and no digit stands at
/// `end`, the run of digits at `at` is those digits.
pub proof fn lemma_digit_run_up_to(input: Seq<u8>, at: nat, end: nat)
    requires
        at <= end <= input.len(),
        forall|i: int| at <= i < end ==> is_digit(#[trigger] input[i]),
        end < input.len() ==> !is_digit(input[end as int]),
    ensures
        digit_run(input, at) == end - at,
    decreases end - at,
{
    if at < end {
        lemma_digit_run_up_to(input, at + 1, end);
    }
}

/// The value of some digits depends on those digits alone.
pub proof fn lemma_digits_value_of_equal_bytes(
    first: Seq<u8>,
    from: nat,
    second: Seq<u8>,
    at: nat,
    count: nat,
)
    requires
        from + count <= first.len(),
        at + count <= second.len(),
        first.subrange(from as int, (from + count) as int) == second.subrange(
            at as int,
            (at + count) as int,
        ),
    ensures
        digits_value(first, from, count) == digits_value(second, at, count),
    decreases count,
{
    if count > 0 {
        let one = first.subrange(from as int, (from + count) as int);
        let other = second.subrange(at as int, (at + count) as int);
        assert(first[from + count - 1] == one[count - 1]);
        assert(second[at + count - 1] == other[count - 1]);
        assert(first.subrange(from as int, (from + count - 1) as int) =~= one.drop_last());
        assert(second.subrange(at as int, (at + count - 1) as int) =~= other.drop_last());
        lemma_digits_value_of_equal_bytes(first, from, second, at, (count - 1) as nat);
    }
}

/// The digits of `value` spell `value`.
pub proof fn lemma_digits_value_of_digit_bytes(value: nat)
    ensures
        digits_value(digit_bytes(value), 0, digit_bytes(value).len()) == value,
    decreases value,
{
    let digits = digit_bytes(value);
    if value < 10 {
        assert(digits_value(digits, 0, 0) == 0);
    } else {
        let shorter = digit_bytes(value / 10);
        lemma_digits_value_of_digit_bytes(value / 10);
        assert(shorter.subrange(0, shorter.len() as int) =~= digits.subrange(
            0,
            shorter.len() as int,
        ));
        lemma_digits_value_of_equal_bytes(shorter, 0, digits, 0, shorter.len());
    }
}

/// An integer of the 64-bit signed range, written in base ten at `at` and not
/// followed by a digit, is read as the literal of that integer.
pub proof fn lemma_number_of_decimal(input: Seq<u8>, at: nat, value: i64)
    requires
        at + decimal_bytes(value as int).len() <= input.len(),
        input.subrange(at as int, (at + decimal_bytes(value as int).len()) as int)
            == decimal_bytes(value as int),
        at + decimal_bytes(value as int).len() < input.len() ==> !is_digit(
            input[(at + decimal_bytes(value as int).len()) as int],
        ),
    ensures
        number_at(input, at) == Some((Expr::Integer(value), decimal_bytes(value as int).len())),
{
    let text = decimal_bytes(value as int);
    let size: nat = if value < 0 {
        (-value) as nat
    } else {
        value as nat
    };
    let sign: nat = if value < 0 {
        1
    } else {
        0
    };
    let digits = digit_bytes(size);
    let first = at + sign;
    let end = at + text.len();
    lemma_digit_bytes_are_digits(size);
    assert forall|i: int| 0 <= i < text.len() implies input[at + i] == #[trigger] text[i] by {
        assert(input.subrange(at as int, end as int)[i] == text[i]);
    }
    assert forall|i: int| 0 <= i < digits.len() implies input[first + i]
        == #[trigger] digits[i] by {
        assert(text[sign + i] == digits[i]);
    }
    assert forall|i: int| first <= i < end implies is_digit(#[trigger] input[i]) by {
        assert(input[i] == digits[i - first]);
    }
    assert(input[at as int] == text[0]);
    assert(input[first as int] == digits[0]);
    lemma_digit_run_up_to(input, first, end);
    lemma_digits_value_of_digit_bytes(size);
    assert(digits.subrange(0, digits.len() as int) =~= input.subrange(first as int, end as int));
    lemma_digits_value_of_equal_bytes(digits, 0, input, first, digits.len());
}

} // verus!
