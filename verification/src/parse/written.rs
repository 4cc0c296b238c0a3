//! Trees written out in dice notation, and the proof that what is written is
//! read back as the same tree.

use vstd::prelude::*;
use crate::ast::{Expr, ExprOp};
use crate::decimal::{decimal_bytes, lemma_decimal_starts};
use crate::ascii::{CARET, CLOSE, COMMA, LOWER_D, MINUS, OPEN, PLUS, SLASH, STAR};
use crate::parse::number::{is_digit, lemma_number_of_decimal, number_at};
use crate::parse::space::{blanks, has_byte, is_blank, separator};
use crate::parse::op::{additive, multiplicative, symbol};
use crate::parse::{
    add_sub_at, atom_at, brackets_at, dice_at, joined, more_at, mult_div_at, parsed, pow_at,
    power_at, product_at, roll_at, sum_at, ParseError,
};

verus! {

/// The level of the grammar at which a tree stands without brackets: 0 for a
/// sum, 1 for a product, 2 for a power, 3 for dice, 4 for a literal.
pub open spec fn level_of(tree: Expr) -> nat {
    match tree {
        Expr::Integer(_) => 4,
        Expr::Operator(op, _, _) => match op {
            ExprOp::Add | ExprOp::Sub => 0,
            ExprOp::Mult | ExprOp::Div => 1,
            ExprOp::Pow => 2,
            ExprOp::Roll => 3,
        },
    }
}

/// The byte that an operator is written with.
pub open spec fn symbol_of(op: ExprOp) -> u8 {
    match op {
        ExprOp::Add => PLUS,
        ExprOp::Sub => MINUS,
        ExprOp::Mult => STAR,
        ExprOp::Div => SLASH,
        ExprOp::Pow => CARET,
        ExprOp::Roll => LOWER_D,
    }
}

/// The tree written as an expression of the level `level` or a tighter one,
/// without blanks: in brackets where it stands at a looser level, else its
/// left operand one level tighter, its operator, and its right operand.
pub open spec fn written(tree: Expr, level: nat) -> Seq<u8>
    decreases tree, level,
{
    if level_of(tree) < level {
        seq![OPEN] + written(tree, 0) + seq![CLOSE]
    } else {
        match tree {
            Expr::Integer(value) => decimal_bytes(value as int),
            Expr::Operator(op, left, right) => written(*left, level_of(tree) + 1) + seq![
                symbol_of(op),
            ] + written(*right, level_of(tree)),
        }
    }
}

/// What the grammar reads at `at` as an expression of the level `level`.
pub open spec fn level_at(input: Seq<u8>, at: nat, level: nat) -> Option<(Expr, nat)> {
    if level == 0 {
        sum_at(input, at)
    } else if level == 1 {
        product_at(input, at)
    } else if level == 2 {
        power_at(input, at)
    } else if level == 3 {
        dice_at(input, at)
    } else {
        atom_at(input, at)
    }
}

/// Whether an expression of the level `level` that ends before `at` cannot go
/// on there: the input ends, or a closing bracket or a comma stands at `at`, or
/// the operator of a looser level.
pub open spec fn ends_at(input: Seq<u8>, at: nat, level: nat) -> bool {
    ||| at >= input.len()
    ||| input[at as int] == CLOSE
    ||| input[at as int] == COMMA
    ||| level >= 1 && (input[at as int] == PLUS || input[at as int] == MINUS)
    ||| level >= 2 && (input[at as int] == STAR || input[at as int] == SLASH)
    ||| level >= 3 && input[at as int] == CARET
    ||| level >= 4 && input[at as int] == LOWER_D
}

/// What is written starts with an opening bracket, a `-` or a digit.
pub proof fn lemma_written_starts(tree: Expr, level: nat)
    ensures
        written(tree, level).len() >= 1,
        written(tree, level)[0] == OPEN || written(tree, level)[0] == MINUS || is_digit(
            written(tree, level)[0],
        ),
    decreases tree, level,
{
    if level_of(tree) < level {
    } else {
        match tree {
            Expr::Integer(value) => {
                lemma_decimal_starts(value as int);
            },
            Expr::Operator(op, left, right) => {
                lemma_written_starts(*left, level_of(tree) + 1);
            },
        }
    }
}

/// An expression that is read at a tighter level, and cannot go on where it
/// ends, is read as the same at a looser level.
pub proof fn lemma_read_at_looser_level(
    input: Seq<u8>,
    at: nat,
    tree: Expr,
    length: nat,
    from: nat,
    to: nat,
)
    requires
        to <= from <= 4,
        level_at(input, at, from) == Some((tree, length)),
        ends_at(input, at + length, to),
    ensures
        level_at(input, at, to) == Some((tree, length)),
    decreases from - to,
{
    if to < from {
        let end = at + length;
        assert(blanks(input, end) == 0);
        let looser = (from - 1) as nat;
        if looser == 3 {
            assert(roll_at(input, at) is None);
        } else if looser == 2 {
            assert(pow_at(input, at) is None);
        } else if looser == 1 {
            assert(mult_div_at(input, at) is None);
        } else {
            assert(add_sub_at(input, at) is None);
        }
        assert(level_at(input, at, looser) == Some((tree, length)));
        lemma_read_at_looser_level(input, at, tree, length, looser, to);
    }
}

/// Whether `text` stands in the input at `at`.
pub open spec fn stands_at(input: Seq<u8>, at: nat, text: Seq<u8>) -> bool {
    at + text.len() <= input.len() && input.subrange(at as int, (at + text.len()) as int) == text
}

/// Where `whole` stands in the input at `at` and is made of `left`, the byte
/// `middle` and `right`, each of the three stands in the input at its place.
proof fn lemma_three_parts(
    input: Seq<u8>,
    at: nat,
    whole: Seq<u8>,
    left: Seq<u8>,
    middle: u8,
    right: Seq<u8>,
)
    requires
        stands_at(input, at, whole),
        whole == left + seq![middle] + right,
    ensures
        whole.len() == left.len() + 1 + right.len(),
        stands_at(input, at, left),
        has_byte(input, at + left.len(), middle),
        stands_at(input, at + left.len() + 1, right),
{
    let here = input.subrange(at as int, (at + whole.len()) as int);
    assert(input.subrange(at as int, (at + left.len()) as int) =~= here.subrange(
        0,
        left.len() as int,
    ));
    assert(here.subrange(0, left.len() as int) =~= left);
    assert(here[left.len() as int] == middle);
    assert(input.subrange((at + left.len() + 1) as int, (at + whole.len()) as int)
        =~= here.subrange((left.len() + 1) as int, whole.len() as int));
    assert(here.subrange((left.len() + 1) as int, whole.len() as int) =~= right);
}

/// Where a text stands, its first byte stands.
proof fn lemma_first_byte(input: Seq<u8>, at: nat, text: Seq<u8>)
    requires
        stands_at(input, at, text),
        text.len() >= 1,
    ensures
        input[at as int] == text[0],
{
    assert(input.subrange(at as int, (at + text.len()) as int)[0] == text[0]);
}

/// A tree in brackets is read as an atom, where the tree is read as a sum
/// after the opening bracket.
proof fn lemma_brackets_are_read(input: Seq<u8>, at: nat, tree: Expr)
    requires
        stands_at(input, at, seq![OPEN] + written(tree, 0) + seq![CLOSE]),
        sum_at(input, at + 1) == Some((tree, written(tree, 0).len())),
    ensures
        atom_at(input, at) == Some((tree, written(tree, 0).len() + 2)),
{
    let inner = written(tree, 0);
    let text = seq![OPEN] + inner + seq![CLOSE];
    let rest = inner + seq![CLOSE];
    assert(text =~= Seq::<u8>::empty() + seq![OPEN] + rest);
    lemma_three_parts(input, at, text, Seq::empty(), OPEN, rest);
    assert(rest =~= inner + seq![CLOSE] + Seq::<u8>::empty());
    lemma_three_parts(input, at + 1, rest, inner, CLOSE, Seq::empty());
    lemma_written_starts(tree, 0);
    lemma_first_byte(input, at + 1, inner);
    assert(blanks(input, at + 1) == 0);
    assert(blanks(input, at + 1 + inner.len()) == 0);
    assert(brackets_at(input, at) == Some((tree, inner.len() + 2)));
}

/// A literal is read as an atom.
proof fn lemma_literal_is_read(input: Seq<u8>, at: nat, value: i64)
    requires
        stands_at(input, at, decimal_bytes(value as int)),
        at + decimal_bytes(value as int).len() < input.len() ==> !is_digit(
            input[(at + decimal_bytes(value as int).len()) as int],
        ),
    ensures
        atom_at(input, at) == Some((Expr::Integer(value), decimal_bytes(value as int).len())),
{
    lemma_decimal_starts(value as int);
    lemma_first_byte(input, at, decimal_bytes(value as int));
    lemma_number_of_decimal(input, at, value);
    assert(brackets_at(input, at) is None);
}

/// A sum is read where its left operand is read as a product, its operator
/// follows, and its right operand is read as a sum right after that.
proof fn lemma_sum_is_read(
    input: Seq<u8>,
    at: nat,
    op: ExprOp,
    left: Expr,
    right: Expr,
    before: nat,
    after: nat,
)
    requires
        op is Add || op is Sub,
        has_byte(input, at + before, symbol_of(op)),
        at + before + 1 < input.len(),
        !is_blank(input[(at + before + 1) as int]),
        product_at(input, at) == Some((left, before)),
        sum_at(input, at + before + 1) == Some((right, after)),
    ensures
        sum_at(input, at) == Some((joined(op, left, right), before + 1 + after)),
{
    assert(blanks(input, at + before) == 0);
    assert(blanks(input, at + before + 1) == 0);
    assert(additive(input, at + before) == Some(op));
    assert(add_sub_at(input, at) == Some((joined(op, left, right), before + 1 + after)));
}

/// A product is read where its left operand is read as a power, its operator
/// follows, and its right operand is read as a product right after that.
proof fn lemma_product_is_read(
    input: Seq<u8>,
    at: nat,
    op: ExprOp,
    left: Expr,
    right: Expr,
    before: nat,
    after: nat,
)
    requires
        op is Mult || op is Div,
        has_byte(input, at + before, symbol_of(op)),
        at + before + 1 < input.len(),
        !is_blank(input[(at + before + 1) as int]),
        power_at(input, at) == Some((left, before)),
        product_at(input, at + before + 1) == Some((right, after)),
    ensures
        product_at(input, at) == Some((joined(op, left, right), before + 1 + after)),
{
    assert(blanks(input, at + before) == 0);
    assert(blanks(input, at + before + 1) == 0);
    assert(multiplicative(input, at + before) == Some(op));
    assert(mult_div_at(input, at) == Some((joined(op, left, right), before + 1 + after)));
}

/// A power is read where its left operand is read as dice, `^` follows, and
/// its right operand is read as a power right after that.
proof fn lemma_power_is_read(
    input: Seq<u8>,
    at: nat,
    left: Expr,
    right: Expr,
    before: nat,
    after: nat,
)
    requires
        has_byte(input, at + before, CARET),
        at + before + 1 < input.len(),
        !is_blank(input[(at + before + 1) as int]),
        dice_at(input, at) == Some((left, before)),
        power_at(input, at + before + 1) == Some((right, after)),
    ensures
        power_at(input, at) == Some((joined(ExprOp::Pow, left, right), before + 1 + after)),
{
    assert(blanks(input, at + before) == 0);
    assert(blanks(input, at + before + 1) == 0);
    assert(symbol(input, at + before, CARET, ExprOp::Pow) == Some(ExprOp::Pow));
    assert(pow_at(input, at) == Some((joined(ExprOp::Pow, left, right), before + 1 + after)));
}

/// Dice are read where their count is read as an atom, `d` follows, and their
/// sides are read as dice right after that.
proof fn lemma_dice_are_read(
    input: Seq<u8>,
    at: nat,
    left: Expr,
    right: Expr,
    before: nat,
    after: nat,
)
    requires
        has_byte(input, at + before, LOWER_D),
        at + before + 1 < input.len(),
        !is_blank(input[(at + before + 1) as int]),
        atom_at(input, at) == Some((left, before)),
        dice_at(input, at + before + 1) == Some((right, after)),
    ensures
        dice_at(input, at) == Some((joined(ExprOp::Roll, left, right), before + 1 + after)),
{
    assert(blanks(input, at + before + 1) == 0);
    assert(symbol(input, at + before, LOWER_D, ExprOp::Roll) == Some(ExprOp::Roll));
    assert(roll_at(input, at) == Some((joined(ExprOp::Roll, left, right), before + 1 + after)));
}

/// A tree that is written at `at` as an expression of some level, where that
/// expression cannot go on after it, is read there at that level as itself.
pub proof fn lemma_written_is_read(input: Seq<u8>, at: nat, tree: Expr, level: nat)
    requires
        level <= 4,
        stands_at(input, at, written(tree, level)),
        ends_at(input, at + written(tree, level).len(), level),
    ensures
        level_at(input, at, level) == Some((tree, written(tree, level).len())),
    decreases tree, level,
{
    let text = written(tree, level);
    let length = text.len();
    let own = level_of(tree);
    if own < level {
        let inner = written(tree, 0);
        let rest = inner + seq![CLOSE];
        assert(text =~= Seq::<u8>::empty() + seq![OPEN] + rest);
        lemma_three_parts(input, at, text, Seq::empty(), OPEN, rest);
        assert(rest =~= inner + seq![CLOSE] + Seq::<u8>::empty());
        lemma_three_parts(input, at + 1, rest, inner, CLOSE, Seq::empty());
        lemma_written_is_read(input, at + 1, tree, 0);
        lemma_brackets_are_read(input, at, tree);
        lemma_read_at_looser_level(input, at, tree, length, 4, level);
    } else {
        match tree {
            Expr::Integer(value) => {
                lemma_literal_is_read(input, at, value);
                lemma_read_at_looser_level(input, at, tree, length, 4, level);
            },
            Expr::Operator(op, left, right) => {
                let before = written(*left, own + 1);
                let after = written(*right, own);
                lemma_three_parts(input, at, text, before, symbol_of(op), after);
                let right_at = at + before.len() + 1;
                lemma_written_starts(*right, own);
                lemma_first_byte(input, right_at, after);
                lemma_written_is_read(input, at, *left, own + 1);
                lemma_written_is_read(input, right_at, *right, own);
                match op {
                    ExprOp::Add | ExprOp::Sub => {
                        lemma_sum_is_read(input, at, op, *left, *right, before.len(), after.len());
                    },
                    ExprOp::Mult | ExprOp::Div => {
                        lemma_product_is_read(
                            input,
                            at,
                            op,
                            *left,
                            *right,
                            before.len(),
                            after.len(),
                        );
                    },
                    ExprOp::Pow => {
                        lemma_power_is_read(input, at, *left, *right, before.len(), after.len());
                    },
                    ExprOp::Roll => {
                        lemma_dice_are_read(input, at, *left, *right, before.len(), after.len());
                    },
                }
                lemma_read_at_looser_level(input, at, tree, length, own, level);
            },
        }
    }
}

/// Every tree, written out, reads as that tree and nothing else.
pub proof fn written_tree_reads_back(tree: Expr)
    ensures
        parsed(written(tree, 0)) == Ok::<Seq<Expr>, ParseError>(seq![tree]),
{
    let input = written(tree, 0);
    lemma_written_starts(tree, 0);
    assert(input.subrange(0, input.len() as int) =~= input);
    lemma_written_is_read(input, 0, tree, 0);
    assert(blanks(input, 0) == 0);
    assert(blanks(input, input.len()) == 0);
    assert(separator(input, input.len()) is None);
    assert(more_at(input, input.len()) == (Seq::<Expr>::empty(), 0nat));
    assert(seq![tree] + Seq::<Expr>::empty() =~= seq![tree]);
}

/// Each of the trees written out after a comma, in their order.
pub open spec fn written_after_commas(trees: Seq<Expr>) -> Seq<u8>
    decreases trees.len(),
{
    if trees.len() == 0 {
        Seq::empty()
    } else {
        seq![COMMA] + written(trees[0], 0) + written_after_commas(trees.drop_first())
    }
}

/// The trees written out in their order, with a comma between two of them.
pub open spec fn written_list(trees: Seq<Expr>) -> Seq<u8> {
    if trees.len() == 0 {
        Seq::empty()
    } else {
        written(trees[0], 0) + written_after_commas(trees.drop_first())
    }
}

/// Where nothing stands, nothing is read.
proof fn lemma_nothing_at_the_end(input: Seq<u8>, at: nat)
    requires
        at >= input.len(),
    ensures
        sum_at(input, at) is None,
        more_at(input, at) == (Seq::<Expr>::empty(), 0nat),
{
    assert(blanks(input, at) == 0);
    assert(brackets_at(input, at) is None);
    assert(number_at(input, at) is None);
    assert(atom_at(input, at) is None);
    assert(roll_at(input, at) is None);
    assert(dice_at(input, at) is None);
    assert(pow_at(input, at) is None);
    assert(power_at(input, at) is None);
    assert(mult_div_at(input, at) is None);
    assert(product_at(input, at) is None);
    assert(add_sub_at(input, at) is None);
    assert(separator(input, at) is None);
}

/// Trees that are written after commas from `at` to the end of the input are
/// the expressions that are read after the expression which ended at `at`.
proof fn lemma_written_after_commas_is_read(input: Seq<u8>, at: nat, trees: Seq<Expr>)
    requires
        stands_at(input, at, written_after_commas(trees)),
        at + written_after_commas(trees).len() == input.len(),
    ensures
        more_at(input, at) == (trees, written_after_commas(trees).len()),
    decreases trees.len(),
{
    if trees.len() == 0 {
        lemma_nothing_at_the_end(input, at);
        assert(trees =~= Seq::<Expr>::empty());
    } else {
        let first = written(trees[0], 0);
        let others = trees.drop_first();
        let rest = written_after_commas(others);
        let text = written_after_commas(trees);
        assert(text =~= Seq::<u8>::empty() + seq![COMMA] + (first + rest));
        lemma_three_parts(input, at, text, Seq::empty(), COMMA, first + rest);
        if others.len() == 0 {
            assert(first + rest =~= first);
        } else {
            let tail = written(others[0], 0) + written_after_commas(others.drop_first());
            assert(first + rest =~= first + seq![COMMA] + tail);
            lemma_three_parts(input, at + 1, first + rest, first, COMMA, tail);
        }
        assert(input.subrange((at + 1) as int, (at + 1 + first.len()) as int) =~= (first
            + rest).subrange(0, first.len() as int)) by {
            assert(input.subrange((at + 1) as int, (at + 1 + first.len() + rest.len()) as int)
                == first + rest);
        }
        assert((first + rest).subrange(0, first.len() as int) =~= first);
        assert(input.subrange((at + 1 + first.len()) as int, input.len() as int) =~= rest) by {
            assert(input.subrange((at + 1) as int, (at + 1 + first.len() + rest.len()) as int)
                == first + rest);
            assert((first + rest).subrange(first.len() as int, (first.len() + rest.len()) as int)
                =~= rest);
        }
        lemma_written_starts(trees[0], 0);
        lemma_first_byte(input, at + 1, first);
        assert(blanks(input, at) == 0);
        assert(blanks(input, at + 1) == 0);
        assert(separator(input, at) == Some(1nat));
        lemma_written_is_read(input, at + 1, trees[0], 0);
        lemma_written_after_commas_is_read(input, at + 1 + first.len(), others);
        assert(seq![trees[0]] + others =~= trees);
    }
}

/// Every list of trees, written out with commas between them, reads as those
/// trees in their order.
pub proof fn written_list_reads_back(trees: Seq<Expr>)
    ensures
        parsed(written_list(trees)) == Ok::<Seq<Expr>, ParseError>(trees),
{
    let input = written_list(trees);
    if trees.len() == 0 {
        lemma_nothing_at_the_end(input, 0);
        assert(trees =~= Seq::<Expr>::empty());
    } else {
        let first = written(trees[0], 0);
        let others = trees.drop_first();
        let rest = written_after_commas(others);
        assert(input.subrange(0, first.len() as int) =~= first);
        assert(input.subrange(first.len() as int, input.len() as int) =~= rest);
        lemma_written_starts(trees[0], 0);
        assert(blanks(input, 0) == 0);
        lemma_written_is_read(input, 0, trees[0], 0);
        lemma_written_after_commas_is_read(input, first.len(), others);
        assert(blanks(input, input.len()) == 0);
        assert(seq![trees[0]] + others =~= trees);
    }
}

/// A roll written without its count reads as a roll of one die: it reads as
/// the same tree as the roll written with the count 1.
pub proof fn roll_without_count_reads_as_one_die(sides: Expr)
    ensures
        parsed(seq![LOWER_D] + written(sides, 3)) == Ok::<Seq<Expr>, ParseError>(
            seq![joined(ExprOp::Roll, Expr::Integer(1), sides)],
        ),
        parsed(seq![LOWER_D] + written(sides, 3)) == parsed(
            written(joined(ExprOp::Roll, Expr::Integer(1), sides), 0),
        ),
{
    let tree = joined(ExprOp::Roll, Expr::Integer(1), sides);
    let after = written(sides, 3);
    let input = seq![LOWER_D] + after;
    written_tree_reads_back(tree);
    lemma_written_starts(sides, 3);
    assert(input.subrange(1, input.len() as int) =~= after);
    lemma_first_byte(input, 1, after);
    lemma_written_is_read(input, 1, sides, 3);
    assert(blanks(input, 0) == 0);
    assert(blanks(input, 1) == 0);
    assert(brackets_at(input, 0) is None);
    assert(number_at(input, 0) is None);
    assert(atom_at(input, 0) is None);
    assert(symbol(input, 0, LOWER_D, ExprOp::Roll) == Some(ExprOp::Roll));
    assert(roll_at(input, 0) == Some((tree, input.len())));
    assert(dice_at(input, 0) == Some((tree, input.len())));
    lemma_read_at_looser_level(input, 0, tree, input.len(), 3, 0);
    lemma_nothing_at_the_end(input, input.len());
    assert(seq![tree] + Seq::<Expr>::empty() =~= seq![tree]);
}

} // verus!
