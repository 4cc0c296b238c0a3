//! The arithmetic of the operators. Results that leave the 64-bit range wrap
//! around in two's complement.

use vstd::prelude::*;
use vstd::arithmetic::div_mod::lemma_mul_mod_noop;
use vstd::arithmetic::power::{
    lemma_pow0, lemma_pow1, lemma_pow_adds, lemma_pow_mod_noop, lemma_pow_multiplies,
    lemma_square_is_pow2, pow,
};
use rand::rngs::StdRng;
use crate::eval::error::Error;
use crate::eval::source::{gen_range, sampled, state_of};

verus! {

/// The 64-bit signed integer that is congruent to `x` modulo 2^64.
pub open spec fn wrapped(x: int) -> int {
    let low = x % 0x1_0000_0000_0000_0000;
    if low > i64::MAX {
        low - 0x1_0000_0000_0000_0000
    } else {
        low
    }
}

/// `left / right` rounded toward zero, for a divisor other than zero.
pub open spec fn truncated_quotient(left: int, right: int) -> int {
    let size = (if left < 0 { -left } else { left }) / (if right < 0 { -right } else { right });
    if (left < 0) == (right < 0) {
        size
    } else {
        -size
    }
}

/// What `divide` returns.
pub open spec fn divided(left: i64, right: i64) -> Result<i64, Error> {
    if right == 0 {
        Err(Error::DivideByZero)
    } else {
        Ok(wrapped(truncated_quotient(left as int, right as int)) as i64)
    }
}

/// What `power` returns.
pub open spec fn raised(left: i64, right: i64) -> Result<i64, Error> {
    if right < 0 {
        Err(Error::NegativePowerNotImplemented)
    } else {
        Ok(wrapped(pow(left as int, right as nat)) as i64)
    }
}

/// The bounds `(low, high)` of the sample that is drawn for one die of
/// `num_sides` sides, which is not zero: a sample from `[low, high)`. It is
/// `[0, n)` for `n > 0` sides and `[0, -n)` for `n < 0` sides, or `[n, 0)` where
/// `-n` does not exist.
pub open spec fn sample_bounds(num_sides: i64) -> (i64, i64) {
    if num_sides == i64::MIN {
        (i64::MIN, 0)
    } else if num_sides < 0 {
        (0, (-num_sides) as i64)
    } else {
        (0, num_sides)
    }
}

/// The face that a die of `num_sides` sides shows for the sample drawn for it:
/// the sample plus one for `n > 0` sides, so one of `1` to `n`; the negated
/// sample minus one for `n < 0` sides, so one of `n` to `-1`.
pub open spec fn face_of(num_sides: i64, sample: i64) -> int {
    if num_sides == i64::MIN {
        sample as int
    } else if num_sides < 0 {
        -sample - 1
    } else {
        sample + 1
    }
}

/// One die of `num_sides` sides thrown on a generator in the state `state`:
/// the face, and the state afterwards. A die of no sides shows 0 and draws no
/// sample.
pub open spec fn die(state: Seq<u8>, num_sides: i64) -> (i64, Seq<u8>) {
    if num_sides == 0 {
        (0, state)
    } else {
        let (low, high) = sample_bounds(num_sides);
        let (sample, next) = sampled(state, low, high);
        (face_of(num_sides, sample) as i64, next)
    }
}

/// `num_die` dice thrown one after the other and added, wrapped, to `total`:
/// the sum, and the state of the generator afterwards.
pub open spec fn rolled(state: Seq<u8>, num_die: int, num_sides: i64, total: i64) -> (
    i64,
    Seq<u8>,
)
    decreases num_die,
{
    if num_die <= 0 {
        (total, state)
    } else {
        let (face, next) = die(state, num_sides);
        rolled(next, num_die - 1, num_sides, wrapped(total + face) as i64)
    }
}

/// The least sum that `num_die` dice of `num_sides` sides can show.
pub open spec fn least_total(num_die: int, num_sides: int) -> int {
    if num_die <= 0 || num_sides == 0 {
        0
    } else if num_sides > 0 {
        num_die
    } else {
        num_die * num_sides
    }
}

/// The greatest sum that `num_die` dice of `num_sides` sides can show.
pub open spec fn greatest_total(num_die: int, num_sides: int) -> int {
    if num_die <= 0 || num_sides == 0 {
        0
    } else if num_sides > 0 {
        num_die * num_sides
    } else {
        -num_die
    }
}

/// Whether `total` can be the sum of `num_die` dice of `num_sides` sides. Where
/// the extreme sums lie outside the 64-bit range the sum may have wrapped, and
/// nothing is said.
pub open spec fn within_dice_bounds(num_die: int, num_sides: int, total: int) -> bool {
    i64::MIN <= least_total(num_die, num_sides) && greatest_total(num_die, num_sides) <= i64::MAX
        ==> least_total(num_die, num_sides) <= total <= greatest_total(num_die, num_sides)
}

/// Wrapping keeps the value within the 64-bit range and in its residue class.
proof fn lemma_wrapped_congruent(x: int)
    ensures
        i64::MIN <= wrapped(x) <= i64::MAX,
        wrapped(x) % 0x1_0000_0000_0000_0000 == x % 0x1_0000_0000_0000_0000,
{
}

proof fn lemma_mul_congruent(a: int, c: int, b: int, d: int)
    requires
        a % 0x1_0000_0000_0000_0000 == c % 0x1_0000_0000_0000_0000,
        b % 0x1_0000_0000_0000_0000 == d % 0x1_0000_0000_0000_0000,
    ensures
        (a * b) % 0x1_0000_0000_0000_0000 == (c * d) % 0x1_0000_0000_0000_0000,
{
    lemma_mul_mod_noop(a, b, 0x1_0000_0000_0000_0000);
    lemma_mul_mod_noop(c, d, 0x1_0000_0000_0000_0000);
}

proof fn lemma_pow_congruent(a: int, c: int, e: nat)
    requires
        a % 0x1_0000_0000_0000_0000 == c % 0x1_0000_0000_0000_0000,
    ensures
        pow(a, e) % 0x1_0000_0000_0000_0000 == pow(c, e) % 0x1_0000_0000_0000_0000,
{
    lemma_pow_mod_noop(a, e, 0x1_0000_0000_0000_0000);
    lemma_pow_mod_noop(c, e, 0x1_0000_0000_0000_0000);
}

/// `b^e` is `b^(e mod 2)` times `(b*b)^(e div 2)`.
proof fn lemma_pow_halves(b: int, e: nat)
    ensures
        pow(b, e) == if e % 2 == 1 {
            b * pow(b * b, e / 2)
        } else {
            pow(b * b, e / 2)
        },
{
    let half = e / 2;
    lemma_square_is_pow2(b);
    lemma_pow_multiplies(b, 2, half);
    assert(pow(b * b, half) == pow(b, 2 * half));
    if e % 2 == 1 {
        assert(e == 1 + 2 * half);
        lemma_pow_adds(b, 1, 2 * half);
        lemma_pow1(b);
    } else {
        assert(e == 2 * half);
    }
}

/// `left + right`, wrapped.
pub fn add(left: i64, right: i64) -> (sum: Result<i64, Error>)
    ensures
        sum == Ok::<i64, Error>(wrapped(left + right) as i64),
{
    Ok(left.wrapping_add(right))
}

/// `left - right`, wrapped.
pub fn sub(left: i64, right: i64) -> (difference: Result<i64, Error>)
    ensures
        difference == Ok::<i64, Error>(wrapped(left - right) as i64),
{
    Ok(left.wrapping_sub(right))
}

/// `left * right`, wrapped.
pub fn mult(left: i64, right: i64) -> (product: Result<i64, Error>)
    ensures
        product == Ok::<i64, Error>(wrapped(left * right) as i64),
{
    Ok(left.wrapping_mul(right))
}

/// `left / right` rounded toward zero, wrapped; an error when `right` is zero.
pub fn divide(left: i64, right: i64) -> (quotient: Result<i64, Error>)
    ensures
        quotient == divided(left, right),
{
    if right == 0 {
        return Err(Error::DivideByZero);
    }
    match left.checked_div(right) {
        Some(q) => Ok(q),
        None => Ok(i64::MIN),
    }
}

/// `left` raised to `right`, wrapped; an error when `right` is negative.
pub fn power(left: i64, right: i64) -> (result: Result<i64, Error>)
    ensures
        result == raised(left, right),
{
    if right < 0 {
        return Err(Error::NegativePowerNotImplemented);
    }
    let ghost goal = pow(left as int, right as nat);
    let mut result: i64 = 1;
    let mut base: i64 = left;
    let mut left_over: u64 = right as u64;
    proof {
        lemma_pow0(base as int);
        assert(result * pow(base as int, left_over as nat) == goal) by (nonlinear_arith)
            requires
                result == 1,
                pow(base as int, left_over as nat) == goal,
        ;
    }
    while left_over > 0
        invariant
            (result * pow(base as int, left_over as nat)) % 0x1_0000_0000_0000_0000 == goal
                % 0x1_0000_0000_0000_0000,
        decreases left_over,
    {
        let ghost before = result as int;
        let ghost b = base as int;
        let ghost e = left_over as nat;
        if left_over % 2 == 1 {
            result = result.wrapping_mul(base);
        }
        left_over = left_over / 2;
        base = base.wrapping_mul(base);
        proof {
            let rest = pow(b * b, e / 2);
            lemma_pow_halves(b, e);
            lemma_wrapped_congruent(b * b);
            lemma_pow_congruent(base as int, b * b, e / 2);
            if e % 2 == 1 {
                lemma_wrapped_congruent(before * b);
                lemma_mul_congruent(result as int, before * b, pow(base as int, e / 2), rest);
                assert(before * (b * rest) == (before * b) * rest) by (nonlinear_arith);
            } else {
                lemma_mul_congruent(result as int, before, pow(base as int, e / 2), rest);
            }
        }
    }
    proof {
        lemma_pow0(base as int);
        assert(result * pow(base as int, 0) == result as int) by (nonlinear_arith)
            requires
                pow(base as int, 0) == 1,
        ;
    }
    Ok(result)
}

/// The face that a die of `num_sides` sides shows for `sample`, which was
/// drawn within the bounds for that die.
pub fn face(num_sides: i64, sample: i64) -> (shown: i64)
    requires
        num_sides != 0,
        sample_bounds(num_sides).0 <= sample < sample_bounds(num_sides).1,
    ensures
        shown == face_of(num_sides, sample),
        least_total(1, num_sides as int) <= shown <= greatest_total(1, num_sides as int),
{
    if num_sides == i64::MIN {
        sample
    } else if num_sides < 0 {
        -sample - 1
    } else {
        sample + 1
    }
}

/// Throws one die of `num_sides` sides.
pub fn roll_one(rng: &mut StdRng, num_sides: i64) -> (shown: i64)
    ensures
        (shown, state_of(*final(rng))) == die(state_of(*old(rng)), num_sides),
        least_total(1, num_sides as int) <= shown <= greatest_total(1, num_sides as int),
{
    if num_sides == 0 {
        0
    } else if num_sides == i64::MIN {
        face(num_sides, gen_range(rng, i64::MIN, 0))
    } else if num_sides < 0 {
        face(num_sides, gen_range(rng, 0, -num_sides))
    } else {
        face(num_sides, gen_range(rng, 0, num_sides))
    }
}

/// Throws `num_die` dice of `num_sides` sides, first to last, and adds them up;
/// no die is thrown where `num_die` is zero or less.
pub fn roll(rng: &mut StdRng, num_die: i64, num_sides: i64) -> (sum: Result<i64, Error>)
    ensures
        sum is Ok,
        (sum->Ok_0, state_of(*final(rng))) == rolled(
            state_of(*old(rng)),
            num_die as int,
            num_sides,
            0,
        ),
        within_dice_bounds(num_die as int, num_sides as int, sum->Ok_0 as int),
{
    let mut total: i64 = 0;
    let mut thrown: i64 = 0;
    let ghost least = least_total(1, num_sides as int);
    let ghost greatest = greatest_total(1, num_sides as int);
    while thrown < num_die
        invariant
            0 <= thrown,
            thrown <= num_die || num_die < 0,
            rolled(state_of(*rng), num_die - thrown, num_sides, total) == rolled(
                state_of(*old(rng)),
                num_die as int,
                num_sides,
                0,
            ),
            least == least_total(1, num_sides as int),
            greatest == greatest_total(1, num_sides as int),
            i64::MIN <= thrown * least && thrown * greatest <= i64::MAX ==> thrown * least <= total
                <= thrown * greatest,
        decreases num_die - thrown,
    {
        let shown = roll_one(rng, num_sides);
        proof {
            lemma_bounds_step(thrown as int, least, greatest, total as int, shown as int);
        }
        total = total.wrapping_add(shown);
        thrown = thrown + 1;
    }
    proof {
        lemma_bounds_scale(num_die as int, num_sides as int);
    }
    Ok(total)
}

/// One more die keeps a sum between the extremes, as long as these stay in range.
proof fn lemma_bounds_step(thrown: int, least: int, greatest: int, total: int, face: int)
    requires
        0 <= thrown,
        least <= face <= greatest,
        least <= 0 || greatest >= 0,
        i64::MIN <= least,
        greatest <= i64::MAX,
        i64::MIN <= total <= i64::MAX,
        i64::MIN <= thrown * least && thrown * greatest <= i64::MAX ==> thrown * least <= total
            <= thrown * greatest,
    ensures
        i64::MIN <= (thrown + 1) * least && (thrown + 1) * greatest <= i64::MAX ==> (thrown + 1)
            * least <= wrapped(total + face) <= (thrown + 1) * greatest,
{
    assert((thrown + 1) * least == thrown * least + least) by (nonlinear_arith);
    assert((thrown + 1) * greatest == thrown * greatest + greatest) by (nonlinear_arith);
    if i64::MIN <= (thrown + 1) * least && (thrown + 1) * greatest <= i64::MAX {
        assert(thrown * least <= thrown * greatest) by (nonlinear_arith)
            requires
                0 <= thrown,
                least <= greatest,
        ;
        if least >= 0 {
            assert(thrown * least >= 0) by (nonlinear_arith)
                requires
                    0 <= thrown,
                    least >= 0,
            ;
            assert(thrown * greatest >= 0) by (nonlinear_arith)
                requires
                    0 <= thrown,
                    greatest >= 0,
            ;
        } else if greatest <= 0 {
            assert(thrown * least <= 0) by (nonlinear_arith)
                requires
                    0 <= thrown,
                    least <= 0,
            ;
            assert(thrown * greatest <= 0) by (nonlinear_arith)
                requires
                    0 <= thrown,
                    greatest <= 0,
            ;
        }
    }
}

/// The extremes of one die, taken `num_die` times, are the extremes of the roll.
proof fn lemma_bounds_scale(num_die: int, num_sides: int)
    ensures
        num_die > 0 ==> least_total(num_die, num_sides) == num_die * least_total(1, num_sides),
        num_die > 0 ==> greatest_total(num_die, num_sides) == num_die * greatest_total(
            1,
            num_sides,
        ),
{
    if num_die > 0 {
        assert(num_die * 0 == 0);
        assert(num_die * 1 == num_die);
        assert(num_die * (1 * num_sides) == num_die * num_sides) by (nonlinear_arith);
        assert(num_die * (-1) == -num_die);
    }
}

} // verus!
