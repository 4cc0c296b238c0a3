use dice_roll::ast::{Expr, ExprOp};
use dice_roll::eval::maths::{face, roll, roll_one};
use dice_roll::eval::{Error, Eval, Output};
use dice_roll::parse::parse;
use rand::rngs::StdRng;
use rand::SeedableRng;

fn op(op: ExprOp, left: Expr, right: Expr) -> Expr {
    Expr::Operator(op, Box::new(left), Box::new(right))
}

fn values(input: &str, seed: u64) -> Vec<Result<Output, Error>> {
    let mut eval = Eval::new_with_seed(seed);
    let mut results = Vec::new();
    for ast in parse(input).unwrap() {
        results.push(eval.eval(ast));
    }
    results
}

#[test]
fn a_literal_is_its_value() {
    let mut eval = Eval::new_with_seed(1);
    assert_eq!(eval.eval(Expr::Integer(42)), Ok(Output::Integer(42)));
    assert_eq!(eval.eval(Expr::Integer(i64::MIN)), Ok(Output::Integer(i64::MIN)));
}

#[test]
fn subtraction_groups_to_the_right() {
    assert_eq!(values("1-2-3", 0), vec![Ok(Output::Integer(2))]);
}

#[test]
fn multiplication_binds_tighter_than_addition() {
    assert_eq!(values("1+2*3", 0), vec![Ok(Output::Integer(7))]);
    assert_eq!(values("1*2+3", 0), vec![Ok(Output::Integer(5))]);
}

#[test]
fn powers_group_to_the_right() {
    assert_eq!(values("2^2^3", 0), vec![Ok(Output::Integer(256))]);
}

#[test]
fn brackets_come_first() {
    assert_eq!(values("(1 + 2) * 3 * (4 + 5)", 0), vec![Ok(Output::Integer(81))]);
    assert_eq!(values("(1-2)-3", 0), vec![Ok(Output::Integer(-4))]);
}

#[test]
fn division_by_zero_is_reported() {
    let mut eval = Eval::new_with_seed(0);
    let tree = op(ExprOp::Div, Expr::Integer(5), Expr::Integer(0));
    assert_eq!(eval.eval(tree), Err(Error::DivideByZero));
}

#[test]
fn negative_exponent_is_reported() {
    let mut eval = Eval::new_with_seed(0);
    let tree = op(ExprOp::Pow, Expr::Integer(2), Expr::Integer(-1));
    assert_eq!(eval.eval(tree), Err(Error::NegativePowerNotImplemented));
}

#[test]
fn the_first_error_wins() {
    let mut eval = Eval::new_with_seed(0);
    let left = op(ExprOp::Pow, Expr::Integer(2), Expr::Integer(-1));
    let right = op(ExprOp::Div, Expr::Integer(5), Expr::Integer(0));
    assert_eq!(
        eval.eval(op(ExprOp::Add, left.clone(), right.clone())),
        Err(Error::NegativePowerNotImplemented)
    );
    assert_eq!(eval.eval(op(ExprOp::Add, right, left)), Err(Error::DivideByZero));
}

#[test]
fn an_error_in_one_expression_leaves_the_others() {
    assert_eq!(
        values("1/0 2+2 2^(0-1)", 0),
        vec![
            Err(Error::DivideByZero),
            Ok(Output::Integer(4)),
            Err(Error::NegativePowerNotImplemented),
        ]
    );
}

#[test]
fn two_expressions_in_their_order() {
    assert_eq!(values("1+1 2+2", 0), vec![Ok(Output::Integer(2)), Ok(Output::Integer(4))]);
}

#[test]
fn same_seed_same_results() {
    let trees = parse("3d6 d20 2d(0-8) 100d100 d6d6 1d6+d4*2").unwrap();
    for seed in [0u64, 1, 42, u64::MAX] {
        let mut first = Eval::new_with_seed(seed);
        let mut second = Eval::new_with_seed(seed);
        for _ in 0..20 {
            for tree in &trees {
                assert_eq!(first.eval(tree.clone()), second.eval(tree.clone()));
            }
        }
    }
}

#[test]
fn different_seeds_give_different_dice() {
    let tree = op(ExprOp::Roll, Expr::Integer(1), Expr::Integer(1_000_000_000));
    let mut first = Eval::new_with_seed(1);
    let mut second = Eval::new_with_seed(2);
    let mut differ = false;
    for _ in 0..50 {
        if first.eval(tree.clone()) != second.eval(tree.clone()) {
            differ = true;
        }
    }
    assert!(differ);
}

#[test]
fn fresh_evaluators_give_different_dice() {
    let tree = op(ExprOp::Roll, Expr::Integer(1), Expr::Integer(i64::MAX));
    let mut first = Eval::new();
    let mut second = Eval::new();
    let mut differ = false;
    for _ in 0..50 {
        if first.eval(tree.clone()) != second.eval(tree.clone()) {
            differ = true;
        }
    }
    assert!(differ);
}

#[test]
fn a_thousand_dice_of_six_sides_stay_in_their_bounds() {
    let tree = op(ExprOp::Roll, Expr::Integer(1000), Expr::Integer(6));
    let mut eval = Eval::new_with_seed(7);
    for _ in 0..200 {
        match eval.eval(tree.clone()) {
            Ok(Output::Integer(total)) => assert!(1000 <= total && total <= 6000),
            Err(error) => panic!("{:?}", error),
        }
    }
}

#[test]
fn dice_of_no_sides_show_zero() {
    let mut eval = Eval::new_with_seed(7);
    for count in [1i64, 2, 1000] {
        let tree = op(ExprOp::Roll, Expr::Integer(count), Expr::Integer(0));
        assert_eq!(eval.eval(tree), Ok(Output::Integer(0)));
    }
}

#[test]
fn no_dice_show_zero() {
    let mut eval = Eval::new_with_seed(7);
    for count in [0i64, -1, -1000, i64::MIN] {
        for sides in [6i64, 0, -6, i64::MIN, i64::MAX] {
            let tree = op(ExprOp::Roll, Expr::Integer(count), Expr::Integer(sides));
            assert_eq!(eval.eval(tree), Ok(Output::Integer(0)));
        }
    }
}

#[test]
fn no_dice_leave_the_source_alone() {
    let die = op(ExprOp::Roll, Expr::Integer(1), Expr::Integer(1_000_000));
    let none = op(ExprOp::Roll, Expr::Integer(0), Expr::Integer(1_000_000));
    let no_sides = op(ExprOp::Roll, Expr::Integer(5), Expr::Integer(0));
    let sum = op(ExprOp::Add, Expr::Integer(1), Expr::Integer(2));
    let mut first = Eval::new_with_seed(9);
    let mut second = Eval::new_with_seed(9);
    for _ in 0..20 {
        first.eval(none.clone()).unwrap();
        first.eval(no_sides.clone()).unwrap();
        first.eval(sum.clone()).unwrap();
        assert_eq!(first.eval(die.clone()), second.eval(die.clone()));
    }
}

#[test]
fn every_face_of_a_die_turns_up() {
    let mut rng = StdRng::seed_from_u64(3);
    let mut seen = [false; 6];
    for _ in 0..1000 {
        let face = roll_one(&mut rng, 6);
        assert!(1 <= face && face <= 6);
        seen[(face - 1) as usize] = true;
    }
    assert_eq!(seen, [true; 6]);
}

#[test]
fn every_face_of_a_negative_die_turns_up() {
    let mut rng = StdRng::seed_from_u64(3);
    let mut seen = [false; 6];
    for _ in 0..1000 {
        let face = roll_one(&mut rng, -6);
        assert!(-6 <= face && face <= -1);
        seen[(-face - 1) as usize] = true;
    }
    assert_eq!(seen, [true; 6]);
}

#[test]
fn a_die_of_one_side_shows_one() {
    let mut rng = StdRng::seed_from_u64(3);
    assert_eq!(roll_one(&mut rng, 1), 1);
    assert_eq!(roll_one(&mut rng, -1), -1);
    assert_eq!(roll_one(&mut rng, 0), 0);
}

#[test]
fn the_widest_dice_stay_in_range() {
    let mut rng = StdRng::seed_from_u64(11);
    for _ in 0..100 {
        assert!(roll_one(&mut rng, i64::MAX) >= 1);
        assert!(roll_one(&mut rng, i64::MIN) <= -1);
        assert!(roll_one(&mut rng, i64::MIN + 1) <= -1);
    }
}

#[test]
fn roll_adds_the_dice_up() {
    let mut rng = StdRng::seed_from_u64(5);
    let mut again = StdRng::seed_from_u64(5);
    for _ in 0..50 {
        let total = roll(&mut rng, 3, 6).unwrap();
        let faces = roll_one(&mut again, 6) + roll_one(&mut again, 6) + roll_one(&mut again, 6);
        assert_eq!(total, faces);
        assert!(3 <= total && total <= 18);
    }
}

#[test]
fn negative_dice_stay_in_their_bounds() {
    let mut rng = StdRng::seed_from_u64(5);
    for _ in 0..200 {
        let total = roll(&mut rng, 10, -6).unwrap();
        assert!(-60 <= total && total <= -10);
    }
}

#[test]
fn a_roll_inside_an_expression() {
    for seed in 0..50u64 {
        match values("2d6+3", seed)[0] {
            Ok(Output::Integer(total)) => assert!(5 <= total && total <= 15),
            Err(error) => panic!("{:?}", error),
        }
        match values("d6d6", seed)[0] {
            Ok(Output::Integer(total)) => assert!(1 <= total && total <= 36),
            Err(error) => panic!("{:?}", error),
        }
    }
}

#[test]
fn the_face_for_a_sample() {
    assert_eq!(face(6, 0), 1);
    assert_eq!(face(6, 5), 6);
    assert_eq!(face(1, 0), 1);
    assert_eq!(face(-6, 0), -1);
    assert_eq!(face(-6, 5), -6);
    assert_eq!(face(-1, 0), -1);
    assert_eq!(face(i64::MAX, i64::MAX - 1), i64::MAX);
    assert_eq!(face(i64::MIN + 1, i64::MAX - 1), i64::MIN + 1);
    assert_eq!(face(i64::MIN, i64::MIN), i64::MIN);
    assert_eq!(face(i64::MIN, -1), -1);
}

#[test]
fn a_power_takes_its_whole_exponent() {
    assert_eq!(values("0^4294967296", 0), vec![Ok(Output::Integer(0))]);
    assert_eq!(values("(0-1)^4294967297", 0), vec![Ok(Output::Integer(-1))]);
    assert_eq!(values("2^64", 0), vec![Ok(Output::Integer(0))]);
    assert_eq!(values("1^9223372036854775807", 0), vec![Ok(Output::Integer(1))]);
}
